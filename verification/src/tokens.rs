//! A set of version tokens, kept as a list in ascending order.

use crate::text::{
    at_most, lemma_at_most_transitive, lemma_precedes_asymmetric, lemma_precedes_irreflexive,
    lemma_precedes_total, lemma_precedes_transitive, precedes, rank, Rank,
};
use vstd::prelude::*;

verus! {

/// Each string of the list comes before all that follow it.
pub open spec fn ascending(s: Seq<Seq<char>>) -> bool {
    forall|i: int, j: int| 0 <= i < j < s.len() ==> precedes(#[trigger] s[i], #[trigger] s[j])
}

/// Every string of the list comes before `t`.
pub open spec fn all_before(s: Seq<Seq<char>>, t: Seq<char>) -> bool {
    forall|k: int| 0 <= k < s.len() ==> precedes(#[trigger] s[k], t)
}

/// `top` belongs to the set and no member of the set comes after it.
pub open spec fn is_greatest(set: Set<Seq<char>>, top: Seq<char>) -> bool {
    set.contains(top) && forall|t: Seq<char>| set.contains(t) ==> at_most(t, top)
}

/// A set has at most one greatest member.
pub proof fn lemma_greatest_is_unique(set: Set<Seq<char>>, x: Seq<char>, y: Seq<char>)
    requires
        is_greatest(set, x),
        is_greatest(set, y),
    ensures
        x == y,
{
    if x != y {
        lemma_precedes_asymmetric(x, y);
    }
}

/// The greatest member of a set; meaningful where the set has one.
pub open spec fn greatest_of(set: Set<Seq<char>>) -> Seq<char> {
    choose|top: Seq<char>| is_greatest(set, top)
}

/// A finite set that is not empty has a greatest member.
pub proof fn lemma_finite_set_has_greatest(set: Set<Seq<char>>)
    requires
        set.finite(),
        set.len() > 0,
    ensures
        is_greatest(set, greatest_of(set)),
    decreases set.len(),
{
    let x = set.choose();
    let rest = set.remove(x);
    if rest.len() == 0 {
        assert forall|t: Seq<char>| set.contains(t) implies at_most(t, x) by {
            if t != x {
                assert(rest.contains(t));
            }
        }
        assert(is_greatest(set, x));
    } else {
        lemma_finite_set_has_greatest(rest);
        let y = greatest_of(rest);
        lemma_precedes_total(x, y);
        if precedes(x, y) {
            assert forall|t: Seq<char>| set.contains(t) implies at_most(t, y) by {
                if t != x {
                    assert(rest.contains(t));
                }
            }
            assert(is_greatest(set, y));
        } else {
            assert forall|t: Seq<char>| set.contains(t) implies at_most(t, x) by {
                if t != x {
                    assert(rest.contains(t));
                    assert(at_most(t, y));
                    lemma_at_most_transitive(t, y, x);
                }
            }
            assert(is_greatest(set, x));
        }
    }
}

/// An ascending list holds no string twice.
pub proof fn lemma_ascending_is_distinct(s: Seq<Seq<char>>)
    requires
        ascending(s),
    ensures
        s.no_duplicates(),
{
    assert forall|i: int, j: int| 0 <= i < s.len() && 0 <= j < s.len() && i != j implies s[i]
        != s[j] by {
        if i < j {
            lemma_precedes_asymmetric(s[i], s[j]);
        } else {
            lemma_precedes_asymmetric(s[j], s[i]);
        }
    }
}

/// The last string of a non-empty ascending list is the greatest of its set.
pub proof fn lemma_last_is_greatest(s: Seq<Seq<char>>)
    requires
        ascending(s),
        s.len() > 0,
    ensures
        is_greatest(s.to_set(), s.last()),
{
    assert(s.contains(s.last()));
    assert forall|t: Seq<char>| s.to_set().contains(t) implies at_most(t, s.last()) by {
        let k = choose|k: int| 0 <= k < s.len() && s[k] == t;
        if k < s.len() - 1 {
            assert(precedes(s[k], s[s.len() - 1]));
        }
    }
}

/// Two ascending lists of the same set are the same list.
pub proof fn lemma_ascending_listing_is_unique(a: Seq<Seq<char>>, b: Seq<Seq<char>>)
    requires
        ascending(a),
        ascending(b),
        a.to_set() == b.to_set(),
    ensures
        a == b,
    decreases a.len(),
{
    lemma_ascending_is_distinct(a);
    lemma_ascending_is_distinct(b);
    a.unique_seq_to_set();
    b.unique_seq_to_set();
    assert(a.len() == b.len());
    if a.len() > 0 {
        lemma_last_is_greatest(a);
        lemma_last_is_greatest(b);
        lemma_greatest_is_unique(a.to_set(), a.last(), b.last());
        let a0 = a.drop_last();
        let b0 = b.drop_last();
        assert(ascending(a0)) by {
            assert forall|i: int, j: int| 0 <= i < j < a0.len() implies precedes(
                #[trigger] a0[i],
                #[trigger] a0[j],
            ) by {
                assert(precedes(a[i], a[j]));
            }
        }
        assert(ascending(b0)) by {
            assert forall|i: int, j: int| 0 <= i < j < b0.len() implies precedes(
                #[trigger] b0[i],
                #[trigger] b0[j],
            ) by {
                assert(precedes(b[i], b[j]));
            }
        }
        assert(a0.to_set() =~= b0.to_set()) by {
            assert forall|t: Seq<char>| a0.to_set().contains(t) <==> b0.to_set().contains(
                t,
            ) by {
                if a0.contains(t) {
                    let k = choose|k: int| 0 <= k < a0.len() && a0[k] == t;
                    assert(a[k] == t);
                    assert(a.contains(t));
                    assert(b.to_set().contains(t));
                    let l = choose|l: int| 0 <= l < b.len() && b[l] == t;
                    assert(precedes(a[k], a[a.len() - 1]));
                    lemma_precedes_asymmetric(t, a.last());
                    assert(l < b.len() - 1);
                    assert(b0[l] == t);
                }
                if b0.contains(t) {
                    let k = choose|k: int| 0 <= k < b0.len() && b0[k] == t;
                    assert(b[k] == t);
                    assert(b.contains(t));
                    assert(a.to_set().contains(t));
                    let l = choose|l: int| 0 <= l < a.len() && a[l] == t;
                    assert(precedes(b[k], b[b.len() - 1]));
                    lemma_precedes_asymmetric(t, b.last());
                    assert(l < a.len() - 1);
                    assert(a0[l] == t);
                }
            }
        }
        lemma_ascending_listing_is_unique(a0, b0);
        assert(a =~= a0.push(a.last()));
        assert(b =~= b0.push(b.last()));
    } else {
        assert(a =~= b);
    }
}

/// An ascending list stays ascending when a string that all of it precedes
/// is put at its end.
proof fn lemma_pushed_ascends(s: Seq<Seq<char>>, x: Seq<char>)
    requires
        ascending(s),
        all_before(s, x),
    ensures
        ascending(s.push(x)),
{
    let p = s.push(x);
    assert forall|i: int, j: int| 0 <= i < j < p.len() implies precedes(
        #[trigger] p[i],
        #[trigger] p[j],
    ) by {
        if j < s.len() {
            assert(precedes(s[i], s[j]));
        } else {
            assert(precedes(s[i], x));
        }
    }
}

/// What precedes `x` precedes what `x` precedes, and so does `x` itself.
proof fn lemma_all_before_next(s: Seq<Seq<char>>, x: Seq<char>, y: Seq<char>)
    requires
        all_before(s, x),
        precedes(x, y),
    ensures
        all_before(s.push(x), y),
{
    let p = s.push(x);
    assert forall|k: int| 0 <= k < p.len() implies precedes(#[trigger] p[k], y) by {
        if k < s.len() {
            assert(precedes(s[k], x));
            lemma_precedes_transitive(s[k], x, y);
        }
    }
}

/// A list that precedes `y` still does with `x` at its end, if `x` precedes `y`.
proof fn lemma_all_before_kept(s: Seq<Seq<char>>, x: Seq<char>, y: Seq<char>)
    requires
        all_before(s, y),
        precedes(x, y),
    ensures
        all_before(s.push(x), y),
{
    let p = s.push(x);
    assert forall|k: int| 0 <= k < p.len() implies precedes(#[trigger] p[k], y) by {
        if k < s.len() {
            assert(precedes(s[k], y));
        }
    }
}

/// What precedes `x` precedes what `x` precedes.
proof fn lemma_all_before_later(s: Seq<Seq<char>>, x: Seq<char>, y: Seq<char>)
    requires
        all_before(s, x),
        precedes(x, y),
    ensures
        all_before(s, y),
{
    assert forall|k: int| 0 <= k < s.len() implies precedes(#[trigger] s[k], y) by {
        assert(precedes(s[k], x));
        lemma_precedes_transitive(s[k], x, y);
    }
}

/// A string that a whole list precedes is not in the list.
proof fn lemma_not_among(s: Seq<Seq<char>>, x: Seq<char>)
    requires
        all_before(s, x),
    ensures
        !s.to_set().contains(x),
{
    if s.contains(x) {
        let k = choose|k: int| 0 <= k < s.len() && s[k] == x;
        assert(precedes(s[k], x));
        lemma_precedes_irreflexive(x);
    }
}

/// In an ascending list, the first `n` strings precede `y` as soon as the
/// `n`-th does.
proof fn lemma_prefix_before(s: Seq<Seq<char>>, n: int, y: Seq<char>)
    requires
        ascending(s),
        0 < n <= s.len(),
        precedes(s[n - 1], y),
    ensures
        all_before(s.take(n), y),
{
    let p = s.take(n);
    assert forall|k: int| 0 <= k < p.len() implies precedes(#[trigger] p[k], y) by {
        if k < n - 1 {
            assert(precedes(s[k], s[n - 1]));
            lemma_precedes_transitive(s[k], s[n - 1], y);
        }
    }
}

/// A set of version tokens.
#[derive(Debug, Eq, PartialOrd, Ord, Hash)]
pub struct TokenSet {
    items: Vec<String>,
}

impl View for TokenSet {
    type V = Set<Seq<char>>;

    /// The tokens as a mathematical set.
    open spec fn view(&self) -> Set<Seq<char>> {
        self.tokens().to_set()
    }
}

impl Clone for TokenSet {
    fn clone(&self) -> (copy: Self)
        ensures
            copy.tokens() == self.tokens(),
            copy@ == self@,
    {
        proof {
            use_type_invariant(self);
        }
        let mut items: Vec<String> = Vec::new();
        let mut i: usize = 0;
        while i < self.items.len()
            invariant
                i <= self.items.len(),
                items@.len() == i,
                forall|k: int| 0 <= k < i ==> (#[trigger] items@[k])@ == self.items@[k]@,
            decreases self.items.len() - i,
        {
            items.push(self.items[i].clone());
            i += 1;
        }
        assert(items.deep_view() =~= self.items.deep_view());
        TokenSet { items }
    }
}

impl PartialEq for TokenSet {
    /// Two sets are equal when they hold the same tokens.
    fn eq(&self, other: &Self) -> (equal: bool) {
        proof {
            use_type_invariant(self);
            use_type_invariant(other);
            lemma_ascending_is_distinct(self.tokens());
            lemma_ascending_is_distinct(other.tokens());
            self.tokens().unique_seq_to_set();
            other.tokens().unique_seq_to_set();
        }
        if self.items.len() != other.items.len() {
            return false;
        }
        let mut i: usize = 0;
        while i < self.items.len()
            invariant
                i <= self.items.len(),
                self.items.len() == other.items.len(),
                ascending(self.tokens()),
                ascending(other.tokens()),
                forall|k: int| 0 <= k < i ==> self.tokens()[k] == other.tokens()[k],
            decreases self.items.len() - i,
        {
            match rank(self.items[i].as_str(), other.items[i].as_str()) {
                Rank::Same => {},
                _ => {
                    proof {
                        if self@ == other@ {
                            lemma_ascending_listing_is_unique(self.tokens(), other.tokens());
                            lemma_precedes_irreflexive(self.tokens()[i as int]);
                        }
                    }
                    return false;
                },
            }
            i += 1;
        }
        assert(self.tokens() =~= other.tokens());
        true
    }
}

impl vstd::std_specs::cmp::PartialEqSpecImpl for TokenSet {
    open spec fn obeys_eq_spec() -> bool {
        true
    }

    open spec fn eq_spec(&self, other: &Self) -> bool {
        self@ == other@
    }
}

impl Default for TokenSet {
    fn default() -> (set: Self)
        ensures
            set@ == Set::<Seq<char>>::empty(),
    {
        TokenSet::new()
    }
}

impl TokenSet {
    /// The tokens of the set, listed in ascending order.
    pub closed spec fn tokens(&self) -> Seq<Seq<char>> {
        self.items.deep_view()
    }

    #[verifier::type_invariant]
    spec fn ordered(&self) -> bool {
        ascending(self.tokens())
    }

    /// The empty set.
    pub fn new() -> (set: Self)
        ensures
            set@ == Set::<Seq<char>>::empty(),
            set.tokens() == Seq::<Seq<char>>::empty(),
    {
        let set = TokenSet { items: Vec::new() };
        assert(set.tokens() =~= Seq::<Seq<char>>::empty());
        assert(set@ =~= Set::<Seq<char>>::empty());
        set
    }

    /// The number of tokens.
    pub fn len(&self) -> (n: usize)
        ensures
            n == self@.len(),
            n == self.tokens().len(),
    {
        proof {
            use_type_invariant(self);
            lemma_ascending_is_distinct(self.tokens());
            self.tokens().unique_seq_to_set();
        }
        self.items.len()
    }

    /// Whether the set holds no token.
    pub fn is_empty(&self) -> (empty: bool)
        ensures
            empty == (self@ == Set::<Seq<char>>::empty()),
            empty == (self@.len() == 0),
    {
        let n = self.len();
        proof {
            if n == 0 {
                assert(self@ =~= Set::<Seq<char>>::empty());
            } else {
                assert(self.tokens().contains(self.tokens()[0]));
            }
        }
        n == 0
    }

    /// Whether `token` is in the set.
    pub fn contains(&self, token: &str) -> (found: bool)
        ensures
            found == self@.contains(token@),
    {
        let mut i: usize = 0;
        while i < self.items.len()
            invariant
                i <= self.items.len(),
                forall|k: int| 0 <= k < i ==> self.tokens()[k] != token@,
            decreases self.items.len() - i,
        {
            match rank(self.items[i].as_str(), token) {
                Rank::Same => {
                    assert(self.tokens()[i as int] == token@);
                    assert(self.tokens().contains(token@));
                    return true;
                },
                _ => {
                    proof {
                        if self.tokens()[i as int] == token@ {
                            lemma_precedes_irreflexive(token@);
                        }
                    }
                },
            }
            i += 1;
        }
        false
    }

    /// The greatest token of the set, if the set has any.
    pub fn greatest(&self) -> (top: Option<&String>)
        ensures
            match top {
                Some(top) => is_greatest(self@, top@),
                None => self@ == Set::<Seq<char>>::empty(),
            },
    {
        let n = self.items.len();
        if n == 0 {
            assert(self@ =~= Set::<Seq<char>>::empty());
            None
        } else {
            proof {
                use_type_invariant(self);
                lemma_last_is_greatest(self.tokens());
            }
            Some(&self.items[n - 1])
        }
    }

    /// The set of the tokens that are in `self`, in `other`, or in both.
    pub fn union(&self, other: &TokenSet) -> (both: TokenSet)
        ensures
            both@ == self@.union(other@),
    {
        proof {
            use_type_invariant(self);
            use_type_invariant(other);
        }
        let ghost a = self.tokens();
        let ghost b = other.tokens();
        let mut out: Vec<String> = Vec::new();
        let mut i: usize = 0;
        let mut j: usize = 0;
        proof {
            assert(out.deep_view().to_set() =~= a.take(0).to_set().union(b.take(0).to_set()));
        }
        while i < self.items.len() || j < other.items.len()
            invariant
                a == self.tokens(),
                b == other.tokens(),
                ascending(a),
                ascending(b),
                i <= self.items.len(),
                j <= other.items.len(),
                ascending(out.deep_view()),
                out.deep_view().to_set() == a.take(i as int).to_set().union(
                    b.take(j as int).to_set(),
                ),
                i < a.len() ==> all_before(out.deep_view(), a[i as int]),
                j < b.len() ==> all_before(out.deep_view(), b[j as int]),
            decreases self.items.len() - i + other.items.len() - j,
        {
            let ghost before = out.deep_view();
            let take_left = if i >= self.items.len() {
                Rank::After
            } else if j >= other.items.len() {
                Rank::Before
            } else {
                rank(self.items[i].as_str(), other.items[j].as_str())
            };
            match take_left {
                Rank::Before => {
                    let ghost x = a[i as int];
                    out.push(self.items[i].clone());
                    proof {
                        assert(out.deep_view() =~= before.push(x));
                        a.lemma_take_succ_push(i as int);
                        a.take(i as int).lemma_push_to_set_commute(x);
                        before.lemma_push_to_set_commute(x);
                        assert(out.deep_view().to_set() =~= a.take(i + 1).to_set().union(
                            b.take(j as int).to_set(),
                        ));
                        lemma_pushed_ascends(before, x);
                        if i + 1 < a.len() {
                            lemma_all_before_next(before, x, a[i + 1]);
                        }
                        if j < b.len() {
                            lemma_all_before_kept(before, x, b[j as int]);
                        }
                    }
                    i += 1;
                },
                Rank::After => {
                    let ghost x = b[j as int];
                    out.push(other.items[j].clone());
                    proof {
                        assert(out.deep_view() =~= before.push(x));
                        b.lemma_take_succ_push(j as int);
                        b.take(j as int).lemma_push_to_set_commute(x);
                        before.lemma_push_to_set_commute(x);
                        assert(out.deep_view().to_set() =~= a.take(i as int).to_set().union(
                            b.take(j + 1).to_set(),
                        ));
                        lemma_pushed_ascends(before, x);
                        if j + 1 < b.len() {
                            lemma_all_before_next(before, x, b[j + 1]);
                        }
                        if i < a.len() {
                            lemma_all_before_kept(before, x, a[i as int]);
                        }
                    }
                    j += 1;
                },
                Rank::Same => {
                    let ghost x = a[i as int];
                    out.push(self.items[i].clone());
                    proof {
                        assert(out.deep_view() =~= before.push(x));
                        a.lemma_take_succ_push(i as int);
                        b.lemma_take_succ_push(j as int);
                        a.take(i as int).lemma_push_to_set_commute(x);
                        b.take(j as int).lemma_push_to_set_commute(x);
                        before.lemma_push_to_set_commute(x);
                        assert(out.deep_view().to_set() =~= a.take(i + 1).to_set().union(
                            b.take(j + 1).to_set(),
                        ));
                        lemma_pushed_ascends(before, x);
                        if i + 1 < a.len() {
                            lemma_all_before_next(before, x, a[i + 1]);
                        }
                        if j + 1 < b.len() {
                            lemma_all_before_next(before, x, b[j + 1]);
                        }
                    }
                    i += 1;
                    j += 1;
                },
            }
        }
        proof {
            a.lemma_take_len();
            b.lemma_take_len();
        }
        TokenSet { items: out }
    }

    /// The set of the tokens that are in both `self` and `other`.
    pub fn intersect(&self, other: &TokenSet) -> (common: TokenSet)
        ensures
            common@ == self@.intersect(other@),
    {
        proof {
            use_type_invariant(self);
            use_type_invariant(other);
        }
        let ghost a = self.tokens();
        let ghost b = other.tokens();
        let mut out: Vec<String> = Vec::new();
        let mut i: usize = 0;
        let mut j: usize = 0;
        proof {
            assert(out.deep_view().to_set() =~= a.take(0).to_set().intersect(
                b.take(0).to_set(),
            ));
        }
        while i < self.items.len() && j < other.items.len()
            invariant
                a == self.tokens(),
                b == other.tokens(),
                ascending(a),
                ascending(b),
                i <= self.items.len(),
                j <= other.items.len(),
                ascending(out.deep_view()),
                out.deep_view().to_set() == a.take(i as int).to_set().intersect(
                    b.take(j as int).to_set(),
                ),
                i < a.len() ==> all_before(b.take(j as int), a[i as int]),
                j < b.len() ==> all_before(a.take(i as int), b[j as int]),
            decreases self.items.len() - i + other.items.len() - j,
        {
            let ghost before = out.deep_view();
            match rank(self.items[i].as_str(), other.items[j].as_str()) {
                Rank::Before => {
                    proof {
                        let x = a[i as int];
                        a.lemma_take_succ_push(i as int);
                        a.take(i as int).lemma_push_to_set_commute(x);
                        lemma_not_among(b.take(j as int), x);
                        assert(out.deep_view().to_set() =~= a.take(i + 1).to_set().intersect(
                            b.take(j as int).to_set(),
                        ));
                        if i + 1 < a.len() {
                            lemma_all_before_later(b.take(j as int), x, a[i + 1]);
                        }
                        lemma_prefix_before(a, i + 1, b[j as int]);
                    }
                    i += 1;
                },
                Rank::After => {
                    proof {
                        let x = b[j as int];
                        b.lemma_take_succ_push(j as int);
                        b.take(j as int).lemma_push_to_set_commute(x);
                        lemma_not_among(a.take(i as int), x);
                        assert(out.deep_view().to_set() =~= a.take(i as int).to_set().intersect(
                            b.take(j + 1).to_set(),
                        ));
                        if j + 1 < b.len() {
                            lemma_all_before_later(a.take(i as int), x, b[j + 1]);
                        }
                        lemma_prefix_before(b, j + 1, a[i as int]);
                    }
                    j += 1;
                },
                Rank::Same => {
                    let ghost x = a[i as int];
                    out.push(self.items[i].clone());
                    proof {
                        assert(out.deep_view() =~= before.push(x));
                        a.lemma_take_succ_push(i as int);
                        b.lemma_take_succ_push(j as int);
                        a.take(i as int).lemma_push_to_set_commute(x);
                        b.take(j as int).lemma_push_to_set_commute(x);
                        before.lemma_push_to_set_commute(x);
                        assert(out.deep_view().to_set() =~= a.take(i + 1).to_set().intersect(
                            b.take(j + 1).to_set(),
                        ));
                        assert(all_before(before, x)) by {
                            assert forall|k: int| 0 <= k < before.len() implies precedes(
                                #[trigger] before[k],
                                x,
                            ) by {
                                assert(before.to_set().contains(before[k]));
                                assert(a.take(i as int).contains(before[k]));
                            }
                        }
                        lemma_pushed_ascends(before, x);
                        if i + 1 < a.len() {
                            lemma_prefix_before(b, j + 1, a[i + 1]);
                        }
                        if j + 1 < b.len() {
                            lemma_prefix_before(a, i + 1, b[j + 1]);
                        }
                    }
                    i += 1;
                    j += 1;
                },
            }
        }
        proof {
            let rest_a = a.take(i as int).to_set();
            let rest_b = b.take(j as int).to_set();
            assert(rest_a.intersect(rest_b) =~= a.to_set().intersect(b.to_set())) by {
                assert forall|t: Seq<char>|
                    a.to_set().contains(t) && b.to_set().contains(t) implies rest_a.contains(t)
                    && rest_b.contains(t) by {
                    let k = choose|k: int| 0 <= k < a.len() && a[k] == t;
                    let l = choose|l: int| 0 <= l < b.len() && b[l] == t;
                    if k >= i {
                        // then every token of `b` was passed, and all of them come before `a[i]`
                        assert(precedes(b.take(j as int)[l], a[i as int]));
                        if k > i {
                            assert(precedes(a[i as int], a[k]));
                            lemma_precedes_transitive(b[l], a[i as int], a[k]);
                        }
                        lemma_precedes_irreflexive(t);
                    }
                    if l >= j {
                        assert(precedes(a.take(i as int)[k], b[j as int]));
                        if l > j {
                            assert(precedes(b[j as int], b[l]));
                            lemma_precedes_transitive(a[k], b[j as int], b[l]);
                        }
                        lemma_precedes_irreflexive(t);
                    }
                    assert(a.take(i as int)[k] == t);
                    assert(b.take(j as int)[l] == t);
                }
                assert forall|t: Seq<char>|
                    rest_a.contains(t) && rest_b.contains(t) implies a.to_set().contains(t)
                    && b.to_set().contains(t) by {
                    let k = choose|k: int| 0 <= k < a.take(i as int).len() && a.take(i as int)[k]
                        == t;
                    let l = choose|l: int| 0 <= l < b.take(j as int).len() && b.take(j as int)[l]
                        == t;
                    assert(a[k] == t);
                    assert(b[l] == t);
                }
            }
        }
        TokenSet { items: out }
    }

    /// Adds `token` to the set.  Returns whether it was new to the set.
    pub fn insert(&mut self, token: String) -> (added: bool)
        ensures
            final(self)@ == old(self)@.insert(token@),
            added == !old(self)@.contains(token@),
    {
        proof {
            use_type_invariant(&*self);
        }
        let ghost before = self.tokens();
        let ghost t = token@;
        let mut at: usize = 0;
        while at < self.items.len()
            invariant
                at <= self.items.len(),
                before == self.tokens(),
                t == token@,
                ascending(before),
                all_before(before.take(at as int), t),
            ensures
                at <= self.items.len(),
                all_before(before.take(at as int), t),
                at < before.len() ==> precedes(t, before[at as int]),
            decreases self.items.len() - at,
        {
            match rank(self.items[at].as_str(), token.as_str()) {
                Rank::Before => {
                    proof {
                        lemma_prefix_before(before, at + 1, t);
                    }
                    at += 1;
                },
                Rank::Same => {
                    proof {
                        assert(before[at as int] == t);
                        assert(before.contains(t));
                        assert(self@ =~= self@.insert(t));
                    }
                    return false;
                },
                Rank::After => {
                    break ;
                },
            }
        }
        let mut taken = TokenSet::new();
        core::mem::swap(self, &mut taken);
        let mut items = taken.items;
        items.insert(at, token);
        proof {
            let after = items.deep_view();
            assert(after =~= before.insert(at as int, t));
            assert(ascending(after)) by {
                assert forall|i: int, j: int| 0 <= i < j < after.len() implies precedes(
                    #[trigger] after[i],
                    #[trigger] after[j],
                ) by {
                    if j < at {
                        assert(precedes(before[i], before[j]));
                    } else if j == at {
                        assert(precedes(before.take(at as int)[i], t));
                    } else if i < at {
                        assert(precedes(before[i], before[j - 1]));
                    } else if i == at {
                        if j - 1 > at {
                            assert(precedes(before[at as int], before[j - 1]));
                            lemma_precedes_transitive(t, before[at as int], before[j - 1]);
                        }
                    } else {
                        assert(precedes(before[i - 1], before[j - 1]));
                    }
                }
            }
            lemma_not_among(before.take(at as int), t);
            assert(!before.contains(t)) by {
                if before.contains(t) {
                    let k = choose|k: int| 0 <= k < before.len() && before[k] == t;
                    if k < at {
                        assert(before.take(at as int)[k] == t);
                        assert(before.take(at as int).contains(t));
                    } else {
                        if k > at {
                            assert(precedes(before[at as int], before[k]));
                            lemma_precedes_transitive(t, before[at as int], before[k]);
                        }
                        lemma_precedes_irreflexive(t);
                    }
                }
            }
            assert(after.to_set() =~= before.to_set().insert(t)) by {
                assert forall|x: Seq<char>| after.contains(x) <==> before.contains(x) || x
                    == t by {
                    if after.contains(x) {
                        let k = choose|k: int| 0 <= k < after.len() && after[k] == x;
                        if k < at {
                            assert(before[k] == x);
                        } else if k > at {
                            assert(before[k - 1] == x);
                        }
                    }
                    if before.contains(x) {
                        let k = choose|k: int| 0 <= k < before.len() && before[k] == x;
                        if k < at {
                            assert(after[k] == x);
                        } else {
                            assert(after[k + 1] == x);
                        }
                    }
                    if x == t {
                        assert(after[at as int] == t);
                    }
                }
            }
        }
        *self = TokenSet { items };
        true
    }

    /// The set of the strings of a list.
    pub fn from_vec(list: &Vec<String>) -> (set: TokenSet)
        ensures
            set@ == list.deep_view().to_set(),
    {
        let mut set = TokenSet::new();
        let mut i: usize = 0;
        proof {
            assert(list.deep_view().take(0).to_set() =~= Set::<Seq<char>>::empty());
        }
        while i < list.len()
            invariant
                i <= list.len(),
                set@ == list.deep_view().take(i as int).to_set(),
            decreases list.len() - i,
        {
            proof {
                list.deep_view().lemma_take_succ_push(i as int);
                list.deep_view().take(i as int).lemma_push_to_set_commute(list@[i as int]@);
            }
            set.insert(list[i].clone());
            i += 1;
        }
        proof {
            list.deep_view().lemma_take_len();
        }
        set
    }

    /// The tokens in ascending order.
    pub fn to_vec(&self) -> (list: Vec<String>)
        ensures
            list.deep_view() == self.tokens(),
            list.deep_view().to_set() == self@,
            ascending(list.deep_view()),
    {
        proof {
            use_type_invariant(self);
        }
        let copy = self.clone();
        copy.items
    }
}

} // verus!
