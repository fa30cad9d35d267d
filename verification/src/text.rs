//! Strings as sequences of characters: the order in which version tokens
//! are ranked, and the few searches the catalog and feed formats call for.

use vstd::prelude::*;
use vstd::string::StrSliceExecFns;

verus! {

/// Whether `a` comes before `b` when the two are compared character by
/// character from position `i` on, by code point; a string that runs out
/// first comes first.
pub open spec fn precedes_from(a: Seq<char>, b: Seq<char>, i: int) -> bool
    decreases a.len() - i,
{
    if i >= b.len() {
        false
    } else if i >= a.len() {
        true
    } else if a[i] != b[i] {
        a[i] < b[i]
    } else {
        precedes_from(a, b, i + 1)
    }
}

/// The order of strings: lexicographic by code point, which is the order
/// `str` has in Rust.
pub open spec fn precedes(a: Seq<char>, b: Seq<char>) -> bool {
    precedes_from(a, b, 0)
}

/// `a` is `b` or comes before it.
pub open spec fn at_most(a: Seq<char>, b: Seq<char>) -> bool {
    a == b || precedes(a, b)
}

/// How two strings stand to each other in the order of [`precedes`].
#[derive(Debug, Clone, Copy, PartialEq, Eq, Structural)]
pub enum Rank {
    Before,
    Same,
    After,
}

proof fn lemma_from_irreflexive(a: Seq<char>, i: int)
    requires
        0 <= i,
    ensures
        !precedes_from(a, a, i),
    decreases a.len() - i,
{
    if i < a.len() {
        lemma_from_irreflexive(a, i + 1);
    }
}

proof fn lemma_from_transitive(a: Seq<char>, b: Seq<char>, c: Seq<char>, i: int)
    requires
        0 <= i,
        precedes_from(a, b, i),
        precedes_from(b, c, i),
    ensures
        precedes_from(a, c, i),
    decreases a.len() - i,
{
    if i < a.len() && i < b.len() && i < c.len() && a[i] == b[i] && b[i] == c[i] {
        lemma_from_transitive(a, b, c, i + 1);
    }
}

proof fn lemma_from_asymmetric(a: Seq<char>, b: Seq<char>, i: int)
    requires
        0 <= i,
        precedes_from(a, b, i),
    ensures
        !precedes_from(b, a, i),
    decreases a.len() - i,
{
    if i < a.len() && i < b.len() && a[i] == b[i] {
        lemma_from_asymmetric(a, b, i + 1);
    }
}

proof fn lemma_from_total(a: Seq<char>, b: Seq<char>, i: int)
    requires
        0 <= i <= a.len(),
        i <= b.len(),
        forall|k: int| 0 <= k < i ==> a[k] == b[k],
    ensures
        a == b || precedes_from(a, b, i) || precedes_from(b, a, i),
    decreases a.len() - i,
{
    if i < a.len() && i < b.len() {
        if a[i] == b[i] {
            lemma_from_total(a, b, i + 1);
        }
    } else if i == a.len() && i == b.len() {
        assert(a =~= b);
    }
}

/// No string comes before itself.
pub proof fn lemma_precedes_irreflexive(a: Seq<char>)
    ensures
        !precedes(a, a),
{
    lemma_from_irreflexive(a, 0);
}

/// The order is transitive.
pub proof fn lemma_precedes_transitive(a: Seq<char>, b: Seq<char>, c: Seq<char>)
    requires
        precedes(a, b),
        precedes(b, c),
    ensures
        precedes(a, c),
{
    lemma_from_transitive(a, b, c, 0);
}

/// Of two strings at most one comes before the other.
pub proof fn lemma_precedes_asymmetric(a: Seq<char>, b: Seq<char>)
    requires
        precedes(a, b),
    ensures
        !precedes(b, a),
        a != b,
{
    lemma_from_asymmetric(a, b, 0);
    lemma_from_irreflexive(a, 0);
}

/// Any two strings are equal or one comes before the other.
pub proof fn lemma_precedes_total(a: Seq<char>, b: Seq<char>)
    ensures
        a == b || precedes(a, b) || precedes(b, a),
{
    lemma_from_total(a, b, 0);
}

/// `at_most` is transitive.
pub proof fn lemma_at_most_transitive(a: Seq<char>, b: Seq<char>, c: Seq<char>)
    requires
        at_most(a, b),
        at_most(b, c),
    ensures
        at_most(a, c),
{
    if a != b && b != c {
        lemma_precedes_transitive(a, b, c);
    }
}

/// The characters of a string.
pub fn chars_of(s: &str) -> (chars: Vec<char>)
    ensures
        chars@ == s@,
{
    let mut chars: Vec<char> = Vec::new();
    for c in it: s.chars()
        invariant
            chars@ == it.seq().take(it.index() as int),
            it.seq() == s@,
    {
        chars.push(c);
    }
    chars
}

/// Ranks two character sequences against each other.
pub fn rank_chars(a: &Vec<char>, b: &Vec<char>) -> (rank: Rank)
    ensures
        match rank {
            Rank::Before => precedes(a@, b@),
            Rank::Same => a@ == b@,
            Rank::After => precedes(b@, a@),
        },
{
    let mut i: usize = 0;
    while i < a.len() && i < b.len()
        invariant
            i <= a.len(),
            i <= b.len(),
            forall|k: int| 0 <= k < i ==> a@[k] == b@[k],
            precedes(a@, b@) == precedes_from(a@, b@, i as int),
            precedes(b@, a@) == precedes_from(b@, a@, i as int),
        decreases a.len() - i,
    {
        if a[i] != b[i] {
            return if a[i] < b[i] {
                Rank::Before
            } else {
                Rank::After
            };
        }
        i += 1;
    }
    if i < b.len() {
        Rank::Before
    } else if i < a.len() {
        Rank::After
    } else {
        assert(a@ =~= b@);
        Rank::Same
    }
}

/// Ranks two strings against each other.
pub fn rank(a: &str, b: &str) -> (rank: Rank)
    ensures
        match rank {
            Rank::Before => precedes(a@, b@),
            Rank::Same => a@ == b@,
            Rank::After => precedes(b@, a@),
        },
{
    let a_chars = chars_of(a);
    let b_chars = chars_of(b);
    rank_chars(&a_chars, &b_chars)
}

/// Whether two strings hold the same characters.
pub fn same(a: &str, b: &str) -> (same: bool)
    ensures
        same == (a@ == b@),
{
    let a_chars = chars_of(a);
    let b_chars = chars_of(b);
    let found = rank_chars(&a_chars, &b_chars);
    proof {
        if a@ == b@ {
            lemma_precedes_irreflexive(a@);
        }
    }
    match found {
        Rank::Same => true,
        _ => false,
    }
}

/// Whether `needle` stands in `hay` at position `at`.
pub open spec fn occurs_at(needle: Seq<char>, hay: Seq<char>, at: int) -> bool {
    0 <= at && at + needle.len() <= hay.len() && hay.subrange(at, at + needle.len()) == needle
}

/// Whether `needle` stands somewhere in `hay`, as a run of consecutive
/// characters.
pub open spec fn occurs_in(needle: Seq<char>, hay: Seq<char>) -> bool {
    exists|at: int| occurs_at(needle, hay, at)
}

/// The position of the first `mark` in `s` at or after `from`, or the
/// length of `s` if there is none.
pub open spec fn position_from(s: Seq<char>, mark: char, from: int) -> int
    decreases s.len() - from,
{
    if from >= s.len() {
        s.len() as int
    } else if s[from] == mark {
        from
    } else {
        position_from(s, mark, from + 1)
    }
}

/// The part of `s` between the first `mark` and the second, or the end:
/// the second of the fields that `mark` separates.  Empty if `s` holds no
/// `mark`.
pub open spec fn second_field(s: Seq<char>, mark: char) -> Seq<char> {
    let first = position_from(s, mark, 0);
    if first >= s.len() {
        Seq::empty()
    } else {
        s.subrange(first + 1, position_from(s, mark, first + 1))
    }
}

/// The length of `s` without the `mark`s at its end.
pub open spec fn trimmed_len(s: Seq<char>, mark: char) -> int
    decreases s.len(),
{
    if s.len() > 0 && s.last() == mark {
        trimmed_len(s.drop_last(), mark)
    } else {
        s.len() as int
    }
}

/// Where the last field of `s` starts: just after the last `mark` before
/// position `end`, or at 0 if there is none.
pub open spec fn last_field_start(s: Seq<char>, mark: char, end: int) -> int
    decreases end,
{
    if end <= 0 {
        0
    } else if s[end - 1] == mark {
        end
    } else {
        last_field_start(s, mark, end - 1)
    }
}

/// The last path segment of an address: what follows the last `/`, once the
/// `/`s at the end are taken off.
pub open spec fn last_segment(url: Seq<char>) -> Seq<char> {
    let end = trimmed_len(url, '/');
    url.subrange(last_field_start(url, '/', end), end)
}

/// The position of the first `mark` at or after `from` lies between `from`
/// and the end, no `mark` stands before it, and one stands at it unless it
/// is the end.
pub proof fn lemma_position_from(s: Seq<char>, mark: char, from: int)
    requires
        0 <= from <= s.len(),
    ensures
        from <= position_from(s, mark, from) <= s.len(),
        forall|k: int| from <= k < position_from(s, mark, from) ==> s[k] != mark,
        position_from(s, mark, from) < s.len() ==> s[position_from(s, mark, from)] == mark,
    decreases s.len() - from,
{
    if from < s.len() && s[from] != mark {
        lemma_position_from(s, mark, from + 1);
    }
}

/// The trimmed length is the least length from which on `s` holds only
/// `mark`s.
pub proof fn lemma_trimmed_len(s: Seq<char>, mark: char)
    ensures
        0 <= trimmed_len(s, mark) <= s.len(),
        forall|k: int| trimmed_len(s, mark) <= k < s.len() ==> s[k] == mark,
        trimmed_len(s, mark) > 0 ==> s[trimmed_len(s, mark) - 1] != mark,
    decreases s.len(),
{
    if s.len() > 0 && s.last() == mark {
        lemma_trimmed_len(s.drop_last(), mark);
        let shorter = s.drop_last();
        assert forall|k: int| trimmed_len(s, mark) <= k < s.len() implies s[k] == mark by {
            if k < shorter.len() {
                assert(shorter[k] == mark);
            }
        }
        if trimmed_len(s, mark) > 0 {
            assert(shorter[trimmed_len(s, mark) - 1] == s[trimmed_len(s, mark) - 1]);
        }
    }
}

/// The last field starts within the first `end` characters, just after a
/// `mark` or at 0, and holds no `mark`.
pub proof fn lemma_last_field_start(s: Seq<char>, mark: char, end: int)
    requires
        0 <= end <= s.len(),
    ensures
        0 <= last_field_start(s, mark, end) <= end,
        forall|k: int| last_field_start(s, mark, end) <= k < end ==> s[k] != mark,
        last_field_start(s, mark, end) > 0 ==> s[last_field_start(s, mark, end) - 1] == mark,
    decreases end,
{
    if end > 0 && s[end - 1] != mark {
        lemma_last_field_start(s, mark, end - 1);
    }
}

/// Whether `needle` stands in `hay` at position `at`.
pub fn matches_at(hay: &Vec<char>, at: usize, needle: &Vec<char>) -> (found: bool)
    ensures
        found == occurs_at(needle@, hay@, at as int),
{
    if at > hay.len() || needle.len() > hay.len() - at {
        return false;
    }
    let mut i: usize = 0;
    while i < needle.len()
        invariant
            i <= needle.len(),
            at + needle.len() <= hay.len(),
            forall|k: int| 0 <= k < i ==> hay@[at + k] == needle@[k],
        decreases needle.len() - i,
    {
        if hay[at + i] != needle[i] {
            proof {
                let part = hay@.subrange(at as int, at + needle.len());
                assert(part[i as int] != needle@[i as int]);
            }
            return false;
        }
        i += 1;
    }
    assert(hay@.subrange(at as int, at + needle.len()) =~= needle@);
    true
}

/// Whether `needle` stands somewhere in `hay` from position `from` on.  It
/// does not where `from` lies beyond the end of `hay`.
pub fn occurs_after(hay: &Vec<char>, from: usize, needle: &Vec<char>) -> (found: bool)
    ensures
        found == (from <= hay@.len() && occurs_in(needle@, hay@.skip(from as int))),
{
    if from > hay.len() {
        return false;
    }
    let ghost rest = hay@.skip(from as int);
    let mut at: usize = from;
    while at < hay.len()
        invariant
            from <= at <= hay.len(),
            rest == hay@.skip(from as int),
            forall|k: int| 0 <= k < at - from ==> !occurs_at(needle@, rest, k),
        decreases hay.len() - at,
    {
        let here = matches_at(hay, at, needle);
        proof {
            lemma_occurs_at_shifted(needle@, hay@, from as int, at as int);
        }
        if here {
            return true;
        }
        at += 1;
    }
    let here = matches_at(hay, at, needle);
    proof {
        lemma_occurs_at_shifted(needle@, hay@, from as int, at as int);
    }
    here
}

/// A run stands in the rest of a string where it stands in the string,
/// counted from the start of the rest.
proof fn lemma_occurs_at_shifted(needle: Seq<char>, hay: Seq<char>, from: int, at: int)
    requires
        0 <= from <= at <= hay.len(),
    ensures
        occurs_at(needle, hay.skip(from), at - from) == occurs_at(needle, hay, at),
{
    let rest = hay.skip(from);
    let k = at - from;
    if k + needle.len() <= rest.len() {
        assert(rest.subrange(k, k + needle.len()) =~= hay.subrange(at, at + needle.len()));
    }
}

/// Whether `s` begins with `prefix`.
pub fn starts_with(s: &Vec<char>, prefix: &Vec<char>) -> (found: bool)
    ensures
        found == prefix@.is_prefix_of(s@),
{
    let found = matches_at(s, 0, prefix);
    proof {
        if prefix@.len() <= s@.len() {
            assert(s@.subrange(0, prefix@.len() as int) =~= s@.take(prefix@.len() as int));
            if prefix@.is_prefix_of(s@) {
                assert(s@.subrange(0, prefix@.len() as int) =~= prefix@);
            }
            if found {
                assert(prefix@ =~= s@.subrange(0, prefix@.len() as int));
            }
        }
    }
    found
}

/// The position of the first `mark` in `s` at or after `from`, or the
/// length of `s` if there is none.
pub fn find_from(s: &Vec<char>, mark: char, from: usize) -> (at: usize)
    ensures
        at == position_from(s@, mark, from as int),
        at <= s.len(),
        from <= s.len() ==> from <= at,
{
    if from >= s.len() {
        return s.len();
    }
    let mut at: usize = from;
    while at < s.len() && s[at] != mark
        invariant
            from <= at <= s.len(),
            position_from(s@, mark, from as int) == position_from(s@, mark, at as int),
        decreases s.len() - at,
    {
        at += 1;
    }
    at
}

/// The second of the fields of `s` that `mark` separates.
pub fn second_field_of(s: &str, mark: char) -> (field: String)
    ensures
        field@ == second_field(s@, mark),
{
    let chars = chars_of(s);
    let first = find_from(&chars, mark, 0);
    if first >= chars.len() {
        String::new()
    } else {
        let next = find_from(&chars, mark, first + 1);
        s.substring_char(first + 1, next).to_owned()
    }
}

/// The last path segment of an address.
pub fn last_segment_of(url: &str) -> (segment: String)
    ensures
        segment@ == last_segment(url@),
{
    let chars = chars_of(url);
    let mut end: usize = chars.len();
    assert(url@.take(end as int) =~= url@);
    while end > 0 && chars[end - 1] == '/'
        invariant
            end <= chars.len(),
            chars@ == url@,
            trimmed_len(url@, '/') == trimmed_len(url@.take(end as int), '/'),
        decreases end,
    {
        proof {
            assert(url@.take(end as int).drop_last() =~= url@.take(end - 1));
        }
        end -= 1;
    }
    proof {
        if end == 0 {
            assert(url@.take(0).len() == 0);
        }
        assert(trimmed_len(url@.take(end as int), '/') == end);
    }
    let mut start: usize = end;
    while start > 0 && chars[start - 1] != '/'
        invariant
            start <= end <= chars.len(),
            chars@ == url@,
            last_field_start(url@, '/', end as int) == last_field_start(url@, '/', start as int),
        decreases start,
    {
        start -= 1;
    }
    url.substring_char(start, end).to_owned()
}

/// Whether the string starts with one of the digits `0` to `9`.
pub open spec fn starts_with_digit(s: Seq<char>) -> bool {
    s.len() > 0 && '0' <= s[0] && s[0] <= '9'
}

/// Whether the string starts with one of the digits `0` to `9`.
pub fn first_is_digit(s: &str) -> (digit: bool)
    ensures
        digit == starts_with_digit(s@),
{
    let chars = chars_of(s);
    chars.len() > 0 && chars[0] >= '0' && chars[0] <= '9'
}

/// Whether `wanted` is one of the strings of `list`.
pub fn has_string(list: &Vec<String>, wanted: &str) -> (found: bool)
    ensures
        found == list.deep_view().contains(wanted@),
{
    let mut i: usize = 0;
    while i < list.len()
        invariant
            i <= list.len(),
            forall|k: int| 0 <= k < i ==> list.deep_view()[k] != wanted@,
        decreases list.len() - i,
    {
        if same(list[i].as_str(), wanted) {
            assert(list.deep_view()[i as int] == wanted@);
            return true;
        }
        i += 1;
    }
    false
}

/// The lower-case form of a string, as the standard library of Rust gives
/// it: every character replaced by its Unicode lower-case mapping.
pub uninterp spec fn lowercase_of(s: Seq<char>) -> Seq<char>;

/// Each string of a list in its lower-case form.
pub open spec fn lowercased(list: Seq<Seq<char>>) -> Seq<Seq<char>> {
    list.map_values(|s: Seq<char>| lowercase_of(s))
}

/// Calls `str::to_lowercase` of the standard library.
///
/// Trusted: the result is taken to be the lower-case form of the argument,
/// which depends on nothing but the characters of the argument.
#[verifier::external_body]
pub(crate) fn lowercase(s: &str) -> (lower: String)
    ensures
        lower@ == lowercase_of(s@),
{
    s.to_lowercase()
}

/// The strings of a list, each in lower case.
pub fn lowercase_all(list: &Vec<String>) -> (lower: Vec<String>)
    ensures
        lower.deep_view() == lowercased(list.deep_view()),
{
    let mut lower: Vec<String> = Vec::new();
    let mut i: usize = 0;
    while i < list.len()
        invariant
            i <= list.len(),
            lower@.len() == i,
            forall|k: int| 0 <= k < i ==> (#[trigger] lower@[k])@ == lowercase_of(list@[k]@),
        decreases list.len() - i,
    {
        lower.push(lowercase(list[i].as_str()));
        i += 1;
    }
    assert(lower.deep_view() =~= lowercased(list.deep_view()));
    lower
}

} // verus!
