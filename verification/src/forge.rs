//! Choosing the latest stable loader build for a game version from the
//! build strings that a loader's metadata feed lists.

use crate::natural::{compare_natural, natural_order};
use crate::text::{
    chars_of, occurs_after, occurs_in, second_field, second_field_of, starts_with,
};
use crate::xml::{text_nodes, texts_among, xml_malformed, xml_pieces};
use vstd::prelude::*;
use vstd::string::{StrSliceExecFns, StringExecFns};

verus! {

/// Why no loader build could be named.
#[derive(Debug, Clone, Copy, PartialEq, Eq, Structural)]
pub enum LoaderBuildError {
    /// The feed lists no stable build for the game version.
    NoStableBuild,
    /// The feed is not of the kind that the loader publishes.
    WrongFeed,
    /// The feed is not well-formed and cannot be read.
    MalformedFeed,
}

/// What every build string for a game version starts with: the game
/// version and a hyphen.
pub open spec fn build_prefix(game_version: Seq<char>) -> Seq<char> {
    game_version.push('-')
}

/// Whether a build string names a stable build for the game version: it
/// starts with the game version and a hyphen, and what follows holds none of
/// the marks `alpha`, `beta` and `rc`.
pub open spec fn is_stable_build(build: Seq<char>, game_version: Seq<char>) -> bool {
    let prefix = build_prefix(game_version);
    let rest = build.skip(prefix.len() as int);
    &&& prefix.is_prefix_of(build)
    &&& !occurs_in("alpha"@, rest)
    &&& !occurs_in("beta"@, rest)
    &&& !occurs_in("rc"@, rest)
}

/// The stable builds for a game version among the builds of a feed, in the
/// order of the feed.
pub open spec fn stable_builds(builds: Seq<Seq<char>>, game_version: Seq<char>) -> Seq<
    Seq<char>,
> {
    builds.filter(|build: Seq<char>| is_stable_build(build, game_version))
}

/// The part of a build string by which builds are ranked: what stands
/// between its first hyphen and its second.
pub open spec fn build_key(build: Seq<char>) -> Seq<char> {
    second_field(build, '-')
}

/// The position, among the first `n` builds, of the one that leads: going
/// through the builds in order, a build takes the lead from the leader so
/// far only where its key ranks after the leader's in natural order.
pub open spec fn leader(builds: Seq<Seq<char>>, n: int) -> int
    decreases n,
{
    if n <= 1 {
        0
    } else {
        let so_far = leader(builds, n - 1);
        if natural_order(build_key(builds[n - 1]), build_key(builds[so_far])) > 0 {
            n - 1
        } else {
            so_far
        }
    }
}

/// The name of the latest stable build for a game version: the loader's
/// own token, then the leading stable build without the game version at its
/// start.  Nothing where the feed lists no stable build.
pub open spec fn latest_build(builds: Seq<Seq<char>>, game_version: Seq<char>, token: Seq<char>)
    -> Option<Seq<char>> {
    let stable = stable_builds(builds, game_version);
    if stable.len() == 0 {
        None
    } else {
        Some(token + stable[leader(stable, stable.len() as int)].skip(game_version.len() as int))
    }
}

/// The leader is one of the builds it was chosen among, and no later one of
/// them has a key that ranks after its key.
pub proof fn lemma_leader_holds(builds: Seq<Seq<char>>, n: int)
    requires
        1 <= n <= builds.len(),
    ensures
        0 <= leader(builds, n) < n,
        forall|j: int|
            leader(builds, n) < j < n ==> natural_order(
                build_key(#[trigger] builds[j]),
                build_key(builds[leader(builds, n)]),
            ) <= 0,
    decreases n,
{
    if n > 1 {
        lemma_leader_holds(builds, n - 1);
    }
}

/// Where natural order is a total preorder on the keys of the builds, the
/// leader is the first of the builds whose key no other key ranks after:
/// the build that stands first once the builds are sorted, latest first,
/// with builds of equal rank left in their order.
pub proof fn lemma_leader_is_first_maximum(builds: Seq<Seq<char>>, n: int)
    requires
        1 <= n <= builds.len(),
        forall|i: int, j: int|
            0 <= i < n && 0 <= j < n ==> (natural_order(
                build_key(#[trigger] builds[i]),
                build_key(#[trigger] builds[j]),
            ) > 0 <==> natural_order(build_key(builds[j]), build_key(builds[i])) < 0),
        forall|i: int, j: int, k: int|
            0 <= i < n && 0 <= j < n && 0 <= k < n && natural_order(
                build_key(#[trigger] builds[i]),
                build_key(#[trigger] builds[j]),
            ) <= 0 && natural_order(build_key(builds[j]), build_key(#[trigger] builds[k])) <= 0
                ==> natural_order(build_key(builds[i]), build_key(builds[k])) <= 0,
    ensures
        forall|j: int|
            0 <= j < n ==> natural_order(
                build_key(#[trigger] builds[j]),
                build_key(builds[leader(builds, n)]),
            ) <= 0,
        forall|j: int|
            0 <= j < leader(builds, n) ==> natural_order(
                build_key(#[trigger] builds[j]),
                build_key(builds[leader(builds, n)]),
            ) < 0,
    decreases n,
{
    lemma_leader_holds(builds, n);
    if n > 1 {
        lemma_leader_is_first_maximum(builds, n - 1);
        lemma_leader_holds(builds, n - 1);
        let before = leader(builds, n - 1);
        let now = leader(builds, n);
        let key = |i: int| build_key(builds[i]);
        if now == n - 1 {
            assert(natural_order(key(n - 1), key(before)) > 0);
            assert(natural_order(key(before), key(n - 1)) < 0);
            assert forall|j: int| 0 <= j < n implies natural_order(
                build_key(#[trigger] builds[j]),
                build_key(builds[now]),
            ) <= 0 by {
                if j < n - 1 {
                    assert(natural_order(key(j), key(before)) <= 0);
                    assert(natural_order(key(before), key(n - 1)) <= 0);
                } else {
                    assert(natural_order(key(n - 1), key(n - 1)) > 0 <==> natural_order(
                        key(n - 1),
                        key(n - 1),
                    ) < 0);
                }
            }
            assert forall|j: int| 0 <= j < now implies natural_order(
                build_key(#[trigger] builds[j]),
                build_key(builds[now]),
            ) < 0 by {
                assert(natural_order(key(j), key(before)) <= 0);
                if natural_order(key(j), key(n - 1)) >= 0 {
                    // then the newcomer would rank no later than an earlier build
                    assert(natural_order(key(n - 1), key(j)) <= 0);
                    assert(natural_order(key(n - 1), key(before)) <= 0);
                }
            }
        }
    } else {
        assert(natural_order(build_key(builds[0]), build_key(builds[0])) > 0 <==> natural_order(
            build_key(builds[0]),
            build_key(builds[0]),
        ) < 0);
    }
}

/// Whether a build string names a stable build for the game version.
pub fn is_stable(build: &str, game_version: &str) -> (stable: bool)
    ensures
        stable == is_stable_build(build@, game_version@),
{
    let chars = chars_of(build);
    let mut prefix = chars_of(game_version);
    prefix.push('-');
    if !starts_with(&chars, &prefix) {
        return false;
    }
    let from = prefix.len();
    let alpha = chars_of("alpha");
    let beta = chars_of("beta");
    let rc = chars_of("rc");
    !occurs_after(&chars, from, &alpha) && !occurs_after(&chars, from, &beta) && !occurs_after(
        &chars,
        from,
        &rc,
    )
}

/// The stable builds for a game version among the builds of a feed, in the
/// order of the feed.
pub fn keep_stable(builds: &Vec<String>, game_version: &str) -> (stable: Vec<String>)
    ensures
        stable.deep_view() == stable_builds(builds.deep_view(), game_version@),
{
    let mut stable: Vec<String> = Vec::new();
    let ghost all = builds.deep_view();
    let ghost wanted = |build: Seq<char>| is_stable_build(build, game_version@);
    let mut i: usize = 0;
    proof {
        assert(all.take(0).filter(wanted) =~= Seq::<Seq<char>>::empty()) by {
            all.take(0).lemma_filter_len(wanted);
        }
        assert(stable.deep_view() =~= all.take(0).filter(wanted));
    }
    while i < builds.len()
        invariant
            i <= builds.len(),
            all == builds.deep_view(),
            wanted == |build: Seq<char>| is_stable_build(build, game_version@),
            stable.deep_view() == all.take(i as int).filter(wanted),
        decreases builds.len() - i,
    {
        let ghost before = stable.deep_view();
        proof {
            all.lemma_take_succ_push(i as int);
            all.take(i as int).lemma_filter_push(all[i as int], wanted);
        }
        if is_stable(builds[i].as_str(), game_version) {
            stable.push(builds[i].clone());
            assert(stable.deep_view() =~= before.push(all[i as int]));
        }
        i += 1;
    }
    proof {
        all.lemma_take_len();
    }
    stable
}

/// The position of the build that leads among `builds`; none where there
/// are no builds.
pub fn leading_build(builds: &Vec<String>) -> (at: Option<usize>)
    ensures
        match at {
            Some(at) => builds@.len() > 0 && at == leader(
                builds.deep_view(),
                builds@.len() as int,
            ) && at < builds@.len(),
            None => builds@.len() == 0,
        },
{
    if builds.len() == 0 {
        return None;
    }
    let mut at: usize = 0;
    let mut key = second_field_of(builds[0].as_str(), '-');
    let mut n: usize = 1;
    while n < builds.len()
        invariant
            1 <= n <= builds.len(),
            at == leader(builds.deep_view(), n as int),
            at < n,
            key@ == build_key(builds.deep_view()[at as int]),
        decreases builds.len() - n,
    {
        let challenger = second_field_of(builds[n].as_str(), '-');
        if compare_natural(challenger.as_str(), key.as_str()) > 0 {
            at = n;
            key = challenger;
        }
        n += 1;
    }
    Some(at)
}

/// Names the latest stable build for a game version among the build
/// strings of a feed.
///
/// A build counts if it starts with the game version and a hyphen and what
/// follows holds none of `alpha`, `beta` and `rc`.  Of those, the one whose
/// part between its first two hyphens ranks last in natural order leads;
/// of several that rank alike, the first leads.  The name is `token`
/// followed by the leading build without the game version at its start.
pub fn select_latest_build(builds: &Vec<String>, game_version: &str, token: &str) -> (name:
    Option<String>)
    ensures
        match name {
            Some(name) => latest_build(builds.deep_view(), game_version@, token@) == Some(name@),
            None => latest_build(builds.deep_view(), game_version@, token@) is None,
        },
{
    let stable = keep_stable(builds, game_version);
    let at = match leading_build(&stable) {
        Some(at) => at,
        None => {
            return None;
        },
    };
    let build = stable[at].as_str();
    let skipped = game_version.unicode_len();
    let total = build.unicode_len();
    proof {
        let all = builds.deep_view();
        let kept = stable_builds(all, game_version@);
        all.lemma_filter_pred(|build: Seq<char>| is_stable_build(build, game_version@), at as int);
        assert(is_stable_build(kept[at as int], game_version@));
        assert(build_prefix(game_version@).len() == game_version@.len() + 1);
        assert(build@.skip(skipped as int) =~= build@.subrange(skipped as int, total as int));
    }
    let rest = build.substring_char(skipped, total);
    Some(String::from_str(token).concat(rest))
}

/// The name of the latest stable build that a Maven metadata document
/// lists for a game version, every text node of the document counting as a
/// build string; or the reason why there is none: the document is not
/// well-formed, or it lists no stable build.
pub open spec fn metadata_build(metadata: Seq<char>, game_version: Seq<char>, token: Seq<char>)
    -> Result<Seq<char>, LoaderBuildError> {
    if xml_malformed(metadata) {
        Err(LoaderBuildError::MalformedFeed)
    } else {
        match latest_build(texts_among(xml_pieces(metadata)), game_version, token) {
            Some(name) => Ok(name),
            None => Err(LoaderBuildError::NoStableBuild),
        }
    }
}

/// Names the latest stable build for a game version, given the text of a
/// loader's Maven metadata.
///
/// A document that is not well-formed is refused.  Otherwise every text
/// node of the document counts as a build string; see
/// [`select_latest_build`] for the choice among them.
pub fn latest_in_metadata(metadata: &str, game_version: &str, token: &str) -> (name: Result<
    String,
    LoaderBuildError,
>)
    ensures
        match name {
            Ok(name) => metadata_build(metadata@, game_version@, token@) == Ok::<
                Seq<char>,
                LoaderBuildError,
            >(name@),
            Err(reason) => metadata_build(metadata@, game_version@, token@) == Err::<
                Seq<char>,
                LoaderBuildError,
            >(reason),
        },
{
    let builds = match text_nodes(metadata) {
        Ok(builds) => builds,
        Err(_) => {
            return Err(LoaderBuildError::MalformedFeed);
        },
    };
    match select_latest_build(&builds, game_version, token) {
        Some(name) => Ok(name),
        None => Err(LoaderBuildError::NoStableBuild),
    }
}

/// Names the latest stable Forge build for a game version, given the
/// text of Forge's Maven metadata.  The name starts with `forge`.
pub fn get_latest_forge_version(metadata: &str, mc_version: &str) -> (name: Result<
    String,
    LoaderBuildError,
>)
    ensures
        match name {
            Ok(name) => metadata_build(metadata@, mc_version@, "forge"@) == Ok::<
                Seq<char>,
                LoaderBuildError,
            >(name@),
            Err(reason) => metadata_build(metadata@, mc_version@, "forge"@) == Err::<
                Seq<char>,
                LoaderBuildError,
            >(reason),
        },
{
    latest_in_metadata(metadata, mc_version, "forge")
}

} // verus!
