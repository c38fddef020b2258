//! What holds of the index whatever the tree looks like, stated over a list
//! of matches as a survey gives it.

use vstd::prelude::*;
use crate::index::resolved;
use crate::index::servable;
use crate::index::lemma_servable_push;
use crate::path::below;
use crate::path::is_absolute;
use crate::path::joined;
use crate::path::relative;
use crate::path::stem;
use crate::scan::Kind;
use crate::scan::MatchView;

verus! {

/// The match at `i` is served from `base`, and under a path that no earlier
/// match is served under.
pub open spec fn first_served(base: Seq<char>, scan: Seq<MatchView>, i: int) -> bool {
    &&& scan[i].served(base) is Some
    &&& forall|j: int| 0 <= j < i ==> (#[trigger] scan[j]).served(base) != scan[i].served(base)
}

/// The number of distinct files that a list of matches offers below `base`:
/// each regular file with a canonical path below `base` counts once, where
/// that path first occurs.
pub open spec fn distinct_served(base: Seq<char>, scan: Seq<MatchView>) -> nat
    decreases scan.len(),
{
    if scan.len() == 0 {
        0
    } else {
        distinct_served(base, scan.drop_last()) + if first_served(base, scan, scan.len() - 1) {
            1nat
        } else {
            0nat
        }
    }
}

/// A regular file among the matches whose canonical path lies below the base
/// directory is found under that path once the matches are absorbed,
/// whatever the index held before: a request that canonicalizes to the file's
/// canonical path gets that path.
pub proof fn law_matched_file_is_found(
    base: Seq<char>,
    before: Set<Seq<char>>,
    scan: Seq<MatchView>,
    i: int,
)
    requires
        0 <= i < scan.len(),
        scan[i].kind == Kind::File,
        scan[i].canonical matches Some(canonical) && below(base, canonical),
    ensures
        resolved(base, before.union(servable(base, scan)), scan[i].canonical)
            == scan[i].canonical,
{
    assert(scan[i].served(base) == Some(scan[i].canonical->0));
    assert(servable(base, scan).contains(scan[i].canonical->0));
}

/// A request that canonicalizes to a path outside the base directory finds
/// nothing, whatever the index holds and whatever stands at that path.
pub proof fn law_outside_is_not_found(
    base: Seq<char>,
    indexed: Set<Seq<char>>,
    canonical: Seq<char>,
)
    requires
        !below(base, canonical),
    ensures
        resolved(base, indexed, Some(canonical)) is None,
{
}

/// Whatever a list of matches holds, every path that it adds to the index
/// lies below the base directory: a match whose canonical path lies
/// elsewhere adds nothing.
pub proof fn law_index_stays_below(base: Seq<char>, scan: Seq<MatchView>, path: Seq<char>)
    requires
        servable(base, scan).contains(path),
    ensures
        below(base, path),
{
    let i = choose|i: int| 0 <= i < scan.len() && (#[trigger] scan[i]).served(base) == Some(path);
    assert(scan[i].served(base) == Some(path));
}

/// The index built from a list of matches is finite, and its size is the
/// number of distinct files that the list offers below the base directory:
/// directories, other matches, files without a canonical path and files whose
/// canonical path lies outside do not count, and a file that is matched twice
/// counts once.
pub proof fn law_count_is_distinct_served(base: Seq<char>, scan: Seq<MatchView>)
    ensures
        servable(base, scan).finite(),
        Set::<Seq<char>>::empty().union(servable(base, scan)) == servable(base, scan),
        servable(base, scan).len() == distinct_served(base, scan),
        servable(base, scan).len() <= scan.len(),
    decreases scan.len(),
{
    assert(Set::<Seq<char>>::empty().union(servable(base, scan)) =~= servable(base, scan));
    if scan.len() == 0 {
        assert(servable(base, scan) =~= Set::<Seq<char>>::empty());
    } else {
        let shorter = scan.drop_last();
        let m = scan.last();
        law_count_is_distinct_served(base, shorter);
        assert(scan =~= shorter.push(m));
        lemma_servable_push(base, shorter, m);
        match m.served(base) {
            Some(p) => {
                if servable(base, shorter).contains(p) {
                    let j = choose|j: int|
                        0 <= j < shorter.len() && (#[trigger] shorter[j]).served(base) == Some(p);
                    assert(scan[j] == shorter[j]);
                    assert(!first_served(base, scan, scan.len() - 1));
                    assert(servable(base, shorter).insert(p) =~= servable(base, shorter));
                } else {
                    assert forall|j: int| 0 <= j < scan.len() - 1 implies (
                    #[trigger] scan[j]).served(base) != m.served(base) by {
                        assert(scan[j] == shorter[j]);
                        if shorter[j].served(base) == Some(p) {
                            assert(servable(base, shorter).contains(p));
                        }
                    }
                    assert(first_served(base, scan, scan.len() - 1));
                }
            },
            None => {
                assert(!first_served(base, scan, scan.len() - 1));
            },
        }
    }
}

/// Building twice from the same matches gives the index that building once
/// gives.
pub proof fn law_build_is_idempotent(
    base: Seq<char>,
    before: Set<Seq<char>>,
    scan: Seq<MatchView>,
)
    ensures
        before.union(servable(base, scan)).union(servable(base, scan)) == before.union(
            servable(base, scan),
        ),
{
    assert(before.union(servable(base, scan)).union(servable(base, scan)) =~= before.union(
        servable(base, scan),
    ));
}

/// A path that a build put into the index comes back exactly from a lookup of
/// itself; and joining its relative form onto the base directory gives the
/// path again, unless that form starts with a separator.
pub proof fn law_indexed_path_round_trips(
    base: Seq<char>,
    before: Set<Seq<char>>,
    scan: Seq<MatchView>,
    path: Seq<char>,
)
    requires
        servable(base, scan).contains(path),
    ensures
        resolved(base, before.union(servable(base, scan)), Some(path)) == Some(path),
        !is_absolute(relative(base, path)) ==> joined(base, relative(base, path)) == path,
{
    law_index_stays_below(base, scan, path);
    if !is_absolute(relative(base, path)) {
        assert(stem(base) + relative(base, path) =~= path);
    }
}

} // verus!
