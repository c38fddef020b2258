//! Reading the tree: the pattern is expanded in a directory, each match is
//! classified, and the directories among the matches are read in turn.
//!
//! What the file system answers is not known to the verifier. The functions
//! here promise what holds of every answer; the rules that decide what is
//! served work on the list of matches, in `index`.

use vstd::prelude::*;
use crate::path::confined;
use crate::path::below;
use crate::path::has_dot_piece;
use crate::path::has_dots;
use crate::path::is_confined;
use crate::path::pattern_in;

verus! {

/// What a match of the pattern turned out to be.
#[derive(Clone, Copy, Debug, PartialEq, Eq, Structural)]
pub enum Kind {
    /// A directory: the pattern is expanded inside it as well.
    Directory,
    /// A regular file: it is served if it has a canonical path.
    File,
    /// Anything else, such as a link whose target is gone.
    Other,
}

/// One match of the pattern, as the survey found it.
#[derive(Clone, Debug, PartialEq, Eq)]
pub struct Match {
    /// The path as the expansion gave it.
    pub path: String,
    /// How many directories the survey went through to find it: 0 for a match
    /// of the pattern in the base directory.
    pub level: usize,
    /// What stands at that path.
    pub kind: Kind,
    /// The canonical path of a regular file; `None` where the file system
    /// gave none, and for every match that is not a regular file.
    pub canonical: Option<String>,
}

/// A match as plain text.
pub struct MatchView {
    pub path: Seq<char>,
    pub level: nat,
    pub kind: Kind,
    pub canonical: Option<Seq<char>>,
}

impl View for Match {
    type V = MatchView;

    open spec fn view(&self) -> MatchView {
        MatchView {
            path: self.path@,
            level: self.level as nat,
            kind: self.kind,
            canonical: match self.canonical {
                Some(text) => Some(text@),
                None => None,
            },
        }
    }
}

impl DeepView for Match {
    type V = MatchView;

    open spec fn deep_view(&self) -> MatchView {
        self@
    }
}

/// Only a regular file carries a canonical path.
pub open spec fn coherent(m: MatchView) -> bool {
    m.kind != Kind::File ==> m.canonical is None
}

/// Every match of the list is coherent.
pub open spec fn all_coherent(scan: Seq<MatchView>) -> bool {
    forall|i: int| 0 <= i < scan.len() ==> coherent(#[trigger] scan[i])
}

/// Expands a pattern with `glob::glob` and collects what its iterator yields,
/// in the iterator's order, each path as text (a name that is not valid UTF-8
/// in its lossy form). `None` stands for a pattern that `glob` refuses; inside
/// the list, `None` stands for an entry that `glob` reports as unreadable.
/// Which paths come back depends on the file system, so nothing is claimed of
/// them.
#[verifier::external_body]
fn expand(pattern_path: &str) -> (listing: Option<Vec<Option<String>>>) {
    match glob::glob(pattern_path) {
        Ok(paths) => Some(
            paths.map(|entry| entry.ok().map(|p| p.to_string_lossy().into_owned())).collect(),
        ),
        Err(_) => None,
    }
}

/// Asks `std::path::Path::is_dir` whether a directory stands at `path`, links
/// followed. The answer depends on the file system, so nothing is claimed of it.
#[verifier::external_body]
fn is_directory(path: &str) -> (answer: bool) {
    std::path::Path::new(path).is_dir()
}

/// Asks `std::path::Path::is_file` whether a regular file stands at `path`,
/// links followed. The answer depends on the file system, so nothing is
/// claimed of it.
#[verifier::external_body]
fn is_regular_file(path: &str) -> (answer: bool) {
    std::path::Path::new(path).is_file()
}

/// Asks `std::path::Path::canonicalize` for the absolute form of `path` with
/// every link and every `.` and `..` resolved, as text; `None` where the call
/// fails. The answer depends on the file system, so nothing is claimed of it.
#[verifier::external_body]
pub(crate) fn canonical_form(path: &str) -> (canonical: Option<String>) {
    match std::path::Path::new(path).canonicalize() {
        Ok(p) => Some(p.to_string_lossy().into_owned()),
        Err(_) => None,
    }
}

/// What stands at a path, from the two answers of the file system: a
/// directory where it says so, else a regular file where it says so, else
/// neither.
pub open spec fn kind_of(directory: bool, regular: bool) -> Kind {
    if directory {
        Kind::Directory
    } else if regular {
        Kind::File
    } else {
        Kind::Other
    }
}

impl Kind {
    /// The kind that the two answers of the file system give.
    pub fn of(directory: bool, regular: bool) -> (kind: Kind)
        ensures
            kind == kind_of(directory, regular),
    {
        if directory {
            Kind::Directory
        } else if regular {
            Kind::File
        } else {
            Kind::Other
        }
    }
}

/// The entries of an expansion that could be read, in their order.
pub open spec fn readable_of(entries: Seq<Option<Seq<char>>>) -> Seq<Seq<char>>
    decreases entries.len(),
{
    if entries.len() == 0 {
        Seq::empty()
    } else {
        match entries.last() {
            Some(path) => readable_of(entries.drop_last()).push(path),
            None => readable_of(entries.drop_last()),
        }
    }
}

/// The paths that one expansion gives to the survey: none where the pattern
/// was refused, else the entries that could be read, in their order.
pub open spec fn contributed(listing: Option<Seq<Option<Seq<char>>>>) -> Seq<Seq<char>> {
    match listing {
        Some(entries) => readable_of(entries),
        None => Seq::empty(),
    }
}

/// Picks the paths that one expansion gives to the survey. A pattern that was
/// refused gives none, and an entry that could not be read is left out.
pub fn readable(listing: Option<Vec<Option<String>>>) -> (paths: Vec<String>)
    ensures
        paths.deep_view() == contributed(listing.deep_view()),
{
    let mut paths: Vec<String> = Vec::new();
    if let Some(entries) = listing {
        let mut i: usize = 0;
        while i < entries.len()
            invariant
                i <= entries.len(),
                paths.deep_view() == readable_of(entries.deep_view().take(i as int)),
            decreases entries.len() - i,
        {
            let ghost seen = entries.deep_view().take(i as int);
            let ghost next = entries.deep_view().take(i + 1);
            assert(next.drop_last() =~= seen);
            assert(next.last() == entries[i as int].deep_view());
            if let Some(path) = &entries[i] {
                let ghost before = paths.deep_view();
                paths.push(path.clone());
                assert(paths.deep_view() =~= before.push(path@));
            }
            i += 1;
        }
        assert(entries.deep_view().take(entries.len() as int) =~= entries.deep_view());
    }
    paths
}

/// Tells what stands at `path`: a directory, else a regular file, else
/// neither. Both answers come from the file system, and [`Kind::of`] says
/// which kind each pair of answers gives.
fn classify(path: &str) -> (kind: Kind) {
    Kind::of(is_directory(path), is_regular_file(path))
}

impl MatchView {
    /// The canonical path under which this match is served from `base`, if
    /// it is served: that of a regular file that has one, where it lies below
    /// `base`.
    pub open spec fn served(self, base: Seq<char>) -> Option<Seq<char>> {
        match self.canonical {
            Some(canonical) => if self.kind == Kind::File && below(base, canonical) {
                Some(canonical)
            } else {
                None
            },
            None => None,
        }
    }

    /// The survey reads this match in turn: it is a directory, its path has
    /// no piece `.` or `..`, which would lead back to a directory that was
    /// read or up to one above, and its level is below the last one.
    pub open spec fn entered(self) -> bool {
        &&& self.kind == Kind::Directory
        &&& !has_dot_piece(self.path)
        &&& self.level < usize::MAX
    }
}

impl Match {
    /// The match that is listed for a path found at `level`, of the given
    /// kind, where `answer` is what the file system gave as its canonical
    /// path: the answer is kept for a regular file and for nothing else.
    pub fn listed(path: String, level: usize, kind: Kind, answer: Option<String>) -> (found: Match)
        ensures
            found@.path == path@,
            found@.level == level,
            found@.kind == kind,
            found@.canonical == if kind == Kind::File {
                answer.deep_view()
            } else {
                None
            },
    {
        let canonical = match kind {
            Kind::File => answer,
            _ => None,
        };
        Match { path, level, kind, canonical }
    }

    /// Tells whether the survey reads this match in turn.
    pub fn descends(&self) -> (enter: bool)
        ensures
            enter == self@.entered(),
    {
        match self.kind {
            Kind::Directory => self.level < usize::MAX && !has_dots(self.path.as_str()),
            _ => false,
        }
    }
}

/// Looks at one path that the expansion gave at `level`: classifies it, and
/// asks for the canonical path if it is a regular file. [`Match::listed`]
/// says what is listed for each answer.
fn inspect(path: &str, level: usize) -> (found: Match)
    ensures
        found@.path == path@,
        found@.level == level,
        coherent(found@),
{
    let kind = classify(path);
    let answer = match kind {
        Kind::File => canonical_form(path),
        _ => None,
    };
    Match::listed(path.to_owned(), level, kind, answer)
}

/// `longer` starts with `shorter`, match for match.
pub open spec fn extends(longer: Seq<MatchView>, shorter: Seq<MatchView>) -> bool {
    &&& shorter.len() <= longer.len()
    &&& forall|i: int| 0 <= i < shorter.len() ==> longer[i] == shorter[i]
}

/// `later` may stand right after `earlier` in a survey: it is found at the
/// same level, or further up, or one level down, and one level down only
/// where the survey entered `earlier`.
pub open spec fn follows(earlier: MatchView, later: MatchView) -> bool {
    &&& later.level <= earlier.level + 1
    &&& later.level == earlier.level + 1 ==> earlier.entered()
}

/// The matches from `start` on are the survey of one directory whose own
/// matches are at `level`: none is found further up, the first is found at
/// `level`, and each may stand after the one before it. So what is found
/// below a match comes right after it, and only a directory that the survey
/// entered has matches below it.
pub open spec fn nested(scan: Seq<MatchView>, start: int, level: nat) -> bool {
    &&& forall|k: int| start <= k < scan.len() ==> (#[trigger] scan[k]).level >= level
    &&& start < scan.len() ==> scan[start].level == level
    &&& forall|k: int|
        start <= k && k + 1 < scan.len() ==> follows(#[trigger] scan[k], scan[k + 1])
}

/// The paths of the matches found at `level`, in their order.
pub open spec fn paths_at(scan: Seq<MatchView>, level: nat) -> Seq<Seq<char>>
    decreases scan.len(),
{
    if scan.len() == 0 {
        Seq::empty()
    } else if scan.last().level == level {
        paths_at(scan.drop_last(), level).push(scan.last().path)
    } else {
        paths_at(scan.drop_last(), level)
    }
}

/// Matches that are added at other levels leave the paths at `level` as they
/// are.
pub proof fn lemma_paths_at_deeper(longer: Seq<MatchView>, shorter: Seq<MatchView>, level: nat)
    requires
        extends(longer, shorter),
        forall|k: int| shorter.len() <= k < longer.len() ==> (#[trigger] longer[k]).level != level,
    ensures
        paths_at(longer, level) == paths_at(shorter, level),
    decreases longer.len(),
{
    if longer.len() == shorter.len() {
        assert(longer =~= shorter);
    } else {
        let front = longer.drop_last();
        assert(longer.last() == longer[longer.len() - 1]);
        assert forall|i: int| 0 <= i < shorter.len() implies front[i] == shorter[i] by {
            assert(front[i] == longer[i]);
        }
        assert forall|k: int| shorter.len() <= k < front.len() implies (#[trigger] front[k]).level
            != level by {
            assert(front[k] == longer[k]);
        }
        lemma_paths_at_deeper(front, shorter, level);
    }
}

/// Lists what stands at each of `paths`, the matches that one expansion gave
/// at `level`: for each path in turn its match, and, where the survey enters
/// the match, right after it what the survey of that directory adds.
///
/// What stands at a path depends on the file system. Whatever it holds, what
/// `scan` held stays in front, what is added is coherent and nested from
/// `level`, and the matches added at `level` are those of `paths`, one for
/// each and in their order.
pub fn walk_level(paths: &Vec<String>, pattern: &str, level: usize, scan: &mut Vec<Match>)
    requires
        all_coherent(old(scan).deep_view()),
    ensures
        extends(final(scan).deep_view(), old(scan).deep_view()),
        all_coherent(final(scan).deep_view()),
        nested(final(scan).deep_view(), old(scan).len() as int, level as nat),
        paths_at(final(scan).deep_view().skip(old(scan).len() as int), level as nat)
            == paths.deep_view(),
    decreases usize::MAX - level, 0nat,
{
    let ghost start = scan.len() as int;
    let mut i: usize = 0;
    assert(scan.deep_view().skip(start) =~= Seq::<MatchView>::empty());
    assert(paths.deep_view().take(0) =~= Seq::<Seq<char>>::empty());
    while i < paths.len()
        invariant
            i <= paths.len(),
            start == old(scan).len(),
            extends(scan.deep_view(), old(scan).deep_view()),
            all_coherent(scan.deep_view()),
            nested(scan.deep_view(), start, level as nat),
            paths_at(scan.deep_view().skip(start), level as nat) == paths.deep_view().take(
                i as int,
            ),
        decreases paths.len() - i,
    {
        let found = inspect(paths[i].as_str(), level);
        let enter = found.descends();
        let ghost before = scan.deep_view();
        scan.push(found);
        let ghost listed = scan.deep_view();
        assert(listed =~= before.push(found@));
        assert(nested(listed, start, level as nat)) by {
            assert forall|k: int| start <= k && k + 1 < listed.len() implies follows(
                #[trigger] listed[k],
                listed[k + 1],
            ) by {
                if k + 1 < before.len() {
                    assert(follows(before[k], before[k + 1]));
                } else {
                    assert(before[k].level >= level);
                }
            }
        }
        assert(paths_at(listed.skip(start), level as nat) == paths.deep_view().take(i + 1)) by {
            assert(listed.skip(start) =~= before.skip(start).push(found@));
            assert(listed.skip(start).drop_last() =~= before.skip(start));
            assert(paths.deep_view().take(i + 1) =~= paths.deep_view().take(i as int).push(
                paths[i as int]@,
            ));
        }
        if enter {
            walk_dir(paths[i].as_str(), pattern, level + 1, scan);
            let ghost entered = scan.deep_view();
            assert(nested(entered, start, level as nat)) by {
                assert forall|k: int| start <= k < entered.len() implies (
                #[trigger] entered[k]).level >= level by {
                    if k < listed.len() {
                        assert(entered[k] == listed[k]);
                    }
                }
                assert forall|k: int| start <= k && k + 1 < entered.len() implies follows(
                    #[trigger] entered[k],
                    entered[k + 1],
                ) by {
                    if k + 1 < listed.len() {
                        assert(entered[k] == listed[k]);
                        assert(entered[k + 1] == listed[k + 1]);
                        assert(follows(listed[k], listed[k + 1]));
                    } else if k + 1 == listed.len() {
                        assert(entered[k] == listed[k]);
                        assert(listed[k] == found@);
                        assert(entered[k + 1].level == level + 1);
                    }
                }
                assert(entered[start] == listed[start]);
            }
            assert(paths_at(entered.skip(start), level as nat) == paths_at(
                listed.skip(start),
                level as nat,
            )) by {
                let longer = entered.skip(start);
                let shorter = listed.skip(start);
                assert forall|j: int| 0 <= j < shorter.len() implies longer[j] == shorter[j] by {
                    assert(entered[j + start] == listed[j + start]);
                }
                assert forall|k: int| shorter.len() <= k < longer.len() implies (
                #[trigger] longer[k]).level != level by {
                    assert(longer[k] == entered[k + start]);
                    assert(entered[k + start].level >= level + 1);
                }
                lemma_paths_at_deeper(longer, shorter, level as nat);
            }
        }
        i += 1;
    }
    assert(paths.deep_view().take(paths.len() as int) =~= paths.deep_view());
}

/// Expands `pattern` in `dir`, whose matches are at `level`, and lists what
/// it matched: the pattern that is expanded is [`pattern_in`] of the two, the
/// paths that count are those that [`readable`] picks, and [`walk_level`]
/// lists them.
fn walk_dir(dir: &str, pattern: &str, level: usize, scan: &mut Vec<Match>)
    requires
        all_coherent(old(scan).deep_view()),
    ensures
        extends(final(scan).deep_view(), old(scan).deep_view()),
        all_coherent(final(scan).deep_view()),
        nested(final(scan).deep_view(), old(scan).len() as int, level as nat),
    decreases usize::MAX - level, 1nat,
{
    let expansion = pattern_in(dir, pattern);
    let paths = readable(expand(expansion.as_str()));
    walk_level(&paths, pattern, level, scan);
}

/// Surveys the tree below `base`: the matches of `pattern` in `base`, each
/// directory among them followed at once by its own survey.
///
/// A pattern that is not confined is not expanded: the list is empty. In
/// each directory the pattern is expanded as [`pattern_in`] sets it, so the
/// directory's name stands for itself and the pattern starts in the
/// directory. A piece of the pattern that begins with a dot and holds a
/// wildcard can still match the entries `.` and `..`, and so the list can
/// hold matches from above `base`. A directory among them is listed and not
/// read: the survey reads no match whose path has a piece `.` or `..`, nor a
/// directory `usize::MAX` levels below `base`. Which of the files listed are
/// served is for the index to say.
///
/// Which matches a confined pattern gives depends on the file system.
/// Whatever it holds, the list has the form of a survey: no match but a
/// regular file carries a canonical path, the first match is found at level
/// 0, and the matches are nested, so that only a directory that was entered
/// has matches below it.
pub fn survey(base: &str, pattern: &str) -> (scan: Vec<Match>)
    ensures
        !confined(pattern@) ==> scan.deep_view().len() == 0,
        all_coherent(scan.deep_view()),
        nested(scan.deep_view(), 0, 0),
{
    let mut scan: Vec<Match> = Vec::new();
    if is_confined(pattern) {
        walk_dir(base, pattern, 0, &mut scan);
    }
    scan
}

} // verus!
