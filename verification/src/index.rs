//! The index of servable files, and the lookup that answers a request.

use vstd::prelude::*;
use vstd::hash_set::StringHashSet;
use vstd::string::*;
use crate::path::join;
use crate::path::joined;
use crate::path::below;
use crate::path::confined;
use crate::path::is_below;
use crate::scan::canonical_form;
use crate::scan::survey;
use crate::scan::Kind;
use crate::scan::Match;
use crate::scan::MatchView;

verus! {

/// The canonical paths that a list of matches offers below `base`: those of
/// its regular files that have one, where it lies below `base`. A file whose
/// canonical path lies elsewhere, such as one behind a link that leads out of
/// `base`, is not offered.
pub open spec fn servable(base: Seq<char>, scan: Seq<MatchView>) -> Set<Seq<char>> {
    Set::new(
        |p: Seq<char>|
            exists|i: int| 0 <= i < scan.len() && (#[trigger] scan[i]).served(base) == Some(p),
    )
}

/// What a lookup gives for the outcome of canonicalizing a request: the
/// canonical path itself if it lies below `base` and the index holds it,
/// letter for letter, and nothing otherwise. A request that has no canonical
/// path finds nothing.
pub open spec fn resolved(
    base: Seq<char>,
    indexed: Set<Seq<char>>,
    outcome: Option<Seq<char>>,
) -> Option<Seq<char>> {
    match outcome {
        Some(canonical) => if below(base, canonical) && indexed.contains(canonical) {
            Some(canonical)
        } else {
            None
        },
        None => None,
    }
}

/// The base directory that a server keeps: the canonical path of the one
/// that was given, and the given text where the file system has none for it.
pub open spec fn settled(given: Seq<char>, outcome: Option<Seq<char>>) -> Seq<char> {
    match outcome {
        Some(canonical) => canonical,
        None => given,
    }
}

/// The pattern that selects every name at a level.
pub open spec fn match_everything() -> Seq<char> {
    seq!['*']
}

/// The pattern to serve under: the one that was set, and the one that matches
/// everything where none was.
pub fn pattern_or_default(pattern: Option<String>) -> (chosen: String)
    ensures
        chosen@ == match pattern {
            Some(set) => set@,
            None => match_everything(),
        },
{
    match pattern {
        Some(set) => set,
        None => {
            proof {
                reveal_strlit("*");
            }
            assert("*"@ =~= match_everything());
            String::from_str("*")
        },
    }
}

/// A file server's index: the directory it serves, the pattern that selects
/// files in it, and the canonical paths of the files found.
pub struct FileServer {
    base_path: String,
    pattern: String,
    file_paths: StringHashSet,
}

/// A file server as plain values.
pub struct FileServerView {
    pub base_path: Seq<char>,
    pub pattern: Seq<char>,
    pub indexed: Set<Seq<char>>,
}

/// What is sent back for a request.
#[derive(Debug, PartialEq, Eq)]
pub enum Reply {
    /// Success: the body is the content of the file at this canonical path.
    File(String),
    /// The request names nothing that is served: no body.
    NotFound,
}

impl Reply {
    /// The canonical path of the file to send, if there is one.
    pub open spec fn file(&self) -> Option<Seq<char>> {
        match self {
            Reply::File(path) => Some(path@),
            Reply::NotFound => None,
        }
    }

    /// The reply that the result of a lookup calls for.
    pub fn from_lookup(found: Option<String>) -> (reply: Reply)
        ensures
            reply.file() == found.deep_view(),
    {
        match found {
            Some(path) => Reply::File(path),
            None => Reply::NotFound,
        }
    }

    /// The status code of the reply: 200 with a file, 404 without.
    pub fn status(&self) -> (code: u16)
        ensures
            code == if self.file() is Some { 200u16 } else { 404u16 },
    {
        match self {
            Reply::File(_) => 200,
            Reply::NotFound => 404,
        }
    }
}

impl View for FileServer {
    type V = FileServerView;

    closed spec fn view(&self) -> FileServerView {
        FileServerView {
            base_path: self.base_path@,
            pattern: self.pattern@,
            indexed: self.file_paths@,
        }
    }
}

impl FileServer {
    /// A server with an empty index for the files that `pattern` selects
    /// below a base directory: the canonical path that the file system gave
    /// for it, or `given` as it stands where it gave none.
    pub fn with_canonical(given: String, outcome: Option<String>, pattern: String) -> (server:
        FileServer)
        ensures
            server@.base_path == settled(given@, outcome.deep_view()),
            server@.pattern == pattern@,
            server@.indexed == Set::<Seq<char>>::empty(),
    {
        let base_path = match outcome {
            Some(canonical) => canonical,
            None => given,
        };
        FileServer { base_path, pattern, file_paths: StringHashSet::new() }
    }

    /// A server for the files below `base_path` that `pattern` selects, with an
    /// empty index. The base directory is kept in its canonical form.
    ///
    /// Which form that is depends on the file system:
    /// [`FileServer::with_canonical`] says what is kept for each answer.
    pub fn new(base_path: String, pattern: String) -> (server: FileServer)
        ensures
            server@.pattern == pattern@,
            server@.indexed == Set::<Seq<char>>::empty(),
    {
        let outcome = canonical_form(base_path.as_str());
        FileServer::with_canonical(base_path, outcome, pattern)
    }

    /// Adds to the index what a list of matches offers below the base
    /// directory. Directories, matches that are neither file nor directory,
    /// files without a canonical path and files whose canonical path lies
    /// outside the base directory add nothing; a path that is already indexed
    /// is not added again.
    pub fn absorb(&mut self, scan: &Vec<Match>)
        ensures
            final(self)@.base_path == old(self)@.base_path,
            final(self)@.pattern == old(self)@.pattern,
            final(self)@.indexed == old(self)@.indexed.union(
                servable(old(self)@.base_path, scan.deep_view()),
            ),
    {
        let ghost base = self@.base_path;
        let mut i: usize = 0;
        while i < scan.len()
            invariant
                i <= scan.len(),
                base == old(self)@.base_path,
                self@.base_path == old(self)@.base_path,
                self@.pattern == old(self)@.pattern,
                self@.indexed == old(self)@.indexed.union(
                    servable(base, scan.deep_view().take(i as int)),
                ),
            decreases scan.len() - i,
        {
            let ghost seen = scan.deep_view().take(i as int);
            let ghost next = scan.deep_view().take(i + 1);
            let ghost m = scan[i as int]@;
            assert(next =~= seen.push(m));
            proof {
                lemma_servable_push(base, seen, m);
            }
            if let Kind::File = scan[i].kind {
                if let Some(canonical) = &scan[i].canonical {
                    if is_below(self.base_path.as_str(), canonical.as_str()) {
                        self.file_paths.insert(canonical.clone());
                    }
                }
            }
            assert(self@.indexed =~= old(self)@.indexed.union(servable(base, next)));
            i += 1;
        }
        assert(scan.deep_view().take(scan.len() as int) =~= scan.deep_view());
    }

    /// Builds the index: surveys the tree below the base directory and absorbs
    /// what the survey found.
    ///
    /// A pattern that is not confined is not expanded, and the index stays as
    /// it is. What a confined pattern finds depends on the file system.
    /// Whatever it holds, the base directory and the pattern stay as they
    /// are, nothing leaves the index, and every path that enters it lies
    /// below the base directory.
    pub fn init(&mut self)
        ensures
            final(self)@.base_path == old(self)@.base_path,
            final(self)@.pattern == old(self)@.pattern,
            old(self)@.indexed.subset_of(final(self)@.indexed),
            !confined(old(self)@.pattern) ==> final(self)@.indexed == old(self)@.indexed,
            forall|p: Seq<char>|
                final(self)@.indexed.contains(p) && !old(self)@.indexed.contains(p) ==> below(
                    old(self)@.base_path,
                    p,
                ),
    {
        let scan = survey(self.base_path.as_str(), self.pattern.as_str());
        self.absorb(&scan);
        proof {
            let base = old(self)@.base_path;
            if !confined(old(self)@.pattern) {
                assert(servable(base, scan.deep_view()) =~= Set::<Seq<char>>::empty());
                assert(self@.indexed =~= old(self)@.indexed);
            }
            assert forall|p: Seq<char>|
                self@.indexed.contains(p) && !old(self)@.indexed.contains(p) implies below(
                base,
                p,
            ) by {
                assert(servable(base, scan.deep_view()).contains(p));
            }
        }
    }

    /// The number of indexed files.
    pub fn count(&self) -> (n: usize)
        ensures
            n == self@.indexed.len(),
    {
        self.file_paths.len()
    }

    /// Looks an outcome of canonicalization up in the index. A path that does
    /// not lie below the base directory is not found, whatever the index
    /// holds.
    pub fn lookup(&self, outcome: Option<String>) -> (found: Option<String>)
        ensures
            found.deep_view() == resolved(self@.base_path, self@.indexed, outcome.deep_view()),
    {
        match outcome {
            Some(canonical) => {
                if !is_below(self.base_path.as_str(), canonical.as_str()) {
                    return None;
                }
                match self.file_paths.get(canonical.as_str()) {
                    Some(indexed) => Some(indexed.clone()),
                    None => None,
                }
            },
            None => None,
        }
    }

    /// The path that a request stands for before it is canonicalized: the
    /// requested path joined onto the base directory.
    pub fn target(&self, requested: &str) -> (path: String)
        ensures
            path@ == joined(self@.base_path, requested@),
    {
        join(self.base_path.as_str(), requested)
    }

    /// Resolves a requested path: canonicalizes its [`FileServer::target`] and
    /// looks the outcome up in the index. The raw request is never compared
    /// with the index.
    ///
    /// Whether the target has a canonical form, and which, depends on the file
    /// system. Whatever it answers, a path that comes back is indexed and lies
    /// below the base directory: [`FileServer::lookup`] says what is found for
    /// each answer.
    pub fn resolve(&self, requested: &str) -> (found: Option<String>)
        ensures
            found matches Some(path) ==> self@.indexed.contains(path@) && below(
                self@.base_path,
                path@,
            ),
    {
        let target = self.target(requested);
        let outcome = canonical_form(target.as_str());
        self.lookup(outcome)
    }

    /// Answers a request. A request without a path is not found; one with a
    /// path is answered by what [`FileServer::resolve`] finds for it.
    pub fn serve(&self, requested: Option<&str>) -> (reply: Reply)
        ensures
            requested is None ==> reply.file() is None,
            reply.file() matches Some(path) ==> self@.indexed.contains(path) && below(
                self@.base_path,
                path,
            ),
    {
        match requested {
            Some(path) => Reply::from_lookup(self.resolve(path)),
            None => Reply::NotFound,
        }
    }
}

/// One more match adds its served path, if it has one, and nothing else.
pub proof fn lemma_servable_push(base: Seq<char>, scan: Seq<MatchView>, m: MatchView)
    ensures
        servable(base, scan.push(m)) == match m.served(base) {
            Some(p) => servable(base, scan).insert(p),
            None => servable(base, scan),
        },
{
    let longer = scan.push(m);
    let expected = match m.served(base) {
        Some(p) => servable(base, scan).insert(p),
        None => servable(base, scan),
    };
    assert forall|p: Seq<char>| servable(base, longer).contains(p) implies expected.contains(
        p,
    ) by {
        let i = choose|i: int|
            0 <= i < longer.len() && (#[trigger] longer[i]).served(base) == Some(p);
        if i < scan.len() {
            assert(longer[i] == scan[i]);
        }
    }
    assert forall|p: Seq<char>| expected.contains(p) implies servable(base, longer).contains(
        p,
    ) by {
        if servable(base, scan).contains(p) {
            let i = choose|i: int|
                0 <= i < scan.len() && (#[trigger] scan[i]).served(base) == Some(p);
            assert(longer[i] == scan[i]);
        } else {
            assert(longer[scan.len() as int] == m);
        }
    }
    assert(servable(base, longer) =~= expected);
}

} // verus!
