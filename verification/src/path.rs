//! Path text: how a directory and a piece below it are put together, and how
//! a pattern is set into the directory it is expanded in.

use vstd::prelude::*;
use vstd::string::*;

verus! {

/// A path is absolute when it starts at the root.
pub open spec fn is_absolute(path: Seq<char>) -> bool {
    path.len() > 0 && path[0] == '/'
}

/// The text that every path below `dir` starts with: `dir` itself, closed by
/// one separator unless it is empty or already ends in one.
pub open spec fn stem(dir: Seq<char>) -> Seq<char> {
    if dir.len() == 0 || dir.last() == '/' {
        dir
    } else {
        dir.push('/')
    }
}

/// `piece` taken from `dir`: an absolute piece stands for itself, any other
/// piece follows the stem of `dir`.
pub open spec fn joined(dir: Seq<char>, piece: Seq<char>) -> Seq<char> {
    if is_absolute(piece) {
        piece
    } else {
        stem(dir) + piece
    }
}

/// `path` lies below `dir`: it starts with the stem of `dir`.
pub open spec fn below(dir: Seq<char>, path: Seq<char>) -> bool {
    stem(dir).is_prefix_of(path)
}

/// What is left of `path` after the stem of `dir`.
pub open spec fn relative(dir: Seq<char>, path: Seq<char>) -> Seq<char> {
    path.skip(stem(dir).len() as int)
}

/// Joins `piece` onto `dir`.
pub fn join(dir: &str, piece: &str) -> (out: String)
    ensures
        out@ == joined(dir@, piece@),
{
    let piece_len: usize = piece.unicode_len();
    if piece_len > 0 && piece.get_char(0) == '/' {
        return String::from_str(piece);
    }
    let dir_len: usize = dir.unicode_len();
    let mut out = String::from_str(dir);
    if dir_len > 0 && dir.get_char(dir_len - 1) != '/' {
        proof {
            reveal_strlit("/");
        }
        out.append("/");
        assert(out@ == dir@.push('/'));
    }
    out.append(piece);
    out
}

/// One letter of a directory's name as pattern text: a letter that a pattern
/// reads as a wildcard or as the edge of a class stands in brackets, so that
/// it matches itself, and every other letter stands as it is.
pub open spec fn escaped_letter(c: char) -> Seq<char> {
    if c == '?' || c == '*' || c == '[' || c == ']' {
        seq!['[', c, ']']
    } else {
        seq![c]
    }
}

/// A text as the pattern that matches this text and nothing else: each of its
/// letters escaped, in order.
pub open spec fn escaped(text: Seq<char>) -> Seq<char>
    decreases text.len(),
{
    if text.len() == 0 {
        Seq::empty()
    } else {
        escaped(text.drop_last()) + escaped_letter(text.last())
    }
}

/// The part of a pattern that is expanded inside a directory: the pattern
/// without the separators in front of it, so that no pattern starts at the
/// root, whatever the directory is.
pub open spec fn inside(pattern: Seq<char>) -> Seq<char>
    decreases pattern.len(),
{
    if is_absolute(pattern) {
        inside(pattern.skip(1))
    } else {
        pattern
    }
}

/// A pattern that starts with `count` separators has as its inside what the
/// inside of the rest is.
pub proof fn lemma_inside_skips(pattern: Seq<char>, count: int)
    requires
        0 <= count <= pattern.len(),
        forall|i: int| 0 <= i < count ==> pattern[i] == '/',
    ensures
        inside(pattern) == inside(pattern.skip(count)),
    decreases count,
{
    if count == 0 {
        assert(pattern.skip(0) =~= pattern);
    } else {
        let rest = pattern.skip(1);
        assert forall|i: int| 0 <= i < count - 1 implies rest[i] == '/' by {
            assert(rest[i] == pattern[i + 1]);
        }
        lemma_inside_skips(rest, count - 1);
        assert(rest.skip(count - 1) =~= pattern.skip(count));
    }
}

/// The pattern that is expanded in `dir`: the name of `dir` escaped, so that
/// it stands for itself whatever letters it holds, closed by a separator, and
/// then the pattern's inside.
pub open spec fn pattern_path(dir: Seq<char>, pattern: Seq<char>) -> Seq<char> {
    stem(escaped(dir)) + inside(pattern)
}

/// At `i` the text has a piece `..`, which names the directory above.
pub open spec fn parent_at(text: Seq<char>, i: int) -> bool {
    &&& 0 <= i
    &&& i + 2 <= text.len()
    &&& text[i] == '.'
    &&& text[i + 1] == '.'
    &&& (i == 0 || text[i - 1] == '/')
    &&& (i + 2 == text.len() || text[i + 2] == '/')
}

/// The pattern has a piece `..`: expanded in a directory it would leave it.
pub open spec fn climbs(pattern: Seq<char>) -> bool {
    exists|i: int| parent_at(pattern, i)
}

/// The pattern holds more than separators. One that does not names no entry:
/// expanded in a directory it gives that directory.
pub open spec fn names_something(pattern: Seq<char>) -> bool {
    exists|i: int| 0 <= i < pattern.len() && pattern[i] != '/'
}

/// The pattern can be expanded below a directory: it names something, and it
/// has no piece that leads above the directory.
pub open spec fn confined(pattern: Seq<char>) -> bool {
    names_something(pattern) && !climbs(pattern)
}

/// At `i` the text has a piece `.`, which names the directory it stands in.
pub open spec fn self_at(text: Seq<char>, i: int) -> bool {
    &&& 0 <= i
    &&& i + 1 <= text.len()
    &&& text[i] == '.'
    &&& (i == 0 || text[i - 1] == '/')
    &&& (i + 1 == text.len() || text[i + 1] == '/')
}

/// The path has a piece `.` or `..` somewhere: it does not name its place by
/// going down alone.
pub open spec fn has_dot_piece(path: Seq<char>) -> bool {
    exists|i: int| self_at(path, i) || parent_at(path, i)
}

/// Calls `glob::Pattern::escape`, which walks the text letter by letter and
/// puts each `?`, `*`, `[` and `]` between `[` and `]`, leaving every other
/// letter as it is.
#[verifier::external_body]
fn escape(text: &str) -> (out: String)
    ensures
        out@ == escaped(text@),
{
    glob::Pattern::escape(text)
}

/// The letters of a text.
fn letters(text: &str) -> (out: Vec<char>)
    ensures
        out@ == text@,
{
    let n: usize = text.unicode_len();
    let mut out: Vec<char> = Vec::new();
    let mut i: usize = 0;
    while i < n
        invariant
            i <= n,
            n == text@.len(),
            out@ == text@.take(i as int),
        decreases n - i,
    {
        out.push(text.get_char(i));
        assert(out@ =~= text@.take(i + 1));
        i += 1;
    }
    assert(text@.take(n as int) =~= text@);
    out
}

/// Sets `pattern` into `dir`: the result is the pattern to expand in order to
/// find what `pattern` matches below `dir`.
pub fn pattern_in(dir: &str, pattern: &str) -> (out: String)
    ensures
        out@ == pattern_path(dir@, pattern@),
{
    let mut out = escape(dir);
    let dir_len: usize = out.as_str().unicode_len();
    if dir_len > 0 && out.as_str().get_char(dir_len - 1) != '/' {
        proof {
            reveal_strlit("/");
        }
        let ghost before = out@;
        out.append("/");
        assert(out@ == before.push('/'));
    }
    let pattern_len: usize = pattern.unicode_len();
    let mut lead: usize = 0;
    while lead < pattern_len && pattern.get_char(lead) == '/'
        invariant
            lead <= pattern_len,
            pattern_len == pattern@.len(),
            forall|i: int| 0 <= i < lead ==> pattern@[i] == '/',
        decreases pattern_len - lead,
    {
        lead += 1;
    }
    let rest = pattern.substring_char(lead, pattern_len);
    proof {
        lemma_inside_skips(pattern@, lead as int);
        assert(rest@ =~= pattern@.skip(lead as int));
        assert(!is_absolute(rest@));
    }
    out.append(rest);
    out
}

/// Tells whether a pattern can be expanded below a directory.
pub fn is_confined(pattern: &str) -> (ok: bool)
    ensures
        ok == confined(pattern@),
{
    let text = letters(pattern);
    let n: usize = text.len();
    let mut named = false;
    let mut i: usize = 0;
    while i < n
        invariant
            i <= n,
            n == text.len(),
            text@ == pattern@,
            named == (exists|j: int| 0 <= j < i && text@[j] != '/'),
            forall|j: int| 0 <= j < i ==> !parent_at(text@, j),
        decreases n - i,
    {
        if text[i] != '/' {
            named = true;
        }
        if text[i] == '.' && i + 1 < n && text[i + 1] == '.' && (i == 0 || text[i - 1] == '/') && (i
            + 2 == n || text[i + 2] == '/') {
            assert(parent_at(pattern@, i as int));
            return false;
        }
        i += 1;
    }
    assert(!climbs(pattern@)) by {
        if climbs(pattern@) {
            let j = choose|j: int| parent_at(pattern@, j);
            assert(0 <= j < n);
        }
    }
    named
}

/// Tells whether a path has a piece `.` or `..`.
pub fn has_dots(path: &str) -> (dots: bool)
    ensures
        dots == has_dot_piece(path@),
{
    let text = letters(path);
    let n: usize = text.len();
    let mut i: usize = 0;
    while i < n
        invariant
            i <= n,
            n == text.len(),
            text@ == path@,
            forall|j: int| 0 <= j < i ==> !self_at(text@, j) && !parent_at(text@, j),
        decreases n - i,
    {
        if text[i] == '.' && (i == 0 || text[i - 1] == '/') {
            if i + 1 == n || text[i + 1] == '/' {
                assert(self_at(path@, i as int));
                return true;
            }
            if text[i + 1] == '.' && (i + 2 == n || text[i + 2] == '/') {
                assert(parent_at(path@, i as int));
                return true;
            }
        }
        i += 1;
    }
    assert(!has_dot_piece(path@)) by {
        if has_dot_piece(path@) {
            let j = choose|j: int| self_at(path@, j) || parent_at(path@, j);
            assert(0 <= j < n);
        }
    }
    false
}

/// The stem of a directory.
fn stem_of(dir: &str) -> (out: String)
    ensures
        out@ == stem(dir@),
{
    let dir_len: usize = dir.unicode_len();
    let mut out = String::from_str(dir);
    if dir_len > 0 && dir.get_char(dir_len - 1) != '/' {
        proof {
            reveal_strlit("/");
        }
        out.append("/");
        assert(out@ == dir@.push('/'));
    }
    out
}

/// Tells whether `path` lies below `dir`.
pub fn is_below(dir: &str, path: &str) -> (b: bool)
    ensures
        b == below(dir@, path@),
{
    let start = stem_of(dir);
    let start_len: usize = start.as_str().unicode_len();
    if path.unicode_len() < start_len {
        return false;
    }
    let front = String::from_str(path.substring_char(0, start_len));
    front == start
}

} // verus!
