//! Session-level application state: the colour theme, the list of recently
//! opened files, and the one-path-per-line format it is stored in.

use vstd::prelude::*;

use crate::strutil::chars_of;
use crate::strutil::push_str_chars;
use crate::strutil::string_from_chars;
use crate::strutil::subvec;

verus! {

/// The application's colour theme.
#[derive(Clone, Copy, Debug, PartialEq, Eq, Structural)]
pub enum Theme {
    Light,
    Dark,
}

pub const RECENT_FILES_LIMIT: usize = 10;

/// Moves `path` to the front of the recent-files list: any earlier entry
/// for the same path is dropped, and the list keeps at most its ten most
/// recent entries.
pub fn add_to_recent_files(recent_files: &mut Vec<String>, path: String)
    ensures
        ({
            let kept = old(recent_files)@.filter(|p: String| p@ != path@);
            let full = seq![path].add(kept);
            final(recent_files)@ == if full.len() <= 10 {
                full
            } else {
                full.take(10)
            }
        }),
{
    let ghost target = path@;
    let ghost pred = |p: String| p@ != target;
    let mut out: Vec<String> = Vec::new();
    out.push(path);
    let mut i: usize = 0;
    while i < recent_files.len()
        invariant
            i <= recent_files@.len(),
            out@.len() >= 1,
            out@ == seq![out@[0]].add(recent_files@.take(i as int).filter(pred)),
            out@[0] == path,
            out@[0]@ == target,
            pred == (|p: String| p@ != target),
        decreases recent_files@.len() - i,
    {
        let ghost taken = recent_files@.take(i as int);
        let keep = !(recent_files[i] == out[0]);
        if keep {
            let entry = recent_files[i].clone();
            out.push(entry);
        }
        i = i + 1;
        proof {
            reveal(Seq::filter);
            let elem = recent_files@[i - 1];
            let ext = recent_files@.take(i as int);
            assert(ext =~= taken.push(elem));
            assert(ext.drop_last() =~= taken);
            assert(ext.last() == elem);
            if keep {
                assert(out@ =~= seq![out@[0]].add(taken.filter(pred)).push(elem));
                assert(seq![out@[0]].add(taken.filter(pred)).push(elem) =~= seq![out@[0]].add(
                    taken.filter(pred).push(elem),
                ));
            }
        }
    }
    proof {
        assert(recent_files@.take(recent_files@.len() as int) =~= recent_files@);
        assert(pred =~= (|p: String| p@ != path@));
    }
    if out.len() > 10 {
        out.truncate(10);
    }
    *recent_files = out;
}

/// The position of the first line break at or after `i`, or the end.
pub open spec fn line_end(s: Seq<char>, i: int) -> int
    decreases s.len() - i,
{
    if i < 0 || i >= s.len() {
        s.len() as int
    } else if s[i] == '\n' {
        i
    } else {
        line_end(s, i + 1)
    }
}

/// The non-empty lines of `s` from position `i` on: blank lines are
/// dropped, everything else is kept in order.
pub open spec fn nonempty_lines_from(s: Seq<char>, i: int) -> Seq<Seq<char>>
    decreases s.len() - i,
{
    if i < 0 || i >= s.len() {
        Seq::empty()
    } else {
        let e = line_end(s, i);
        let line = s.subrange(i, if i <= e <= s.len() {
            e
        } else {
            i
        });
        let nxt = if i <= e && e < s.len() {
            e + 1
        } else if e >= s.len() {
            s.len() as int
        } else {
            i + 1
        };
        (if line.len() > 0 {
            seq![line]
        } else {
            Seq::<Seq<char>>::empty()
        }) + nonempty_lines_from(s, nxt)
    }
}

/// The stored recent-files list: one path per line, blank lines ignored.
pub open spec fn nonempty_lines(s: Seq<char>) -> Seq<Seq<char>> {
    nonempty_lines_from(s, 0)
}

proof fn lemma_line_end_bounds(s: Seq<char>, i: int)
    requires
        0 <= i <= s.len(),
    ensures
        i <= line_end(s, i) <= s.len(),
        line_end(s, i) < s.len() ==> s[line_end(s, i)] == '\n',
        forall|j: int| i <= j < line_end(s, i) ==> s[j] != '\n',
    decreases s.len() - i,
{
    if i < s.len() && s[i] != '\n' {
        lemma_line_end_bounds(s, i + 1);
    }
}

proof fn lemma_line_end_here(s: Seq<char>, i: int, e: int)
    requires
        0 <= i <= e <= s.len(),
        forall|j: int| i <= j < e ==> s[j] != '\n',
        e < s.len() ==> s[e] == '\n',
    ensures
        line_end(s, i) == e,
    decreases e - i,
{
    if i < e {
        lemma_line_end_here(s, i + 1, e);
    }
}

/// Reads the stored recent-files list: one path per line, with blank lines
/// ignored.
pub fn parse_recent_files(content: &str) -> (r: Vec<String>)
    ensures
        r@.map_values(|p: String| p@) == nonempty_lines(content@),
{
    let v = chars_of(content);
    let n = v.len();
    let mut out: Vec<String> = Vec::new();
    let mut i: usize = 0;
    proof {
        assert(out@.map_values(|p: String| p@) =~= Seq::<Seq<char>>::empty());
    }
    while i < n
        invariant
            v@ == content@,
            n == v@.len(),
            i <= n,
            nonempty_lines(content@) == out@.map_values(|p: String| p@) + nonempty_lines_from(
                v@,
                i as int,
            ),
        decreases n - i,
    {
        // find the end of the current line
        let mut e: usize = i;
        while e < n && v[e] != '\n'
            invariant
                n == v@.len(),
                i <= e <= n,
                forall|j: int| i <= j < e ==> v@[j] != '\n',
            decreases n - e,
        {
            e = e + 1;
        }
        let ghost i0 = i as int;
        proof {
            lemma_line_end_here(v@, i0, e as int);
        }
        let ghost prev = out@;
        if e > i {
            let line = subvec(&v, i, e);
            let text = string_from_chars(&line);
            out.push(text);
            proof {
                assert(out@.map_values(|p: String| p@) =~= prev.map_values(|p: String| p@) + seq![
                    v@.subrange(i0, e as int),
                ]);
            }
        }
        i = if e < n {
            e + 1
        } else {
            n
        };
        proof {
            assert(nonempty_lines_from(v@, i0) == (if e > i0 {
                seq![v@.subrange(i0, e as int)]
            } else {
                Seq::<Seq<char>>::empty()
            }) + nonempty_lines_from(v@, i as int));
            assert(out@.map_values(|p: String| p@) + nonempty_lines_from(v@, i as int)
                =~= nonempty_lines(content@));
        }
    }
    proof {
        assert(nonempty_lines_from(v@, i as int) =~= Seq::<Seq<char>>::empty());
        assert(out@.map_values(|p: String| p@) =~= nonempty_lines(content@));
    }
    out
}

/// The stored form of the list: the paths joined by line breaks.
pub open spec fn joined_lines(paths: Seq<String>, i: int) -> Seq<char>
    decreases i,
{
    if i <= 0 {
        Seq::empty()
    } else if i == 1 {
        paths[0]@
    } else {
        joined_lines(paths, i - 1) + "\n"@ + paths[i - 1]@
    }
}

/// Writes the recent-files list in its stored form: one path per line.
pub fn serialize_recent_files(paths: &Vec<String>) -> (r: String)
    ensures
        r@ == joined_lines(paths@, paths@.len() as int),
{
    let mut out: Vec<char> = Vec::new();
    let mut i: usize = 0;
    while i < paths.len()
        invariant
            i <= paths@.len(),
            out@ == joined_lines(paths@, i as int),
        decreases paths@.len() - i,
    {
        if i > 0 {
            push_str_chars(&mut out, "\n");
        }
        push_str_chars(&mut out, paths[i].as_str());
        i = i + 1;
        proof {
            assert(out@ =~= joined_lines(paths@, i as int));
        }
    }
    string_from_chars(&out)
}

} // verus!
