//! Paths as text, with slashes between their components. Windows takes a
//! backslash for a slash: there a path goes through [`with_slashes`] first.

use vstd::prelude::*;
use vstd::slice::slice_subrange;
use crate::lines::{char_position, next_char};
use crate::text::{append_str, from_chars, last_position, own, rfind, same, to_chars};

verus! {

/// A path without the slashes and the `.` components at its end.
pub open spec fn path_body(path: Seq<char>) -> Seq<char>
    decreases path.len(),
{
    if path.len() > 0 && path.last() == '/' {
        path_body(path.drop_last())
    } else if path.len() > 1 && path.last() == '.' && path[path.len() - 2] == '/' {
        path_body(path.take(path.len() - 2))
    } else {
        path
    }
}

/// The length of a path without the slashes and the `.` components at its end.
pub fn path_body_len(path: &[char]) -> (end: usize)
    ensures
        end <= path@.len(),
        path@.take(end as int) == path_body(path@),
{
    let mut end: usize = path.len();
    assert(path@.take(path@.len() as int) =~= path@);
    loop
        invariant
            end <= path@.len(),
            path_body(path@) == path_body(path@.take(end as int)),
        decreases end,
    {
        let ghost cur = path@.take(end as int);
        if end > 0 && path[end - 1] == '/' {
            assert(cur.last() == '/');
            assert(cur.drop_last() =~= path@.take(end - 1));
            end = end - 1;
        } else if end > 1 && path[end - 1] == '.' && path[end - 2] == '/' {
            assert(cur.last() == '.' && cur[cur.len() - 2] == '/');
            assert(cur.take(cur.len() - 2) =~= path@.take(end - 2));
            end = end - 2;
        } else {
            assert(end > 0 ==> cur.last() == path@[end - 1]);
            assert(end > 1 ==> cur[cur.len() - 2] == path@[end - 2]);
            return end;
        }
    }
}

/// The last component of a path.
pub open spec fn file_name(path: Seq<char>) -> Seq<char> {
    let body = path_body(path);
    match rfind(body, "/"@) {
        Some(at) => body.skip(at + 1),
        None => body,
    }
}

/// The last component of a path.
pub fn path_file_name(path: &[char]) -> (name: &[char])
    ensures
        name@ == file_name(path@),
{
    let end: usize = path_body_len(path);
    let body = slice_subrange(path, 0, end);
    assert(body@ =~= path@.take(end as int));
    proof {
        reveal_strlit("/");
        crate::text::lemma_rfind_to(body@, "/"@, body@.len() - 1);
    }
    match last_position(body, to_chars("/").as_slice()) {
        Some(at) => {
            let name = slice_subrange(body, at + 1, body.len());
            assert(name@ =~= body@.skip(at + 1));
            name
        },
        None => body,
    }
}

/// The path of the folder that a path lies in; `None` where it names none: an
/// empty path, or the root.
pub open spec fn parent(path: Seq<char>) -> Option<Seq<char>> {
    let body = path_body(path);
    if body.len() == 0 {
        None
    } else {
        match rfind(body, "/"@) {
            Some(at) => {
                let above = path_body(body.take(at));
                Some(
                    if above.len() == 0 && body[0] == '/' {
                        "/"@
                    } else {
                        above
                    },
                )
            },
            None => Some(Seq::empty()),
        }
    }
}

/// The path of the folder that a path lies in.
pub fn path_parent(path: &str) -> (above: Option<String>)
    ensures
        match above {
            Some(p) => parent(path@) == Some(p@),
            None => parent(path@) is None,
        },
{
    let chars = to_chars(path);
    let end: usize = path_body_len(chars.as_slice());
    if end == 0 {
        return None;
    }
    let body = slice_subrange(chars.as_slice(), 0, end);
    assert(body@ =~= path@.take(end as int));
    proof {
        reveal_strlit("/");
        crate::text::lemma_rfind_to(body@, "/"@, body@.len() - 1);
    }
    match last_position(body, to_chars("/").as_slice()) {
        Some(at) => {
            let head = slice_subrange(body, 0, at);
            assert(head@ =~= body@.take(at as int));
            let n: usize = path_body_len(head);
            if n == 0 && body[0] == '/' {
                return Some(own("/"));
            }
            let above = slice_subrange(head, 0, n);
            assert(above@ =~= head@.take(n as int));
            Some(from_chars(above))
        },
        None => {
            let nothing: Vec<char> = Vec::new();
            assert(nothing@ =~= Seq::<char>::empty());
            Some(from_chars(nothing.as_slice()))
        },
    }
}

/// What stands between a folder's path and a name inside it: nothing where the
/// path is empty, ends in a separator, or is a drive.
pub open spec fn separator(dir: Seq<char>, windows: bool) -> Seq<char> {
    if dir.len() == 0 || dir.last() == '/' {
        Seq::empty()
    } else if !windows {
        seq!['/']
    } else if dir.last() == '\\' || dir.len() == drive_len(dir) {
        Seq::empty()
    } else {
        seq!['\\']
    }
}

/// A path inside a folder, for a relative name.
pub open spec fn joined_path(dir: Seq<char>, name: Seq<char>, windows: bool) -> Seq<char> {
    dir + separator(dir, windows) + name
}

/// A path inside a folder, for a relative name.
pub fn join_path(dir: &str, name: &str, windows: bool) -> (path: String)
    ensures
        path@ == joined_path(dir@, name@, windows),
{
    let mut out: Vec<char> = to_chars(dir);
    let n: usize = out.len();
    if n > 0 && out[n - 1] != '/' {
        if !windows {
            out.push('/');
        } else if out[n - 1] != '\\' && drive(out.as_slice()) != n {
            out.push('\\');
        }
    }
    append_str(&mut out, name);
    assert(out@ =~= joined_path(dir@, name@, windows));
    from_chars(out.as_slice())
}

/// Where the next component of a path begins, from `from` on: slashes do not
/// count, nor does a `.` that is not the first thing in the path.
pub open spec fn next_part(s: Seq<char>, from: int) -> int
    decreases s.len() - from,
{
    if from >= s.len() {
        s.len() as int
    } else if s[from] == '/' {
        next_part(s, from + 1)
    } else if s[from] == '.' && from > 0 && (from + 1 == s.len() || s[from + 1] == '/') {
        next_part(s, from + 1)
    } else {
        from
    }
}

/// Where the next component of a path begins.
fn part_start(s: &[char], from: usize) -> (at: usize)
    requires
        from <= s@.len(),
    ensures
        at == next_part(s@, from as int),
        from <= at <= s@.len(),
{
    let mut i: usize = from;
    while i < s.len() && (s[i] == '/' || (s[i] == '.' && i > 0 && (i + 1 == s.len() || s[i + 1]
        == '/')))
        invariant
            from <= i <= s@.len(),
            next_part(s@, from as int) == next_part(s@, i as int),
        decreases s@.len() - i,
    {
        i = i + 1;
    }
    i
}

/// Where the rest of a path begins behind the components of another, from the
/// given positions on; `None` where it does not begin with them.
pub open spec fn past_prefix(path: Seq<char>, i: int, root: Seq<char>, j: int) -> Option<int>
    decreases root.len() - j,
{
    let p = next_part(path, i);
    let r = next_part(root, j);
    if r >= root.len() {
        Some(p)
    } else if p >= path.len() || r < j {
        None
    } else {
        let pe = next_char(path, '/', p);
        let re = next_char(root, '/', r);
        if j < re <= root.len() && path.subrange(p, pe) == root.subrange(r, re) {
            past_prefix(path, pe, root, re)
        } else {
            None
        }
    }
}

/// A path relative to a folder that it lies in; `None` where it does not. The
/// comparison goes by whole components.
pub open spec fn relative(path: Seq<char>, root: Seq<char>) -> Option<Seq<char>> {
    if root.len() > 0 && (path.len() > 0 && path[0] == '/') != (root[0] == '/') {
        None
    } else {
        match past_prefix(path, 0, root, 0) {
            Some(at) => if root.len() == 0 {
                Some(
                    if path_body(path).len() == 0 && path.len() > 0 && path[0] == '/' {
                        "/"@
                    } else {
                        path_body(path)
                    },
                )
            } else if at <= path_body(path).len() {
                Some(path_body(path).skip(at))
            } else {
                Some(Seq::empty())
            },
            None => None,
        }
    }
}

/// A path relative to a folder that it lies in.
pub fn relative_to(path: &str, root: &str) -> (rest: Option<String>)
    ensures
        match rest {
            Some(r) => relative(path@, root@) == Some(r@),
            None => relative(path@, root@) is None,
        },
{
    let p = to_chars(path);
    let r = to_chars(root);
    if r.len() > 0 && (p.len() > 0 && p[0] == '/') != (r[0] == '/') {
        return None;
    }
    let mut i: usize = 0;
    let mut j: usize = 0;
    loop
        invariant
            i <= p@.len(),
            j <= r@.len(),
            p@ == path@,
            r@ == root@,
            !(root@.len() > 0 && (path@.len() > 0 && path@[0] == '/') != (root@[0] == '/')),
            past_prefix(path@, 0, root@, 0) == past_prefix(path@, i as int, root@, j as int),
        decreases r@.len() - j,
    {
        let pi: usize = part_start(p.as_slice(), i);
        let rj: usize = part_start(r.as_slice(), j);
        if rj == r.len() {
            let end: usize = path_body_len(p.as_slice());
            let body = slice_subrange(p.as_slice(), 0, end);
            assert(body@ =~= p@.take(end as int));
            if r.len() == 0 {
                if end == 0 && p.len() > 0 && p[0] == '/' {
                    return Some(own("/"));
                }
                return Some(from_chars(body));
            }
            if pi <= end {
                let rest = slice_subrange(body, pi, end);
                assert(rest@ =~= body@.skip(pi as int));
                return Some(from_chars(rest));
            }
            let nothing: Vec<char> = Vec::new();
            assert(nothing@ =~= Seq::<char>::empty());
            return Some(from_chars(nothing.as_slice()));
        }
        if pi == p.len() {
            return None;
        }
        let pe: usize = char_position(p.as_slice(), '/', pi);
        let re: usize = char_position(r.as_slice(), '/', rj);
        proof {
            lemma_part(root@, j as int);
        }
        if !same(
            slice_subrange(p.as_slice(), pi, pe),
            slice_subrange(r.as_slice(), rj, re),
        ) {
            return None;
        }
        i = pe;
        j = re;
    }
}

/// A component is not empty.
proof fn lemma_part(s: Seq<char>, from: int)
    requires
        0 <= from <= s.len(),
    ensures
        from <= next_part(s, from) <= s.len(),
        next_part(s, from) < s.len() ==> next_char(s, '/', next_part(s, from)) > next_part(s, from),
    decreases s.len() - from,
{
    if from < s.len() {
        if s[from] == '/' || (s[from] == '.' && from > 0 && (from + 1 == s.len() || s[from + 1]
            == '/')) {
            lemma_part(s, from + 1);
        } else {
            crate::lines::lemma_next_char(s, '/', from + 1);
        }
    }
}

/// A path as shown inside a vault: relative to its root where it lies in it,
/// else as it is.
pub open spec fn shown_path(path: Seq<char>, root: Seq<char>) -> Seq<char> {
    match relative(path, root) {
        Some(rest) => rest,
        None => path,
    }
}

/// A path as shown inside a vault.
pub fn vault_relative(path: &str, root: &str) -> (shown: String)
    ensures
        shown@ == shown_path(path@, root@),
{
    match relative_to(path, root) {
        Some(rest) => rest,
        None => own(path),
    }
}

/// A path with its backslashes made slashes.
pub open spec fn slashed(path: Seq<char>) -> Seq<char> {
    path.map_values(
        |c: char|
            if c == '\\' {
                '/'
            } else {
                c
            },
    )
}

/// A path with slashes between its components.
pub fn with_slashes(path: &str, windows: bool) -> (out: String)
    ensures
        out@ == if windows {
            slashed(path@)
        } else {
            path@
        },
{
    if !windows {
        return own(path);
    }
    let chars = to_chars(path);
    let mut out: Vec<char> = Vec::new();
    let mut i: usize = 0;
    while i < chars.len()
        invariant
            i <= chars@.len(),
            chars@ == path@,
            out@.len() == i,
            forall|j: int| 0 <= j < i ==> #[trigger] out@[j] == slashed(path@)[j],
        decreases chars@.len() - i,
    {
        if chars[i] == '\\' {
            out.push('/');
        } else {
            out.push(chars[i]);
        }
        i = i + 1;
    }
    assert(out@ =~= slashed(path@));
    from_chars(out.as_slice())
}

/// The length of the drive that a path begins with, such as `C:`.
pub open spec fn drive_len(path: Seq<char>) -> int {
    if path.len() >= 2 && path[1] == ':' && ('a' <= path[0] <= 'z' || 'A' <= path[0] <= 'Z') {
        2
    } else {
        0
    }
}

/// The length of the drive that a path begins with.
fn drive(path: &[char]) -> (n: usize)
    ensures
        n == drive_len(path@),
        n <= path@.len(),
{
    if path.len() >= 2 && path[1] == ':' && (('a' <= path[0] && path[0] <= 'z') || ('A' <= path[0]
        && path[0] <= 'Z')) {
        2
    } else {
        0
    }
}

/// The path of the folder that a path lies in. On Windows a backslash separates
/// components too, and a drive may stand in front.
pub open spec fn parent_on(path: Seq<char>, windows: bool) -> Option<Seq<char>> {
    if windows {
        let drive = drive_len(path);
        match parent(slashed(path).skip(drive)) {
            Some(above) => Some(path.take(drive + above.len())),
            None => None,
        }
    } else {
        parent(path)
    }
}

/// A folder's path is no longer than what lies in it.
proof fn lemma_parent_len(path: Seq<char>)
    ensures
        parent(path) matches Some(above) ==> above.len() <= path.len(),
{
    let body = path_body(path);
    lemma_body_shorter(path);
    reveal_strlit("/");
    crate::text::lemma_rfind_to(body, "/"@, body.len() - 1);
    if let Some(at) = rfind(body, "/"@) {
        lemma_body_shorter(body.take(at));
    }
}

proof fn lemma_body_shorter(path: Seq<char>)
    ensures
        path_body(path).len() <= path.len(),
    decreases path.len(),
{
    if path.len() > 0 && path.last() == '/' {
        lemma_body_shorter(path.drop_last());
    } else if path.len() > 1 && path.last() == '.' && path[path.len() - 2] == '/' {
        lemma_body_shorter(path.take(path.len() - 2));
    }
}

/// The path of the folder that a path lies in.
pub fn path_parent_on(path: &str, windows: bool) -> (above: Option<String>)
    ensures
        match above {
            Some(p) => parent_on(path@, windows) == Some(p@),
            None => parent_on(path@, windows) is None,
        },
{
    if !windows {
        return path_parent(path);
    }
    let chars = to_chars(path);
    let drive: usize = drive(chars.as_slice());
    let slashes = to_chars(with_slashes(path, true).as_str());
    let rest = slice_subrange(slashes.as_slice(), drive, slashes.len());
    assert(rest@ =~= slashed(path@).skip(drive as int));
    match path_parent(from_chars(rest).as_str()) {
        Some(above) => {
            proof {
                lemma_parent_len(rest@);
            }
            let n: usize = to_chars(above.as_str()).len();
            let kept = slice_subrange(chars.as_slice(), 0, drive + n);
            assert(kept@ =~= path@.take(drive + n));
            Some(from_chars(kept))
        },
        None => None,
    }
}

} // verus!
