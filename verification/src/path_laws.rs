//! What holds of paths: what is joined is taken apart again, and search paths keep
//! their entries.

use vstd::prelude::*;
use crate::hosted_agent::{agent_path, config_steps, path_entry, rejoined, windows_split, Step};
use crate::lines::{join, lemma_join_push, lemma_next_char, lemma_next_char_is, next_char};
use crate::paths::{
    drive_len, file_name, joined_path, next_part, parent, parent_on, past_prefix, path_body,
    relative, separator, shown_path, slashed,
};
use crate::text::{begins, ends, lemma_rfind_is, matches_at, rfind};

verus! {

/// Whether a path ends in a name: not in a slash, nor in a dot alone.
pub open spec fn ends_in_a_name(path: Seq<char>) -> bool {
    &&& path.len() > 0
    &&& path.last() != '/'
    &&& !(path.len() > 1 && path.last() == '.' && path[path.len() - 2] == '/')
}

/// Whether a text is the name of a file.
pub open spec fn is_name(name: Seq<char>) -> bool {
    name.len() > 0 && !name.contains('/') && name != seq!['.']
}

/// The last slash of a path with a name at its end.
proof fn lemma_last_slash(dir: Seq<char>, name: Seq<char>)
    requires
        is_name(name),
    ensures
        ({
            let path = dir + seq!['/'] + name;
            &&& path_body(path) == path
            &&& rfind(path, "/"@) == Some(dir.len() as int)
            &&& path.skip(dir.len() as int + 1) == name
            &&& path.take(dir.len() as int) == dir
        }),
{
    reveal_strlit("/");
    let path = dir + seq!['/'] + name;
    let n = dir.len() as int;
    assert(path.last() == name.last());
    assert(name.contains(name[name.len() - 1]));
    if path.last() == '.' && path[path.len() - 2] == '/' {
        if name.len() > 1 {
            assert(path[path.len() - 2] == name[name.len() - 2]);
            assert(name.contains(name[name.len() - 2]));
        } else {
            assert(name =~= seq!['.']);
        }
    }
    assert(path.subrange(n, n + 1) =~= "/"@);
    assert forall|j: int| n < j implies !matches_at(path, "/"@, j) by {
        if matches_at(path, "/"@, j) {
            assert(path.subrange(j, j + 1)[0] == path[j]);
            assert(path[j] == name[j - n - 1]);
            assert(name.contains(name[j - n - 1]));
        }
    }
    lemma_rfind_is(path, "/"@, n);
    assert(path.skip(n + 1) =~= name);
    assert(path.take(n) =~= dir);
}

/// The name of a file in a folder is its name, and the folder is its parent.
pub proof fn files_are_named_in_their_folder(dir: Seq<char>, name: Seq<char>)
    requires
        is_name(name),
    ensures
        file_name(dir + seq!['/'] + name) == name,
        ends_in_a_name(dir) ==> parent(dir + seq!['/'] + name) == Some(dir),
        dir.len() == 0 ==> parent(dir + seq!['/'] + name) == Some("/"@),
{
    reveal_strlit("/");
    lemma_last_slash(dir, name);
    let path = dir + seq!['/'] + name;
    if dir.len() == 0 {
        assert(path[0] == '/');
        assert(path_body(dir).len() == 0);
    }
}

/// A name alone is a file's name.
pub proof fn a_name_is_its_own(name: Seq<char>)
    requires
        is_name(name),
    ensures
        file_name(name) == name,
        parent(name) == Some(Seq::<char>::empty()),
{
    reveal_strlit("/");
    assert(name.contains(name[name.len() - 1]));
    if name.len() > 1 {
        assert(name.contains(name[name.len() - 2]));
    }
    crate::text::lemma_rfind_to(name, "/"@, name.len() - 1);
    if rfind(name, "/"@) is Some {
        let at = rfind(name, "/"@)->0;
        assert(name.subrange(at, at + 1)[0] == name[at]);
        assert(name.contains(name[at]));
    }
}

/// What is joined to a folder lies in it, behind a slash.
pub proof fn joined_names_lie_in_their_folder(dir: Seq<char>, name: Seq<char>)
    requires
        is_name(name),
        ends_in_a_name(dir),
    ensures
        parent(joined_path(dir, name, false)) == Some(dir),
        file_name(joined_path(dir, name, false)) == name,
{
    files_are_named_in_their_folder(dir, name);
}

/// The parts of a folder are found again at the front of a path in it.
proof fn lemma_same_part(root: Seq<char>, path: Seq<char>, j: int)
    requires
        0 <= j <= root.len(),
        root.len() < path.len(),
        path.take(root.len() as int) == root,
        path[root.len() as int] == '/',
    ensures
        j <= next_part(root, j) <= root.len(),
        next_part(root, j) < root.len() ==> next_part(path, j) == next_part(root, j) && root[next_part(
            root,
            j,
        )] != '/',
        next_part(root, j) == root.len() ==> next_part(path, j) == next_part(
            path,
            root.len() as int,
        ),
    decreases root.len() - j,
{
    if j < root.len() {
        assert(path[j] == path.take(root.len() as int)[j]);
        if j + 1 < root.len() {
            assert(path[j + 1] == path.take(root.len() as int)[j + 1]);
        }
        if root[j] == '/' || (root[j] == '.' && j > 0 && (j + 1 == root.len() || root[j + 1]
            == '/')) {
            lemma_same_part(root, path, j + 1);
        }
    }
}

proof fn lemma_past_root(root: Seq<char>, path: Seq<char>, j: int)
    requires
        0 <= j <= root.len(),
        root.len() < path.len(),
        path.take(root.len() as int) == root,
        path[root.len() as int] == '/',
    ensures
        past_prefix(path, j, root, j) == Some(next_part(path, root.len() as int)),
    decreases root.len() - j,
{
    lemma_same_part(root, path, j);
    let r = next_part(root, j);
    if r < root.len() {
        lemma_next_char(root, '/', r);
        let re = next_char(root, '/', r);
        assert forall|k: int| r <= k < re implies path[k] != '/' by {
            assert(path[k] == path.take(root.len() as int)[k]);
        }
        if re < root.len() {
            assert(path[re] == path.take(root.len() as int)[re]);
        }
        lemma_next_char_is(path, '/', r, re);
        assert(path.subrange(r, re) =~= root.subrange(r, re)) by {
            assert forall|k: int| r <= k < re implies path[k] == root[k] by {
                assert(path[k] == path.take(root.len() as int)[k]);
            }
        }
        assert(re > r);
        lemma_past_root(root, path, re);
    }
}

/// A path in a folder is shown by what stands behind the folder.
#[verifier::spinoff_prover]
#[verifier::rlimit(40)]
pub proof fn paths_are_shown_inside_their_folder(root: Seq<char>, rest: Seq<char>)
    requires
        root.len() > 0,
        ends_in_a_name(rest),
        rest[0] != '/',
        rest[0] != '.',
    ensures
        relative(root + seq!['/'] + rest, root) == Some(rest),
        shown_path(root + seq!['/'] + rest, root) == rest,
{
    let path = root + seq!['/'] + rest;
    let n = root.len() as int;
    assert(path.take(n) =~= root);
    assert(path[n] == '/');
    lemma_past_root(root, path, 0);
    assert(path[n + 1] == rest[0]);
    assert(next_part(path, n + 1) == n + 1);
    assert(next_part(path, n) == n + 1);
    assert(path.last() == rest.last());
    assert(path_body(path) == path) by {
        if path.last() == '.' && path[path.len() - 2] == '/' {
            if rest.len() > 1 {
                assert(path[path.len() - 2] == rest[rest.len() - 2]);
            }
        }
    }
    assert(path.skip(n + 1) =~= rest);
    assert(path[0] == root[0]);
}

/// A path is shown as it is where it lies elsewhere.
pub proof fn paths_elsewhere_are_shown_whole(path: Seq<char>, root: Seq<char>)
    requires
        root.len() > 0,
        root[0] == '/',
        path.len() == 0 || path[0] != '/',
    ensures
        relative(path, root) is None,
        shown_path(path, root) == path,
{
}

/// The search path begins with the folders that have to be found first, and
/// goes on with the one that was inherited.
pub proof fn own_folders_are_searched_first(
    bin_dir: Seq<char>,
    node_dir: Seq<char>,
    inherited: Seq<char>,
)
    ensures
        begins(
            agent_path(bin_dir, node_dir, inherited, false),
            bin_dir + seq![':'] + node_dir + seq![':'],
        ),
        ends(agent_path(bin_dir, node_dir, inherited, false), inherited),
        agent_path(bin_dir, node_dir, inherited, false).len() == bin_dir.len() + node_dir.len()
            + inherited.len() + 2,
{
    let s = agent_path(bin_dir, node_dir, inherited, false);
    let a = bin_dir + seq![':'] + node_dir + seq![':'];
    assert(s =~= a + inherited);
    assert(s.subrange(0, a.len() as int) =~= a);
    assert(s.subrange(s.len() - inherited.len(), s.len() as int) =~= inherited);
}

/// The entries of a Windows search path.
pub open spec fn windows_entries(path: Seq<char>) -> Seq<Seq<char>> {
    windows_split(path).0.push(windows_split(path).1)
}

/// How a search path is read goes on behind any part of it that was read.
proof fn lemma_split_on(path: Seq<char>, dir: Seq<char>)
    requires
        !dir.contains('"'),
        !dir.contains(';') || windows_split(path).2,
    ensures
        windows_split(path + dir).0 == windows_split(path).0,
        windows_split(path + dir).1 == windows_split(path).1 + dir,
        windows_split(path + dir).2 == windows_split(path).2,
    decreases dir.len(),
{
    if dir.len() == 0 {
        assert(path + dir =~= path);
        assert(windows_split(path).1 + dir =~= windows_split(path).1);
    } else {
        let rest = dir.drop_last();
        let c = dir.last();
        assert(dir.contains(dir[dir.len() - 1]));
        assert(!rest.contains('"')) by {
            if rest.contains('"') {
                let k = choose|k: int| 0 <= k < rest.len() && rest[k] == '"';
                assert(dir[k] == '"');
            }
        }
        assert(!rest.contains(';') || windows_split(path).2) by {
            if rest.contains(';') {
                let k = choose|k: int| 0 <= k < rest.len() && rest[k] == ';';
                assert(dir[k] == ';');
            }
        }
        lemma_split_on(path, rest);
        assert((path + dir).drop_last() =~= path + rest);
        assert((path + dir).last() == c);
        assert((windows_split(path).1 + rest).push(c) =~= windows_split(path).1 + dir);
    }
}

/// An entry as it is written reads back as it is.
proof fn lemma_entry_reads(path: Seq<char>, dir: Seq<char>)
    requires
        !windows_split(path).2,
        !dir.contains('"'),
    ensures
        windows_split(path + path_entry(dir, true)).0 == windows_split(path).0,
        windows_split(path + path_entry(dir, true)).1 == windows_split(path).1 + dir,
        !windows_split(path + path_entry(dir, true)).2,
{
    if dir.contains(';') {
        let a = path.push('"');
        assert(a.drop_last() =~= path);
        lemma_split_on(a, dir);
        let b = (a + dir).push('"');
        assert(b.drop_last() =~= a + dir);
        assert(path + path_entry(dir, true) =~= b);
    } else {
        lemma_split_on(path, dir);
    }
}

/// Every entry of a search path is without quotes, and read apart.
proof fn lemma_entries_plain(path: Seq<char>)
    ensures
        forall|i: int|
            0 <= i < windows_split(path).0.len() ==> !(#[trigger] windows_split(path).0[i]).contains(
                '"',
            ),
        !windows_split(path).1.contains('"'),
    decreases path.len(),
{
    if path.len() > 0 {
        lemma_entries_plain(path.drop_last());
        let (done, current, quoted) = windows_split(path.drop_last());
        let c = path.last();
        if c != '"' && !(c == ';' && !quoted) {
            let next = current.push(c);
            assert(!next.contains('"')) by {
                if next.contains('"') {
                    let k = choose|k: int| 0 <= k < next.len() && next[k] == '"';
                    if k < current.len() {
                        assert(current[k] == '"');
                    }
                }
            }
        }
    } else {
        assert(!Seq::<char>::empty().contains('"'));
    }
}

/// Entries that are written one behind the other read back as they are.
#[verifier::spinoff_prover]
#[verifier::rlimit(40)]
proof fn lemma_joined_entries(dirs: Seq<Seq<char>>)
    requires
        dirs.len() > 0,
        forall|i: int| 0 <= i < dirs.len() ==> !(#[trigger] dirs[i]).contains('"'),
    ensures
        ({
            let s = join(dirs.map_values(|dir: Seq<char>| path_entry(dir, true)), seq![';']);
            &&& windows_entries(s) == dirs
            &&& !windows_split(s).2
        }),
    decreases dirs.len(),
{
    let f = |dir: Seq<char>| path_entry(dir, true);
    let s = join(dirs.map_values(f), seq![';']);
    let rest = dirs.drop_last();
    let last = dirs.last();
    let none = Seq::<char>::empty();
    assert(last == dirs[dirs.len() - 1]);
    assert(dirs.map_values(f) =~= rest.map_values(f).push(path_entry(last, true)));
    lemma_join_push(rest.map_values(f), seq![';'], path_entry(last, true));
    if rest.len() == 0 {
        lemma_entry_reads(none, last);
        assert(none + path_entry(last, true) =~= path_entry(last, true));
        assert(none + last =~= last);
        assert(windows_entries(s) =~= dirs);
    } else {
        assert forall|i: int| 0 <= i < rest.len() implies !(#[trigger] rest[i]).contains('"') by {
            assert(rest[i] == dirs[i]);
        }
        lemma_joined_entries(rest);
        let t = join(rest.map_values(f), seq![';']);
        let u = t + seq![';'];
        assert(u.drop_last() =~= t);
        assert(u.last() == ';');
        assert(windows_split(u).0 == windows_entries(t));
        assert(windows_split(u).1 == none);
        assert(!windows_split(u).2);
        lemma_entry_reads(u, last);
        assert(s =~= u + path_entry(last, true));
        assert(none + last =~= last);
        assert(windows_entries(s) =~= dirs);
    }
}

/// Writing a search path anew keeps its entries, one for one; off Windows it is
/// passed on as it is.
pub proof fn search_paths_keep_their_entries(path: Seq<char>)
    ensures
        windows_entries(rejoined(path, true)) == windows_entries(path),
        rejoined(path, false) == path,
{
    let dirs = windows_entries(path);
    lemma_entries_plain(path);
    assert forall|i: int| 0 <= i < dirs.len() implies !(#[trigger] dirs[i]).contains('"') by {
        if i < windows_split(path).0.len() {
            assert(dirs[i] == windows_split(path).0[i]);
        }
    }
    lemma_joined_entries(dirs);
}

/// A session's folder gets its settings, its prompt, the guard and the context;
/// a folder is made before anything is written to it, and a context that an
/// earlier session left is cleared where there is none.
pub proof fn sessions_get_their_files(
    dir: Seq<char>,
    settings: Seq<char>,
    prompt: Seq<char>,
    guard: Seq<char>,
    context: Option<Seq<char>>,
    windows: bool,
)
    ensures
        ({
            let steps = config_steps(dir, settings, prompt, guard, context, windows);
            let extensions = joined_path(dir, "extensions"@, windows);
            &&& steps[0] == Step::CreateDir(dir)
            &&& steps.contains(Step::Write(joined_path(dir, "settings.json"@, windows), settings))
            &&& steps.contains(Step::Write(joined_path(dir, "SYSTEM.md"@, windows), prompt))
            &&& exists|i: int, j: int|
                0 <= i < j < steps.len() && (#[trigger] steps[i]) == Step::CreateDir(extensions) && (
                #[trigger] steps[j]) == Step::Write(
                    joined_path(extensions, "vault-guard.ts"@, windows),
                    guard,
                )
            &&& context matches Some(c) ==> steps.contains(
                Step::Write(joined_path(dir, "APPEND_SYSTEM.md"@, windows), c),
            )
            &&& context is None ==> steps.contains(
                Step::Remove(joined_path(dir, "APPEND_SYSTEM.md"@, windows)),
            )
        }),
{
    let steps = config_steps(dir, settings, prompt, guard, context, windows);
    let extensions = joined_path(dir, "extensions"@, windows);
    assert(steps[1] == Step::Write(joined_path(dir, "settings.json"@, windows), settings));
    assert(steps[2] == Step::Write(joined_path(dir, "SYSTEM.md"@, windows), prompt));
    assert(steps[3] == Step::CreateDir(extensions));
    assert(steps[4] == Step::Write(joined_path(extensions, "vault-guard.ts"@, windows), guard));
    assert(steps[5] == (match context {
        Some(c) => Step::Write(joined_path(dir, "APPEND_SYSTEM.md"@, windows), c),
        None => Step::Remove(joined_path(dir, "APPEND_SYSTEM.md"@, windows)),
    }));
}

/// A name on Windows: without any separator, and no drive.
pub open spec fn is_windows_name(name: Seq<char>) -> bool {
    is_name(name) && !name.contains('\\')
}

/// On Windows, too, the folder of a file is its parent, whatever separates its
/// parts, and with its drive.
#[verifier::spinoff_prover]
#[verifier::rlimit(40)]
pub proof fn windows_files_lie_in_their_folder(dir: Seq<char>, sep: char, name: Seq<char>)
    requires
        is_windows_name(name),
        sep == '/' || sep == '\\',
        dir.len() > drive_len(dir),
        ends_in_a_name(slashed(dir).skip(drive_len(dir))),
    ensures
        parent_on(dir + seq![sep] + name, true) == Some(dir),
{
    let path = dir + seq![sep] + name;
    let d = drive_len(dir);
    assert(drive_len(path) == d) by {
        assert(path[0] == dir[0]);
        if dir.len() >= 2 {
            assert(path[1] == dir[1]);
        } else {
            assert(path[1] == sep);
        }
    }
    let s = slashed(path).skip(d);
    let front = slashed(dir).skip(d);
    assert(slashed(name) =~= name) by {
        assert forall|i: int| 0 <= i < name.len() implies slashed(name)[i] == name[i] by {
            assert(name.contains(name[i]));
        }
    }
    assert(s =~= front + seq!['/'] + name) by {
        assert forall|i: int| 0 <= i < s.len() implies s[i] == (front + seq!['/'] + name)[i] by {
            assert(s[i] == slashed(path)[d + i]);
            if d + i > dir.len() {
                assert(path[d + i] == name[d + i - dir.len() - 1]);
                assert(slashed(name)[d + i - dir.len() - 1] == name[d + i - dir.len() - 1]);
            }
        }
    }
    files_are_named_in_their_folder(front, name);
    assert(front.len() == dir.len() - d);
    assert(path.take(dir.len() as int) =~= dir);
}

} // verus!
