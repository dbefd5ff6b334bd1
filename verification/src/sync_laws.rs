//! What holds of syncing: what a sync brought is said, and nothing that it found
//! is lost on the way to the vault.

use vstd::prelude::*;
use crate::format::decimal;
use crate::gmail::{folder_of, name_of, thread_digest, Mapping};
use crate::gmail_google::is_skipped;
use crate::gmail_service::{
    all_note_steps, capture_line, file_stem, mail_lines, folder_digests, folder_stems, hold_text,
    landing, mail_plans, mail_records, missing_labels, note_count, note_digest, note_stem,
    note_steps, pending, planned_stems, quoted_label, record_fields, scanned_stems, stem_of_digest,
    file_stems, Found, Landing, Mapped,
};
use crate::inbox::{capture_plan, item_digest, File, Item, Record};
use crate::inbox_laws::{captured, no_capture_is_dropped, remembers};
use crate::json::json_object;
use crate::lines::join;
use crate::context_laws::lemma_join_has;
use crate::mail_fetch::{settled, wanted, Fetching, Wanted};
use crate::sync::{
    announced, delay_after, feature_name, feature_object, goes_on, reloaded, state_after,
    touches_config, Ended, Feature, Loaded, State, Status,
};
use crate::text::{
    begins, ends, has, lemma_has, lemma_has_between, lemma_rfind_is, matches_at, rfind, trim,
};
use crate::text_laws::{is_core, only_the_ends_are_trimmed};
use crate::words::{frontmatter_value, trim_char};

verus! {

/// What a sync came to is said, unless it was given up: its feature's name, why
/// it was held or failed, and how much it brought.
#[verifier::spinoff_prover]
#[verifier::rlimit(40)]
pub proof fn syncs_say_what_they_came_to(feature: Feature, ended: Ended)
    ensures
        announced(feature, ended) is None <==> ended is Aborted,
        ended is Synced || ended is Held || ended is Failed ==> begins(
            announced(feature, ended)->0,
            feature_name(feature),
        ),
        ended matches Ended::Held(reason) ==> ends(announced(feature, ended)->0, reason),
        ended matches Ended::Failed(error) ==> ends(announced(feature, ended)->0, error),
        ended is AuthRevoked ==> ends(announced(feature, ended)->0, feature_object(feature)),
        ended matches Ended::Synced(n) ==> {
            let text = announced(feature, ended)->0;
            &&& n > 1 && !(feature is Calendar) ==> has(text, " "@ + decimal(n as nat) + " new "@)
            &&& n > 1 && !(feature is Calendar) ==> ends(text, "s"@)
            &&& n == 1 && !(feature is Calendar) ==> has(text, " 1 new "@) && (ends(text, "email"@)
                || ends(text, "item"@))
            &&& n == 0 && !(feature is Calendar) ==> ends(text, "nothing new"@)
            &&& feature is Calendar ==> ends(text, "synced"@)
        },
{
    reveal_strlit(" synced");
    reveal_strlit("synced");
    reveal_strlit(" — nothing new");
    reveal_strlit("nothing new");
    reveal_strlit(" — 1 new ");
    reveal_strlit(" 1 new ");
    reveal_strlit(" — ");
    reveal_strlit(" ");
    reveal_strlit(" new ");
    reveal_strlit("s");
    let none = Seq::<char>::empty();
    if let Some(text) = announced(feature, ended) {
        let name = feature_name(feature);
        match ended {
            Ended::Synced(n) => {
                assert(text.subrange(0, name.len() as int) =~= name);
                let noun = match feature {
                    Feature::Gmail => "email"@,
                    _ => "item"@,
                };
                if feature is Calendar {
                    assert(text.subrange(text.len() - 6, text.len() as int) =~= "synced"@);
                } else if n == 0 {
                    assert(text.subrange(text.len() - 11, text.len() as int) =~= "nothing new"@);
                } else if n == 1 {
                    let a = name + " synced"@ + seq![' ', '—'];
                    assert(text =~= a + " 1 new "@ + noun);
                    lemma_has_between(a, " 1 new "@, noun);
                    assert(text.subrange(text.len() - noun.len(), text.len() as int) =~= noun);
                } else {
                    let a = name + " synced"@ + seq![' ', '—'];
                    let p = " "@ + decimal(n as nat) + " new "@;
                    assert(text =~= a + p + (noun + "s"@));
                    lemma_has_between(a, p, noun + "s"@);
                    assert(text.subrange(text.len() - 1, text.len() as int) =~= "s"@);
                }
            },
            Ended::Held(reason) => {
                assert(text.subrange(0, name.len() as int) =~= name);
                assert(text.subrange(text.len() - reason.len(), text.len() as int) =~= reason);
            },
            Ended::Failed(error) => {
                assert(text.subrange(0, name.len() as int) =~= name);
                assert(text.subrange(text.len() - error.len(), text.len() as int) =~= error);
            },
            Ended::AuthRevoked => {
                let o = feature_object(feature);
                assert(text.subrange(text.len() - o.len(), text.len() as int) =~= o);
            },
            Ended::Aborted => {},
        }
    }
}

/// A failure doubles the wait, up to an hour; a sync that came to something
/// brings it back; a sync that was given up, or whose sign-in expired, is the
/// last one.
pub proof fn failures_double_the_wait(ended: Ended, interval: int, delay: int)
    ensures
        ended is Failed && delay <= 1800 ==> delay_after(ended, interval, delay) == delay + delay,
        ended is Failed && delay > 1800 ==> delay_after(ended, interval, delay) == 3600,
        ended is Synced || ended is Held ==> delay_after(ended, interval, delay) == interval,
        goes_on(ended) <==> ended is Synced || ended is Held || ended is Failed,
{
}

/// The state tells how the last sync ended.
pub proof fn states_tell_how_a_sync_ended(state: State, ended: Ended, now: u64)
    ensures
        ended is Aborted ==> state_after(state, ended, now) == state,
        ended is Synced ==> state_after(state, ended, now) == State::Synced(now),
        ended matches Ended::Held(why) ==> state_after(state, ended, now) == State::Holding(why),
        ended matches Ended::Failed(why) ==> state_after(state, ended, now) == State::Failing(why),
        ended is AuthRevoked ==> state_after(state, ended, now) is Disconnected,
{
}

/// Looking at the vault again: what is configured is taken over, a sync that
/// runs on the same configuration goes on, and nothing runs without an account.
pub proof fn a_look_at_the_vault_takes_over_its_configuration<V>(
    s: Status<V>,
    loaded: Loaded<V>,
    unreadable: Seq<char>,
)
    ensures
        ({
            let next = reloaded(s, loaded, unreadable);
            &&& next.has_vault <==> !(loaded is NoVault)
            &&& next.announce == s.announce
            &&& loaded matches Loaded::Account(c) ==> next.config == Some(c) && next.connected
                == s.connected && next.polling == s.polling && next.state == s.state
            &&& loaded matches Loaded::NoAccount(c) ==> next.config == Some(c) && !next.connected
                && !next.polling && next.state is NeverConnected
            &&& loaded is NoVault || loaded is NoConfig || loaded is Unreadable ==> next.config
                is None && !next.connected && !next.polling
            &&& loaded is Unreadable ==> next.state == State::Failing(unreadable)
            &&& loaded is NoVault || loaded is NoConfig ==> next.state is NoConfig
        }),
{
}

/// A change counts where it is one of the feature's own file or of the two files
/// that all features share.
pub proof fn changes_to_the_configuration_count(paths: Seq<Seq<char>>, file: Seq<char>)
    ensures
        touches_config(paths, file) <==> exists|i: int|
            0 <= i < paths.len() && ((#[trigger] paths[i]) == ".thock/"@ + file || paths[i]
                == ".thock/google.toml"@ || paths[i] == ".thock/config.toml"@),
{
    if touches_config(paths, file) {
        if paths.contains(".thock/"@ + file) {
            let i = choose|i: int| 0 <= i < paths.len() && paths[i] == ".thock/"@ + file;
        } else if paths.contains(".thock/google.toml"@) {
            let i = choose|i: int| 0 <= i < paths.len() && paths[i] == ".thock/google.toml"@;
        } else {
            let i = choose|i: int| 0 <= i < paths.len() && paths[i] == ".thock/config.toml"@;
        }
    }
}

/// A fetch that is settled is done, or waits for a list or for a thread; a label
/// that is not there is passed over, and every other one keeps its turn.
#[verifier::spinoff_prover]
#[verifier::rlimit(40)]
pub proof fn a_settled_fetch_waits_for_something(f: Fetching)
    requires
        f.done.len() <= f.labels.len(),
    ensures
        ({
            let s = settled(f);
            &&& s.labels == f.labels
            &&& s.seen == f.seen
            &&& f.done.len() <= s.done.len() <= f.labels.len()
            &&& s.done.take(f.done.len() as int) == f.done
            &&& s.done.len() == s.labels.len() || (s.listed && s.pending.len() > 0) || (!s.listed
                && s.labels[s.done.len() as int] is Some)
            &&& wanted(s) is Done <==> s.done.len() == s.labels.len()
            &&& wanted(s) matches Wanted::Thread(id) ==> s.pending.len() > 0 && id == s.pending[0]
            &&& wanted(s) matches Wanted::List(label) ==> s.labels[s.done.len() as int] == Some(
                label,
            )
            &&& forall|k: int|
                f.done.len() < k < s.done.len() ==> f.labels[k] is None && (#[trigger] s.done[k])
                    is None
            &&& f.done.len() < s.done.len() ==> s.done[f.done.len() as int] == (if f.listed {
                Some(f.items)
            } else {
                None
            })
        }),
    decreases f.labels.len() - f.done.len(),
{
    let s = settled(f);
    let n = f.done.len() as int;
    if f.done.len() >= f.labels.len() {
        assert(s.done.take(n) =~= f.done);
    } else if f.listed && f.pending.len() == 0 {
        let g = Fetching {
            done: f.done.push(Some(f.items)),
            listed: false,
            items: Seq::empty(),
            ..f
        };
        a_settled_fetch_waits_for_something(g);
        assert(s.done.take(n) =~= f.done) by {
            assert forall|k: int| 0 <= k < n implies s.done[k] == f.done[k] by {
                assert(s.done.take(n + 1)[k] == g.done[k]);
            }
        }
        assert(s.done[n] == g.done[n]) by {
            assert(s.done.take(n + 1)[n] == g.done[n]);
        }
        assert forall|k: int| n < k < s.done.len() implies f.labels[k] is None && (
        #[trigger] s.done[k]) is None by {
            if k == n + 1 {
                assert(s.done[g.done.len() as int] == s.done[k]);
            }
        }
    } else if !f.listed && f.labels[n] is None {
        let g = Fetching { done: f.done.push(None), ..f };
        a_settled_fetch_waits_for_something(g);
        assert(s.done.take(n) =~= f.done) by {
            assert forall|k: int| 0 <= k < n implies s.done[k] == f.done[k] by {
                assert(s.done.take(n + 1)[k] == g.done[k]);
            }
        }
        assert(s.done[n] == g.done[n]) by {
            assert(s.done.take(n + 1)[n] == g.done[n]);
        }
        assert forall|k: int| n < k < s.done.len() implies f.labels[k] is None && (
        #[trigger] s.done[k]) is None by {
            if k == n + 1 {
                assert(s.done[g.done.len() as int] == s.done[k]);
            }
        }
    } else {
        assert(s.done.take(n) =~= f.done);
    }
}

/// A note is a file with the ending for notes whose name is not hidden, and goes
/// by its name without the ending.
#[verifier::spinoff_prover]
#[verifier::rlimit(40)]
pub proof fn notes_go_by_their_name(stem: Seq<char>, name: Seq<char>)
    ensures
        stem.len() > 0 && stem[0] != '.' ==> note_stem(stem + ".md"@) == Some(stem),
        note_stem(name) matches Some(s) ==> name == s + ".md"@ && s.len() > 0 && s[0] != '.',
{
    reveal_strlit(".md");
    reveal_strlit("md");
    reveal_strlit(".");
    if stem.len() > 0 && stem[0] != '.' {
        let all = stem + ".md"@;
        let n = stem.len() as int;
        assert(all.subrange(n, n + 1) =~= "."@);
        assert forall|j: int| n < j implies !matches_at(all, "."@, j) by {
            if matches_at(all, "."@, j) {
                assert(all.subrange(j, j + 1)[0] == all[j]);
            }
        }
        lemma_rfind_is(all, "."@, n);
        assert(all.skip(n + 1) =~= "md"@);
        assert(all.take(n) =~= stem);
    }
    if let Some(s) = note_stem(name) {
        let at = rfind(name, "."@)->0;
        crate::text::lemma_rfind_to(name, "."@, name.len() - 1);
        assert(matches_at(name, "."@, at));
        assert(name.subrange(at, at + 1)[0] == name[at]);
        assert(name =~= name.take(at) + ".md"@) by {
            assert(name.skip(at + 1) == "md"@);
            assert(name.skip(at + 1).len() == 2);
            assert(at + 1 <= name.len());
            assert(name.len() == at + 3);
            assert(name.skip(at + 1)[0] == name[at + 1]);
            assert(name.skip(at + 1)[1] == name[at + 2]);
        }
    }
}

/// The names that a folder's notes go by.
pub proof fn every_note_of_a_folder_is_named(files: Seq<Found>, i: int)
    requires
        0 <= i < files.len(),
        note_stem(files[i].name) is Some,
    ensures
        folder_stems(files).contains(note_stem(files[i].name)->0),
    decreases files.len(),
{
    let rest = files.drop_last();
    let above = folder_stems(rest);
    let all = folder_stems(files);
    let stem = note_stem(files[i].name)->0;
    if i < rest.len() {
        assert(rest[i] == files[i]);
        every_note_of_a_folder_is_named(rest, i);
        let k = choose|k: int| 0 <= k < above.len() && above[k] == stem;
        assert(all[k] == stem);
    } else {
        assert(all[all.len() - 1] == stem);
    }
}

/// Every note with a digest is known by it.
pub proof fn every_captured_note_is_known(files: Seq<Found>, older: bool, i: int)
    requires
        0 <= i < files.len(),
        note_stem(files[i].name) is Some,
        note_digest(files[i].content, older) is Some,
    ensures
        folder_digests(files, older).contains(
            (note_digest(files[i].content, older)->0, note_stem(files[i].name)->0),
        ),
    decreases files.len(),
{
    let rest = files.drop_last();
    let above = folder_digests(rest, older);
    let all = folder_digests(files, older);
    let pair = (note_digest(files[i].content, older)->0, note_stem(files[i].name)->0);
    if i < rest.len() {
        assert(rest[i] == files[i]);
        every_captured_note_is_known(rest, older, i);
        let k = choose|k: int| 0 <= k < above.len() && above[k] == pair;
        assert(all[k] == pair);
    } else {
        assert(all[all.len() - 1] == pair);
    }
}

/// A digest leads to the note that was found with it; of two the later one.
pub proof fn digests_lead_to_their_note(
    list: Seq<(Seq<char>, Seq<char>)>,
    digest: Seq<char>,
    stem: Seq<char>,
    other: Seq<char>,
)
    ensures
        stem_of_digest(list.push((digest, stem)), digest) == Some(stem),
        other != digest ==> stem_of_digest(list.push((digest, stem)), other) == stem_of_digest(
            list,
            other,
        ),
        stem_of_digest(Seq::empty(), digest) is None,
{
    let all = list.push((digest, stem));
    assert(all.drop_last() =~= list);
}

/// The names that are taken in a folder are those that its scans found, whichever
/// mapping shares the folder.
pub proof fn every_scanned_name_is_taken(
    mappings: Seq<Mapping>,
    dirs: Seq<Seq<Seq<char>>>,
    path: Seq<char>,
    n: nat,
    i: int,
    stem: Seq<char>,
)
    requires
        0 <= i < n,
        i < mappings.len(),
        i < dirs.len(),
        mappings[i].path == path,
        dirs[i].contains(stem),
    ensures
        scanned_stems(mappings, dirs, path, n).contains(stem),
    decreases n,
{
    let above = scanned_stems(mappings, dirs, path, (n - 1) as nat);
    let all = scanned_stems(mappings, dirs, path, n);
    if i < n - 1 {
        every_scanned_name_is_taken(mappings, dirs, path, (n - 1) as nat, i, stem);
        let k = choose|k: int| 0 <= k < above.len() && above[k] == stem;
        assert(all[k] == stem);
    } else {
        let k = choose|k: int| 0 <= k < dirs[i].len() && dirs[i][k] == stem;
        assert(all[above.len() + k] == stem);
    }
}

/// No fetched mail is lost: whatever was fetched for a label, and was not
/// imported before, is recorded by a plan of that label's mapping.
#[verifier::spinoff_prover]
#[verifier::rlimit(40)]
pub proof fn no_fetched_mail_is_lost(
    mappings: Seq<Mapping>,
    fetched: Seq<Option<Seq<Item>>>,
    dirs: Seq<Seq<Seq<char>>>,
    account: Seq<char>,
    imported: Seq<Seq<char>>,
    vault: Seq<Seq<char>>,
    at: Seq<char>,
    n: nat,
    k: int,
    digest: Seq<char>,
)
    requires
        0 <= k < n,
        k < mappings.len(),
        k < fetched.len(),
        fetched[k] is Some,
        captured(fetched[k]->0, account, digest),
        !imported.contains(digest),
    ensures
        exists|p: int|
            0 <= p < mail_plans(mappings, fetched, dirs, account, imported, vault, at, n).len() && (
            #[trigger] mail_plans(
                mappings,
                fetched,
                dirs,
                account,
                imported,
                vault,
                at,
                n,
            )[p]).index == k && remembers(
                mail_plans(mappings, fetched, dirs, account, imported, vault, at, n)[p].plan,
                digest,
            ),
    decreases n,
{
    let prev = mail_plans(
        mappings,
        fetched,
        dirs,
        account,
        imported,
        vault,
        at,
        (n - 1) as nat,
    );
    let all = mail_plans(mappings, fetched, dirs, account, imported, vault, at, n);
    if k < n - 1 {
        no_fetched_mail_is_lost(
            mappings,
            fetched,
            dirs,
            account,
            imported,
            vault,
            at,
            (n - 1) as nat,
            k,
            digest,
        );
        let p = choose|p: int|
            0 <= p < prev.len() && (#[trigger] prev[p]).index == k && remembers(
                prev[p].plan,
                digest,
            );
        assert(all[p] == prev[p]);
    } else {
        let items = fetched[k]->0;
        let path = mappings[k].path;
        let taken = scanned_stems(mappings, dirs, path, mappings.len()) + planned_stems(
            mappings,
            prev,
            path,
        );
        let plan = capture_plan(items, account, imported, vault, taken, path, at);
        no_capture_is_dropped(items, account, imported, vault, taken, path, at);
        assert(remembers(plan, digest));
        assert(plan.records.len() > 0);
        assert(items.len() > 0);
        let p = all.len() - 1;
        assert(all[p].plan == plan);
    }
}

/// Every label that Gmail does not have is named, each in quotes.
pub proof fn missing_labels_are_named(
    mappings: Seq<Mapping>,
    fetched: Seq<Option<Seq<Item>>>,
    n: nat,
    k: int,
)
    requires
        0 <= k < n,
        k < mappings.len(),
        k < fetched.len(),
        fetched[k] is None,
    ensures
        hold_text(missing_labels(mappings, fetched, n)) is Some,
        has(
            hold_text(missing_labels(mappings, fetched, n))->0,
            seq!['"'] + mappings[k].label + seq!['"'],
        ),
{
    let labels = missing_labels(mappings, fetched, n);
    lemma_missing(mappings, fetched, n, k);
    let i = choose|i: int| 0 <= i < labels.len() && labels[i] == mappings[k].label;
    let q = seq!['"'] + mappings[k].label + seq!['"'];
    if labels.len() == 1 {
        lemma_has_between("label "@, q, " not found in Gmail"@);
    } else {
        let parts = labels.map_values(|l: Seq<char>| quoted_label(l));
        assert(parts[i] == q);
        lemma_join_has(parts, ", "@, i);
        lemma_has("labels "@, join(parts, ", "@), " not found in Gmail"@, q);
    }
}

proof fn lemma_missing(
    mappings: Seq<Mapping>,
    fetched: Seq<Option<Seq<Item>>>,
    n: nat,
    k: int,
)
    requires
        0 <= k < n,
        k < mappings.len(),
        k < fetched.len(),
        fetched[k] is None,
    ensures
        missing_labels(mappings, fetched, n).contains(mappings[k].label),
    decreases n,
{
    let above = missing_labels(mappings, fetched, (n - 1) as nat);
    let all = missing_labels(mappings, fetched, n);
    if k < n - 1 {
        lemma_missing(mappings, fetched, (n - 1) as nat, k);
        let i = choose|i: int| 0 <= i < above.len() && above[i] == mappings[k].label;
        assert(all[i] == mappings[k].label);
    } else {
        assert(all[all.len() - 1] == mappings[k].label);
    }
}

/// Nothing is held where Gmail has all labels.
pub proof fn nothing_is_held_without_need(
    mappings: Seq<Mapping>,
    fetched: Seq<Option<Seq<Item>>>,
    n: nat,
)
    requires
        forall|k: int| 0 <= k < fetched.len() ==> (#[trigger] fetched[k]) is Some,
    ensures
        hold_text(missing_labels(mappings, fetched, n)) is None,
    decreases n,
{
    if n > 0 {
        nothing_is_held_without_need(mappings, fetched, (n - 1) as nat);
        if n <= fetched.len() {
            assert(fetched[n - 1] is Some);
        }
    }
}

/// The line of a captured mail links its note and carries its digest.
#[verifier::spinoff_prover]
#[verifier::rlimit(40)]
pub proof fn capture_lines_link_their_note(title: Seq<char>, stem: Seq<char>, digest: Seq<char>)
    ensures
        begins(capture_line(title, stem, digest), "- [ ] "@ + title),
        has(capture_line(title, stem, digest), "[["@ + stem + "]]"@),
        ends(capture_line(title, stem, digest), "<!--gmail:"@ + digest + "-->"@),
{
    reveal_strlit(" [[");
    reveal_strlit("[[");
    reveal_strlit("]] <!--gmail:");
    reveal_strlit("]]");
    reveal_strlit("<!--gmail:");
    let s = capture_line(title, stem, digest);
    let a = "- [ ] "@ + title;
    let p = "[["@ + stem + "]]"@;
    let q = "<!--gmail:"@ + digest + "-->"@;
    assert(s.subrange(0, a.len() as int) =~= a);
    assert(s =~= (a + seq![' ']) + p + (seq![' '] + q));
    lemma_has_between(a + seq![' '], p, seq![' '] + q);
    assert(s.subrange(s.len() - q.len(), s.len() as int) =~= q);
}

/// A mail's file is found by its digest; of two the first.
pub proof fn files_are_found_by_digest(files: Seq<File>, digest: Seq<char>)
    ensures
        match file_stem(files, digest) {
            Some(stem) => exists|k: int|
                0 <= k < files.len() && (#[trigger] files[k]).digest == digest && files[k].stem
                    == stem && forall|j: int| 0 <= j < k ==> (#[trigger] files[j]).digest != digest,
            None => forall|j: int| 0 <= j < files.len() ==> (#[trigger] files[j]).digest != digest,
        },
    decreases files.len(),
{
    if files.len() > 0 && files[0].digest != digest {
        let rest = files.skip(1);
        files_are_found_by_digest(rest, digest);
        if let Some(stem) = file_stem(rest, digest) {
            let k = choose|k: int|
                0 <= k < rest.len() && (#[trigger] rest[k]).digest == digest && rest[k].stem == stem
                    && forall|j: int| 0 <= j < k ==> (#[trigger] rest[j]).digest != digest;
            assert(files[k + 1] == rest[k]);
            assert forall|j: int| 0 <= j < k + 1 implies (#[trigger] files[j]).digest != digest by {
                if j > 0 {
                    assert(files[j] == rest[j - 1]);
                }
            }
        } else {
            assert forall|j: int| 0 <= j < files.len() implies (#[trigger] files[j]).digest
                != digest by {
                if j > 0 {
                    assert(files[j] == rest[j - 1]);
                }
            }
        }
    }
}

/// Of the lines for the backlog those are added whose marker it does not have,
/// each on a line of its own and in order.
pub proof fn lines_are_added_in_order(
    a: Seq<(Seq<char>, Seq<char>)>,
    b: Seq<(Seq<char>, Seq<char>)>,
    line: (Seq<char>, Seq<char>),
    markers: Seq<Seq<char>>,
)
    ensures
        pending(a + b, markers) == pending(a, markers) + pending(b, markers),
        pending(seq![line], markers) == (if markers.contains(line.0) {
            Seq::<char>::empty()
        } else {
            line.1 + seq!['\n']
        }),
    decreases b.len(),
{
    let none = Seq::<char>::empty();
    let one = seq![line];
    assert(one.drop_last() =~= Seq::<(Seq<char>, Seq<char>)>::empty());
    assert(one.last() == line);
    assert(pending(one.drop_last(), markers) =~= none);
    assert(none + line.1 + seq!['\n'] =~= line.1 + seq!['\n']);
    if b.len() == 0 {
        assert(a + b =~= a);
        assert(pending(b, markers) =~= none);
        assert(pending(a, markers) + none =~= pending(a, markers));
    } else {
        lines_are_added_in_order(a, b.drop_last(), line, markers);
        assert((a + b).drop_last() =~= a + b.drop_last());
        assert((a + b).last() == b.last());
        assert(pending(a + b, markers) =~= pending(a, markers) + pending(b, markers));
    }
}

/// Mail lands in order: the notes first, then the backlog, and only then is it
/// recorded, so that nothing is recorded that is not there.
#[verifier::spinoff_prover]
#[verifier::rlimit(40)]
pub proof fn notes_land_before_they_are_recorded(
    plans: Seq<Mapped>,
    lines: Seq<(Seq<char>, Seq<char>)>,
    entries: Seq<Seq<char>>,
)
    ensures
        ({
            let steps = landing(plans, lines, entries);
            &&& forall|i: int, j: int|
                0 <= i < j < steps.len() && (#[trigger] steps[i]) is AddToBacklog ==> !((
                #[trigger] steps[j]) is CreateNote)
            &&& forall|i: int|
                0 <= i < steps.len() && (#[trigger] steps[i]) is Record ==> i == steps.len() - 1
            &&& entries.len() > 0 ==> steps.len() > 0 && steps.last() == Landing::Record(entries)
            &&& lines.len() > 0 ==> steps.contains(Landing::AddToBacklog(lines))
            &&& forall|p: int, i: int|
                0 <= p < plans.len() && 0 <= i < plans[p].plan.files.len() ==> steps.contains(
                    Landing::CreateNote(
                        (#[trigger] plans[p].plan.files[i]).rel_path,
                        plans[p].plan.files[i].content,
                    ),
                )
        }),
{
    let steps = landing(plans, lines, entries);
    let first = all_note_steps(plans);
    lemma_note_steps(plans);
    if lines.len() > 0 {
        assert(steps[first.len() as int] == Landing::AddToBacklog(lines));
    }
    assert forall|p: int, i: int|
        0 <= p < plans.len() && 0 <= i < plans[p].plan.files.len() implies steps.contains(
        Landing::CreateNote(
            (#[trigger] plans[p].plan.files[i]).rel_path,
            plans[p].plan.files[i].content,
        ),
    ) by {
        lemma_note_step(plans, p, i);
        let step = Landing::CreateNote(
            plans[p].plan.files[i].rel_path,
            plans[p].plan.files[i].content,
        );
        let k = choose|k: int| 0 <= k < first.len() && first[k] == step;
        assert(steps[k] == step);
    }
    assert forall|i: int| 0 <= i < first.len() implies (#[trigger] steps[i]) is CreateNote by {
        assert(steps[i] == first[i]);
    }
}

proof fn lemma_note_steps(plans: Seq<Mapped>)
    ensures
        forall|k: int|
            0 <= k < all_note_steps(plans).len() ==> (#[trigger] all_note_steps(plans)[k])
                is CreateNote,
        all_note_steps(plans).len() == note_count(plans),
    decreases plans.len(),
{
    if plans.len() > 0 {
        lemma_note_steps(plans.drop_last());
        let above = all_note_steps(plans.drop_last());
        let more = note_steps(plans.last().plan.files);
        let all = all_note_steps(plans);
        assert forall|k: int| 0 <= k < all.len() implies (#[trigger] all[k]) is CreateNote by {
            if k < above.len() {
                assert(all[k] == above[k]);
            } else {
                assert(all[k] == more[k - above.len()]);
            }
        }
    }
}

proof fn lemma_note_step(plans: Seq<Mapped>, p: int, i: int)
    requires
        0 <= p < plans.len(),
        0 <= i < plans[p].plan.files.len(),
    ensures
        all_note_steps(plans).contains(
            Landing::CreateNote(
                plans[p].plan.files[i].rel_path,
                plans[p].plan.files[i].content,
            ),
        ),
    decreases plans.len(),
{
    let rest = plans.drop_last();
    let above = all_note_steps(rest);
    let all = all_note_steps(plans);
    let step = Landing::CreateNote(plans[p].plan.files[i].rel_path, plans[p].plan.files[i].content);
    if p < rest.len() {
        assert(rest[p] == plans[p]);
        lemma_note_step(rest, p, i);
        let k = choose|k: int| 0 <= k < above.len() && above[k] == step;
        assert(all[k] == step);
    } else {
        assert(note_steps(plans.last().plan.files)[i] == step);
        assert(all[above.len() + i] == step);
    }
}

/// Every record of every plan has its entry, with the folder of its mapping.
pub proof fn every_record_has_its_entry(
    plans: Seq<Mapped>,
    mappings: Seq<Mapping>,
    at: Seq<char>,
    p: int,
    i: int,
)
    requires
        0 <= p < plans.len(),
        0 <= plans[p].index < mappings.len(),
        0 <= i < plans[p].plan.records.len(),
    ensures
        ({
            let r = plans[p].plan.records[i];
            mail_records(plans, mappings, at).contains(
                json_object(
                    seq![
                        ("digest"@, r.digest),
                        ("thread"@, r.external_id),
                        ("title"@, r.title),
                        ("path"@, mappings[plans[p].index].path),
                        ("at"@, at),
                    ],
                ),
            )
        }),
    decreases plans.len(),
{
    let rest = plans.drop_last();
    let above = mail_records(rest, mappings, at);
    let all = mail_records(plans, mappings, at);
    let r = plans[p].plan.records[i];
    let path = mappings[plans[p].index].path;
    let entry = json_object(
        seq![
            ("digest"@, r.digest),
            ("thread"@, r.external_id),
            ("title"@, r.title),
            ("path"@, path),
            ("at"@, at),
        ],
    );
    if p < rest.len() {
        assert(rest[p] == plans[p]);
        every_record_has_its_entry(rest, mappings, at, p, i);
        let k = choose|k: int| 0 <= k < above.len() && above[k] == entry;
        assert(all[k] == entry);
    } else {
        let more = plans[p].plan.records.map_values(
            |r: Record| json_object(record_fields(r, path, at)),
        );
        assert(more[i] == entry);
        assert(all =~= above + more);
        assert(all[above.len() + i] == entry);
    }
}

/// The names that earlier plans take in a folder are taken.
pub proof fn every_planned_name_is_taken(
    mappings: Seq<Mapping>,
    plans: Seq<Mapped>,
    p: int,
    i: int,
)
    requires
        0 <= p < plans.len(),
        0 <= plans[p].index < mappings.len(),
        0 <= i < plans[p].plan.files.len(),
    ensures
        planned_stems(mappings, plans, mappings[plans[p].index].path).contains(
            plans[p].plan.files[i].stem,
        ),
    decreases plans.len(),
{
    let rest = plans.drop_last();
    let path = mappings[plans[p].index].path;
    let stem = plans[p].plan.files[i].stem;
    let above = planned_stems(mappings, rest, path);
    let all = planned_stems(mappings, plans, path);
    if p < rest.len() {
        assert(rest[p] == plans[p]);
        every_planned_name_is_taken(mappings, rest, p, i);
        let k = choose|k: int| 0 <= k < above.len() && above[k] == stem;
        assert(all[k] == stem);
    } else {
        assert(file_stems(plans[p].plan.files)[i] == stem);
        assert(all[above.len() + i] == stem);
    }
}

/// The backlog gets lines for mail that is archived, and for no other.
pub proof fn only_archived_mail_gets_lines(
    plans: Seq<Mapped>,
    mappings: Seq<Mapping>,
    dirs: Seq<Seq<(Seq<char>, Seq<char>)>>,
    markers: Seq<Seq<char>>,
)
    requires
        forall|p: int|
            0 <= p < plans.len() && 0 <= (#[trigger] plans[p]).index < mappings.len()
                ==> mappings[plans[p].index].path != "archives/emails"@,
    ensures
        mail_lines(plans, mappings, dirs, markers).len() == 0,
    decreases plans.len(),
{
    if plans.len() > 0 {
        let rest = plans.drop_last();
        assert forall|p: int|
            0 <= p < rest.len() && 0 <= (#[trigger] rest[p]).index < mappings.len() implies mappings[rest[p].index].path
            != "archives/emails"@ by {
            assert(rest[p] == plans[p]);
        }
        only_archived_mail_gets_lines(rest, mappings, dirs, markers);
        assert(plans[plans.len() - 1] == plans.last());
    }
}

/// A note is known by the digest of its capture, else, where older notes count, by
/// that of its thread.
pub proof fn notes_are_known_by_their_capture(text: Seq<char>, older: bool)
    ensures
        frontmatter_value(text, "capture:"@) matches Some(d) ==> note_digest(Some(text), older)
            == Some(d),
        frontmatter_value(text, "capture:"@) is None && !older ==> note_digest(
            Some(text),
            older,
        ) is None,
        frontmatter_value(text, "capture:"@) is None && older ==> note_digest(Some(text), older)
            == frontmatter_value(text, "thread:"@),
        note_digest(None, older) is None,
{
}

/// A thread is passed over where it was captured before, under its digest or its
/// older one, and nowhere else.
pub proof fn captured_threads_are_passed_over(
    id: Seq<char>,
    account: Seq<char>,
    skip: Seq<Seq<char>>,
)
    ensures
        skip.contains(item_digest(account, "gmail"@, id)) ==> is_skipped(id, account, skip),
        skip.contains(thread_digest(account, id)) ==> is_skipped(id, account, skip),
        !is_skipped(id, account, Seq::empty()),
        is_skipped(id, account, skip) ==> exists|i: int|
            0 <= i < skip.len() && ((#[trigger] skip[i]) == item_digest(account, "gmail"@, id)
                || skip[i] == thread_digest(account, id)),
{
    if is_skipped(id, account, skip) {
        if skip.contains(item_digest(account, "gmail"@, id)) {
            let i = choose|i: int|
                0 <= i < skip.len() && skip[i] == item_digest(account, "gmail"@, id);
        } else {
            let i = choose|i: int| 0 <= i < skip.len() && skip[i] == thread_digest(account, id);
        }
    }
}

/// A mapping's label and folder are what was set, without the white space around
/// them, and the folder without slashes at its ends.
pub proof fn mappings_are_trimmed(set: Option<String>)
    ensures
        set is None ==> name_of(set).len() == 0 && folder_of(set).len() == 0,
        set matches Some(t) ==> name_of(set) == trim(t@),
        folder_of(set).len() > 0 ==> folder_of(set)[0] != '/' && folder_of(set).last() != '/',
        set matches Some(t) ==> exists|a: int, b: int| #[trigger]
            is_core(trim(t@), '/', a, b, folder_of(set)),
{
    if let Some(t) = set {
        only_the_ends_are_trimmed(trim(t@), '/');
        let (a, b) = choose|a: int, b: int| #[trigger]
            is_core(trim(t@), '/', a, b, trim_char(trim(t@), '/'));
        assert(is_core(trim(t@), '/', a, b, folder_of(set)));
    }
}

} // verus!
