//! What holds of agents and settings: every skill is offered, a launch passes on
//! what it was given, and a change to a file changes what it names.

use vstd::prelude::*;
use crate::agent::{
    fast_form, has_placeholder, launch_argv, present_agents, replaced, setting_of, shell_words,
    woven, ConnectedAgent, Known, ModelTier,
};
use crate::agent_panel::{
    launch_words, offer_of, session_at, skill_request, skill_with_id, skills_of, tier_command,
    AgentSession,
};
use crate::calendar::{is_blank, past_content, poll_seconds, setting, CalendarEvent};
use crate::calendar_laws::new_lines_are_in_order;
use crate::chat_flow::said_at;
use crate::format::text_before;
use crate::getting_started::{checklist, Markers};
use crate::hosted_agent::{RoutineManifest, RoutineSkill};
use crate::paths::file_name;
use crate::sort::sorted;
use crate::synced_line::Event;
use crate::text::{begins, ends, has, lemma_has_found, matches_at, trim};
use crate::toml_file::{changed, Change, Node};
use crate::transcript::Chunk;

verus! {

proof fn lemma_known_pushed(list: Seq<Known>, last: Known, a: Known)
    ensures
        list.push(last).contains(a) == (list.contains(a) || a == last),
{
    let all = list.push(last);
    assert(all[list.len() as int] == last);
    if list.contains(a) {
        let k = choose|k: int| 0 <= k < list.len() && list[k] == a;
        assert(all[k] == a);
    }
    if all.contains(a) {
        let k = choose|k: int| 0 <= k < all.len() && all[k] == a;
        if k < list.len() {
            assert(list[k] == a);
        }
    }
}

/// The agents that are offered are those of the known ones that are there.
pub proof fn agents_that_are_there_are_offered(agents: Seq<Known>, present: Seq<Seq<char>>)
    ensures
        forall|a: Known| #[trigger]
            present_agents(agents, present).contains(a) == (agents.contains(a) && present.contains(
                a.program,
            )),
    decreases agents.len(),
{
    let all = present_agents(agents, present);
    if agents.len() == 0 {
        assert(all.len() == 0);
    } else {
        let rest = agents.drop_last();
        let above = present_agents(rest, present);
        let last = agents.last();
        agents_that_are_there_are_offered(rest, present);
        assert(agents =~= rest.push(last));
        assert forall|a: Known| #[trigger]
            all.contains(a) == (agents.contains(a) && present.contains(a.program)) by {
            lemma_known_pushed(rest, last, a);
            lemma_known_pushed(above, last, a);
            assert(above.contains(a) == (rest.contains(a) && present.contains(a.program)));
        }
    }
}

/// A command has a fast form where its program is the one that has one and it
/// names no model itself; the form is the command with the model behind it.
pub proof fn fast_forms_name_the_model(
    command: Seq<char>,
    words: Option<Seq<Seq<char>>>,
    lead: Seq<char>,
)
    ensures
        fast_form(command, words, lead) is Some <==> !(has(command, "--model"@)) && words is Some
            && words->0.len() > 0 && file_name(words->0[0]) == lead,
        fast_form(command, words, lead) matches Some(fast) ==> begins(fast, command) && ends(
            fast,
            "--model haiku"@,
        ),
{
    reveal_strlit(" --model haiku");
    reveal_strlit("--model haiku");
    lemma_has_found(command, "--model"@);
    if let Some(fast) = fast_form(command, words, lead) {
        assert(fast.subrange(0, command.len() as int) =~= command);
        assert(fast.subrange(fast.len() - 13, fast.len() as int) =~= "--model haiku"@);
    }
}

/// Every placeholder is replaced, and nothing else is.
pub proof fn placeholders_are_replaced(a: Seq<char>, p: Seq<char>, b: Seq<char>, by: Seq<char>)
    requires
        p.len() > 0,
        forall|j: int| 0 <= j < a.len() ==> !#[trigger] matches_at(a + p + b, p, j),
    ensures
        replaced(a + p + b, p, by) == a + by + replaced(b, p, by),
        !(has(b, p)) ==> replaced(b, p, by) == b,
{
    let s = a + p + b;
    let n = a.len() as int;
    assert(s.subrange(n, n + p.len()) =~= p);
    crate::marker_laws::lemma_find_is(s, p, n);
    assert(s.take(n) =~= a);
    assert(s.skip(n + p.len()) =~= b);
    lemma_has_found(b, p);
}

/// Words are woven one by one, in order: a word without the placeholder stays, a
/// word with it has the prompt in its place, or is left out where there is none.
#[verifier::spinoff_prover]
#[verifier::rlimit(40)]
pub proof fn words_are_woven_one_by_one(
    a: Seq<Seq<char>>,
    b: Seq<Seq<char>>,
    w: Seq<char>,
    kickoff: Option<Seq<char>>,
)
    ensures
        woven(a + b, kickoff) == woven(a, kickoff) + woven(b, kickoff),
        !(has(w, "{prompt}"@)) ==> woven(seq![w], kickoff) == seq![w],
        has(w, "{prompt}"@) && kickoff is None ==> woven(seq![w], kickoff).len() == 0,
        has(w, "{prompt}"@) && kickoff is Some ==> woven(seq![w], kickoff) == seq![
            replaced(w, "{prompt}"@, kickoff->0),
        ],
    decreases b.len(),
{
    let none = Seq::<Seq<char>>::empty();
    let one = seq![w];
    lemma_has_found(w, "{prompt}"@);
    assert(one.drop_last() =~= none);
    assert(one.last() == w);
    assert(woven(none, kickoff) =~= none);
    assert(none.push(w) =~= one);
    if kickoff is Some {
        assert(none.push(replaced(w, "{prompt}"@, kickoff->0)) =~= seq![
            replaced(w, "{prompt}"@, kickoff->0),
        ]);
    }
    if b.len() == 0 {
        assert(a + b =~= a);
        assert(woven(b, kickoff) =~= none);
        assert(woven(a, kickoff) + none =~= woven(a, kickoff));
    } else {
        words_are_woven_one_by_one(a, b.drop_last(), w, kickoff);
        assert((a + b).drop_last() =~= a + b.drop_last());
        assert((a + b).last() == b.last());
        assert(woven(a + b, kickoff) =~= woven(a, kickoff) + woven(b, kickoff));
    }
}

/// A launch without a prompt adds nothing; one with a prompt passes it on.
pub proof fn launches_pass_on_the_prompt(words: Seq<Seq<char>>, kickoff: Option<Seq<char>>)
    ensures
        kickoff is None ==> launch_argv(words, kickoff) == woven(words, kickoff),
        kickoff matches Some(k) ==> (!has_placeholder(words) ==> launch_argv(words, kickoff).len()
            > 0 && launch_argv(words, kickoff).last() == k),
        kickoff is Some && has_placeholder(words) ==> launch_argv(words, kickoff) == woven(
            words,
            kickoff,
        ),
{
}

/// A command is launched where it parses and leaves a word to run, and each of
/// the two failures is told apart.
pub proof fn commands_are_launched_where_they_parse(
    command: Seq<char>,
    kickoff: Option<Seq<char>>,
)
    ensures
        launch_words(command, kickoff) is Ok <==> shell_words(command) is Some && launch_argv(
            shell_words(command)->0,
            kickoff,
        ).len() > 0,
        launch_words(command, kickoff) matches Ok(argv) ==> argv == launch_argv(
            shell_words(command)->0,
            kickoff,
        ),
        launch_words(command, kickoff) matches Err(e) ==> (e is Unparseable <==> shell_words(
            command,
        ) is None),
{
}

/// A fast skill runs with the fast command that was set, else with the fast form,
/// where there is one, else as any other; another never does.
pub proof fn fast_skills_run_fast(agent: ConnectedAgent, lead: Seq<char>)
    ensures
        tier_command(agent, ModelTier::Default, lead) == agent.command@,
        agent.fast_command matches Some(fast) ==> tier_command(agent, ModelTier::Fast, lead)
            == fast@,
        agent.fast_command is None ==> begins(
            tier_command(agent, ModelTier::Fast, lead),
            agent.command@,
        ),
        agent.fast_command is None && fast_form(
            agent.command@,
            shell_words(agent.command@),
            lead,
        ) is Some ==> ends(tier_command(agent, ModelTier::Fast, lead), "--model haiku"@),
{
    let c = agent.command@;
    fast_forms_name_the_model(c, shell_words(c), lead);
    assert(c.subrange(0, c.len() as int) =~= c);
}

/// A setting counts where there is something in it, without the white space
/// around it.
pub proof fn settings_are_trimmed(found: Option<Seq<char>>)
    ensures
        setting_of(found) is Some <==> found is Some && trim(found->0).len() > 0,
        setting_of(found) matches Some(s) ==> s == trim(found->0),
{
}

/// Every skill of every routine is there, with its routine's name, in order.
pub proof fn every_skill_is_listed(routines: Seq<RoutineManifest>, i: int, j: int)
    requires
        0 <= i < routines.len(),
        0 <= j < routines[i].skills@.len(),
    ensures
        skills_of(routines).contains((routines[i].name@, routines[i].skills@[j])),
    decreases routines.len(),
{
    let rest = routines.drop_last();
    let above = skills_of(rest);
    let all = skills_of(routines);
    let pair = (routines[i].name@, routines[i].skills@[j]);
    if i < rest.len() {
        assert(rest[i] == routines[i]);
        every_skill_is_listed(rest, i, j);
        let k = choose|k: int| 0 <= k < above.len() && above[k] == pair;
        assert(all[k] == pair);
    } else {
        let last = routines.last();
        let more = last.skills@.map_values(|s: RoutineSkill| (last.name@, s));
        assert(more[j] == pair);
        assert(all[above.len() + j] == pair);
    }
}

/// A skill is found by its id; of two the first.
pub proof fn skills_are_found_by_id(skills: Seq<(Seq<char>, RoutineSkill)>, id: Seq<char>)
    ensures
        match skill_with_id(skills, id) {
            Some(s) => exists|k: int|
                0 <= k < skills.len() && (#[trigger] skills[k]).1 == s && s.id@ == id && forall|
                    j: int,
                |
                    0 <= j < k ==> (#[trigger] skills[j]).1.id@ != id,
            None => forall|j: int| 0 <= j < skills.len() ==> (#[trigger] skills[j]).1.id@ != id,
        },
    decreases skills.len(),
{
    if skills.len() > 0 {
        let rest = skills.drop_last();
        let n = rest.len() as int;
        skills_are_found_by_id(rest, id);
        assert(forall|j: int| 0 <= j < n ==> rest[j] == skills[j]);
        match skill_with_id(rest, id) {
            Some(s) => {
                let k = choose|k: int|
                    0 <= k < rest.len() && (#[trigger] rest[k]).1 == s && s.id@ == id && forall|
                        j: int,
                    |
                        0 <= j < k ==> (#[trigger] rest[j]).1.id@ != id;
                assert(skills[k] == rest[k]);
                assert forall|j: int| 0 <= j < k implies (#[trigger] skills[j]).1.id@ != id by {
                    assert(skills[j] == rest[j]);
                }
            },
            None => {
                assert forall|j: int| 0 <= j < n implies (#[trigger] skills[j]).1.id@ != id by {
                    assert(skills[j] == rest[j]);
                }
                if skill_with_id(skills, id) is Some {
                    assert(skills[n].1.id@ == id);
                }
            },
        }
    }
}

/// An offer names its skill and its routine, and runs the skill's own file on
/// the model that it asks for.
pub proof fn offers_name_their_skill(skill: (Seq<char>, RoutineSkill))
    ensures
        begins(offer_of(skill).label, skill.1.name@),
        ends(offer_of(skill).label, skill.0),
        offer_of(skill).file == skill.1.file@,
        offer_of(skill).tier == skill.1.model,
        offer_of(skill).skill_name == skill.1.name@,
        offer_of(skill).summary == skill.1.summary@,
{
    let l = offer_of(skill).label;
    let n = skill.1.name@;
    assert(l.subrange(0, n.len() as int) =~= n);
    assert(l.subrange(l.len() - skill.0.len(), l.len() as int) =~= skill.0);
}

/// A skill is started by its file.
pub proof fn skills_are_started_by_their_file(
    name: Seq<char>,
    file: Seq<char>,
    tier: ModelTier,
)
    ensures
        skill_request(name, file, tier).title == name,
        skill_request(name, file, tier).tier == tier,
        skill_request(name, file, tier).kickoff is Some,
        ends(skill_request(name, file, tier).kickoff->0, file),
{
    let k = skill_request(name, file, tier).kickoff->0;
    assert(k.subrange(k.len() - file.len(), k.len() as int) =~= file);
}

/// A session is found where its id stands first.
pub proof fn sessions_are_found_by_id(sessions: Seq<AgentSession>, id: int)
    ensures
        0 <= session_at(sessions, id) <= sessions.len(),
        session_at(sessions, id) < sessions.len() ==> sessions[session_at(sessions, id)].id == id,
        forall|j: int|
            0 <= j < session_at(sessions, id) ==> (#[trigger] sessions[j]).id != id,
    decreases sessions.len(),
{
    if sessions.len() > 0 && sessions[0].id != id {
        let rest = sessions.skip(1);
        sessions_are_found_by_id(rest, id);
        let at = session_at(rest, id);
        if at < rest.len() {
            assert(rest[at] == sessions[at + 1]);
        }
        assert forall|j: int| 0 <= j < at + 1 implies (#[trigger] sessions[j]).id != id by {
            if j > 0 {
                assert(rest[j - 1] == sessions[j]);
            }
        }
    }
}

/// Changes are made one by one, in order.
pub proof fn changes_are_made_in_order(
    contents: Map<Seq<char>, Node>,
    a: Seq<Change>,
    b: Seq<Change>,
)
    ensures
        changed(contents, a + b) == changed(changed(contents, a), b),
    decreases b.len(),
{
    if b.len() == 0 {
        assert(a + b =~= a);
    } else {
        changes_are_made_in_order(contents, a, b.drop_last());
        assert((a + b).drop_last() =~= a + b.drop_last());
        assert((a + b).last() == b.last());
    }
}

/// A change sets its key and no other; one that is for an absent key leaves a key
/// that is there.
pub proof fn a_change_sets_its_key(contents: Map<Seq<char>, Node>, c: Change, key: Seq<char>)
    ensures
        ({
            let after = changed(contents, seq![c]);
            &&& after.contains_key(c.key)
            &&& after[c.key] == (if c.only_if_absent && contents.contains_key(c.key) {
                contents[c.key]
            } else {
                c.value
            })
            &&& key != c.key ==> after.contains_key(key) == contents.contains_key(key)
            &&& key != c.key && contents.contains_key(key) ==> after[key] == contents[key]
        }),
{
    let one = seq![c];
    assert(one.drop_last() =~= Seq::<Change>::empty());
    assert(one.last() == c);
    assert(changed(contents, one.drop_last()) == contents);
}

/// The wait between two syncs is what was set, within a minute and an hour; five
/// minutes where nothing was.
pub proof fn waits_are_within_bounds(given: Option<u64>)
    ensures
        60 <= poll_seconds(given) <= 3600,
        given matches Some(n) ==> (60 <= n <= 3600 ==> poll_seconds(given) == n),
        given matches Some(n) ==> (n < 60 ==> poll_seconds(given) == 60),
        given matches Some(n) ==> (n > 3600 ==> poll_seconds(given) == 3600),
        given is None ==> poll_seconds(given) == 300,
{
}

/// A switch that was set counts, else its default.
pub proof fn switches_count_where_set(given: Option<bool>, default: bool)
    ensures
        given matches Some(b) ==> setting(given, default) == b,
        given is None ==> setting(given, default) == default,
{
}

/// New lines go below the last line with ink of a section, where nothing in it
/// starts later.
pub proof fn content_ends_at_its_last_ink(lines: Seq<Seq<char>>, from: int, to: int)
    requires
        0 <= from <= to <= lines.len(),
    ensures
        from <= past_content(lines, from, to) <= to,
        past_content(lines, from, to) > from ==> trim(
            lines[past_content(lines, from, to) - 1],
        ).len() > 0,
        forall|r: int|
            past_content(lines, from, to) <= r < to ==> trim(#[trigger] lines[r]).len() == 0,
    decreases to - from,
{
    if from < to && is_blank(lines[to - 1]) {
        content_ends_at_its_last_ink(lines, from, to - 1);
    }
}

/// Whether a text comes before another: the first character in which they differ
/// is smaller, or it ends where the other goes on.
pub open spec fn comes_before(a: Seq<char>, b: Seq<char>, k: int) -> bool {
    &&& 0 <= k <= a.len()
    &&& k < b.len()
    &&& a.take(k) == b.take(k)
    &&& k == a.len() || (a[k] as int) < (b[k] as int)
}

proof fn lemma_comes_before(a: Seq<char>, b: Seq<char>) -> (k: int)
    requires
        text_before(a, b),
    ensures
        comes_before(a, b, k),
    decreases a.len(),
{
    if a.len() == 0 {
        assert(a.take(0) =~= b.take(0));
        0
    } else if a[0] != b[0] {
        assert(a.take(0) =~= b.take(0));
        0
    } else {
        let k = lemma_comes_before(a.skip(1), b.skip(1));
        assert(a.take(k + 1) =~= b.take(k + 1)) by {
            assert forall|i: int| 0 <= i < k + 1 implies a[i] == b[i] by {
                if i > 0 {
                    assert(a.skip(1).take(k)[i - 1] == a[i]);
                    assert(b.skip(1).take(k)[i - 1] == b[i]);
                }
            }
        }
        k + 1
    }
}

/// The minutes of an event as numbers: all-day events come first.
pub open spec fn span(event: Event) -> (int, int) {
    match event.time {
        Some((start, end)) => (start as int, end as int),
        None => (-1, -1),
    }
}

/// Events are written by their start, then by their end, then by their title and
/// their id, letter for letter.
#[verifier::spinoff_prover]
#[verifier::rlimit(40)]
pub proof fn events_are_written_in_order(events: Seq<Event>, i: int, j: int)
    requires
        0 <= i < j < sorted::<CalendarEvent>(events).len(),
    ensures
        ({
            let s = sorted::<CalendarEvent>(events);
            let a = s[i];
            let b = s[j];
            &&& span(a).0 <= span(b).0
            &&& span(a).0 == span(b).0 ==> span(a).1 <= span(b).1
            &&& span(a) == span(b) && a.title != b.title ==> exists|k: int| #[trigger]
                comes_before(a.title, b.title, k)
            &&& span(a) == span(b) && a.title == b.title && a.id != b.id ==> exists|k: int|
                #[trigger] comes_before(a.id, b.id, k)
        }),
{
    new_lines_are_in_order(events);
    let s = sorted::<CalendarEvent>(events);
    let a = s[i];
    let b = s[j];
    assert(!crate::calendar::event_before(b, a));
    crate::format::lemma_text_before_total(a.title, b.title);
    crate::format::lemma_text_before_total(a.id, b.id);
    if span(a) == span(b) && a.title != b.title {
        assert(text_before(a.title, b.title));
        let k = lemma_comes_before(a.title, b.title);
    }
    if span(a) == span(b) && a.title == b.title && a.id != b.id {
        assert(text_before(a.id, b.id));
        let k = lemma_comes_before(a.id, b.id);
    }
}

/// The pieces of a message that are said are its messages, in order; thoughts
/// are not.
pub proof fn thoughts_are_not_said(chunks: Seq<Chunk>)
    ensures
        forall|i: int|
            #![trigger said_at(chunks).contains(i)]
            said_at(chunks).contains(i) == (0 <= i < chunks.len() && chunks[i] is Message),
    decreases chunks.len(),
{
    let all = said_at(chunks);
    if chunks.len() == 0 {
        assert(all.len() == 0);
    } else {
        let rest = chunks.drop_last();
        let n = rest.len() as int;
        let above = said_at(rest);
        thoughts_are_not_said(rest);
        assert(all == above || all == above.push(n));
        assert forall|i: int|
            #![trigger all.contains(i)]
            all.contains(i) == (0 <= i < chunks.len() && chunks[i] is Message) by {
            assert(above.contains(i) == (0 <= i < rest.len() && rest[i] is Message));
            if above.contains(i) {
                let k = choose|k: int| 0 <= k < above.len() && above[k] == i;
                assert(all[k] == i);
                assert(rest[i] == chunks[i]);
            }
            if all.contains(i) && !above.contains(i) {
                let k = choose|k: int| 0 <= k < all.len() && all[k] == i;
                if k < above.len() {
                    assert(above[k] == i);
                }
            }
            if i == n && chunks[n] is Message {
                assert(all[all.len() - 1] == n);
            }
            if 0 <= i < n {
                assert(rest[i] == chunks[i]);
            }
        }
    }
}

/// The checklist is there while it is active, and each of its steps is ticked by
/// its own mark.
pub proof fn steps_are_ticked_by_their_mark(markers: Markers, agent_connected: bool)
    ensures
        checklist(markers, agent_connected) is Some <==> markers.active,
        checklist(markers, agent_connected) matches Some(steps) ==> steps.introduction
            == markers.introduction && steps.customize == markers.customize && steps.agent
            == agent_connected && steps.tour == markers.tour,
{
}

} // verus!
