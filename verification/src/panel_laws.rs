//! What holds of the panels: names are told apart, events ask for what they need,
//! and a launch sets what the agent reads.

use vstd::prelude::*;
use crate::agent_panel::{agent_buttons, is_tab, launch_complaint, AgentSession, SessionTab};
use crate::agent::{quoted, Known, LaunchError, ModelTier};
use crate::backlog_panel::{heading_of, move_target, row_id, task_markdown, SectionKind};
use crate::calendar::filled;
use crate::chat_flow::{failure_in, question_under, step_for, ThreadEvent, ThreadStep};
use crate::chat_panel::{model_for, Gateway, TurnEvent};
use crate::format::decimal;
use crate::gmail::thread_url;
use crate::gmail_google::{date_of, decoded_header, millis_moment};
use crate::hosted_agent::{env_value, inherited_path, is_unjoinable, launch_value};
use crate::html_laws::lemma_decimal_value;
use crate::inbox::trimmed_or;
use crate::line_laws::{good_mark, lemma_line_marker, lemma_marker_is_mark, mark};
use crate::mime::{header, unworded, MessagePart};
use crate::settle::valid_event;
use crate::synced_line::{
    content, event_line, event_token, kind_of_google, kind_of_line, kind_of_suffix, suffix_of,
    Event,
};
use crate::text::{begins, ends, has, lemma_has_between, trim};
use crate::thread_laws::numbers_read_back;
use crate::transcript::{
    activity_with, has_call, position_of, run_calls, seen_of, shape_of, Item, Key, Shape,
    ThreadEntry, ToolCall,
};

verus! {

/// Two numbers are written differently.
proof fn lemma_numbers_differ(m: nat, n: nat)
    requires
        m != n,
    ensures
        decimal(m) != decimal(n),
{
    lemma_decimal_value(m);
    lemma_decimal_value(n);
}

/// No two sessions have the same tab, and no tab is the button that closes one.
#[verifier::spinoff_prover]
#[verifier::rlimit(40)]
pub proof fn tabs_are_told_apart(
    a: SessionTab,
    b: SessionTab,
    x: AgentSession,
    y: AgentSession,
    active: bool,
    other: bool,
)
    requires
        is_tab(a, x, active),
        is_tab(b, y, other),
        x.id != y.id,
    ensures
        a.id@ != b.id@,
        a.close_id@ != b.close_id@,
        a.title@ == x.title@,
        a.active == active,
{
    lemma_numbers_differ(x.id as nat, y.id as nat);
    let p = "thock-agent-tab-"@;
    let q = "thock-agent-tab-close-"@;
    let m = decimal(x.id as nat);
    let n = decimal(y.id as nat);
    if p + m == p + n {
        assert((p + m).skip(p.len() as int) =~= m);
        assert((p + n).skip(p.len() as int) =~= n);
    }
    if q + m == q + n {
        assert((q + m).skip(q.len() as int) =~= m);
        assert((q + n).skip(q.len() as int) =~= n);
    }
}

/// Every agent that was found has its button, which names it and its program.
pub proof fn every_agent_has_its_button(agents: Seq<Known>)
    ensures
        agent_buttons(agents).len() == agents.len(),
        forall|i: int|
            0 <= i < agents.len() ==> {
                let b = #[trigger] agent_buttons(agents)[i];
                &&& ends(b.0, agents[i].program)
                &&& begins(b.1, agents[i].display_name)
                &&& has(b.1, agents[i].program)
                &&& b.2 == agents[i].program
            },
{
    let all = agent_buttons(agents);
    assert forall|i: int| 0 <= i < agents.len() implies {
        let b = #[trigger] all[i];
        &&& ends(b.0, agents[i].program)
        &&& begins(b.1, agents[i].display_name)
        &&& has(b.1, agents[i].program)
        &&& b.2 == agents[i].program
    } by {
        let b = all[i];
        let p = agents[i].program;
        let n = agents[i].display_name;
        assert(b.0.subrange(b.0.len() - p.len(), b.0.len() as int) =~= p);
        assert(b.1.subrange(0, n.len() as int) =~= n);
        lemma_has_between(n + " ("@, p, ")"@);
    }
}

/// What is wrong with a command is said of that command.
pub proof fn complaints_name_the_command(error: LaunchError, command: Seq<char>)
    ensures
        has(launch_complaint(error, command), quoted(command)),
{
    lemma_has_between(
        "couldn't parse the agent command "@,
        quoted(command),
        " (unbalanced quotes?)"@,
    );
    lemma_has_between("the agent command "@, quoted(command), " is empty"@);
}

/// No two rows of the backlog have the same name.
pub proof fn rows_are_told_apart(
    prefix: Seq<char>,
    section: SectionKind,
    i: int,
    j: int,
)
    requires
        0 <= i,
        0 <= j,
        i != j,
    ensures
        row_id(prefix, section, i) != row_id(prefix, section, j),
        begins(row_id(prefix, section, i), prefix + heading_of(section)),
{
    lemma_numbers_differ(i as nat, j as nat);
    let a = prefix + heading_of(section) + seq!['-'];
    let m = decimal(i as nat);
    let n = decimal(j as nat);
    let x = row_id(prefix, section, i);
    let y = row_id(prefix, section, j);
    assert(x =~= a + m && y =~= a + n);
    if x == y {
        assert(x.skip(a.len() as int) =~= m);
        assert(y.skip(a.len() as int) =~= n);
    }
    let h = prefix + heading_of(section);
    assert(x.subrange(0, h.len() as int) =~= h);
}

/// No two sections have the same heading.
pub proof fn sections_are_told_apart(a: SectionKind, b: SectionKind)
    requires
        a != b,
    ensures
        heading_of(a) != heading_of(b),
{
    reveal_strlit("Soon");
    reveal_strlit("Someday");
    reveal_strlit("Completed");
    assert(heading_of(a).len() != heading_of(b).len());
}

/// A task that is moved goes to the other of the two open sections; moved twice,
/// it is back.
pub proof fn tasks_move_between_open_sections(section: SectionKind)
    ensures
        !(move_target(section) is Completed),
        move_target(section) != section,
        !(section is Completed) ==> move_target(move_target(section)) == section,
        section is Completed ==> move_target(section) is Someday,
{
}

/// A task is written with its mark and its text.
#[verifier::spinoff_prover]
#[verifier::rlimit(40)]
pub proof fn tasks_are_written_with_their_mark(text: Seq<char>, checked: bool)
    ensures
        begins(task_markdown(text, checked), "- ["@),
        ends(task_markdown(text, checked), "] "@ + text),
        task_markdown(text, true) != task_markdown(text, false),
        task_markdown(text, checked)[3] == (if checked {
            'x'
        } else {
            ' '
        }),
{
    reveal_strlit("- [x] ");
    reveal_strlit("- [ ] ");
    reveal_strlit("- [");
    reveal_strlit("] ");
    let s = task_markdown(text, checked);
    assert(s.subrange(0, 3) =~= "- ["@);
    let e = "] "@ + text;
    assert(s.subrange(s.len() - e.len(), s.len() as int) =~= e);
    assert(task_markdown(text, true)[3] == 'x' && task_markdown(text, false)[3] == ' ');
}

/// A setting counts as given where there is something in it.
pub proof fn blank_settings_are_not_given(s: Option<String>)
    ensures
        filled(s) is Some <==> s is Some && trim(s->0@).len() > 0,
        filled(s) matches Some(t) ==> t == s->0@,
{
}

/// A setting with nothing in it has its default, and any other is trimmed.
pub proof fn blank_settings_have_their_default(s: Option<String>, default: Seq<char>)
    ensures
        s is None ==> trimmed_or(s, default) == default,
        s matches Some(t) ==> (trim(t@).len() > 0 ==> trimmed_or(s, default) == trim(t@)),
        s matches Some(t) ==> (trim(t@).len() == 0 ==> trimmed_or(s, default) == default),
{
}

/// Events of a thread ask for what they need: a permission, a look at the
/// entries, an answer, or the allowance once a turn is over.
pub proof fn events_ask_for_what_they_need(event: ThreadEvent, generating: bool)
    ensures
        step_for(event, generating) is Authorize <==> event is ToolAuthorizationRequested,
        step_for(event, generating) is PrepareQuestion <==> event is ElicitationRequested,
        step_for(event, generating) is RefreshAllowance <==> event is Stopped,
        step_for(event, generating) is ShowEntries <==> event is NewEntry || event is EntryUpdated,
        step_for(event, generating) matches ThreadStep::ShowEntries { scroll } ==> scroll
            == generating,
        failure_in(event) is Some <==> event is Error || event is LoadError || event is Refusal,
        failure_in(event) == Some(TurnEvent::Refusal) <==> event is Refusal,
{
}

/// The question under the cursor is the one of the selected row, while it waits
/// for an answer.
pub proof fn questions_are_those_under_the_cursor(
    at: int,
    entries: Seq<ThreadEntry>,
    pending: Seq<Seq<char>>,
)
    ensures
        question_under(None, entries, pending) is None,
        question_under(Some(Key::Entry(at)), entries, pending) matches Some(id) ==> 0 <= at
            < entries.len() && pending.contains(id) && (entries[at] matches ThreadEntry::Elicitation(
            own,
        ) && own@ == id),
        0 <= at < entries.len() ==> (entries[at] matches ThreadEntry::Elicitation(own) ==> (
        pending.contains(own@) ==> question_under(Some(Key::Entry(at)), entries, pending) == Some(
            own@,
        ))),
{
}

/// The model is the one that the plan has for the tier.
pub proof fn models_go_by_tier(gateway: Gateway)
    ensures
        model_for(gateway, ModelTier::Default) == gateway.default_model@,
        model_for(gateway, ModelTier::Fast) == gateway.fast_model@,
{
}

/// The address of a thread names the account and ends with the thread.
pub proof fn addresses_name_account_and_thread(account: Seq<char>, thread: Seq<char>)
    ensures
        begins(thread_url(account, thread), "https://mail.google.com/mail/u/"@ + account + "/"@),
        ends(thread_url(account, thread), "/"@ + thread),
{
    reveal_strlit("/#all/");
    reveal_strlit("/");
    let s = thread_url(account, thread);
    let a = "https://mail.google.com/mail/u/"@ + account + "/"@;
    assert(s.subrange(0, a.len() as int) =~= a);
    let e = "/"@ + thread;
    assert(s.subrange(s.len() - e.len(), s.len() as int) =~= e);
}

/// A message's date is the moment of its milliseconds; a message without one has
/// no moment.
pub proof fn dates_are_read_in_milliseconds(n: nat)
    requires
        n <= i64::MAX,
    ensures
        date_of(Some(decimal(n))) == millis_moment(n as i64),
        date_of(None) is None,
{
    numbers_read_back(n);
}

/// A header is decoded where it is there.
pub proof fn headers_are_decoded(payload: MessagePart, name: Seq<char>)
    ensures
        decoded_header(payload, name) is Some <==> header(payload.headers@, name) is Some,
        header(payload.headers@, name) matches Some(value) ==> decoded_header(payload, name)
            == Some(unworded(value, false)),
{
}

/// The agent finds its search path, its key, its folder and its program, and is
/// told not to look for updates; nothing else is set.
#[verifier::spinoff_prover]
#[verifier::rlimit(40)]
pub proof fn launches_set_what_the_agent_reads(
    path: Seq<char>,
    api_key: Seq<char>,
    config_dir: Seq<char>,
    pi_command: Seq<char>,
    key: Seq<char>,
)
    ensures
        launch_value("PATH"@, path, api_key, config_dir, pi_command) == Some(path),
        launch_value("OPENROUTER_API_KEY"@, path, api_key, config_dir, pi_command) == Some(api_key),
        launch_value("PI_CODING_AGENT_DIR"@, path, api_key, config_dir, pi_command) == Some(
            config_dir,
        ),
        launch_value("PI_ACP_PI_COMMAND"@, path, api_key, config_dir, pi_command) == Some(
            pi_command,
        ),
        launch_value("PI_SKIP_VERSION_CHECK"@, path, api_key, config_dir, pi_command) == Some(
            "1"@,
        ),
        launch_value(key, path, api_key, config_dir, pi_command) is Some ==> seq![
            "PATH"@,
            "OPENROUTER_API_KEY"@,
            "PI_CODING_AGENT_DIR"@,
            "PI_ACP_PI_COMMAND"@,
            "PI_SKIP_VERSION_CHECK"@,
        ].contains(key),
{
    reveal_strlit("PATH");
    reveal_strlit("OPENROUTER_API_KEY");
    reveal_strlit("PI_CODING_AGENT_DIR");
    reveal_strlit("PI_ACP_PI_COMMAND");
    reveal_strlit("PI_SKIP_VERSION_CHECK");
    assert("PI_ACP_PI_COMMAND"@.len() == 17);
    assert("OPENROUTER_API_KEY"@.len() == 18);
    assert("PI_CODING_AGENT_DIR"@.len() == 19);
    assert("PI_SKIP_VERSION_CHECK"@.len() == 21);
    let list = seq![
        "PATH"@,
        "OPENROUTER_API_KEY"@,
        "PI_CODING_AGENT_DIR"@,
        "PI_ACP_PI_COMMAND"@,
        "PI_SKIP_VERSION_CHECK"@,
    ];
    assert(list[0] == "PATH"@ && list[1] == "OPENROUTER_API_KEY"@ && list[2]
        == "PI_CODING_AGENT_DIR"@ && list[3] == "PI_ACP_PI_COMMAND"@ && list[4]
        == "PI_SKIP_VERSION_CHECK"@);
}

/// The value of a variable is that of the first pair with its name.
pub proof fn the_first_pair_of_a_name_counts(env: Seq<(String, String)>, key: Seq<char>)
    ensures
        match env_value(env, key) {
            Some(v) => exists|k: int|
                0 <= k < env.len() && (#[trigger] env[k]).0@ == key && env[k].1@ == v && forall|
                    j: int,
                |
                    0 <= j < k ==> (#[trigger] env[j]).0@ != key,
            None => forall|j: int| 0 <= j < env.len() ==> (#[trigger] env[j]).0@ != key,
        },
    decreases env.len(),
{
    if env.len() > 0 && env[0].0@ != key {
        let rest = env.skip(1);
        the_first_pair_of_a_name_counts(rest, key);
        if let Some(v) = env_value(rest, key) {
            let k = choose|k: int|
                0 <= k < rest.len() && (#[trigger] rest[k]).0@ == key && rest[k].1@ == v && forall|
                    j: int,
                |
                    0 <= j < k ==> (#[trigger] rest[j]).0@ != key;
            assert(env[k + 1] == rest[k]);
            assert forall|j: int| 0 <= j < k + 1 implies (#[trigger] env[j]).0@ != key by {
                if j > 0 {
                    assert(env[j] == rest[j - 1]);
                }
            }
        } else {
            assert forall|j: int| 0 <= j < env.len() implies (#[trigger] env[j]).0@ != key by {
                if j > 0 {
                    assert(env[j] == rest[j - 1]);
                }
            }
        }
    }
}

/// The search path that is passed on is the environment's, where it has one, else
/// the process's.
pub proof fn search_paths_are_inherited(
    env: Seq<(String, String)>,
    process_path: Option<Seq<char>>,
)
    ensures
        env_value(env, "PATH"@) matches Some(p) ==> inherited_path(env, process_path) == p,
        env_value(env, "PATH"@) is None ==> (process_path matches Some(p) ==> inherited_path(
            env,
            process_path,
        ) == p),
        env_value(env, "PATH"@) is None && process_path is None ==> inherited_path(
            env,
            process_path,
        ).len() == 0,
{
}

/// A folder whose path holds what parts entries cannot be one.
pub proof fn folders_that_cannot_be_entries(dir: Seq<char>)
    ensures
        is_unjoinable(dir, false) <==> exists|i: int| 0 <= i < dir.len() && dir[i] == ':',
        is_unjoinable(dir, true) <==> exists|i: int| 0 <= i < dir.len() && dir[i] == '"',
{
}

/// The kind of an event is read back from the line that it got, and kinds are
/// told apart by their marks.
#[verifier::spinoff_prover]
#[verifier::rlimit(40)]
pub proof fn kinds_are_read_back(event: Event)
    requires
        valid_event(event),
    ensures
        kind_of_line(event_line(event)) == event.kind,
        event.kind is Default ==> suffix_of(event.kind) is None,
        suffix_of(event.kind) matches Some(s) ==> kind_of_suffix(s) == Some(event.kind),
{
    reveal_strlit("focus");
    reveal_strlit("ooo");
    lemma_marker_is_mark(event.id, event.kind);
    let c = content(event_token(event), event.title);
    let body = if c.len() == 0 {
        c
    } else {
        c + seq![' ']
    };
    let a = "- [ ] "@ + body;
    let none = Seq::<char>::empty();
    let m = mark(event.id, suffix_of(event.kind));
    assert(good_mark(event.id, suffix_of(event.kind)));
    assert(event_line(event) =~= a + m + none);
    lemma_line_marker(a, event.id, suffix_of(event.kind), none);
    assert("focus"@.len() == 5 && "ooo"@.len() == 3);
}

/// What the calendar calls an event's kind is told apart.
pub proof fn kinds_are_taken_over(name: Seq<char>)
    ensures
        kind_of_google(name) is FocusTime <==> name == "focusTime"@,
        kind_of_google(name) is OutOfOffice <==> name == "outOfOffice"@,
{
    reveal_strlit("focusTime");
    reveal_strlit("outOfOffice");
    assert("focusTime"@.len() == 9 && "outOfOffice"@.len() == 11);
}

/// A tool call is a step under its own id; a message of thoughts alone shows
/// nothing, and everything else does.
pub proof fn entries_show_what_they_are(entry: ThreadEntry)
    ensures
        shape_of(entry) is Tool <==> entry is ToolCall,
        entry matches ThreadEntry::ToolCall(call) ==> shape_of(entry) == Shape::Tool(call.id@),
        shape_of(entry) is Hidden <==> (entry matches ThreadEntry::AssistantMessage(chunks)
            && forall|i: int| 0 <= i < chunks@.len() ==> (#[trigger] chunks@[i]) is Thought),
{
}

/// The calls of an activity are those of its steps, in order.
pub proof fn activities_have_their_calls(
    entries: Seq<ThreadEntry>,
    calls: Seq<(int, Seq<char>)>,
)
    requires
        forall|i: int|
            0 <= i < calls.len() ==> 0 <= (#[trigger] calls[i]).0 < entries.len()
                && entries[calls[i].0] is ToolCall,
    ensures
        run_calls(entries, calls).len() == calls.len(),
        forall|i: int|
            0 <= i < calls.len() ==> ThreadEntry::ToolCall(
                #[trigger] run_calls(entries, calls)[i],
            ) == entries[calls[i].0],
    decreases calls.len(),
{
    if calls.len() > 0 {
        let rest = calls.drop_last();
        assert forall|i: int| 0 <= i < rest.len() implies 0 <= (#[trigger] rest[i]).0
            < entries.len() && entries[rest[i].0] is ToolCall by {
            assert(rest[i] == calls[i]);
        }
        activities_have_their_calls(entries, rest);
        let above = run_calls(entries, rest);
        let all = run_calls(entries, calls);
        let n = rest.len() as int;
        assert(calls[n] == calls.last());
        assert forall|i: int| 0 <= i < calls.len() implies ThreadEntry::ToolCall(
            #[trigger] all[i],
        ) == entries[calls[i].0] by {
            if i < n {
                assert(all[i] == above[i]);
                assert(rest[i] == calls[i]);
            }
        }
    }
}

/// An activity is found by any of its calls.
pub proof fn activities_are_found_by_their_calls(items: Seq<Item>, id: Seq<char>)
    ensures
        activity_with(items, id) matches Some((key, calls)) ==> items.contains(
            Item::Activity(key, calls),
        ) && exists|i: int| 0 <= i < calls.len() && (#[trigger] calls[i]).1 == id,
        activity_with(items, id) is None ==> forall|p: int|
            0 <= p < items.len() ==> ((#[trigger] items[p]) matches Item::Activity(_, calls)
                ==> !has_call(calls, id)),
{
    crate::transcript::lemma_position(items, Key::Activity(id));
    if let Some(at) = position_of(items, Key::Activity(id)) {
        assert(items.contains(items[at]));
    } else {
        assert forall|p: int| 0 <= p < items.len() implies ((#[trigger] items[p]) matches Item::Activity(
            _,
            calls,
        ) ==> !has_call(calls, id)) by {
            assert(!crate::transcript::means(items[p], Key::Activity(id)));
        }
    }
}

/// Every call is seen by its kind and the place that it touched.
pub proof fn calls_are_seen_by_kind_and_place(calls: Seq<ToolCall>, root: Option<Seq<char>>)
    ensures
        seen_of(calls, root).len() == calls.len(),
        forall|i: int|
            0 <= i < calls.len() ==> (#[trigger] seen_of(calls, root)[i]).0 == calls[i].kind && (
            seen_of(calls, root)[i].1 is Some <==> calls[i].location is Some),
{
}

} // verus!
