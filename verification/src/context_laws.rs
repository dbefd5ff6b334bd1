//! What holds of the context that a session starts with: nothing that the vault
//! says is left out.

use vstd::prelude::*;
use crate::format::two_digits;
use crate::hosted_agent::{
    all_routine_lines, day_lines, day_of, language_lines, memory_section, note_lines, place_lines,
    plan_line, ritual, routine_lines, routines_section, session_context, settings_fields,
    signed_decimal, task_line, vault_language, Day, RoutineManifest, RoutineSkill, VaultFacts,
    MEMORY_GUIDE, NO_LANGUAGE, NO_MEMORY, NO_ROUTINES, PROFILE_LINE,
};
use crate::json::Scalar;
use crate::lines::join;
use crate::moments::{date_text, iso_week_of, Date};
use crate::paths::shown_path;
use crate::text::{begins, ends, has, lemma_has, lemma_has_between, lemma_has_itself, trim};

verus! {

/// What is joined holds each of its pieces.
pub proof fn lemma_join_has(parts: Seq<Seq<char>>, sep: Seq<char>, i: int)
    requires
        0 <= i < parts.len(),
    ensures
        has(join(parts, sep), parts[i]),
    decreases parts.len(),
{
    if parts.len() == 1 {
        lemma_has_itself(parts[0]);
    } else if i == 0 {
        lemma_has_itself(parts[0]);
        let rest = join(parts.skip(1), sep);
        lemma_has(Seq::empty(), parts[0], sep + rest, parts[0]);
        assert(join(parts, sep) =~= Seq::<char>::empty() + parts[0] + (sep + rest));
    } else {
        let rest = parts.skip(1);
        lemma_join_has(rest, sep, i - 1);
        assert(rest[i - 1] == parts[i]);
        lemma_has(parts[0] + sep, join(rest, sep), Seq::empty(), parts[i]);
        assert(join(parts, sep) =~= parts[0] + sep + join(rest, sep) + Seq::<char>::empty());
    }
}

/// What stands in a routine's lines stands in those of all routines.
proof fn lemma_in_routines(routines: Seq<RoutineManifest>, i: int, p: Seq<char>)
    requires
        0 <= i < routines.len(),
        has(routine_lines(routines[i]), p),
    ensures
        has(all_routine_lines(routines), p),
    decreases routines.len(),
{
    let rest = routines.drop_last();
    let last = routine_lines(routines.last());
    if i == routines.len() - 1 {
        lemma_has(all_routine_lines(rest), last, Seq::empty(), p);
        assert(all_routine_lines(routines) =~= all_routine_lines(rest) + last
            + Seq::<char>::empty());
    } else {
        lemma_in_routines(rest, i, p);
        lemma_has(Seq::empty(), all_routine_lines(rest), last, p);
        assert(all_routine_lines(routines) =~= Seq::<char>::empty() + all_routine_lines(rest)
            + last);
    }
}

/// What stands in one of the five parts of a context stands in the context.
proof fn lemma_in_context(
    facts: VaultFacts,
    routines: Seq<RoutineManifest>,
    has_profile: bool,
    memory: Option<Seq<char>>,
    day: Day,
    p: Seq<char>,
)
    ensures
        ({
            let context = session_context(facts, routines, has_profile, memory, day);
            &&& has(day_lines(day, facts.root@), p) ==> has(context, p)
            &&& has(place_lines(facts, has_profile), p) ==> has(context, p)
            &&& has(language_lines(vault_language(facts.language)), p) ==> has(context, p)
            &&& has(routines_section(routines), p) ==> has(context, p)
            &&& has(memory_section(memory), p) ==> has(context, p)
        }),
{
    let a = day_lines(day, facts.root@);
    let b = place_lines(facts, has_profile);
    let c = language_lines(vault_language(facts.language));
    let d = routines_section(routines);
    let e = memory_section(memory);
    let context = session_context(facts, routines, has_profile, memory, day);
    let none = Seq::<char>::empty();
    assert(context =~= none + a + (b + c + d + e));
    assert(context =~= a + b + (c + d + e));
    assert(context =~= (a + b) + c + (d + e));
    assert(context =~= (a + b + c) + d + e);
    assert(context =~= (a + b + c + d) + e + none);
    if has(a, p) {
        lemma_has(none, a, b + c + d + e, p);
    }
    if has(b, p) {
        lemma_has(a, b, c + d + e, p);
    }
    if has(c, p) {
        lemma_has(a + b, c, d + e, p);
    }
    if has(d, p) {
        lemma_has(a + b + c, d, e, p);
    }
    if has(e, p) {
        lemma_has(a + b + c + d, e, none, p);
    }
}

/// Every ritual of every installed routine is named with its file, however many
/// rituals the routine has.
#[verifier::spinoff_prover]
#[verifier::rlimit(40)]
pub proof fn every_ritual_is_named(
    facts: VaultFacts,
    routines: Seq<RoutineManifest>,
    has_profile: bool,
    memory: Option<Seq<char>>,
    day: Day,
    i: int,
    j: int,
)
    requires
        0 <= i < routines.len(),
        0 <= j < routines[i].skills@.len(),
    ensures
        ({
            let skill = routines[i].skills@[j];
            has(
                session_context(facts, routines, has_profile, memory, day),
                skill.name@ + " (`"@ + skill.file@ + "`)"@,
            )
        }),
{
    let r = routines[i];
    let skill = r.skills@[j];
    let p = skill.name@ + " (`"@ + skill.file@ + "`)"@;
    let parts = r.skills@.map_values(|s: RoutineSkill| ritual(s));
    assert(parts[j] == p);
    lemma_join_has(parts, ", "@, j);
    let head = "- **"@ + r.name@ + "** — `routines/"@ + r.id@ + "/`, explained in `"@ + r.doc@
        + "`.\n"@ + "  Rituals: "@;
    lemma_has(head, join(parts, ", "@), ".\n"@, p);
    assert(routine_lines(r) =~= head + join(parts, ", "@) + ".\n"@);
    lemma_in_routines(routines, i, p);
    let none = Seq::<char>::empty();
    lemma_has("\n## Routines\n\n"@, all_routine_lines(routines), none, p);
    assert(routines_section(routines) =~= "\n## Routines\n\n"@ + all_routine_lines(routines)
        + none);
    lemma_in_context(facts, routines, has_profile, memory, day, p);
}

/// Every installed routine is named with its folder and its document; a vault
/// without routines is told how to get one.
#[verifier::spinoff_prover]
#[verifier::rlimit(40)]
pub proof fn every_routine_is_named(
    facts: VaultFacts,
    routines: Seq<RoutineManifest>,
    has_profile: bool,
    memory: Option<Seq<char>>,
    day: Day,
)
    ensures
        ({
            let context = session_context(facts, routines, has_profile, memory, day);
            &&& forall|i: int|
                0 <= i < routines.len() ==> {
                    let r = #[trigger] routines[i];
                    has(
                        context,
                        "- **"@ + r.name@ + "** — `routines/"@ + r.id@ + "/`, explained in `"@
                            + r.doc@ + "`.\n"@,
                    )
                }
            &&& routines.len() == 0 ==> has(context, NO_ROUTINES@)
        }),
{
    let context = session_context(facts, routines, has_profile, memory, day);
    let none = Seq::<char>::empty();
    let title = "\n## Routines\n\n"@;
    assert forall|i: int| 0 <= i < routines.len() implies {
        let r = #[trigger] routines[i];
        has(
            context,
            "- **"@ + r.name@ + "** — `routines/"@ + r.id@ + "/`, explained in `"@ + r.doc@
                + "`.\n"@,
        )
    } by {
        let r = routines[i];
        let p = "- **"@ + r.name@ + "** — `routines/"@ + r.id@ + "/`, explained in `"@ + r.doc@
            + "`.\n"@;
        let rest = routine_lines(r).skip(p.len() as int);
        lemma_has_between(none, p, rest);
        assert(routine_lines(r) =~= none + p + rest);
        lemma_in_routines(routines, i, p);
        lemma_has(title, all_routine_lines(routines), none, p);
        assert(routines_section(routines) =~= title + all_routine_lines(routines) + none);
        lemma_in_context(facts, routines, has_profile, memory, day, p);
    }
    if routines.len() == 0 {
        lemma_has_between(title, NO_ROUTINES@, none);
        assert(routines_section(routines) =~= title + NO_ROUTINES@ + none);
        lemma_in_context(facts, routines, has_profile, memory, day, NO_ROUTINES@);
    }
}

/// The context tells the day, by its name, its date and its week, and where the
/// vault is.
#[verifier::spinoff_prover]
#[verifier::rlimit(60)]
pub proof fn the_day_is_told(
    facts: VaultFacts,
    routines: Seq<RoutineManifest>,
    has_profile: bool,
    memory: Option<Seq<char>>,
    day: Day,
)
    ensures
        ({
            let context = session_context(facts, routines, has_profile, memory, day);
            &&& begins(context, "# Right now\n\nToday is "@ + day.long)
            &&& has(context, " ("@ + day.short + ")"@)
            &&& has(
                context,
                " week "@ + signed_decimal(day.week_year as int) + "-W"@ + two_digits(
                    day.week as nat,
                ) + "."@,
            )
            &&& has(context, "vault is the folder "@ + facts.root@ + "."@)
        }),
{
    reveal_strlit("# Right now\n\nToday is ");
    reveal_strlit(" (");
    reveal_strlit(")");
    reveal_strlit(") — week ");
    reveal_strlit(" week ");
    reveal_strlit("-W");
    reveal_strlit(".");
    reveal_strlit("vault is the folder ");
    reveal_strlit(".\nThis person's vault is the folder ");
    reveal_strlit(". Everything you do happens inside it.\n\n");
    let context = session_context(facts, routines, has_profile, memory, day);
    let lines = day_lines(day, facts.root@);
    let number = signed_decimal(day.week_year as int) + "-W"@ + two_digits(day.week as nat);
    let open = "# Right now\n\nToday is "@ + day.long;
    assert(context.subrange(0, open.len() as int) =~= open);
    let short = " ("@ + day.short + ")"@;
    let week = " week "@ + number + "."@;
    assert(week =~= " week "@ + signed_decimal(day.week_year as int) + "-W"@ + two_digits(
        day.week as nat,
    ) + "."@);
    let root = "vault is the folder "@ + facts.root@ + "."@;
    let a = open.len() as int;
    let b = a + short.len();
    let rest_a = lines.skip(b);
    assert(lines =~= open + short + rest_a);
    lemma_has_between(open, short, rest_a);
    let c = b + 2;
    let d = c + week.len();
    assert(lines =~= lines.take(c) + week + lines.skip(d));
    lemma_has_between(lines.take(c), week, lines.skip(d));
    let e = d + 15;
    let f = e + root.len();
    assert(lines =~= lines.take(e) + root + lines.skip(f));
    lemma_has_between(lines.take(e), root, lines.skip(f));
    lemma_in_context(facts, routines, has_profile, memory, day, short);
    lemma_in_context(facts, routines, has_profile, memory, day, week);
    lemma_in_context(facts, routines, has_profile, memory, day, root);
}

/// The context tells where today's note, this week's note and the tasks are, and
/// under which heading the day's plan stands.
#[verifier::spinoff_prover]
#[verifier::rlimit(60)]
pub proof fn the_places_are_told(
    facts: VaultFacts,
    routines: Seq<RoutineManifest>,
    has_profile: bool,
    memory: Option<Seq<char>>,
    day: Day,
)
    ensures
        ({
            let context = session_context(facts, routines, has_profile, memory, day);
            &&& has(
                context,
                "- Today's note: `"@ + shown_path(facts.daily_note@, facts.root@)
                    + "` (make it from `"@ + facts.daily_template@ + "`"@,
            )
            &&& facts.weekly_note matches Some(w) ==> has(
                context,
                "- This week's note: `"@ + shown_path(w@, facts.root@) + "` (from `"@
                    + facts.weekly_template@ + "`"@,
            )
            &&& has(
                context,
                "- Tasks: `"@ + facts.backlog_file@ + "`, under the headings `"@
                    + facts.soon_heading@ + "`, `"@ + facts.someday_heading@ + "` and `"@
                    + facts.completed_heading@ + "`.\n"@,
            )
            &&& trim(facts.planner_heading@).len() > 0 ==> has(
                context,
                "under the `"@ + trim(facts.planner_heading@) + "` heading of the daily note"@,
            )
        }),
{
    reveal(note_lines);
    reveal(task_line);
    reveal(plan_line);
    reveal_strlit("`");
    reveal_strlit("` (make it from `");
    reveal_strlit("` when it isn't there yet).\n");
    reveal_strlit("`).\n");
    let none = Seq::<char>::empty();
    let places = place_lines(facts, has_profile);
    let daily = "- Today's note: `"@ + shown_path(facts.daily_note@, facts.root@)
        + "` (make it from `"@ + facts.daily_template@ + "`"@;
    assert(places =~= none + daily + places.skip(daily.len() as int));
    lemma_has_between(none, daily, places.skip(daily.len() as int));
    lemma_in_context(facts, routines, has_profile, memory, day, daily);
    if facts.weekly_note is Some {
        let w = facts.weekly_note->0;
        let weekly = "- This week's note: `"@ + shown_path(w@, facts.root@) + "` (from `"@
            + facts.weekly_template@ + "`"@;
        let head = "- Today's note: `"@ + shown_path(facts.daily_note@, facts.root@)
            + "` (make it from `"@ + facts.daily_template@ + "` when it isn't there yet).\n"@;
        let tail = places.skip((head + weekly).len() as int);
        assert(places =~= head + weekly + tail);
        lemma_has_between(head, weekly, tail);
        lemma_in_context(facts, routines, has_profile, memory, day, weekly);
    }
    let tasks = task_line(facts);
    let plan = plan_line(facts.planner_heading@);
    let profile = if has_profile {
        PROFILE_LINE@
    } else {
        none
    };
    assert(places =~= note_lines(facts) + tasks + (plan + profile));
    lemma_has_between(note_lines(facts), tasks, plan + profile);
    lemma_in_context(facts, routines, has_profile, memory, day, tasks);
    if trim(facts.planner_heading@).len() > 0 {
        reveal_strlit("- The day's plan lives under the `");
        reveal_strlit("under the `");
        reveal_strlit("` heading of the daily note.\n");
        reveal_strlit("` heading of the daily note");
        let p = "under the `"@ + trim(facts.planner_heading@) + "` heading of the daily note"@;
        assert(plan =~= plan.take(23) + p + plan.skip(23int + p.len()));
        lemma_has_between(plan.take(23), p, plan.skip(23int + p.len()));
        lemma_has(note_lines(facts) + tasks, plan, profile, p);
        assert(places =~= (note_lines(facts) + tasks) + plan + profile);
        lemma_in_context(facts, routines, has_profile, memory, day, p);
    }
}

/// A text with another put into it.
pub open spec fn put_in(s: Seq<char>, at: int, t: Seq<char>) -> Seq<char> {
    s.take(at) + t + s.skip(at)
}

/// The profile is spoken of where the vault has one, and nothing else hangs on
/// that.
pub proof fn the_profile_is_told_of(
    facts: VaultFacts,
    routines: Seq<RoutineManifest>,
    memory: Option<Seq<char>>,
    day: Day,
)
    ensures
        exists|at: int|
            0 <= at <= session_context(facts, routines, false, memory, day).len()
                && session_context(facts, routines, true, memory, day) == #[trigger] put_in(
                session_context(facts, routines, false, memory, day),
                at,
                PROFILE_LINE@,
            ),
{
    let without = session_context(facts, routines, false, memory, day);
    let with = session_context(facts, routines, true, memory, day);
    let head = day_lines(day, facts.root@) + place_lines(facts, false);
    let at = head.len() as int;
    assert(without.take(at) =~= head);
    assert(with =~= put_in(without, at, PROFILE_LINE@));
}

/// The context names the vault's language: the user's own words for it where
/// there are any, and the tag where there is one.
#[verifier::spinoff_prover]
#[verifier::rlimit(60)]
pub proof fn the_language_is_told(
    facts: VaultFacts,
    routines: Seq<RoutineManifest>,
    has_profile: bool,
    memory: Option<Seq<char>>,
    day: Day,
)
    ensures
        ({
            let context = session_context(facts, routines, has_profile, memory, day);
            match facts.language {
                Some(l) => {
                    &&& l.name matches Some(n) ==> (trim(n@).len() > 0 ==> has(
                        context,
                        "This vault is set to **"@ + trim(n@) + "**"@,
                    ))
                    &&& l.tag matches Some(t) ==> (trim(t@).len() > 0 ==> has(
                        context,
                        "`"@ + trim(t@) + "`"@,
                    ))
                    &&& (l.name is None || trim(l.name->0@).len() == 0) && (l.tag is None || trim(
                        l.tag->0@,
                    ).len() == 0) ==> has(context, NO_LANGUAGE@)
                },
                None => has(context, NO_LANGUAGE@),
            }
        }),
{
    reveal_strlit("This vault is set to **");
    reveal_strlit("This vault is set to ");
    reveal_strlit("**");
    reveal_strlit("** (`");
    reveal_strlit("`)");
    reveal_strlit("`");
    let none = Seq::<char>::empty();
    let title = "\n## Language\n\n"@;
    let label = vault_language(facts.language);
    let lines = language_lines(label);
    match label {
        None => {
            lemma_has_between(title, NO_LANGUAGE@, none);
            assert(lines =~= title + NO_LANGUAGE@ + none);
            lemma_in_context(facts, routines, has_profile, memory, day, NO_LANGUAGE@);
        },
        Some(shown) => {
            let l = facts.language->0;
            let said = "This vault is set to "@ + shown;
            let tail = ". Speak and write in it, from your first greeting onwards.\n"@;
            assert(lines =~= title + said + tail);
            if l.name is Some && trim(l.name->0@).len() > 0 {
                let p = "This vault is set to **"@ + trim(l.name->0@) + "**"@;
                assert(said =~= none + p + said.skip(p.len() as int));
                lemma_has_between(none, p, said.skip(p.len() as int));
                lemma_has(title, said, tail, p);
                lemma_in_context(facts, routines, has_profile, memory, day, p);
            }
            if l.tag is Some && trim(l.tag->0@).len() > 0 {
                let p = "`"@ + trim(l.tag->0@) + "`"@;
                let named = l.name is Some && trim(l.name->0@).len() > 0;
                let k: int = if named {
                    said.len() - 1 - p.len()
                } else {
                    said.len() - p.len()
                };
                assert(said =~= said.take(k) + p + said.skip(k + p.len()));
                lemma_has_between(said.take(k), p, said.skip(k + p.len()));
                lemma_has(title, said, tail, p);
                lemma_in_context(facts, routines, has_profile, memory, day, p);
            }
        },
    }
}

/// The context ends with what past sessions learned, word for word, below the
/// guide to it.
pub proof fn the_memory_is_told(
    facts: VaultFacts,
    routines: Seq<RoutineManifest>,
    has_profile: bool,
    memory: Option<Seq<char>>,
    day: Day,
)
    ensures
        ({
            let context = session_context(facts, routines, has_profile, memory, day);
            match memory {
                Some(index) => ends(context, MEMORY_GUIDE@ + index + seq!['\n']),
                None => ends(context, NO_MEMORY@),
            }
        }),
{
    let context = session_context(facts, routines, has_profile, memory, day);
    let last = match memory {
        Some(index) => MEMORY_GUIDE@ + index + seq!['\n'],
        None => NO_MEMORY@,
    };
    assert(context.subrange(context.len() - last.len(), context.len() as int) =~= last);
    assert(context.skip(context.len() - last.len()) =~= last);
}

/// A date is told by its names where there is such a date.
pub proof fn days_are_named(date: Date)
    ensures
        day_of(date) matches Some(day) ==> date_text(
            date.year,
            date.month,
            date.day,
            "%A, %-d %B %Y"@,
        ) == Some(day.long) && date_text(date.year, date.month, date.day, "%Y-%m-%d"@) == Some(
            day.short,
        ) && iso_week_of(date.year, date.month, date.day) == Some((day.week_year, day.week)),
        day_of(date) is None <==> date_text(
            date.year,
            date.month,
            date.day,
            "%A, %-d %B %Y"@,
        ) is None || date_text(date.year, date.month, date.day, "%Y-%m-%d"@) is None || iso_week_of(
            date.year,
            date.month,
            date.day,
        ) is None,
{
}

/// The settings name the model, trust nothing, and keep the start quiet.
pub proof fn settings_name_the_model(model: Seq<char>)
    ensures
        settings_fields(model).contains(("defaultModel"@, Scalar::Text(model))),
        settings_fields(model).contains(("defaultProjectTrust"@, Scalar::Text("never"@))),
        settings_fields(model).contains(("defaultProvider"@, Scalar::Text("openrouter"@))),
        settings_fields(model).contains(("enableInstallTelemetry"@, Scalar::Flag(false))),
        settings_fields(model).contains(("enableSkillCommands"@, Scalar::Flag(false))),
        settings_fields(model).contains(("quietStartup"@, Scalar::Flag(true))),
{
    let f = settings_fields(model);
    assert(f[0] == ("defaultModel"@, Scalar::Text(model)));
    assert(f[1] == ("defaultProjectTrust"@, Scalar::Text("never"@)));
    assert(f[2] == ("defaultProvider"@, Scalar::Text("openrouter"@)));
    assert(f[3] == ("enableInstallTelemetry"@, Scalar::Flag(false)));
    assert(f[4] == ("enableSkillCommands"@, Scalar::Flag(false)));
    assert(f[5] == ("quietStartup"@, Scalar::Flag(true)));
}

} // verus!
