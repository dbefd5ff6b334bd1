//! The user's own CLI agent: the launch command, where it comes from, and how
//! a kickoff prompt becomes an argument. Everything here reduces to: what
//! command, and what first argument.

use vstd::prelude::*;
use vstd::slice::slice_subrange;
use crate::inbox::{copy_text, text_of};
use crate::lines::strings;
use crate::paths::{file_name, path_file_name};
use crate::toml_file::{
    can_read, can_write, read_toml_string, string_at, table_under, toml_parsed, toml_text,
    with_string, write_toml_string,
};
use crate::text::{
    append, append_str, find, from_chars, own, position, same, to_chars, trim, trimmed,
};
use crate::words::list_holds;

verus! {

/// Optional placeholder in a launch command that is replaced by the kickoff
/// prompt. Without it, the kickoff is appended as one final argument.
pub const PROMPT_PLACEHOLDER: &'static str = "{prompt}";

/// What the lead agent's command gets for a fast model.
pub const FAST_FLAGS: &'static str = "--model haiku";

/// A CLI agent that the connect flow looks for.
#[derive(Debug, Clone, PartialEq)]
pub struct KnownAgent {
    pub program: String,
    pub display_name: String,
}

/// What is known of an agent: its program and its name.
pub struct Known {
    pub program: Seq<char>,
    pub display_name: Seq<char>,
}

impl View for KnownAgent {
    type V = Known;

    open spec fn view(&self) -> Known {
        Known { program: self.program@, display_name: self.display_name@ }
    }
}

/// What is known of agents.
pub open spec fn known(agents: Seq<KnownAgent>) -> Seq<Known> {
    agents.map_values(|a: KnownAgent| a@)
}

/// The agents that the connect flow looks for, in the order in which they are
/// offered. The lead agent, the one whose flags are known, comes first; its
/// name is the host's to give.
pub open spec fn agents_known(lead: Known) -> Seq<Known> {
    seq![
        lead,
        Known { program: "gemini"@, display_name: "Gemini CLI"@ },
        Known { program: "codex"@, display_name: "Codex"@ },
    ]
}

/// The agents that the connect flow looks for, the lead agent first.
pub fn known_agents(lead: &KnownAgent) -> (agents: Vec<KnownAgent>)
    ensures
        known(agents@) == agents_known(lead@),
{
    let mut agents: Vec<KnownAgent> = Vec::new();
    agents.push(
        KnownAgent { program: lead.program.clone(), display_name: lead.display_name.clone() },
    );
    agents.push(KnownAgent { program: own("gemini"), display_name: own("Gemini CLI") });
    agents.push(KnownAgent { program: own("codex"), display_name: own("Codex") });
    assert(known(agents@) =~= agents_known(lead@));
    agents
}

/// Of the known agents, those whose program is present.
pub open spec fn present_agents(agents: Seq<Known>, present: Seq<Seq<char>>) -> Seq<Known>
    decreases agents.len(),
{
    if agents.len() == 0 {
        Seq::empty()
    } else {
        let above = present_agents(agents.drop_last(), present);
        if present.contains(agents.last().program) {
            above.push(agents.last())
        } else {
            above
        }
    }
}

/// The known agents among the programs that resolve on the search path.
pub fn detect_installed_agents(lead: &KnownAgent, present: &[String]) -> (agents: Vec<KnownAgent>)
    ensures
        known(agents@) == present_agents(agents_known(lead@), strings(present@)),
{
    let all_agents = known_agents(lead);
    let ghost all = known(all_agents@);
    let mut out: Vec<KnownAgent> = Vec::new();
    let mut i: usize = 0;
    assert(all.take(0) =~= Seq::<Known>::empty());
    assert(known(out@) =~= Seq::<Known>::empty());
    while i < all_agents.len()
        invariant
            i <= all_agents@.len(),
            all == known(all_agents@),
            known(out@) == present_agents(all.take(i as int), strings(present@)),
        decreases all_agents@.len() - i,
    {
        let ghost before = out@;
        let agent = &all_agents[i];
        proof {
            assert(all.take(i + 1).drop_last() =~= all.take(i as int));
            assert(all.take(i + 1).last() == agent@);
        }
        if list_holds(present, agent.program.as_str()) {
            out.push(
                KnownAgent {
                    program: agent.program.clone(),
                    display_name: agent.display_name.clone(),
                },
            );
            assert(known(out@) =~= known(before).push(agent@));
        }
        i = i + 1;
    }
    assert(all.take(all.len() as int) =~= all);
    out
}

/// Where a resolved launch command came from; the vault override wins.
#[derive(Debug, Clone, Copy, PartialEq, Eq, Structural)]
pub enum CommandSource {
    Vault,
    Global,
}

/// What a skill asks of the model that runs it: an abstract tier, never a model
/// name, so that shipped routines stay agent-agnostic.
#[derive(Debug, Clone, Copy, PartialEq, Eq, Structural)]
pub enum ModelTier {
    Default,
    /// Mechanical work (triage, filing) that does not need the big model.
    Fast,
}

impl Default for ModelTier {
    fn default() -> (tier: Self)
        ensures
            tier == ModelTier::Default,
    {
        ModelTier::Default
    }
}

impl ModelTier {
    /// The tier's name.
    pub fn as_str(self) -> (name: &'static str)
        ensures
            name@ == (match self {
                ModelTier::Default => "default"@,
                ModelTier::Fast => "fast"@,
            }),
    {
        match self {
            ModelTier::Default => "default",
            ModelTier::Fast => "fast",
        }
    }
}

/// The agent that a vault or the user is connected to.
#[derive(Debug, Clone, PartialEq)]
pub struct ConnectedAgent {
    pub command: String,
    /// The override for fast skills, resolved with the same precedence as
    /// `command`.
    pub fast_command: Option<String>,
    pub source: CommandSource,
}

/// The words of a shell-style command line.
pub uninterp spec fn shell_words(command: Seq<char>) -> Option<Seq<Seq<char>>>;

/// `shlex::split`: the words depend on the command line alone, and are named
/// `shell_words`; it is `None` where the line cannot be split, such as one with
/// an open quote.
#[verifier::external_body]
fn shell_split(command: &str) -> (words: Option<Vec<String>>)
    ensures
        match words {
            Some(w) => shell_words(command@) == Some(strings(w@)),
            None => shell_words(command@) is None,
        },
{
    shlex::split(command)
}

/// The fast form of a command with the given words: the lead agent's command
/// gets the flags of a fast model, where it does not pin a model.
pub open spec fn fast_form(
    command: Seq<char>,
    words: Option<Seq<Seq<char>>>,
    lead: Seq<char>,
) -> Option<Seq<char>> {
    if find(command, "--model"@) is Some {
        None
    } else {
        match words {
            Some(w) => if w.len() > 0 && file_name(w[0]) == lead {
                Some(command + " --model haiku"@)
            } else {
                None
            },
            None => None,
        }
    }
}

/// The fast form of a command, given its words and the lead agent's program. A
/// command of another program, or one that pins a model, has none: never a
/// guessed flag.
pub fn fast_command_of(command: &str, words: Option<Vec<String>>, lead: &str) -> (fast: Option<
    String,
>)
    ensures
        text_of(fast) == fast_form(
            command@,
            match words {
                Some(w) => Some(strings(w@)),
                None => None,
            },
            lead@,
        ),
{
    if position(to_chars(command).as_slice(), to_chars("--model").as_slice()).is_some() {
        return None;
    }
    match words {
        Some(w) => {
            if w.len() == 0 {
                return None;
            }
            assert(strings(w@)[0] == w@[0]@);
            let program = to_chars(w[0].as_str());
            if same(path_file_name(program.as_slice()), to_chars(lead).as_slice()) {
                let mut out = to_chars(command);
                append_str(&mut out, " ");
                append_str(&mut out, FAST_FLAGS);
                proof {
                    reveal_strlit(" ");
                    reveal_strlit("--model haiku");
                    reveal_strlit(" --model haiku");
                    assert(out@ =~= command@ + " --model haiku"@);
                }
                Some(from_chars(out.as_slice()))
            } else {
                None
            }
        },
        None => None,
    }
}

/// The built-in fast form of a command, where its flags are known.
fn derived_fast_command(command: &str, lead: &str) -> (fast: Option<String>)
    ensures
        text_of(fast) == fast_form(command@, shell_words(command@), lead@),
{
    fast_command_of(command, shell_split(command), lead)
}

impl ConnectedAgent {
    /// The launch command for a skill's tier: fast skills get the override,
    /// else a derived fast form, else the normal command. A missing mapping
    /// never blocks a launch.
    pub fn command_for(&self, tier: ModelTier, lead: &str) -> (command: String)
        ensures
            command@ == (match tier {
                ModelTier::Default => self.command@,
                ModelTier::Fast => match self.fast_command {
                    Some(fast) => fast@,
                    None => match fast_form(self.command@, shell_words(self.command@), lead@) {
                        Some(fast) => fast,
                        None => self.command@,
                    },
                },
            }),
    {
        match tier {
            ModelTier::Default => self.command.clone(),
            ModelTier::Fast => match &self.fast_command {
                Some(fast) => fast.clone(),
                None => match derived_fast_command(self.command.as_str(), lead) {
                    Some(fast) => fast,
                    None => self.command.clone(),
                },
            },
        }
    }
}

/// The agent section of a vault's configuration.
#[derive(Debug, Clone, PartialEq)]
pub struct AgentConfig {
    pub command: Option<String>,
    pub fast_command: Option<String>,
}

/// Resolves the launch command: the vault's override if set, otherwise the
/// user-level default. `None` means that the user is not connected. The fast
/// override resolves the same way, independently, so that a vault can pin one
/// while inheriting the other.
pub fn resolved_command(
    vault: Option<&AgentConfig>,
    global_command: Option<String>,
    global_fast: Option<String>,
) -> (agent: Option<ConnectedAgent>)
    ensures
        ({
            let own_command = match vault {
                Some(v) => text_of(v.command),
                None => None,
            };
            let own_fast = match vault {
                Some(v) => text_of(v.fast_command),
                None => None,
            };
            match agent {
                Some(a) => {
                    &&& Some(a.command@) == (if own_command is Some {
                        own_command
                    } else {
                        text_of(global_command)
                    })
                    &&& text_of(a.fast_command) == (if own_fast is Some {
                        own_fast
                    } else {
                        text_of(global_fast)
                    })
                    &&& a.source == (if own_command is Some {
                        CommandSource::Vault
                    } else {
                        CommandSource::Global
                    })
                },
                None => own_command is None && global_command is None,
            }
        }),
{
    let mut fast_command: Option<String> = None;
    let mut command: Option<String> = None;
    if let Some(v) = vault {
        fast_command = copy_text(&v.fast_command);
        command = copy_text(&v.command);
    }
    let fast_command: Option<String> = match fast_command {
        Some(fast) => Some(fast),
        None => global_fast,
    };
    match command {
        Some(command) => Some(
            ConnectedAgent { command, fast_command, source: CommandSource::Vault },
        ),
        None => match global_command {
            Some(command) => Some(
                ConnectedAgent { command, fast_command, source: CommandSource::Global },
            ),
            None => None,
        },
    }
}

/// A parsed launch, ready to spawn directly, not through a shell.
#[derive(Debug, Clone, PartialEq)]
pub struct AgentLaunch {
    pub program: String,
    pub args: Vec<String>,
}

/// Why a command line gives no launch.
#[derive(Debug, Clone, Copy, PartialEq, Eq, Structural)]
pub enum LaunchError {
    /// It cannot be split into words.
    Unparseable,
    /// No word is left.
    Empty,
}

/// `s` with every `p` in it replaced, from left to right.
pub open spec fn replaced(s: Seq<char>, p: Seq<char>, by: Seq<char>) -> Seq<char>
    decreases s.len(),
{
    match find(s, p) {
        Some(at) => if p.len() > 0 && 0 <= at && at + p.len() <= s.len() {
            s.take(at) + by + replaced(s.skip(at + p.len()), p, by)
        } else {
            s
        },
        None => s,
    }
}

/// `s` with every `p` in it replaced.
pub fn replace_all(s: &[char], p: &[char], by: &[char]) -> (out: Vec<char>)
    requires
        p@.len() > 0,
    ensures
        out@ == replaced(s@, p@, by@),
{
    let mut out: Vec<char> = Vec::new();
    let mut at: usize = 0;
    assert(s@.skip(0) =~= s@);
    assert(out@ + replaced(s@.skip(0), p@, by@) =~= replaced(s@, p@, by@));
    loop
        invariant
            at <= s@.len(),
            p@.len() > 0,
            out@ + replaced(s@.skip(at as int), p@, by@) == replaced(s@, p@, by@),
        decreases s@.len() - at,
    {
        let ghost before = out@;
        let rest = slice_subrange(s, at, s.len());
        assert(rest@ =~= s@.skip(at as int));
        match position(rest, p) {
            Some(i) => {
                proof {
                    crate::text::lemma_find_from(rest@, p@, 0);
                }
                let n: usize = s.len();
                append(&mut out, slice_subrange(rest, 0, i));
                append(&mut out, by);
                assert(rest@.skip(i + p@.len()) =~= s@.skip(at + i + p@.len()));
                assert(out@ + replaced(rest@.skip(i + p@.len()), p@, by@) =~= before + replaced(
                    rest@,
                    p@,
                    by@,
                ));
                at = at + i + p.len();
            },
            None => {
                append(&mut out, rest);
                return out;
            },
        }
    }
}

/// Whether one of the words holds the placeholder.
pub open spec fn has_placeholder(words: Seq<Seq<char>>) -> bool {
    exists|i: int| 0 <= i < words.len() && find(#[trigger] words[i], "{prompt}"@) is Some
}

/// The words with the kickoff woven in: those that hold the placeholder have it
/// replaced, or are dropped without a kickoff.
pub open spec fn woven(words: Seq<Seq<char>>, kickoff: Option<Seq<char>>) -> Seq<Seq<char>>
    decreases words.len(),
{
    if words.len() == 0 {
        Seq::empty()
    } else {
        let above = woven(words.drop_last(), kickoff);
        if find(words.last(), "{prompt}"@) is Some {
            match kickoff {
                Some(k) => above.push(replaced(words.last(), "{prompt}"@, k)),
                None => above,
            }
        } else {
            above.push(words.last())
        }
    }
}

/// The arguments of a launch: without a placeholder the kickoff comes last.
pub open spec fn launch_argv(words: Seq<Seq<char>>, kickoff: Option<Seq<char>>) -> Seq<Seq<char>> {
    let argv = woven(words, kickoff);
    match kickoff {
        Some(k) => if has_placeholder(words) {
            argv
        } else {
            argv.push(k)
        },
        None => argv,
    }
}

/// A launch from the words of a command line: the first of the arguments is the
/// program. The kickoff is one argument, so it needs no quoting.
pub fn weave_launch(words: Vec<String>, kickoff: Option<&str>) -> (launch: Result<
    AgentLaunch,
    LaunchError,
>)
    ensures
        ({
            let argv = launch_argv(
                strings(words@),
                match kickoff {
                    Some(k) => Some(k@),
                    None => None,
                },
            );
            match launch {
                Ok(l) => argv.len() > 0 && l.program@ == argv[0] && strings(l.args@) == argv.skip(1),
                Err(e) => argv.len() == 0 && e == LaunchError::Empty,
            }
        }),
{
    proof {
        reveal_strlit("{prompt}");
    }
    let ghost all = strings(words@);
    let ghost kick = match kickoff {
        Some(k) => Some(k@),
        None => None,
    };
    let mark = to_chars(PROMPT_PLACEHOLDER);
    let mut argv: Vec<String> = Vec::new();
    let mut used: bool = false;
    let mut i: usize = 0;
    assert(all.take(0) =~= Seq::<Seq<char>>::empty());
    assert(strings(argv@) =~= Seq::<Seq<char>>::empty());
    while i < words.len()
        invariant
            i <= words@.len(),
            all == strings(words@),
            mark@ == "{prompt}"@,
            mark@.len() > 0,
            kick == (match kickoff {
                Some(k) => Some(k@),
                None => None,
            }),
            used == has_placeholder(all.take(i as int)),
            strings(argv@) == woven(all.take(i as int), kick),
        decreases words@.len() - i,
    {
        let ghost before = argv@;
        let ghost above = all.take(i as int);
        let ghost next = all.take(i + 1);
        let word = to_chars(words[i].as_str());
        proof {
            assert(next.drop_last() =~= above);
            assert(next.last() == word@);
            assert(has_placeholder(next) == (has_placeholder(above) || find(word@, "{prompt}"@)
                is Some)) by {
                if has_placeholder(above) {
                    let k = choose|k: int|
                        0 <= k < above.len() && find(#[trigger] above[k], "{prompt}"@) is Some;
                    assert(next[k] == above[k]);
                }
                if find(word@, "{prompt}"@) is Some {
                    assert(find(next[i as int], "{prompt}"@) is Some);
                }
                if has_placeholder(next) {
                    let k = choose|k: int|
                        0 <= k < next.len() && find(#[trigger] next[k], "{prompt}"@) is Some;
                    assert(k < i ==> above[k] == next[k]);
                }
            }
        }
        if position(word.as_slice(), mark.as_slice()).is_some() {
            used = true;
            if let Some(k) = kickoff {
                let filled = replace_all(word.as_slice(), mark.as_slice(), to_chars(k).as_slice());
                argv.push(from_chars(filled.as_slice()));
                assert(strings(argv@) =~= strings(before).push(filled@));
            }
        } else {
            argv.push(words[i].clone());
            assert(strings(argv@) =~= strings(before).push(word@));
        }
        i = i + 1;
    }
    assert(all.take(all.len() as int) =~= all);
    if let Some(k) = kickoff {
        if !used {
            let ghost before = argv@;
            argv.push(own(k));
            assert(strings(argv@) =~= strings(before).push(k@));
        }
    }
    let ghost done = strings(argv@);
    if argv.len() == 0 {
        return Err(LaunchError::Empty);
    }
    let ghost full = argv@;
    let program = argv.remove(0);
    assert(program@ == done[0]);
    assert(strings(argv@) =~= done.skip(1));
    Ok(AgentLaunch { program, args: argv })
}

/// Parses a shell-style command line into a launch and weaves in the kickoff
/// prompt.
pub fn build_launch(command_line: &str, kickoff: Option<&str>) -> (launch: Result<
    AgentLaunch,
    LaunchError,
>)
    ensures
        match shell_words(command_line@) {
            Some(words) => {
                let argv = launch_argv(
                    words,
                    match kickoff {
                        Some(k) => Some(k@),
                        None => None,
                    },
                );
                match launch {
                    Ok(l) => argv.len() > 0 && l.program@ == argv[0] && strings(l.args@)
                        == argv.skip(1),
                    Err(e) => argv.len() == 0 && e == LaunchError::Empty,
                }
            },
            None => launch == Err::<AgentLaunch, LaunchError>(LaunchError::Unparseable),
        },
{
    match shell_split(command_line) {
        Some(words) => weave_launch(words, kickoff),
        None => Err(LaunchError::Unparseable),
    }
}

/// A text in quotes, with its special characters escaped.
pub uninterp spec fn quoted(s: Seq<char>) -> Seq<char>;

/// The `Debug` form of a string, by `format!`: it depends on the string alone,
/// and is named `quoted`.
#[verifier::external_body]
pub(crate) fn quote(s: &str) -> (out: String)
    ensures
        out@ == quoted(s@),
{
    format!("{s:?}")
}

impl LaunchError {
    /// What went wrong with a command line.
    pub fn message(self, command_line: &str) -> (text: String)
        ensures
            text@ == (match self {
                LaunchError::Unparseable => "couldn't parse the agent command "@ + quoted(
                    command_line@,
                ) + " (unbalanced quotes?)"@,
                LaunchError::Empty => "the agent command "@ + quoted(command_line@)
                    + " is empty"@,
            }),
    {
        let shown = quote(command_line);
        let mut out: Vec<char> = match self {
            LaunchError::Unparseable => to_chars("couldn't parse the agent command "),
            LaunchError::Empty => to_chars("the agent command "),
        };
        append_str(&mut out, shown.as_str());
        match self {
            LaunchError::Unparseable => append_str(&mut out, " (unbalanced quotes?)"),
            LaunchError::Empty => append_str(&mut out, " is empty"),
        }
        from_chars(out.as_slice())
    }
}

/// A kickoff is never lost: it is the last argument, or stands in every word
/// that held the placeholder.
pub proof fn kickoff_is_woven_in(words: Seq<Seq<char>>, kickoff: Seq<char>)
    ensures
        !has_placeholder(words) ==> launch_argv(words, Some(kickoff)) == words.push(kickoff),
        launch_argv(words, Some(kickoff)).len() == words.len() + (if has_placeholder(words) {
            0int
        } else {
            1int
        }),
        forall|i: int|
            0 <= i < words.len() ==> #[trigger] launch_argv(words, Some(kickoff))[i] == (
            if find(words[i], "{prompt}"@) is Some {
                replaced(words[i], "{prompt}"@, kickoff)
            } else {
                words[i]
            }),
{
    lemma_woven(words, kickoff);
    let argv = launch_argv(words, Some(kickoff));
    if !has_placeholder(words) {
        assert(argv =~= words.push(kickoff)) by {
            assert forall|i: int| 0 <= i < words.len() implies argv[i] == words[i] by {
                assert(!(find(words[i], "{prompt}"@) is Some));
                assert(woven(words, Some(kickoff))[i] == words[i]);
            }
        }
    }
}

proof fn lemma_woven(words: Seq<Seq<char>>, kickoff: Seq<char>)
    ensures
        woven(words, Some(kickoff)).len() == words.len(),
        forall|i: int|
            0 <= i < words.len() ==> #[trigger] woven(words, Some(kickoff))[i] == (if find(
                words[i],
                "{prompt}"@,
            ) is Some {
                replaced(words[i], "{prompt}"@, kickoff)
            } else {
                words[i]
            }),
    decreases words.len(),
{
    if words.len() > 0 {
        lemma_woven(words.drop_last(), kickoff);
        let all = woven(words, Some(kickoff));
        let above = woven(words.drop_last(), Some(kickoff));
        assert forall|i: int| 0 <= i < words.len() implies #[trigger] all[i] == (if find(
            words[i],
            "{prompt}"@,
        ) is Some {
            replaced(words[i], "{prompt}"@, kickoff)
        } else {
            words[i]
        }) by {
            if i < words.len() - 1 {
                assert(all[i] == above[i]);
                assert(words.drop_last()[i] == words[i]);
            }
        }
    }
}

/// The kickoff prompt for running a skill file: a pointer, not a copy, so that
/// the agent reads the live, user-editable file.
pub fn run_skill_kickoff(vault_relative_path: &str) -> (kickoff: String)
    ensures
        kickoff@ == "Read and execute "@ + vault_relative_path@,
{
    let mut out: Vec<char> = to_chars("Read and execute ");
    append_str(&mut out, vault_relative_path);
    from_chars(out.as_slice())
}

/// A setting: trimmed, and only where something is left.
pub open spec fn setting_of(found: Option<Seq<char>>) -> Option<Seq<char>> {
    match found {
        Some(s) => if trim(s).len() == 0 {
            None
        } else {
            Some(trim(s))
        },
        _ => None,
    }
}

/// A setting from what the settings file has under its key: blank means not
/// set.
pub fn usable_setting(found: Option<String>) -> (setting: Option<String>)
    ensures
        text_of(setting) == setting_of(text_of(found)),
{
    match found {
        Some(s) => {
            let chars = to_chars(s.as_str());
            let kept = trimmed(chars.as_slice());
            if kept.len() == 0 {
                None
            } else {
                Some(from_chars(kept))
            }
        },
        None => None,
    }
}

/// A field of the settings file's agent section. A file that cannot be parsed
/// counts as one without it.
pub fn load_global_agent_field(raw: &str, key: &str) -> (setting: Option<String>)
    ensures
        text_of(setting) == setting_of(string_at(toml_parsed(raw@), "agent"@, key@)),
{
    usable_setting(read_toml_string(raw, "agent", key))
}

/// The user-level default launch command, from the settings file's text.
pub fn load_global_command(raw: &str) -> (command: Option<String>)
    ensures
        text_of(command) == setting_of(string_at(toml_parsed(raw@), "agent"@, "command"@)),
{
    load_global_agent_field(raw, "command")
}

/// The settings file's text with the user-level default launch command put in.
/// Everything else, fields of newer builds too, survives, and the command is what
/// [`load_global_command`] then finds, where the text can be read again at all.
/// It is `None` exactly where the text cannot be parsed, or what it would hold
/// cannot be written.
pub fn save_global_command(raw: &str, command: &str) -> (out: Option<String>)
    ensures
        out is Some == (toml_parsed(raw@) matches Some(m) && can_write(
            with_string(m, "agent"@, "command"@, command@),
        )),
        out matches Some(t) ==> {
            let after = with_string(toml_parsed(raw@)->0, "agent"@, "command"@, command@);
            t@ == toml_text(after) && (can_read(after) ==> toml_parsed(t@) == Some(after))
        },
{
    write_toml_string(raw, "agent", "command", command)
}

/// Saving the command keeps every other key, of the agent's table and outside
/// it, whatever its value is; an agent entry that is no table becomes one, and
/// loading then finds the command, trimmed, or none where it is blank.
pub proof fn saving_keeps_the_settings(before: Map<Seq<char>, crate::toml_file::Node>, command: Seq<char>)
    ensures
        ({
            let after = with_string(before, "agent"@, "command"@, command);
            &&& forall|k: Seq<char>|
                k != "agent"@ ==> (#[trigger] after.contains_key(k) == before.contains_key(k)) && (
                before.contains_key(k) ==> after[k] == before[k])
            &&& forall|k: Seq<char>|
                k != "command"@ ==> (#[trigger] table_under(after, "agent"@).contains_key(k)
                    == table_under(before, "agent"@).contains_key(k)) && (table_under(
                    before,
                    "agent"@,
                ).contains_key(k) ==> table_under(after, "agent"@)[k] == table_under(
                    before,
                    "agent"@,
                )[k])
            &&& setting_of(string_at(Some(after), "agent"@, "command"@)) == (if trim(command).len()
                == 0 {
                None
            } else {
                Some(trim(command))
            })
        }),
{
}

} // verus!
