//! The panel that hosts the user's own CLI agent in terminals, one per session:
//! what each action launches, how sessions come and go, and the guided flow for
//! connecting an agent.

use vstd::prelude::*;
use crate::agent::{
    build_launch, fast_form, known, launch_argv, quote, quoted, run_skill_kickoff, shell_words,
    AgentLaunch, CommandSource, ConnectedAgent, Known, KnownAgent, LaunchError, ModelTier,
};
use crate::format::{append_decimal, decimal};
use crate::hosted_agent::{RoutineManifest, RoutineSkill};
use crate::inbox::text_of;
use crate::lines::strings;
use crate::text::{append_str, from_chars, own, same_str, to_chars, trim, trimmed};

verus! {

/// One agent action to launch in a fresh terminal: a new process per action.
#[derive(Debug, Clone, PartialEq)]
pub struct LaunchRequest {
    /// The tab's title: the action that launched it.
    pub title: String,
    /// The kickoff prompt, passed as a launch argument; without one the agent
    /// starts idle.
    pub kickoff: Option<String>,
    /// The tier that the skill asks for.
    pub tier: ModelTier,
}

/// What a request asks for.
pub struct Request {
    pub title: Seq<char>,
    pub kickoff: Option<Seq<char>>,
    pub tier: ModelTier,
}

impl View for LaunchRequest {
    type V = Request;

    open spec fn view(&self) -> Request {
        Request { title: self.title@, kickoff: text_of(self.kickoff), tier: self.tier }
    }
}

/// An ad-hoc conversation.
pub open spec fn conversation_request() -> Request {
    Request { title: "Conversation"@, kickoff: None, tier: ModelTier::Default }
}

/// A run of a skill.
pub open spec fn skill_request(name: Seq<char>, file: Seq<char>, tier: ModelTier) -> Request {
    Request { title: name, kickoff: Some("Read and execute "@ + file), tier }
}

impl LaunchRequest {
    /// An ad-hoc conversation: the agent starts idle.
    pub fn conversation() -> (request: Self)
        ensures
            request@ == conversation_request(),
    {
        LaunchRequest { title: own("Conversation"), kickoff: None, tier: ModelTier::Default }
    }

    /// A run of a skill: the kickoff points the agent to its file.
    pub fn run_skill(skill_name: &str, vault_relative_path: &str, tier: ModelTier) -> (request:
        Self)
        ensures
            request@ == skill_request(skill_name@, vault_relative_path@, tier),
    {
        LaunchRequest {
            title: own(skill_name),
            kickoff: Some(run_skill_kickoff(vault_relative_path)),
            tier,
        }
    }
}

/// The skills of routines, in order, each with its routine's name.
pub open spec fn skills_of(routines: Seq<RoutineManifest>) -> Seq<(Seq<char>, RoutineSkill)>
    decreases routines.len(),
{
    if routines.len() == 0 {
        Seq::empty()
    } else {
        let last = routines.last();
        skills_of(routines.drop_last()) + last.skills@.map_values(
            |s: RoutineSkill| (last.name@, s),
        )
    }
}

/// The first skill with an id.
pub open spec fn skill_with_id(skills: Seq<(Seq<char>, RoutineSkill)>, id: Seq<char>) -> Option<
    RoutineSkill,
>
    decreases skills.len(),
{
    if skills.len() == 0 {
        None
    } else {
        match skill_with_id(skills.drop_last(), id) {
            Some(s) => Some(s),
            None => if skills.last().1.id@ == id {
                Some(skills.last().1)
            } else {
                None
            },
        }
    }
}

/// A skill that can be run, as the skill picker offers it.
#[derive(Debug, Clone, PartialEq)]
pub struct RunnableSkill {
    /// The skill's name and its routine's: what the picker matches against.
    pub label: String,
    pub skill_name: String,
    /// The path of its file in the vault.
    pub file: String,
    pub tier: ModelTier,
    pub summary: String,
}

/// What an offered skill holds.
pub struct Offer {
    pub label: Seq<char>,
    pub skill_name: Seq<char>,
    pub file: Seq<char>,
    pub tier: ModelTier,
    pub summary: Seq<char>,
}

impl View for RunnableSkill {
    type V = Offer;

    open spec fn view(&self) -> Offer {
        Offer {
            label: self.label@,
            skill_name: self.skill_name@,
            file: self.file@,
            tier: self.tier,
            summary: self.summary@,
        }
    }
}

/// A skill as offered.
pub open spec fn offer_of(skill: (Seq<char>, RoutineSkill)) -> Offer {
    Offer {
        label: skill.1.name@ + " — "@ + skill.0,
        skill_name: skill.1.name@,
        file: skill.1.file@,
        tier: skill.1.model,
        summary: skill.1.summary@,
    }
}

/// Skills as offered.
pub open spec fn offers(skills: Seq<(Seq<char>, RoutineSkill)>) -> Seq<Offer> {
    skills.map_values(|s: (Seq<char>, RoutineSkill)| offer_of(s))
}

/// What offered skills hold.
pub open spec fn offer_views(skills: Seq<RunnableSkill>) -> Seq<Offer> {
    skills.map_values(|s: RunnableSkill| s@)
}

/// Every skill of the enabled routines, in order.
pub fn runnable_skills(routines: &[RoutineManifest]) -> (skills: Vec<RunnableSkill>)
    ensures
        offer_views(skills@) == offers(skills_of(routines@)),
{
    let mut out: Vec<RunnableSkill> = Vec::new();
    let mut i: usize = 0;
    assert(routines@.take(0) =~= Seq::<RoutineManifest>::empty());
    assert(offer_views(out@) =~= offers(skills_of(routines@.take(0))));
    while i < routines.len()
        invariant
            i <= routines@.len(),
            offer_views(out@) == offers(skills_of(routines@.take(i as int))),
        decreases routines@.len() - i,
    {
        let routine = &routines[i];
        let ghost above = skills_of(routines@.take(i as int));
        let ghost own_skills = routine.skills@.map_values(
            |s: RoutineSkill| (routine.name@, s),
        );
        let mut j: usize = 0;
        assert(own_skills.take(0) =~= Seq::<(Seq<char>, RoutineSkill)>::empty());
        assert(above + own_skills.take(0) =~= above);
        while j < routine.skills.len()
            invariant
                j <= routine.skills@.len(),
                own_skills == routine.skills@.map_values(|s: RoutineSkill| (routine.name@, s)),
                offer_views(out@) == offers(above + own_skills.take(j as int)),
            decreases routine.skills@.len() - j,
        {
            let skill = &routine.skills[j];
            let ghost before = out@;
            let mut label: Vec<char> = to_chars(skill.name.as_str());
            append_str(&mut label, " — ");
            append_str(&mut label, routine.name.as_str());
            out.push(
                RunnableSkill {
                    label: from_chars(label.as_slice()),
                    skill_name: skill.name.clone(),
                    file: skill.file.clone(),
                    tier: skill.model,
                    summary: skill.summary.clone(),
                },
            );
            proof {
                let item = (routine.name@, *skill);
                assert(own_skills.take(j + 1) =~= own_skills.take(j as int).push(item));
                assert(above + own_skills.take(j + 1) =~= (above + own_skills.take(j as int)).push(
                    item,
                ));
                assert(out@.last()@ == offer_of(item));
                assert(offer_views(out@) =~= offer_views(before).push(offer_of(item)));
                assert(offers((above + own_skills.take(j as int)).push(item)) =~= offers(
                    above + own_skills.take(j as int),
                ).push(offer_of(item)));
            }
            j = j + 1;
        }
        proof {
            assert(own_skills.take(own_skills.len() as int) =~= own_skills);
            assert(routines@.take(i + 1).drop_last() =~= routines@.take(i as int));
            assert(routines@.take(i + 1).last() == *routine);
        }
        i = i + 1;
    }
    assert(routines@.take(routines@.len() as int) =~= routines@);
    out
}

pub const NOT_A_VAULT: &'static str = "This workspace isn't a Thock vault, so there are no skills to run.";

pub const NO_SKILLS: &'static str = "No Routine skills are installed in this vault.";

/// The message for an id that no enabled routine has.
pub open spec fn unknown_skill(id: Seq<char>) -> Seq<char> {
    "No enabled Routine skill "@ + quoted(id) + " in this vault."@
}

fn first_skill<'a>(routine: &'a RoutineManifest, id: &str) -> (found: Option<&'a RoutineSkill>)
    ensures
        match found {
            Some(s) => skill_with_id(
                routine.skills@.map_values(|s: RoutineSkill| (routine.name@, s)),
                id@,
            ) == Some(*s),
            None => skill_with_id(
                routine.skills@.map_values(|s: RoutineSkill| (routine.name@, s)),
                id@,
            ) is None,
        },
{
    let ghost all = routine.skills@.map_values(|s: RoutineSkill| (routine.name@, s));
    let mut j: usize = 0;
    assert(all.take(0) =~= Seq::<(Seq<char>, RoutineSkill)>::empty());
    while j < routine.skills.len()
        invariant
            j <= routine.skills@.len(),
            all == routine.skills@.map_values(|s: RoutineSkill| (routine.name@, s)),
            skill_with_id(all.take(j as int), id@) is None,
        decreases routine.skills@.len() - j,
    {
        proof {
            assert(all.take(j + 1).drop_last() =~= all.take(j as int));
            assert(all.take(j + 1).last() == all[j as int]);
        }
        if same_str(routine.skills[j].id.as_str(), id) {
            proof {
                lemma_first_skill_stays(all, j + 1, id@);
            }
            return Some(&routine.skills[j]);
        }
        j = j + 1;
    }
    assert(all.take(all.len() as int) =~= all);
    None
}

proof fn lemma_first_skill_stays(all: Seq<(Seq<char>, RoutineSkill)>, n: int, id: Seq<char>)
    requires
        0 <= n <= all.len(),
        skill_with_id(all.take(n), id) is Some,
    ensures
        skill_with_id(all, id) == skill_with_id(all.take(n), id),
    decreases all.len(),
{
    if n < all.len() {
        assert(all.drop_last().take(n) =~= all.take(n));
        lemma_first_skill_stays(all.drop_last(), n, id);
    } else {
        assert(all.take(n) =~= all);
    }
}

proof fn lemma_skill_in_parts(
    a: Seq<(Seq<char>, RoutineSkill)>,
    b: Seq<(Seq<char>, RoutineSkill)>,
    id: Seq<char>,
)
    ensures
        skill_with_id(a + b, id) == (match skill_with_id(a, id) {
            Some(s) => Some(s),
            None => skill_with_id(b, id),
        }),
    decreases b.len(),
{
    if b.len() == 0 {
        assert(a + b =~= a);
    } else {
        assert((a + b).drop_last() =~= a + b.drop_last());
        assert((a + b).last() == b.last());
        lemma_skill_in_parts(a, b.drop_last(), id);
    }
}

/// What a key binding for a skill launches: the first skill of the enabled
/// routines with that id. Outside a vault, or for an unknown id, the result is
/// the message for the user.
pub fn run_skill_by_id(routines: Option<&[RoutineManifest]>, skill_id: &str) -> (request: Result<
    LaunchRequest,
    String,
>)
    ensures
        match routines {
            None => request matches Err(e) && e@ == NOT_A_VAULT@,
            Some(r) => match skill_with_id(skills_of(r@), skill_id@) {
                Some(s) => request matches Ok(q) && q@ == skill_request(s.name@, s.file@, s.model),
                None => request matches Err(e) && e@ == unknown_skill(skill_id@),
            },
        },
{
    match routines {
        None => Err(own(NOT_A_VAULT)),
        Some(r) => {
            let mut i: usize = 0;
            assert(r@.take(0) =~= Seq::<RoutineManifest>::empty());
            while i < r.len()
                invariant
                    i <= r@.len(),
                    routines == Some(r),
                    skill_with_id(skills_of(r@.take(i as int)), skill_id@) is None,
                decreases r@.len() - i,
            {
                proof {
                    assert(r@.take(i + 1).drop_last() =~= r@.take(i as int));
                    assert(r@.take(i + 1).last() == r@[i as int]);
                    let last = r@[i as int];
                    lemma_skill_in_parts(
                        skills_of(r@.take(i as int)),
                        last.skills@.map_values(|s: RoutineSkill| (last.name@, s)),
                        skill_id@,
                    );
                }
                if let Some(skill) = first_skill(&r[i], skill_id) {
                    proof {
                        lemma_skills_stay(r@, i + 1, skill_id@);
                    }
                    return Ok(
                        LaunchRequest::run_skill(
                            skill.name.as_str(),
                            skill.file.as_str(),
                            skill.model,
                        ),
                    );
                }
                i = i + 1;
            }
            assert(r@.take(r@.len() as int) =~= r@);
            let mut out: Vec<char> = to_chars("No enabled Routine skill ");
            append_str(&mut out, quote(skill_id).as_str());
            append_str(&mut out, " in this vault.");
            Err(from_chars(out.as_slice()))
        },
    }
}

proof fn lemma_skills_stay(r: Seq<RoutineManifest>, n: int, id: Seq<char>)
    requires
        0 <= n <= r.len(),
        skill_with_id(skills_of(r.take(n)), id) is Some,
    ensures
        skill_with_id(skills_of(r), id) == skill_with_id(skills_of(r.take(n)), id),
    decreases r.len(),
{
    if n < r.len() {
        assert(r.drop_last().take(n) =~= r.take(n));
        lemma_skills_stay(r.drop_last(), n, id);
        let last = r.last();
        lemma_skill_in_parts(
            skills_of(r.drop_last()),
            last.skills@.map_values(|s: RoutineSkill| (last.name@, s)),
            id,
        );
    } else {
        assert(r.take(n) =~= r);
    }
}

/// A session's tab.
#[derive(Debug, Clone, PartialEq)]
pub struct AgentSession {
    pub id: usize,
    pub title: String,
}

/// The connect flow, while it is on screen.
#[derive(Debug, Clone, PartialEq)]
pub struct ConnectFlow {
    /// The agents that were found; `None` while the search is running.
    pub detected: Option<Vec<KnownAgent>>,
    pub only_this_vault: bool,
}

/// What the panel shows.
#[derive(Debug, Clone, PartialEq)]
pub enum PanelView {
    Sessions,
    Connect(ConnectFlow),
}

/// The panel's state.
pub struct AgentPanel {
    /// Whether the workspace is a vault.
    pub has_vault: bool,
    /// The resolved launch command.
    pub connected: Option<ConnectedAgent>,
    pub sessions: Vec<AgentSession>,
    pub active_session: usize,
    pub next_session_id: usize,
    pub view: PanelView,
    /// A launch that waits for the connect flow.
    pub pending_launch: Option<LaunchRequest>,
}

/// A shell-style command line for words.
pub uninterp spec fn shell_line(words: Seq<Seq<char>>) -> Option<Seq<char>>;

/// Whether a word holds a nul.
pub open spec fn has_nul(words: Seq<Seq<char>>) -> bool {
    exists|i: int| 0 <= i < words.len() && (#[trigger] words[i]).contains('\0')
}

/// `shlex::try_join`: the line depends on the words alone, and is named
/// `shell_line`; it fails exactly where a word holds a nul.
#[verifier::external_body]
fn shell_join(words: &Vec<String>) -> (line: Option<String>)
    ensures
        text_of(line) == shell_line(strings(words@)),
        (line is None) == has_nul(strings(words@)),
{
    shlex::try_join(words.iter().map(|w| w.as_str())).ok()
}

/// What is shown as the command: the words joined, else the program alone.
pub open spec fn shown_command(argv: Seq<Seq<char>>) -> Seq<char> {
    match shell_line(argv) {
        Some(line) => line,
        None => argv[0],
    }
}

/// What to show as the command of a launch.
pub fn command_label(launch: &AgentLaunch) -> (label: String)
    ensures
        label@ == shown_command(seq![launch.program@] + strings(launch.args@)),
{
    let mut words: Vec<String> = Vec::new();
    words.push(launch.program.clone());
    let mut i: usize = 0;
    assert(strings(words@) =~= seq![launch.program@] + strings(launch.args@).take(0));
    while i < launch.args.len()
        invariant
            i <= launch.args@.len(),
            strings(words@) == seq![launch.program@] + strings(launch.args@).take(i as int),
        decreases launch.args@.len() - i,
    {
        let ghost before = words@;
        words.push(launch.args[i].clone());
        proof {
            assert(strings(words@) =~= strings(before).push(launch.args@[i as int]@));
            assert(strings(words@) =~= seq![launch.program@] + strings(launch.args@).take(i + 1));
        }
        i = i + 1;
    }
    assert(strings(launch.args@).take(launch.args@.len() as int) =~= strings(launch.args@));
    match shell_join(&words) {
        Some(line) => line,
        None => launch.program.clone(),
    }
}

/// What a launch does.
#[derive(Debug, PartialEq)]
pub enum LaunchStep {
    /// Tell the user.
    Message(String),
    /// Show the connect flow; the launch waits for it.
    Connect,
    /// Take a checkpoint and start a terminal task.
    Start { session_id: usize, task_id: String, title: String, label: String, launch: AgentLaunch },
}

pub const NO_VAULT_LAUNCH: &'static str = "Open a Thock vault to use your agent — sessions run in the vault folder.";

/// The command of an agent for a tier.
pub open spec fn tier_command(
    agent: ConnectedAgent,
    tier: ModelTier,
    lead: Seq<char>,
) -> Seq<char> {
    match tier {
        ModelTier::Default => agent.command@,
        ModelTier::Fast => match agent.fast_command {
            Some(fast) => fast@,
            None => match fast_form(agent.command@, shell_words(agent.command@), lead) {
                Some(fast) => fast,
                None => agent.command@,
            },
        },
    }
}

/// The words to launch a command with, or what is wrong with it.
pub open spec fn launch_words(command: Seq<char>, kickoff: Option<Seq<char>>) -> Result<
    Seq<Seq<char>>,
    LaunchError,
> {
    match shell_words(command) {
        Some(words) => {
            let argv = launch_argv(words, kickoff);
            if argv.len() == 0 {
                Err(LaunchError::Empty)
            } else {
                Ok(argv)
            }
        },
        None => Err(LaunchError::Unparseable),
    }
}

/// What is wrong with a command, in words.
pub open spec fn launch_complaint(error: LaunchError, command: Seq<char>) -> Seq<char> {
    match error {
        LaunchError::Unparseable => "couldn't parse the agent command "@ + quoted(command)
            + " (unbalanced quotes?)"@,
        LaunchError::Empty => "the agent command "@ + quoted(command) + " is empty"@,
    }
}

/// Whether the tabs are distinct and numbered below the next one.
pub open spec fn distinct_sessions(sessions: Seq<AgentSession>, next: int) -> bool {
    &&& forall|i: int| 0 <= i < sessions.len() ==> (#[trigger] sessions[i]).id < next
    &&& forall|i: int, j: int|
        0 <= i < j < sessions.len() ==> (#[trigger] sessions[i]).id != (#[trigger] sessions[j]).id
}

/// The position of a session among tabs; their number where there is none.
pub open spec fn session_at(sessions: Seq<AgentSession>, id: int) -> int
    decreases sessions.len(),
{
    if sessions.len() == 0 {
        0
    } else if sessions[0].id == id {
        0
    } else {
        1 + session_at(sessions.skip(1), id)
    }
}

proof fn lemma_session_at(sessions: Seq<AgentSession>, id: int, at: int)
    requires
        0 <= at <= sessions.len(),
        forall|k: int| 0 <= k < at ==> (#[trigger] sessions[k]).id != id,
        at < sessions.len() ==> sessions[at].id == id,
    ensures
        session_at(sessions, id) == at,
    decreases at,
{
    if at > 0 {
        let rest = sessions.skip(1);
        assert forall|k: int| 0 <= k < at - 1 implies (#[trigger] rest[k]).id != id by {
            assert(rest[k] == sessions[k + 1]);
        }
        assert(at < sessions.len() ==> rest[at - 1] == sessions[at]);
        lemma_session_at(rest, id, at - 1);
    }
}

impl AgentPanel {
    /// Whether the active tab is one of the tabs, and the tabs are distinct.
    pub open spec fn wf(&self) -> bool {
        &&& distinct_sessions(self.sessions@, self.next_session_id as int)
        &&& if self.sessions@.len() == 0 {
            self.active_session == 0
        } else {
            self.active_session < self.sessions@.len()
        }
    }

    /// A panel with no session.
    pub fn new() -> (panel: Self)
        ensures
            panel.wf(),
            !panel.has_vault,
            panel.connected is None,
            panel.sessions@.len() == 0,
            panel.next_session_id == 0,
            panel.view == PanelView::Sessions,
            panel.pending_launch is None,
    {
        AgentPanel {
            has_vault: false,
            connected: None,
            sessions: Vec::new(),
            active_session: 0,
            next_session_id: 0,
            view: PanelView::Sessions,
            pending_launch: None,
        }
    }

    /// Launches a request with the agent that resolves now. Without one the
    /// request waits for the connect flow. `lead` is the lead agent's program.
    pub fn launch(
        &mut self,
        request: LaunchRequest,
        resolved: Option<ConnectedAgent>,
        lead: &str,
    ) -> (step: LaunchStep)
        requires
            old(self).wf(),
            old(self).next_session_id < usize::MAX,
        ensures
            final(self).wf(),
            final(self).has_vault == old(self).has_vault,
            final(self).sessions == old(self).sessions,
            final(self).active_session == old(self).active_session,
            ({
                let unchanged = final(self).connected == old(self).connected && final(self).next_session_id == old(self).next_session_id && final(self).view == old(self).view && final(self).pending_launch == old(self).pending_launch;
                if !old(self).has_vault {
                    unchanged && step is Message && step->0@ == NO_VAULT_LAUNCH@
                } else {
                    match resolved {
                        None => {
                            &&& step is Connect
                            &&& final(self).pending_launch == Some(request)
                            &&& final(self).view == PanelView::Connect(
                                ConnectFlow { detected: None, only_this_vault: false },
                            )
                            &&& final(self).connected == old(self).connected
                            &&& final(self).next_session_id == old(self).next_session_id
                        },
                        Some(agent) => {
                            let command = tier_command(agent, request.tier, lead@);
                            &&& final(self).connected == resolved
                            &&& final(self).view == old(self).view
                            &&& final(self).pending_launch == old(self).pending_launch
                            &&& match launch_words(command, text_of(request.kickoff)) {
                                Err(e) => {
                                    &&& final(self).next_session_id == old(self).next_session_id
                                    &&& step is Message
                                    &&& step->0@ == "Couldn't launch the agent: "@
                                        + launch_complaint(e, command)
                                },
                                Ok(argv) => {
                                    &&& final(self).next_session_id == old(self).next_session_id
                                        + 1
                                    &&& step matches LaunchStep::Start {
                                        session_id,
                                        task_id,
                                        title,
                                        label,
                                        launch,
                                    }
                                    &&& session_id == old(self).next_session_id
                                    &&& task_id@ == "thock-agent-"@ + decimal(session_id as nat)
                                    &&& title@ == request.title@
                                    &&& label@ == shown_command(argv)
                                    &&& seq![launch.program@] + strings(launch.args@) == argv
                                },
                            }
                        },
                    }
                }
            }),
    {
        if !self.has_vault {
            return LaunchStep::Message(own(NO_VAULT_LAUNCH));
        }
        match resolved {
            None => {
                self.pending_launch = Some(request);
                self.open_connect();
                LaunchStep::Connect
            },
            Some(agent) => {
                let command = agent.command_for(request.tier, lead);
                let kickoff = match &request.kickoff {
                    Some(k) => Some(k.as_str()),
                    None => None,
                };
                self.connected = Some(agent);
                match build_launch(command.as_str(), kickoff) {
                    Err(e) => {
                        let mut out: Vec<char> = to_chars("Couldn't launch the agent: ");
                        append_str(&mut out, e.message(command.as_str()).as_str());
                        LaunchStep::Message(from_chars(out.as_slice()))
                    },
                    Ok(launch) => {
                        let session_id: usize = self.next_session_id;
                        self.next_session_id = session_id + 1;
                        let mut task_id: Vec<char> = to_chars("thock-agent-");
                        append_decimal(&mut task_id, session_id as u64);
                        let label = command_label(&launch);
                        proof {
                            let argv = launch_words(
                                command@,
                                text_of(request.kickoff),
                            )->Ok_0;
                            assert(seq![argv[0]] + argv.skip(1) =~= argv);
                        }
                        LaunchStep::Start {
                            session_id,
                            task_id: from_chars(task_id.as_slice()),
                            title: request.title,
                            label,
                            launch,
                        }
                    },
                }
            },
        }
    }

    /// Adds the tab of a session that started, and shows it.
    pub fn add_session(&mut self, session_id: usize, title: String)
        requires
            old(self).wf(),
            session_id < old(self).next_session_id,
            forall|i: int|
                0 <= i < old(self).sessions@.len() ==> (#[trigger] old(self).sessions@[i]).id
                    != session_id,
        ensures
            final(self).wf(),
            final(self).sessions@ == old(self).sessions@.push(
                AgentSession { id: session_id, title },
            ),
            final(self).active_session == old(self).sessions@.len(),
            final(self).view == PanelView::Sessions,
            final(self).has_vault == old(self).has_vault,
            final(self).connected == old(self).connected,
            final(self).next_session_id == old(self).next_session_id,
            final(self).pending_launch == old(self).pending_launch,
    {
        self.sessions.push(AgentSession { id: session_id, title });
        self.active_session = self.sessions.len() - 1;
        self.view = PanelView::Sessions;
    }

    fn position_of(&self, session_id: usize) -> (at: Option<usize>)
        ensures
            match at {
                Some(i) => i < self.sessions@.len() && i == session_at(
                    self.sessions@,
                    session_id as int,
                ) && self.sessions@[i as int].id == session_id,
                None => session_at(self.sessions@, session_id as int) == self.sessions@.len()
                    && forall|i: int|
                    0 <= i < self.sessions@.len() ==> (#[trigger] self.sessions@[i]).id
                        != session_id,
            },
    {
        let mut i: usize = 0;
        while i < self.sessions.len()
            invariant
                i <= self.sessions@.len(),
                forall|k: int| 0 <= k < i ==> (#[trigger] self.sessions@[k]).id != session_id,
            decreases self.sessions@.len() - i,
        {
            if self.sessions[i].id == session_id {
                proof {
                    lemma_session_at(self.sessions@, session_id as int, i as int);
                }
                return Some(i);
            }
            i = i + 1;
        }
        proof {
            lemma_session_at(self.sessions@, session_id as int, i as int);
        }
        None
    }

    /// Removes a session's tab, where it is still there. Removing the last tab
    /// or one above the active one leaves the active position in range.
    pub fn remove_session(&mut self, session_id: usize)
        requires
            old(self).wf(),
        ensures
            final(self).wf(),
            ({
                let at = session_at(old(self).sessions@, session_id as int);
                if at < old(self).sessions@.len() {
                    &&& final(self).sessions@ == old(self).sessions@.remove(at)
                    &&& final(self).active_session == (if old(self).active_session < old(self).sessions@.len() - 1 {
                        old(self).active_session as int
                    } else if old(self).sessions@.len() >= 2 {
                        old(self).sessions@.len() - 2
                    } else {
                        0
                    })
                } else {
                    final(self).sessions == old(self).sessions && final(self).active_session
                        == old(self).active_session
                }
            }),
            final(self).view == old(self).view,
            final(self).has_vault == old(self).has_vault,
            final(self).connected == old(self).connected,
            final(self).next_session_id == old(self).next_session_id,
            final(self).pending_launch == old(self).pending_launch,
    {
        if let Some(at) = self.position_of(session_id) {
            self.sessions.remove(at);
            let n: usize = self.sessions.len();
            if self.active_session >= n {
                self.active_session = if n > 0 {
                    n - 1
                } else {
                    0
                };
            }
        }
    }

    /// Shows a session's tab, where it is still there.
    pub fn activate(&mut self, session_id: usize)
        requires
            old(self).wf(),
        ensures
            final(self).wf(),
            *final(self) == (AgentPanel {
                active_session: if session_at(old(self).sessions@, session_id as int) < old(self).sessions@.len() {
                    session_at(old(self).sessions@, session_id as int) as usize
                } else {
                    old(self).active_session
                },
                ..*old(self)
            }),
    {
        if let Some(at) = self.position_of(session_id) {
            self.active_session = at;
        }
    }

    /// Shows the connect flow; the search for agents starts.
    pub fn open_connect(&mut self)
        ensures
            *final(self) == (AgentPanel {
                view: PanelView::Connect(ConnectFlow { detected: None, only_this_vault: false }),
                ..*old(self)
            }),
    {
        self.view = PanelView::Connect(ConnectFlow { detected: None, only_this_vault: false });
    }

    /// Whether the box that saves the connection for this vault alone is ticked;
    /// `None` where it is not shown: without a vault, or outside the flow.
    pub fn only_this_vault(&self) -> (ticked: Option<bool>)
        ensures
            ticked == (match self.view {
                PanelView::Connect(flow) => if self.has_vault {
                    Some(flow.only_this_vault)
                } else {
                    None
                },
                PanelView::Sessions => None,
            }),
    {
        match &self.view {
            PanelView::Connect(flow) => if self.has_vault {
                Some(flow.only_this_vault)
            } else {
                None
            },
            PanelView::Sessions => None,
        }
    }

    /// Turns over whether the connection is saved for this vault alone, while
    /// the flow is on screen.
    pub fn toggle_only_this_vault(&mut self)
        ensures
            match old(self).view {
                PanelView::Connect(flow) => *final(self) == (AgentPanel {
                    view: PanelView::Connect(
                        ConnectFlow {
                            only_this_vault: !flow.only_this_vault,
                            detected: flow.detected,
                        },
                    ),
                    ..*old(self)
                }),
                PanelView::Sessions => *final(self) == *old(self),
            },
    {
        let mut view = PanelView::Sessions;
        std::mem::swap(&mut self.view, &mut view);
        self.view = match view {
            PanelView::Connect(flow) => PanelView::Connect(
                ConnectFlow {
                    only_this_vault: !flow.only_this_vault,
                    detected: flow.detected,
                },
            ),
            PanelView::Sessions => PanelView::Sessions,
        };
    }

    /// Takes in the agents that were found, while the flow is on screen.
    pub fn agents_detected(&mut self, detected: Vec<KnownAgent>)
        ensures
            *final(self) == (AgentPanel {
                view: match old(self).view {
                    PanelView::Connect(flow) => PanelView::Connect(
                        ConnectFlow { detected: Some(detected), ..flow },
                    ),
                    PanelView::Sessions => PanelView::Sessions,
                },
                ..*old(self)
            }),
    {
        if let PanelView::Connect(flow) = &self.view {
            let only_this_vault: bool = flow.only_this_vault;
            self.view = PanelView::Connect(
                ConnectFlow { detected: Some(detected), only_this_vault },
            );
        }
    }

    /// Leaves the connect flow; a launch that waited for it is dropped.
    pub fn cancel_connect(&mut self)
        ensures
            *final(self) == (AgentPanel {
                view: PanelView::Sessions,
                pending_launch: None,
                ..*old(self)
            }),
    {
        self.view = PanelView::Sessions;
        self.pending_launch = None;
    }

    /// What saving a connection does.
    pub fn save_connection(&self, command: &str) -> (step: SaveStep)
        ensures
            ({
                let c = trim(command@);
                if c.len() == 0 {
                    step is Message && step->Message_0@ == "Enter a command to connect an agent."@
                } else {
                    match launch_words(c, Some("kickoff"@)) {
                        Err(e) => step is Message && step->Message_0@
                            == "That command can't be used: "@ + launch_complaint(e, c),
                        Ok(_) => if self.has_vault && self.view is Connect
                            && self.view->0.only_this_vault {
                            step is ForVault && step->ForVault_0@ == c
                        } else {
                            step is ForAll && step->ForAll_0@ == c
                        },
                    }
                }
            }),
    {
        let chars = to_chars(command);
        let text = trimmed(chars.as_slice());
        if text.len() == 0 {
            return SaveStep::Message(own("Enter a command to connect an agent."));
        }
        let wanted = from_chars(text);
        match build_launch(wanted.as_str(), Some("kickoff")) {
            Err(e) => {
                let mut out: Vec<char> = to_chars("That command can't be used: ");
                append_str(&mut out, e.message(wanted.as_str()).as_str());
                return SaveStep::Message(from_chars(out.as_slice()));
            },
            Ok(_) => {},
        }
        let only_this_vault: bool = match &self.view {
            PanelView::Connect(flow) => flow.only_this_vault,
            PanelView::Sessions => false,
        };
        if only_this_vault && self.has_vault {
            SaveStep::ForVault(wanted)
        } else {
            SaveStep::ForAll(wanted)
        }
    }

    /// Leaves the connect flow after the connection was saved. The result is
    /// the launch that waited for it.
    pub fn connection_saved(&mut self) -> (request: Option<LaunchRequest>)
        ensures
            request == old(self).pending_launch,
            *final(self) == (AgentPanel {
                view: PanelView::Sessions,
                pending_launch: None,
                ..*old(self)
            }),
    {
        self.view = PanelView::Sessions;
        self.pending_launch.take()
    }
}

/// What saving a connection does.
#[derive(Debug, Clone, PartialEq)]
pub enum SaveStep {
    Message(String),
    /// Write the command to the vault's settings.
    ForVault(String),
    /// Write it to the settings for all vaults.
    ForAll(String),
}

/// What the connect flow shows between its heading and its command field.
#[derive(Debug, Clone, PartialEq)]
pub enum ConnectBody {
    Hint(&'static str),
    /// A button for each agent: its id, its label, and the command it saves.
    Agents(Vec<(String, String, String)>),
}

/// The buttons for agents.
pub open spec fn agent_buttons(agents: Seq<Known>) -> Seq<(Seq<char>, Seq<char>, Seq<char>)> {
    agents.map_values(
        |a: Known|
            (
                "thock-connect-"@ + a.program,
                a.display_name + " ("@ + a.program + ")"@,
                a.program,
            ),
    )
}

/// What buttons hold.
pub open spec fn button_views(buttons: Seq<(String, String, String)>) -> Seq<
    (Seq<char>, Seq<char>, Seq<char>),
> {
    buttons.map_values(|b: (String, String, String)| (b.0@, b.1@, b.2@))
}

pub const SEARCHING: &'static str = "Looking for installed agents…";

pub const NONE_FOUND: &'static str = "No known agents found on PATH. Enter a command below.";

/// What the connect flow shows of the agents that were found.
pub fn connect_body(flow: &ConnectFlow) -> (body: ConnectBody)
    ensures
        match flow.detected {
            None => body is Hint && body->Hint_0@ == SEARCHING@,
            Some(agents) => if agents@.len() == 0 {
                body is Hint && body->Hint_0@ == NONE_FOUND@
            } else {
                body is Agents && button_views(body->Agents_0@) == agent_buttons(known(agents@))
            },
        },
{
    match &flow.detected {
        None => ConnectBody::Hint(SEARCHING),
        Some(agents) => {
            if agents.len() == 0 {
                return ConnectBody::Hint(NONE_FOUND);
            }
            let mut buttons: Vec<(String, String, String)> = Vec::new();
            let ghost wanted = agent_buttons(known(agents@));
            let mut i: usize = 0;
            while i < agents.len()
                invariant
                    i <= agents@.len(),
                    wanted == agent_buttons(known(agents@)),
                    button_views(buttons@) == wanted.take(i as int),
                decreases agents@.len() - i,
            {
                let ghost before = buttons@;
                let agent = &agents[i];
                let mut id: Vec<char> = to_chars("thock-connect-");
                append_str(&mut id, agent.program.as_str());
                let mut label: Vec<char> = to_chars(agent.display_name.as_str());
                append_str(&mut label, " (");
                append_str(&mut label, agent.program.as_str());
                append_str(&mut label, ")");
                buttons.push(
                    (
                        from_chars(id.as_slice()),
                        from_chars(label.as_slice()),
                        agent.program.clone(),
                    ),
                );
                assert(button_views(buttons@) =~= button_views(before).push(wanted[i as int]));
                assert(wanted.take(i + 1) =~= wanted.take(i as int).push(wanted[i as int]));
                i = i + 1;
            }
            assert(wanted.take(wanted.len() as int) =~= wanted);
            ConnectBody::Agents(buttons)
        },
    }
}

/// The note below the command field.
pub fn prompt_note() -> (note: String)
    ensures
        note@ == "The kickoff prompt is appended as the last argument, or replaces "@
            + "{prompt}"@ + " if present."@,
{
    let mut out: Vec<char> = to_chars(
        "The kickoff prompt is appended as the last argument, or replaces ",
    );
    append_str(&mut out, crate::agent::PROMPT_PLACEHOLDER);
    append_str(&mut out, " if present.");
    from_chars(out.as_slice())
}

/// What the panel shows with no session: a title, what stands below it, and the
/// buttons.
#[derive(Debug, Clone, PartialEq)]
pub struct EmptyState {
    pub title: String,
    pub caption: String,
    pub buttons: Vec<&'static str>,
    pub note: Option<&'static str>,
}

/// Texts.
pub open spec fn strs(v: Seq<&'static str>) -> Seq<Seq<char>> {
    v.map_values(|s: &'static str| s@)
}

/// What the panel shows with no session, given the lead agent's display name.
pub fn empty_state(connected: &Option<ConnectedAgent>, lead_name: &str) -> (state: EmptyState)
    ensures
        match *connected {
            Some(agent) => {
                &&& state.title@ == agent.command@
                &&& state.caption@ == (match agent.source {
                    CommandSource::Vault => "Connected agent · this vault"@,
                    CommandSource::Global => "Connected agent"@,
                })
                &&& strs(state.buttons@) == seq!["New Conversation"@, "Change Agent…"@]
                &&& state.note matches Some(n) && n@ == "Run skills from the Routines panel."@
            },
            None => {
                &&& state.title@ == "No agent connected"@
                &&& state.caption@ == "Thock launches your own CLI agent — "@ + lead_name@
                    + ", Gemini, Codex — in a terminal beside your notes."@
                &&& strs(state.buttons@) == seq!["Connect Your Agent"@]
                &&& state.note is None
            },
        },
{
    let mut buttons: Vec<&'static str> = Vec::new();
    match connected {
        Some(agent) => {
            buttons.push("New Conversation");
            buttons.push("Change Agent…");
            assert(strs(buttons@) =~= seq!["New Conversation"@, "Change Agent…"@]);
            EmptyState {
                title: agent.command.clone(),
                caption: own(
                    match agent.source {
                        CommandSource::Vault => "Connected agent · this vault",
                        CommandSource::Global => "Connected agent",
                    },
                ),
                buttons,
                note: Some("Run skills from the Routines panel."),
            }
        },
        None => {
            buttons.push("Connect Your Agent");
            assert(strs(buttons@) =~= seq!["Connect Your Agent"@]);
            let mut caption: Vec<char> = to_chars("Thock launches your own CLI agent — ");
            append_str(&mut caption, lead_name);
            append_str(&mut caption, ", Gemini, Codex — in a terminal beside your notes.");
            EmptyState {
                title: own("No agent connected"),
                caption: from_chars(caption.as_slice()),
                buttons,
                note: None,
            }
        },
    }
}

/// What the panel's body shows.
#[derive(Debug, Clone, Copy, PartialEq, Eq, Structural)]
pub enum AgentBody {
    Connect,
    /// The tabs, and the terminal of the active one.
    Session(usize),
    Empty,
    /// A hint to open a vault.
    NoVault,
}

impl AgentPanel {
    /// What the panel's body shows.
    pub fn body(&self) -> (body: AgentBody)
        ensures
            body == (match self.view {
                PanelView::Connect(_) => AgentBody::Connect,
                PanelView::Sessions => if !self.has_vault {
                    AgentBody::NoVault
                } else if self.active_session < self.sessions@.len() {
                    AgentBody::Session(self.active_session)
                } else {
                    AgentBody::Empty
                },
            }),
    {
        match &self.view {
            PanelView::Connect(_) => AgentBody::Connect,
            PanelView::Sessions => {
                if !self.has_vault {
                    AgentBody::NoVault
                } else if self.active_session < self.sessions.len() {
                    AgentBody::Session(self.active_session)
                } else {
                    AgentBody::Empty
                }
            },
        }
    }
}

/// The picker that the action to run a skill opens.
pub struct RunSkillPicker {
    pub skills: Vec<RunnableSkill>,
    /// The positions of the skills that match the query.
    pub matches: Vec<usize>,
    pub selected_index: usize,
}

impl RunSkillPicker {
    /// A picker for the skills of a vault, or the message where there is
    /// nothing to pick.
    pub fn open(routines: Option<&[RoutineManifest]>) -> (picker: Result<Self, &'static str>)
        ensures
            match routines {
                None => picker matches Err(e) && e@ == NOT_A_VAULT@,
                Some(r) => if skills_of(r@).len() == 0 {
                    picker matches Err(e) && e@ == NO_SKILLS@
                } else {
                    picker matches Ok(p) && offer_views(p.skills@) == offers(skills_of(r@))
                        && p.matches@.len() == 0 && p.selected_index == 0
                },
            },
    {
        match routines {
            None => Err(NOT_A_VAULT),
            Some(r) => {
                let skills = runnable_skills(r);
                assert(offer_views(skills@).len() == offers(skills_of(r@)).len());
                if skills.len() == 0 {
                    Err(NO_SKILLS)
                } else {
                    Ok(RunSkillPicker { skills, matches: Vec::new(), selected_index: 0 })
                }
            },
        }
    }

    /// Takes in a query with the positions that a fuzzy search found for it; an
    /// empty query shows every skill. The cursor stays in range.
    pub fn update_matches(&mut self, query: &str, found: Vec<usize>)
        ensures
            final(self).skills == old(self).skills,
            final(self).matches@ == (if query@.len() == 0 {
                Seq::new(old(self).skills@.len(), |i: int| i as usize)
            } else {
                found@
            }),
            final(self).selected_index == (if final(self).matches@.len() == 0 {
                0
            } else if old(self).selected_index < final(self).matches@.len() {
                old(self).selected_index as int
            } else {
                final(self).matches@.len() - 1
            }),
    {
        if to_chars(query).len() == 0 {
            let mut all: Vec<usize> = Vec::new();
            let mut i: usize = 0;
            let n: usize = self.skills.len();
            while i < n
                invariant
                    i <= n,
                    all@.len() == i,
                    forall|j: int| 0 <= j < i ==> #[trigger] all@[j] == j as usize,
                decreases n - i,
            {
                all.push(i);
                i = i + 1;
            }
            assert(all@ =~= Seq::new(old(self).skills@.len(), |i: int| i as usize));
            self.matches = all;
        } else {
            self.matches = found;
        }
        let n: usize = self.matches.len();
        if n == 0 {
            self.selected_index = 0;
        } else if self.selected_index >= n {
            self.selected_index = n - 1;
        }
    }

    /// What confirming launches: the skill under the cursor.
    pub fn confirm(&self) -> (request: Option<LaunchRequest>)
        ensures
            ({
                let i = self.selected_index as int;
                if i < self.matches@.len() && self.matches@[i] < self.skills@.len() {
                    let s = self.skills@[self.matches@[i] as int];
                    request matches Some(q) && q@ == skill_request(s.skill_name@, s.file@, s.tier)
                } else {
                    request is None
                }
            }),
    {
        if self.selected_index >= self.matches.len() {
            return None;
        }
        let at: usize = self.matches[self.selected_index];
        if at >= self.skills.len() {
            return None;
        }
        let skill = &self.skills[at];
        Some(
            LaunchRequest::run_skill(skill.skill_name.as_str(), skill.file.as_str(), skill.tier),
        )
    }
}

/// A session's tab.
#[derive(Debug, Clone, PartialEq)]
pub struct SessionTab {
    pub id: String,
    pub close_id: String,
    pub title: String,
    pub active: bool,
}

/// Whether a tab is that of the session at a place.
pub open spec fn is_tab(tab: SessionTab, session: AgentSession, active: bool) -> bool {
    &&& tab.id@ == "thock-agent-tab-"@ + decimal(session.id as nat)
    &&& tab.close_id@ == "thock-agent-tab-close-"@ + decimal(session.id as nat)
    &&& tab.title@ == session.title@
    &&& tab.active == active
}

impl AgentPanel {
    /// The tabs of the sessions.
    pub fn session_tabs(&self) -> (tabs: Vec<SessionTab>)
        ensures
            tabs@.len() == self.sessions@.len(),
            forall|i: int|
                0 <= i < tabs@.len() ==> is_tab(
                    #[trigger] tabs@[i],
                    self.sessions@[i],
                    i == self.active_session,
                ),
    {
        let mut tabs: Vec<SessionTab> = Vec::new();
        let mut i: usize = 0;
        while i < self.sessions.len()
            invariant
                i <= self.sessions@.len(),
                tabs@.len() == i,
                forall|j: int|
                    0 <= j < i ==> is_tab(
                        #[trigger] tabs@[j],
                        self.sessions@[j],
                        j == self.active_session,
                    ),
            decreases self.sessions@.len() - i,
        {
            let session = &self.sessions[i];
            let mut id: Vec<char> = to_chars("thock-agent-tab-");
            append_decimal(&mut id, session.id as u64);
            let mut close: Vec<char> = to_chars("thock-agent-tab-close-");
            append_decimal(&mut close, session.id as u64);
            tabs.push(
                SessionTab {
                    id: from_chars(id.as_slice()),
                    close_id: from_chars(close.as_slice()),
                    title: session.title.clone(),
                    active: i == self.active_session,
                },
            );
            i = i + 1;
        }
        tabs
    }
}

impl RunSkillPicker {
    /// What a row of the picker shows: its label, and its summary where there is
    /// one.
    pub fn row_at(&self, index: usize) -> (row: Option<(String, Option<String>)>)
        ensures
            match row {
                Some((label, summary)) => {
                    &&& index < self.matches@.len()
                    &&& self.matches@[index as int] < self.skills@.len()
                    &&& ({
                        let skill = self.skills@[self.matches@[index as int] as int];
                        &&& label@ == skill.label@
                        &&& text_of(summary) == (if skill.summary@.len() == 0 {
                            None
                        } else {
                            Some(skill.summary@)
                        })
                    })
                },
                None => index >= self.matches@.len() || self.matches@[index as int]
                    >= self.skills@.len(),
            },
    {
        if index >= self.matches.len() || self.matches[index] >= self.skills.len() {
            return None;
        }
        let skill = &self.skills[self.matches[index]];
        let summary = if to_chars(skill.summary.as_str()).len() == 0 {
            None
        } else {
            Some(skill.summary.clone())
        };
        Some((skill.label.clone(), summary))
    }
}

/// What can fail once the panel has decided.
#[derive(Debug, Clone, Copy, PartialEq, Eq, Structural)]
pub enum AgentFailure {
    /// The agent's terminal did not start.
    Start,
    /// The connection was not saved.
    Save,
}

/// What the panel says of a failure.
pub fn agent_failed(failure: AgentFailure, error: &str) -> (message: String)
    ensures
        message@ == (match failure {
            AgentFailure::Start => "Couldn't start the agent: "@,
            AgentFailure::Save => "Couldn't save the connection: "@,
        }) + error@,
{
    let mut out: Vec<char> = to_chars(
        match failure {
            AgentFailure::Start => "Couldn't start the agent: ",
            AgentFailure::Save => "Couldn't save the connection: ",
        },
    );
    append_str(&mut out, error);
    from_chars(out.as_slice())
}

} // verus!
