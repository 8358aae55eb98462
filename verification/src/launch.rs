//! Which session a GUI launch attaches to.
//!
//! The facts the decision rests on (sessions running on the server, the
//! remembered last session, saved sessions on disk, a fresh unique name,
//! whether a requested name is valid) are gathered by the caller; this
//! module only decides.

use vstd::prelude::*;
use crate::cli::CliCommand;

verus! {

#[derive(Debug, Clone, PartialEq, Eq)]
pub struct SessionLaunchChoice {
    pub session_name: String,
    pub remembers_last_session: bool,
}

/// What the launcher knows when it picks a session.
pub struct LaunchFacts {
    /// Running sessions on the server, most recently used first.
    pub active_sessions: Vec<String>,
    /// The name stored as the last session, if any.
    pub remembered: Option<String>,
    /// Whether the remembered session is running on the server.
    pub remembered_running: bool,
    /// Sessions saved on disk.
    pub saved_sessions: Vec<String>,
    /// A name that no saved session uses.
    pub fresh_name: String,
    /// Whether the session name given on the command line is valid.
    pub name_valid: bool,
    /// Whether the session name given on the command line is running.
    pub name_running: bool,
}

#[derive(Debug, Clone, PartialEq, Eq)]
pub enum LaunchOutcome {
    Launch(SessionLaunchChoice),
    /// The requested session name is not a valid name.
    InvalidName,
    /// `attach` named a session that is neither saved nor running.
    NoSuchSession,
}

pub open spec fn names_contain(names: Seq<String>, name: String) -> bool {
    exists|i: int| 0 <= i < names.len() && names[i]@ == name@
}

fn contains_name(names: &Vec<String>, name: &String) -> (r: bool)
    ensures
        r == names_contain(names@, *name),
{
    let mut i: usize = 0;
    while i < names.len()
        invariant
            i <= names.len(),
            forall|k: int| 0 <= k < i ==> names@[k]@ != name@,
        decreases names.len() - i,
    {
        if names[i] == *name {
            return true;
        }
        i = i + 1;
    }
    false
}

pub open spec fn choice(name: String) -> SessionLaunchChoice {
    SessionLaunchChoice { session_name: name, remembers_last_session: true }
}

pub open spec fn default_choice_spec(facts: LaunchFacts) -> SessionLaunchChoice {
    if facts.active_sessions@.len() > 0 {
        choice(facts.active_sessions@[0])
    } else {
        match facts.remembered {
            Some(name) => if names_contain(facts.saved_sessions@, name) || facts.remembered_running {
                choice(name)
            } else {
                choice(facts.fresh_name)
            },
            None => choice(facts.fresh_name),
        }
    }
}

/// No subcommand: the most recent running session, else the remembered
/// session if it is saved or running, else a fresh session.
pub fn choose_default_session(facts: LaunchFacts) -> (r: SessionLaunchChoice)
    ensures
        r == default_choice_spec(facts),
{
    let LaunchFacts { active_sessions, remembered, remembered_running, saved_sessions, fresh_name, .. } =
        facts;
    if active_sessions.len() > 0 {
        let mut active = active_sessions;
        let name = active.swap_remove(0);
        return SessionLaunchChoice { session_name: name, remembers_last_session: true };
    }
    if let Some(name) = remembered {
        if contains_name(&saved_sessions, &name) || remembered_running {
            return SessionLaunchChoice { session_name: name, remembers_last_session: true };
        }
    }
    SessionLaunchChoice { session_name: fresh_name, remembers_last_session: true }
}

pub open spec fn launch_spec(cli: CliCommand, facts: LaunchFacts) -> LaunchOutcome {
    match cli {
        CliCommand::Default => LaunchOutcome::Launch(default_choice_spec(facts)),
        CliCommand::New => LaunchOutcome::Launch(choice(facts.fresh_name)),
        CliCommand::Run { session_name } => if facts.name_valid {
            LaunchOutcome::Launch(choice(session_name))
        } else {
            LaunchOutcome::InvalidName
        },
        CliCommand::Attach { session_name } => if !facts.name_valid {
            LaunchOutcome::InvalidName
        } else if names_contain(facts.saved_sessions@, session_name) || facts.name_running {
            LaunchOutcome::Launch(choice(session_name))
        } else {
            LaunchOutcome::NoSuchSession
        },
        _ => LaunchOutcome::InvalidName,
    }
}

pub open spec fn is_launch_command(cli: CliCommand) -> bool {
    cli is Default || cli is New || cli is Run || cli is Attach
}

/// The session a GUI launch (`Default`, `New`, `Run` or `Attach`) uses.
pub fn resolve_session_launch(cli: CliCommand, facts: LaunchFacts) -> (r: LaunchOutcome)
    requires
        is_launch_command(cli),
    ensures
        r == launch_spec(cli, facts),
{
    match cli {
        CliCommand::Default => LaunchOutcome::Launch(choose_default_session(facts)),
        CliCommand::New => LaunchOutcome::Launch(
            SessionLaunchChoice { session_name: facts.fresh_name, remembers_last_session: true },
        ),
        CliCommand::Run { session_name } => if facts.name_valid {
            LaunchOutcome::Launch(SessionLaunchChoice { session_name, remembers_last_session: true })
        } else {
            LaunchOutcome::InvalidName
        },
        CliCommand::Attach { session_name } => {
            if !facts.name_valid {
                return LaunchOutcome::InvalidName;
            }
            if contains_name(&facts.saved_sessions, &session_name) || facts.name_running {
                LaunchOutcome::Launch(SessionLaunchChoice { session_name, remembers_last_session: true })
            } else {
                LaunchOutcome::NoSuchSession
            }
        },
        _ => LaunchOutcome::InvalidName,
    }
}

/// The session a launch opens is the one the command line names: `run` and
/// `attach` open exactly the session asked for, `new` a fresh one. `run`
/// opens it whenever the name is valid; `attach` whenever the name is
/// valid and the session is saved or running, and otherwise reports an
/// invalid name or a missing session.
pub proof fn lemma_launch_opens_the_named_session(cli: CliCommand, facts: LaunchFacts)
    ensures
        cli matches CliCommand::Attach { session_name } ==> {
            let known = names_contain(facts.saved_sessions@, session_name) || facts.name_running;
            &&& launch_spec(cli, facts) matches LaunchOutcome::Launch(c) ==> c.session_name == session_name
            &&& (launch_spec(cli, facts) is Launch) == (facts.name_valid && known)
            &&& (launch_spec(cli, facts) is InvalidName) == !facts.name_valid
            &&& (launch_spec(cli, facts) is NoSuchSession) == (facts.name_valid && !known)
        },
        cli matches CliCommand::Run { session_name } ==> {
            &&& launch_spec(cli, facts) matches LaunchOutcome::Launch(c) ==> c.session_name == session_name
            &&& (launch_spec(cli, facts) is Launch) == facts.name_valid
            &&& (launch_spec(cli, facts) is InvalidName) == !facts.name_valid
        },
        cli is New ==> (launch_spec(cli, facts) matches LaunchOutcome::Launch(c) && c.session_name
            == facts.fresh_name),
{
}

/// With no subcommand, a launch opens the most recently used running
/// session; with none running, the remembered session if it is saved or
/// running; otherwise a fresh one.
pub proof fn lemma_default_launch(facts: LaunchFacts)
    ensures
        launch_spec(CliCommand::Default, facts) matches LaunchOutcome::Launch(c) && {
            if facts.active_sessions@.len() > 0 {
                c.session_name == facts.active_sessions@[0]
            } else if facts.remembered is Some && (names_contain(
                facts.saved_sessions@,
                facts.remembered->0,
            ) || facts.remembered_running) {
                c.session_name == facts.remembered->0
            } else {
                c.session_name == facts.fresh_name
            }
        },
{
}

/// Whichever way a launch resolves, the chosen session is remembered.
pub proof fn lemma_launch_remembers(cli: CliCommand, facts: LaunchFacts)
    ensures
        launch_spec(cli, facts) matches LaunchOutcome::Launch(c) ==> c.remembers_last_session,
{
}

} // verus!
