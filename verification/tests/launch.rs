use ciri::cli::CliCommand;
use ciri::launch::{choose_default_session, resolve_session_launch, LaunchFacts, LaunchOutcome, SessionLaunchChoice};

fn facts(active: Vec<&str>, remembered: Option<&str>, saved: Vec<&str>) -> LaunchFacts {
    LaunchFacts {
        active_sessions: active.into_iter().map(str::to_owned).collect(),
        remembered: remembered.map(str::to_owned),
        remembered_running: false,
        saved_sessions: saved.into_iter().map(str::to_owned).collect(),
        fresh_name: "fresh-1".into(),
        name_valid: true,
        name_running: false,
    }
}

#[test]
fn run_launch_preserves_requested_name() {
    assert_eq!(
        resolve_session_launch(CliCommand::Run { session_name: "ops".into() }, facts(vec![], None, vec![])),
        LaunchOutcome::Launch(SessionLaunchChoice { session_name: "ops".into(), remembers_last_session: true })
    );
}

#[test]
fn remember_choice_tracks_flag() {
    let launch = SessionLaunchChoice { session_name: "saved".into(), remembers_last_session: true };
    assert!(launch.remembers_last_session);
}

#[test]
fn default_launch_prefers_running_session_before_remembered_session() {
    assert_eq!(
        choose_default_session(facts(vec!["running-now"], Some("remembered-old"), vec!["remembered-old"])),
        SessionLaunchChoice { session_name: "running-now".into(), remembers_last_session: true }
    );
}

#[test]
fn new_launch_remembers_last_session() {
    let launch = resolve_session_launch(CliCommand::New, facts(vec![], None, vec!["a"]));
    match launch {
        LaunchOutcome::Launch(choice) => {
            assert!(choice.remembers_last_session);
            assert!(!choice.session_name.is_empty());
            assert_eq!(choice.session_name, "fresh-1");
        }
        other => panic!("unexpected {other:?}"),
    }
}

#[test]
fn default_launch_falls_back_to_remembered_then_fresh() {
    assert_eq!(
        choose_default_session(facts(vec![], Some("old"), vec!["old"])).session_name,
        "old"
    );
    let mut f = facts(vec![], Some("gone"), vec!["other"]);
    assert_eq!(choose_default_session(f).session_name, "fresh-1");
    f = facts(vec![], Some("gone"), vec!["other"]);
    f.remembered_running = true;
    assert_eq!(choose_default_session(f).session_name, "gone");
}

#[test]
fn attach_requires_existing_valid_session() {
    let attach = |name: &str| CliCommand::Attach { session_name: name.into() };
    assert_eq!(resolve_session_launch(attach("nope"), facts(vec![], None, vec!["ops"])), LaunchOutcome::NoSuchSession);
    assert!(matches!(
        resolve_session_launch(attach("ops"), facts(vec![], None, vec!["ops"])),
        LaunchOutcome::Launch(_)
    ));
    let mut f = facts(vec![], None, vec![]);
    f.name_running = true;
    assert!(matches!(resolve_session_launch(attach("live"), f), LaunchOutcome::Launch(_)));
    let mut f = facts(vec![], None, vec!["bad/name"]);
    f.name_valid = false;
    assert_eq!(resolve_session_launch(attach("bad/name"), f), LaunchOutcome::InvalidName);
}
