//! The command a parsed command line resolves to. Each test builds the
//! `Cli` value that the argument parser yields for the command line named
//! in its comment.

use ciri::cli::{resolve, Cli, CliCommand, Command, MsgCommand, MsgSubcommand, TemplateCommand, TemplateSubcommand};

fn cli(command: Option<Command>, session_name: Option<&str>) -> Cli {
    Cli { command, session_name: session_name.map(str::to_owned) }
}

#[test]
fn no_args_creates_default() {
    // `ciritty`
    assert!(matches!(resolve(cli(None, None)), CliCommand::Default));
}

#[test]
fn new_command() {
    // `ciritty new`
    assert!(matches!(resolve(cli(Some(Command::New), None)), CliCommand::New));
}

#[test]
fn positional_session_name() {
    // `ciritty work`
    assert!(matches!(resolve(cli(None, Some("work"))), CliCommand::Run { session_name } if session_name == "work"));
}

#[test]
fn attach_with_name() {
    // `ciritty attach ops` and `ciritty a ops`
    let attach = || cli(Some(Command::Attach { session_name: "ops".into() }), None);
    assert!(matches!(resolve(attach()), CliCommand::Attach { session_name } if session_name == "ops"));
    assert!(matches!(resolve(attach()), CliCommand::Attach { session_name } if session_name == "ops"));
}

#[test]
fn list_command() {
    // `ciritty list`, `ciritty ls`; `ciritty ls --all`, `ciritty ls -a`
    assert!(matches!(resolve(cli(Some(Command::List { all: false }), None)), CliCommand::List { all: false }));
    assert!(matches!(resolve(cli(Some(Command::List { all: true }), None)), CliCommand::List { all: true }));
}

#[test]
fn kill_command() {
    // `ciritty kill dev` and `ciritty k dev`
    assert!(matches!(
        resolve(cli(Some(Command::Kill { session_name: "dev".into() }), None)),
        CliCommand::Kill { session_name } if session_name == "dev"
    ));
}

#[test]
fn kill_server_command() {
    // `ciritty kill-server` and `ciritty ks`
    assert!(matches!(resolve(cli(Some(Command::KillServer), None)), CliCommand::KillServer));
}

#[test]
fn delete_command() {
    // `ciritty delete old` and `ciritty rm old`
    assert!(matches!(
        resolve(cli(Some(Command::Delete { session_name: "old".into() }), None)),
        CliCommand::Delete { session_name } if session_name == "old"
    ));
}

#[test]
fn remote_msg_and_template_commands_carry_their_arguments() {
    let r = resolve(cli(
        Some(Command::Remote { host: "u@h".into(), session_name: Some("s".into()), port: 7890, ssh_port: 2222 }),
        None,
    ));
    assert!(matches!(r, CliCommand::Remote { host, session_name: Some(s), port: 7890, ssh_port: 2222 } if host == "u@h" && s == "s"));
    let r = resolve(cli(
        Some(Command::Msg { subcommand: MsgCommand::FocusPane { session_name: "w".into(), pane_id: 4 }, json: true }),
        None,
    ));
    assert!(matches!(
        r,
        CliCommand::Msg { subcommand: MsgSubcommand::FocusPane { session_name, pane_id: 4 }, json: true } if session_name == "w"
    ));
    let r = resolve(cli(Some(Command::Template { subcommand: TemplateCommand::List }), None));
    assert!(matches!(r, CliCommand::Template { subcommand: TemplateSubcommand::List }));
    // A subcommand wins over a stray positional name.
    assert!(matches!(resolve(cli(Some(Command::Init), Some("x"))), CliCommand::Init));
}
