//! The command line: what the argument parser produces, and the command
//! the rest of the program acts on.

use vstd::prelude::*;

verus! {

#[derive(Debug)]
pub struct Cli {
    pub command: Option<Command>,

    /// Connect to session by name (create if needed)
    pub session_name: Option<String>,
}

#[derive(Debug)]
pub enum Command {
    /// Create a new session and connect
    New,

    /// Interactive setup wizard — generate config file
    Init,

    /// Attach to an existing session (error if not exists)
    Attach {
        /// Session name
        session_name: String,
    },

    /// List sessions
    List {
        /// Include saved (inactive) sessions
        all: bool,
    },

    /// Kill a session
    Kill {
        /// Session name
        session_name: String,
    },

    /// Kill the server
    KillServer,

    /// Delete saved session
    Delete {
        /// Session name
        session_name: String,
    },

    /// Connect to remote server via SSH tunnel
    Remote {
        /// Host (user@host)
        host: String,

        /// Session name
        session_name: Option<String>,

        /// Remote TCP port
        port: u16,

        /// SSH port
        ssh_port: u16,
    },

    /// IPC commands for scripting
    Msg {
        subcommand: MsgCommand,

        /// Output as JSON
        json: bool,
    },

    /// Layout template management
    Template {
        subcommand: TemplateCommand,
    },

    /// Serve the browser web UI (HTTP + WebSocket) and run the server in
    /// the foreground. Enables `[web]` and mints a token on first run,
    /// persisting both to your config so the desktop app shares them.
    Web {
        /// Listen port (default: web.port from config, else 7891)
        port: Option<u16>,
        /// Bind address (default: 127.0.0.1). Use 0.0.0.0 to expose on
        /// the LAN — then also set web.allowed_origins in your config.
        bind: Option<String>,
        /// Auth token. Default: reuse the configured one, or generate a
        /// fresh 32-hex-char token. Either way it's saved to your config.
        /// NOTE: a value passed here is visible to other users in process
        /// listings — on a shared host prefer the CIRITTY_WEB_TOKEN env var.
        token: Option<String>,
        /// Directory of the built web bundle (default: <server-dir>/web)
        static_dir: Option<String>,
        /// Open the URL in your default browser after starting
        open: bool,
    },
}

#[derive(Debug)]
pub enum MsgCommand {
    /// Send keystrokes to a pane
    SendKeys {
        session_name: String,
        pane_id: u64,
        keys: String,
    },
    /// List all panes in a session
    ListPanes { session_name: String },
    /// Get session info
    Info { session_name: String },
    /// Focus a pane by ID
    FocusPane { session_name: String, pane_id: u64 },
    /// Close a pane by ID
    ClosePane { session_name: String, pane_id: u64 },
    /// Create a new pane
    CreatePane { session_name: String },
    /// Get the full layout state
    GetLayout { session_name: String },
    /// Run a command in a new pane
    RunCommand {
        session_name: String,
        command: String,
    },
    /// Capture a pane's active grid (and optional scrollback) as text to stdout.
    ///
    /// Note: when an alt-screen TUI is foregrounded (vim/less/htop), the alt
    /// buffer is captured and `--scrollback-rows` has no effect (the primary
    /// buffer's history is not reachable). Only ASCII spaces are trimmed
    /// from row tails by default; pass `--preserve-trailing-spaces` to keep them.
    CapturePane {
        session_name: String,
        pane_id: u64,
        /// Include this many rows of scrollback above the viewport (0 = viewport only).
        /// Clamped to: the pane's actual history, an absolute row cap (100k),
        /// and a byte budget (~900 KiB) to fit a single control frame. Wide panes
        /// with deep scrollback get fewer rows than requested.
        /// Intentionally an unsigned count, NOT the signed `start-line` semantics
        /// of `tmux capture-pane -S`.
        scrollback_rows: u32,
        /// Join soft-wrapped lines (omit the newline between rows that the
        /// terminal soft-wrapped). Equivalent to tmux's `capture-pane -J`:
        /// trailing spaces on wrapping rows are kept (so content connects
        /// correctly across the join), while non-wrap rows still get trimmed.
        join_wrapped: bool,
        /// Keep trailing ASCII-space cells on each row (default trims them).
        /// Only ASCII U+0020 is trimmed; tabs, NBSP, U+3000 and other
        /// non-ASCII whitespace are preserved either way.
        preserve_trailing_spaces: bool,
    },
    /// List recorded OSC 133 prompt boundaries (shell-integration history).
    ///
    /// Each entry reports the absolute line of OSC 133;A (prompt start),
    /// OSC 133;C (output start), and OSC 133;D (done), plus exit code and
    /// duration. Empty when the pane has never observed OSC 133 — that's
    /// the signal that shell integration isn't active in this pane.
    ListPrompts {
        session_name: String,
        pane_id: u64,
    },
}

#[derive(Debug)]
pub enum TemplateCommand {
    /// List layout templates
    List,
    /// Apply a template
    Apply {
        template_name: String,
        session_name: Option<String>,
    },
    /// Save session layout as template
    Save {
        template_name: String,
        session_name: String,
    },
}


#[derive(Debug)]
pub enum CliCommand {
    /// No subcommand given: auto-attach to existing session or create new.
    Default,
    New,
    Init,
    Run {
        session_name: String,
    },
    Attach {
        session_name: String,
    },
    List {
        all: bool,
    },
    Kill {
        session_name: String,
    },
    KillServer,
    Delete {
        session_name: String,
    },
    Remote {
        host: String,
        session_name: Option<String>,
        port: u16,
        ssh_port: u16,
    },
    Msg {
        subcommand: MsgSubcommand,
        json: bool,
    },
    Template {
        subcommand: TemplateSubcommand,
    },
    Web {
        port: Option<u16>,
        bind: Option<String>,
        token: Option<String>,
        static_dir: Option<String>,
        open: bool,
    },
}

#[derive(Debug)]
pub enum MsgSubcommand {
    SendKeys {
        session_name: String,
        pane_id: u64,
        keys: String,
    },
    ListPanes {
        session_name: String,
    },
    Info {
        session_name: String,
    },
    FocusPane {
        session_name: String,
        pane_id: u64,
    },
    ClosePane {
        session_name: String,
        pane_id: u64,
    },
    CreatePane {
        session_name: String,
    },
    GetLayout {
        session_name: String,
    },
    RunCommand {
        session_name: String,
        command: String,
    },
    CapturePane {
        session_name: String,
        pane_id: u64,
        scrollback_rows: u32,
        join_wrapped: bool,
        preserve_trailing_spaces: bool,
    },
    ListPrompts {
        session_name: String,
        pane_id: u64,
    },
}

#[derive(Debug)]
pub enum TemplateSubcommand {
    List,
    Apply {
        template_name: String,
        session_name: Option<String>,
    },
    Save {
        template_name: String,
        session_name: String,
    },
}

/// The command a parsed command line stands for.
pub open spec fn resolve_spec(cli: Cli) -> CliCommand {
    match cli.command {
        None => {
            if let Some(name) = cli.session_name {
                CliCommand::Run { session_name: name }
            } else {
                CliCommand::Default
            }
        }
        Some(Command::New) => CliCommand::New,
        Some(Command::Init) => CliCommand::Init,
        Some(Command::Attach { session_name }) => CliCommand::Attach { session_name },
        Some(Command::List { all }) => CliCommand::List { all },
        Some(Command::Kill { session_name }) => CliCommand::Kill { session_name },
        Some(Command::KillServer) => CliCommand::KillServer,
        Some(Command::Delete { session_name }) => CliCommand::Delete { session_name },
        Some(Command::Remote {
            host,
            session_name,
            port,
            ssh_port,
        }) => CliCommand::Remote {
            host,
            session_name,
            port,
            ssh_port,
        },
        Some(Command::Msg { subcommand, json }) => {
            let sub = match subcommand {
                MsgCommand::SendKeys {
                    session_name,
                    pane_id,
                    keys,
                } => MsgSubcommand::SendKeys {
                    session_name,
                    pane_id,
                    keys,
                },
                MsgCommand::ListPanes { session_name } => MsgSubcommand::ListPanes { session_name },
                MsgCommand::Info { session_name } => MsgSubcommand::Info { session_name },
                MsgCommand::FocusPane {
                    session_name,
                    pane_id,
                } => MsgSubcommand::FocusPane {
                    session_name,
                    pane_id,
                },
                MsgCommand::ClosePane {
                    session_name,
                    pane_id,
                } => MsgSubcommand::ClosePane {
                    session_name,
                    pane_id,
                },
                MsgCommand::CreatePane { session_name } => {
                    MsgSubcommand::CreatePane { session_name }
                }
                MsgCommand::GetLayout { session_name } => MsgSubcommand::GetLayout { session_name },
                MsgCommand::RunCommand {
                    session_name,
                    command,
                } => MsgSubcommand::RunCommand {
                    session_name,
                    command,
                },
                MsgCommand::CapturePane {
                    session_name,
                    pane_id,
                    scrollback_rows,
                    join_wrapped,
                    preserve_trailing_spaces,
                } => MsgSubcommand::CapturePane {
                    session_name,
                    pane_id,
                    scrollback_rows,
                    join_wrapped,
                    preserve_trailing_spaces,
                },
                MsgCommand::ListPrompts {
                    session_name,
                    pane_id,
                } => MsgSubcommand::ListPrompts {
                    session_name,
                    pane_id,
                },
            };
            CliCommand::Msg {
                subcommand: sub,
                json,
            }
        }
        Some(Command::Template { subcommand }) => {
            let sub = match subcommand {
                TemplateCommand::List => TemplateSubcommand::List,
                TemplateCommand::Apply {
                    template_name,
                    session_name,
                } => TemplateSubcommand::Apply {
                    template_name,
                    session_name,
                },
                TemplateCommand::Save {
                    template_name,
                    session_name,
                } => TemplateSubcommand::Save {
                    template_name,
                    session_name,
                },
            };
            CliCommand::Template { subcommand: sub }
        }
        Some(Command::Web {
            port,
            bind,
            token,
            static_dir,
            open,
        }) => CliCommand::Web {
            port,
            bind,
            token,
            static_dir,
            open,
        },
    }
}

/// Resolving a subcommand loses nothing: two command lines with different
/// subcommands (or flags) resolve to different commands, whatever session
/// name stands beside them.
pub proof fn lemma_subcommands_resolve_apart(c1: Command, c2: Command, n1: Option<String>, n2: Option<String>)
    ensures
        resolve_spec(Cli { command: Some(c1), session_name: n1 }) == resolve_spec(
            Cli { command: Some(c2), session_name: n2 },
        ) ==> c1 == c2,
{
}

/// Without a subcommand, a session name runs that session and no name runs
/// the default; a subcommand never resolves to either.
pub proof fn lemma_bare_command_line(c: Command, n: Option<String>)
    ensures
        resolve_spec(Cli { command: None, session_name: n }) == match n {
            Some(name) => CliCommand::Run { session_name: name },
            None => CliCommand::Default,
        },
        !(resolve_spec(Cli { command: Some(c), session_name: n }) is Run),
        !(resolve_spec(Cli { command: Some(c), session_name: n }) is Default),
{
}

/// Each top-level subcommand resolves to its namesake with the same
/// fields; `msg` and `template` keep their flag and resolve their own
/// subcommand (see the two laws below).
pub proof fn lemma_command_resolves_to_namesake(c: Command, n: Option<String>)
    ensures
        ({
            let r = resolve_spec(Cli { command: Some(c), session_name: n });
            match c {
                Command::New => r is New,
                Command::Init => r is Init,
                Command::Attach { session_name } => r == (CliCommand::Attach { session_name }),
                Command::List { all } => r == (CliCommand::List { all }),
                Command::Kill { session_name } => r == (CliCommand::Kill { session_name }),
                Command::KillServer => r is KillServer,
                Command::Delete { session_name } => r == (CliCommand::Delete { session_name }),
                Command::Remote { host, session_name, port, ssh_port } => r == (CliCommand::Remote {
                    host,
                    session_name,
                    port,
                    ssh_port,
                }),
                Command::Msg { json, .. } => r matches CliCommand::Msg { json: j, .. } && j == json,
                Command::Template { .. } => r is Template,
                Command::Web { port, bind, token, static_dir, open } => r == (CliCommand::Web {
                    port,
                    bind,
                    token,
                    static_dir,
                    open,
                }),
            }
        }),
{
}

/// Each `msg` subcommand resolves to its namesake with the same fields, and
/// the `--json` flag is kept.
pub proof fn lemma_msg_resolves_to_namesake(sub: MsgCommand, json: bool, n: Option<String>)
    ensures
        ({
            let r = resolve_spec(Cli { command: Some(Command::Msg { subcommand: sub, json }), session_name: n });
            match sub {
                MsgCommand::SendKeys { session_name, pane_id, keys } => r == (CliCommand::Msg {
                    subcommand: MsgSubcommand::SendKeys { session_name, pane_id, keys },
                    json,
                }),
                MsgCommand::ListPanes { session_name } => r == (CliCommand::Msg {
                    subcommand: MsgSubcommand::ListPanes { session_name },
                    json,
                }),
                MsgCommand::Info { session_name } => r == (CliCommand::Msg {
                    subcommand: MsgSubcommand::Info { session_name },
                    json,
                }),
                MsgCommand::FocusPane { session_name, pane_id } => r == (CliCommand::Msg {
                    subcommand: MsgSubcommand::FocusPane { session_name, pane_id },
                    json,
                }),
                MsgCommand::ClosePane { session_name, pane_id } => r == (CliCommand::Msg {
                    subcommand: MsgSubcommand::ClosePane { session_name, pane_id },
                    json,
                }),
                MsgCommand::CreatePane { session_name } => r == (CliCommand::Msg {
                    subcommand: MsgSubcommand::CreatePane { session_name },
                    json,
                }),
                MsgCommand::GetLayout { session_name } => r == (CliCommand::Msg {
                    subcommand: MsgSubcommand::GetLayout { session_name },
                    json,
                }),
                MsgCommand::RunCommand { session_name, command } => r == (CliCommand::Msg {
                    subcommand: MsgSubcommand::RunCommand { session_name, command },
                    json,
                }),
                MsgCommand::CapturePane {
                    session_name,
                    pane_id,
                    scrollback_rows,
                    join_wrapped,
                    preserve_trailing_spaces,
                } => r == (CliCommand::Msg {
                    subcommand: MsgSubcommand::CapturePane {
                        session_name,
                        pane_id,
                        scrollback_rows,
                        join_wrapped,
                        preserve_trailing_spaces,
                    },
                    json,
                }),
                MsgCommand::ListPrompts { session_name, pane_id } => r == (CliCommand::Msg {
                    subcommand: MsgSubcommand::ListPrompts { session_name, pane_id },
                    json,
                }),
            }
        }),
{
}

/// Each `template` subcommand resolves to its namesake with the same
/// fields.
pub proof fn lemma_template_resolves_to_namesake(sub: TemplateCommand, n: Option<String>)
    ensures
        ({
            let r = resolve_spec(Cli { command: Some(Command::Template { subcommand: sub }), session_name: n });
            match sub {
                TemplateCommand::List => r == (CliCommand::Template { subcommand: TemplateSubcommand::List }),
                TemplateCommand::Apply { template_name, session_name } => r == (CliCommand::Template {
                    subcommand: TemplateSubcommand::Apply { template_name, session_name },
                }),
                TemplateCommand::Save { template_name, session_name } => r == (CliCommand::Template {
                    subcommand: TemplateSubcommand::Save { template_name, session_name },
                }),
            }
        }),
{
}

/// Resolve the CLI into the internal command enum used by main.rs.
pub fn resolve(cli: Cli) -> (r: CliCommand)
    ensures
        r == resolve_spec(cli),
{
    match cli.command {
        None => {
            if let Some(name) = cli.session_name {
                CliCommand::Run { session_name: name }
            } else {
                CliCommand::Default
            }
        }
        Some(Command::New) => CliCommand::New,
        Some(Command::Init) => CliCommand::Init,
        Some(Command::Attach { session_name }) => CliCommand::Attach { session_name },
        Some(Command::List { all }) => CliCommand::List { all },
        Some(Command::Kill { session_name }) => CliCommand::Kill { session_name },
        Some(Command::KillServer) => CliCommand::KillServer,
        Some(Command::Delete { session_name }) => CliCommand::Delete { session_name },
        Some(Command::Remote {
            host,
            session_name,
            port,
            ssh_port,
        }) => CliCommand::Remote {
            host,
            session_name,
            port,
            ssh_port,
        },
        Some(Command::Msg { subcommand, json }) => {
            let sub = match subcommand {
                MsgCommand::SendKeys {
                    session_name,
                    pane_id,
                    keys,
                } => MsgSubcommand::SendKeys {
                    session_name,
                    pane_id,
                    keys,
                },
                MsgCommand::ListPanes { session_name } => MsgSubcommand::ListPanes { session_name },
                MsgCommand::Info { session_name } => MsgSubcommand::Info { session_name },
                MsgCommand::FocusPane {
                    session_name,
                    pane_id,
                } => MsgSubcommand::FocusPane {
                    session_name,
                    pane_id,
                },
                MsgCommand::ClosePane {
                    session_name,
                    pane_id,
                } => MsgSubcommand::ClosePane {
                    session_name,
                    pane_id,
                },
                MsgCommand::CreatePane { session_name } => {
                    MsgSubcommand::CreatePane { session_name }
                }
                MsgCommand::GetLayout { session_name } => MsgSubcommand::GetLayout { session_name },
                MsgCommand::RunCommand {
                    session_name,
                    command,
                } => MsgSubcommand::RunCommand {
                    session_name,
                    command,
                },
                MsgCommand::CapturePane {
                    session_name,
                    pane_id,
                    scrollback_rows,
                    join_wrapped,
                    preserve_trailing_spaces,
                } => MsgSubcommand::CapturePane {
                    session_name,
                    pane_id,
                    scrollback_rows,
                    join_wrapped,
                    preserve_trailing_spaces,
                },
                MsgCommand::ListPrompts {
                    session_name,
                    pane_id,
                } => MsgSubcommand::ListPrompts {
                    session_name,
                    pane_id,
                },
            };
            CliCommand::Msg {
                subcommand: sub,
                json,
            }
        }
        Some(Command::Template { subcommand }) => {
            let sub = match subcommand {
                TemplateCommand::List => TemplateSubcommand::List,
                TemplateCommand::Apply {
                    template_name,
                    session_name,
                } => TemplateSubcommand::Apply {
                    template_name,
                    session_name,
                },
                TemplateCommand::Save {
                    template_name,
                    session_name,
                } => TemplateSubcommand::Save {
                    template_name,
                    session_name,
                },
            };
            CliCommand::Template { subcommand: sub }
        }
        Some(Command::Web {
            port,
            bind,
            token,
            static_dir,
            open,
        }) => CliCommand::Web {
            port,
            bind,
            token,
            static_dir,
            open,
        },
    }
}

} // verus!
