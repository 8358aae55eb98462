use ciri::control_reply::{
    command_result_line, confirmation_line, pane_list_lines, running_session_names, saved_session_lines,
    session_info_lines, session_list_lines, session_running, template_list_lines, Confirmation, PaneRow,
    SessionInfo, SessionRow, TemplateRow,
};

fn session(name: &str, running: bool) -> SessionRow {
    SessionRow { name: name.into(), running, pane_count: 3, client_count: 1 }
}

#[test]
fn session_list_is_a_padded_table() {
    assert_eq!(session_list_lines(&vec![]), vec!["no sessions".to_string()]);
    let lines = session_list_lines(&vec![session("work", true), session("old", false)]);
    assert_eq!(lines[0], format!("{:<20} {:<10} {:<6} CLIENTS", "NAME", "STATUS", "PANES"));
    assert_eq!(lines[1], format!("{:<20} {:<10} {:<6} {}", "work", "running", 3, 1));
    assert_eq!(lines[2], format!("{:<20} {:<10} {:<6} {}", "old", "saved", 3, 1));
    let long = "a-session-name-longer-than-twenty";
    assert_eq!(session_list_lines(&vec![session(long, true)])[1], format!("{long} running    3      1"));
}

#[test]
fn saved_sessions_when_server_is_down() {
    assert_eq!(saved_session_lines(&vec![]), vec!["no sessions".to_string()]);
    assert_eq!(
        saved_session_lines(&vec!["a".into(), "b".into()]),
        vec![format!("{:<20} STATUS", "NAME"), format!("{:<20} saved", "a"), format!("{:<20} saved", "b")]
    );
}

#[test]
fn running_sessions_are_picked_from_the_list() {
    let list = vec![session("a", false), session("b", true), session("c", true)];
    assert!(session_running(&list, "b"));
    assert!(!session_running(&list, "a"));
    assert!(!session_running(&list, "z"));
    assert_eq!(running_session_names(&list), vec!["b".to_string(), "c".to_string()]);
}

#[test]
fn template_and_pane_tables() {
    assert_eq!(template_list_lines(&vec![]), vec!["no templates".to_string()]);
    let t = vec![
        TemplateRow { name: "dev".into(), workspace_count: 2, total_panes: 5, description: Some("daily".into()) },
        TemplateRow { name: "bare".into(), workspace_count: 1, total_panes: 1, description: None },
    ];
    let lines = template_list_lines(&t);
    assert_eq!(lines[0], format!("{:<20} {:<12} {:<6} DESCRIPTION", "NAME", "WORKSPACES", "PANES"));
    assert_eq!(lines[1], format!("{:<20} {:<12} {:<6} {}", "dev", 2, 5, "daily"));
    assert_eq!(lines[2], format!("{:<20} {:<12} {:<6} {}", "bare", 1, 1, ""));

    assert_eq!(pane_list_lines(&vec![]), vec!["no panes".to_string()]);
    let title = "a title that is certainly longer than thirty bytes";
    let p = vec![PaneRow {
        pane_id: 12,
        cols: 80,
        rows: 24,
        title: title.into(),
        is_active: true,
        workspace_idx: 0,
        column_idx: 1,
        tile_idx: 2,
    }];
    let lines = pane_list_lines(&p);
    assert_eq!(
        lines[0],
        format!("{:<8} {:<10} {:<30} {:<6} {:<4} {:<4} {:<4}", "ID", "SIZE", "TITLE", "ACTIVE", "WS", "COL", "TILE")
    );
    assert_eq!(
        lines[1],
        format!("{:<8} {}x{:<7} {:<30} {:<6} {:<4} {:<4} {:<4}", 12, 80, 24, title[..27].to_string() + "...", "*", 0, 1, 2)
    );
}

#[test]
fn info_results_and_confirmations() {
    let info = SessionInfo {
        name: "w".into(),
        running: false,
        pane_count: 2,
        client_count: 0,
        workspace_count: 1,
        active_workspace: 0,
    };
    assert_eq!(
        session_info_lines(&info),
        vec![
            "Session: w".to_string(),
            "  Status:           stopped".to_string(),
            "  Panes:            2".to_string(),
            "  Clients:          0".to_string(),
            "  Workspaces:       1".to_string(),
            "  Active workspace: 0".to_string(),
        ]
    );
    assert_eq!(command_result_line(true, "created", Some(7)), Ok("created (pane 7)".to_string()));
    assert_eq!(command_result_line(true, "done", None), Ok("done".to_string()));
    assert_eq!(command_result_line(false, "nope", Some(7)), Err("error: nope".to_string()));
    assert_eq!(confirmation_line(&Confirmation::SessionKilled("x".into())), "killed session 'x'");
    assert_eq!(confirmation_line(&Confirmation::ServerShutdown), "server shutting down");
    assert_eq!(confirmation_line(&Confirmation::TemplateSaved("t".into())), "saved template 't'");
    assert_eq!(confirmation_line(&Confirmation::TemplateApplied("s".into())), "applied template to session 's'");
}
