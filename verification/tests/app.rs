use zrun::app::{copy_status, highlight_runs, key_hints, row_label, App, AppResult, InputMode, KeyCode, Outcome, Tab};
use zrun::shell::ShellKind;
use zrun::config::{Config, RawConfig};
use zrun::history::HistoryEntry;
use zrun::scripts::Script;

fn script(name: &str, description: &str, tags: &[&str]) -> Script {
    Script {
        name: name.to_string(),
        path: format!("/s/{name}.sh"),
        description: description.to_string(),
        tags: tags.iter().map(|t| t.to_string()).collect(),
        info: String::new(),
    }
}

fn app() -> App {
    let scripts = vec![
        script("backup_home", "Backs up home directory", &["backup", "cron"]),
        script("deploy_nginx", "Deploy the web server", &["deploy", "infra"]),
        script("fix_perms", "Fix permissions on home", &["maintenance", "cron"]),
    ];
    let history = vec![
        HistoryEntry { name: "deploy_nginx".into(), path: "/old/deploy_nginx.sh".into(), timestamp: 9, run_count: 2 },
        HistoryEntry { name: "gone".into(), path: "/old/gone.sh".into(), timestamp: 5, run_count: 1 },
    ];
    let config = Config::load(Vec::new(), RawConfig::empty(), "/h", false, false);
    App::new(scripts, history, &config)
}

fn key(a: &mut App, code: KeyCode) -> Outcome {
    a.handle_key(code, false)
}

fn type_str(a: &mut App, s: &str) {
    for c in s.chars() {
        assert_eq!(key(a, KeyCode::Char(c)), Outcome::Continue);
    }
}

#[test]
fn app_starts_on_scripts_tab() {
    let a = app();
    assert_eq!(a.tab, Tab::Scripts);
    assert_eq!(a.mode, InputMode::Normal);
    assert_eq!(a.filtered, vec![(0, 0), (1, 0), (2, 0)]);
    assert_eq!(a.list_sel, Some(0));
    assert_eq!(a.history_sel, Some(0));
    assert_eq!(a.tag_list, vec!["backup", "cron", "deploy", "infra", "maintenance"]);
    assert_eq!(a.tag_list_sel, None);
}

#[test]
fn quit_keys() {
    let mut a = app();
    assert_eq!(key(&mut a, KeyCode::Char('q')), Outcome::Finish(AppResult::Quit));
    assert_eq!(a.handle_key(KeyCode::Char('c'), true), Outcome::Finish(AppResult::Quit));
    assert_eq!(key(&mut a, KeyCode::Char('c')), Outcome::Continue);
}

#[test]
fn selection_wraps_around() {
    let mut a = app();
    key(&mut a, KeyCode::Up);
    assert_eq!(a.list_sel, Some(2));
    key(&mut a, KeyCode::Char('j'));
    assert_eq!(a.list_sel, Some(0));
    key(&mut a, KeyCode::Char('G'));
    assert_eq!(a.list_sel, Some(2));
    key(&mut a, KeyCode::Home);
    assert_eq!(a.list_sel, Some(0));
}

#[test]
fn search_filters_and_ranks() {
    let mut a = app();
    assert_eq!(key(&mut a, KeyCode::Char('/')), Outcome::Continue);
    assert_eq!(a.mode, InputMode::Search);
    type_str(&mut a, "home");
    assert_eq!(a.search_query, "home");
    assert_eq!(a.filtered, vec![(0, 37), (2, 12)]);
    key(&mut a, KeyCode::Enter);
    assert_eq!(a.mode, InputMode::Normal);
    assert_eq!(a.search_query, "home");
}

#[test]
fn typing_then_backspace_restores_list() {
    let mut a = app();
    key(&mut a, KeyCode::Char('/'));
    type_str(&mut a, "ho");
    let before = a.filtered.clone();
    key(&mut a, KeyCode::Char('x'));
    assert!(a.filtered.is_empty());
    assert_eq!(a.list_sel, None);
    key(&mut a, KeyCode::Backspace);
    assert_eq!(a.search_query, "ho");
    assert_eq!(a.filtered, before);
}

#[test]
fn esc_clears_search() {
    let mut a = app();
    key(&mut a, KeyCode::Char('/'));
    type_str(&mut a, "zzz");
    assert!(a.filtered.is_empty());
    key(&mut a, KeyCode::Esc);
    assert_eq!(a.mode, InputMode::Normal);
    assert_eq!(a.search_query, "");
    assert_eq!(a.filtered.len(), 3);
}

#[test]
fn enter_runs_selected_script() {
    let mut a = app();
    key(&mut a, KeyCode::Down);
    assert_eq!(
        key(&mut a, KeyCode::Enter),
        Outcome::Finish(AppResult::RunScript { path: "/s/deploy_nginx.sh".into(), name: "deploy_nginx".into() })
    );
    assert_eq!(
        key(&mut a, KeyCode::Char('e')),
        Outcome::Finish(AppResult::EditScript { path: "/s/deploy_nginx.sh".into() })
    );
    assert_eq!(key(&mut a, KeyCode::Char('y')), Outcome::CopyPath("/s/deploy_nginx.sh".into()));
}

#[test]
fn history_tab_runs_live_path() {
    let mut a = app();
    key(&mut a, KeyCode::Tab);
    assert_eq!(a.tab, Tab::History);
    assert_eq!(
        key(&mut a, KeyCode::Enter),
        Outcome::Finish(AppResult::RunScript { path: "/s/deploy_nginx.sh".into(), name: "deploy_nginx".into() })
    );
    key(&mut a, KeyCode::Down);
    assert_eq!(
        key(&mut a, KeyCode::Char('r')),
        Outcome::Finish(AppResult::RunScript { path: "/old/gone.sh".into(), name: "gone".into() })
    );
}

#[test]
fn tags_tab_browse_and_filter() {
    let mut a = app();
    key(&mut a, KeyCode::Char('t'));
    assert_eq!(a.tab, Tab::Tags);
    assert_eq!(a.tag_list_sel, Some(0));
    assert_eq!(a.tag_scripts, vec![0]);
    key(&mut a, KeyCode::Down);
    assert_eq!(a.tag_scripts, vec![0, 2]);
    key(&mut a, KeyCode::Char('l'));
    assert!(a.tag_pane_right);
    key(&mut a, KeyCode::Down);
    assert_eq!(
        key(&mut a, KeyCode::Enter),
        Outcome::Finish(AppResult::RunScript { path: "/s/fix_perms.sh".into(), name: "fix_perms".into() })
    );
    key(&mut a, KeyCode::Char('h'));
    assert!(!a.tag_pane_right);
    assert_eq!(key(&mut a, KeyCode::Char('t')), Outcome::StatusSet);
    assert_eq!(a.tab, Tab::Scripts);
    assert_eq!(a.tag_filter.as_deref(), Some("cron"));
    assert_eq!(a.status_msg.as_deref(), Some("Filtered by tag: cron"));
    assert_eq!(a.filtered, vec![(0, 0), (2, 0)]);
    assert_eq!(key(&mut a, KeyCode::Char('T')), Outcome::StatusSet);
    assert_eq!(a.status_msg.as_deref(), Some("Tag filter cleared"));
    assert_eq!(a.filtered.len(), 3);
}

#[test]
fn tab_cycles_three_tabs() {
    let mut a = app();
    key(&mut a, KeyCode::Tab);
    key(&mut a, KeyCode::BackTab);
    assert_eq!(a.tab, Tab::Tags);
    key(&mut a, KeyCode::Tab);
    assert_eq!(a.tab, Tab::Scripts);
}

#[test]
fn preview_scrolling() {
    let mut a = app();
    key(&mut a, KeyCode::PageDown);
    assert_eq!(a.preview_scroll, 10);
    a.handle_key(KeyCode::Char('u'), true);
    assert_eq!(a.preview_scroll, 5);
    key(&mut a, KeyCode::PageUp);
    assert_eq!(a.preview_scroll, 0);
    a.handle_key(KeyCode::Char('d'), true);
    assert_eq!(a.preview_window(100, 20), (5, 25));
    a.preview_scroll = 90;
    assert_eq!(a.preview_window(100, 20), (80, 100));
    assert_eq!(a.preview_scroll, 80);
    assert_eq!(a.preview_window(3, 20), (0, 3));
}

#[test]
fn preview_loading() {
    let mut a = app();
    assert_eq!(a.preview_to_load(), Some(0));
    a.store_preview(0, "echo".into());
    assert_eq!(a.preview_to_load(), None);
    key(&mut a, KeyCode::Down);
    assert_eq!(a.preview_to_load(), Some(1));
}

#[test]
fn list_texts() {
    assert_eq!(row_label(0), "  1  ");
    assert_eq!(row_label(99), "100  ");
    assert_eq!(row_label(1234), "1235  ");
    assert_eq!(copy_status("/a.sh", true), "Copied: /a.sh");
    assert_eq!(copy_status("/a.sh", false), "Path: /a.sh");
    let runs = highlight_runs("backup home", &vec![0, 7]);
    assert_eq!(runs, vec![
        ("b".to_string(), true),
        ("ackup ".to_string(), false),
        ("h".to_string(), true),
        ("ome".to_string(), false),
    ]);
    assert_eq!(highlight_runs("ab", &vec![5]), vec![("ab".to_string(), false)]);
}

#[test]
fn tag_counts() {
    let a = app();
    assert_eq!(a.tag_script_count("cron"), 2);
    assert_eq!(a.tag_script_count("none"), 0);
}

#[test]
fn tab_into_tags_hovers_first_tag() {
    let mut a = app();
    a.preview_scroll = 7;
    assert_eq!(key(&mut a, KeyCode::Tab), Outcome::Continue);
    assert_eq!(a.tab, Tab::History);
    assert_eq!(a.preview_scroll, 0);
    a.preview_scroll = 3;
    assert_eq!(key(&mut a, KeyCode::Tab), Outcome::Continue);
    assert_eq!(a.tab, Tab::Tags);
    assert_eq!(a.preview_scroll, 0);
    assert_eq!(a.tag_list_sel, Some(0));
    assert!(!a.tag_pane_right);
    assert_eq!(a.tag_scripts, vec![0]);
    assert_eq!(key(&mut a, KeyCode::BackTab), Outcome::Continue);
    assert_eq!(a.tab, Tab::Scripts);
}

#[test]
fn preview_view_highlights_window() {
    let mut a = app();
    assert_eq!(a.preview_view(10), None);
    a.store_preview(0, "#!/bin/bash\necho hi\r\nfi\n".into());
    let (rows, total) = a.preview_view(2).unwrap();
    assert_eq!(total, 3);
    assert_eq!(rows, vec![
        vec![("#!/bin/bash".to_string(), ShellKind::Comment)],
        vec![
            ("echo".to_string(), ShellKind::Plain),
            (" ".to_string(), ShellKind::Plain),
            ("hi".to_string(), ShellKind::Plain),
        ],
    ]);
    a.preview_scroll = 5;
    let (rows, total) = a.preview_view(2).unwrap();
    assert_eq!(total, 3);
    assert_eq!(a.preview_scroll, 1);
    assert_eq!(rows[1], vec![("fi".to_string(), ShellKind::Keyword)]);
    let (rows, _) = a.preview_view(10).unwrap();
    assert_eq!(a.preview_scroll, 0);
    assert_eq!(rows.len(), 3);
}

#[test]
fn footer_key_hints() {
    assert_eq!(key_hints(Tab::History, InputMode::Normal), vec![
        ("↑↓/jk", "navigate"),
        ("enter", "run"),
        ("tab", "tags"),
        ("q", "quit"),
    ]);
    assert_eq!(key_hints(Tab::Tags, InputMode::Search), vec![
        ("esc", "cancel"),
        ("enter", "confirm"),
        ("↑↓", "navigate"),
    ]);
    assert_eq!(key_hints(Tab::Scripts, InputMode::Normal).len(), 8);
    assert_eq!(key_hints(Tab::Tags, InputMode::Normal)[1], ("←→/hl", "switch pane"));
}

#[test]
fn normal_key_handler_cycles_tabs() {
    let mut a = app();
    for expected in [Tab::History, Tab::Tags, Tab::Scripts] {
        assert_eq!(a.handle_normal_key(KeyCode::Tab, false), Outcome::Continue);
        assert_eq!(a.tab, expected);
        assert_eq!(a.preview_scroll, 0);
    }
}
