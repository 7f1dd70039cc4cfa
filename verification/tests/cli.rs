use zrun::cli::{Cli, Command, Plan};

fn cli(command: Option<Command>, script: Option<&str>) -> Cli {
    Cli { command, script: script.map(|s| s.to_string()), dirs: None, dry_run: false, no_clear: false }
}

#[test]
fn plan_follows_subcommand() {
    assert_eq!(cli(Some(Command::Tags), None).plan(), Plan::Tags);
    assert_eq!(
        cli(Some(Command::List { tag: Some("cron".into()) }), None).plan(),
        Plan::List { tag: Some("cron".into()) }
    );
    assert_eq!(cli(Some(Command::History { clear: true }), None).plan(), Plan::History { clear: true });
    assert_eq!(cli(Some(Command::Run { name: "a".into() }), None).plan(), Plan::Run { name: "a".into() });
    assert_eq!(cli(Some(Command::Which { name: "a".into() }), None).plan(), Plan::Which { name: "a".into() });
    assert_eq!(cli(Some(Command::Show { name: "a".into() }), None).plan(), Plan::Show { name: "a".into() });
    assert_eq!(cli(Some(Command::Edit { name: "a".into() }), None).plan(), Plan::Edit { name: "a".into() });
}

#[test]
fn plan_without_subcommand() {
    assert_eq!(cli(None, None).plan(), Plan::Pick);
    assert_eq!(cli(Some(Command::Choose), None).plan(), Plan::Pick);
    assert_eq!(cli(None, Some("backup")).plan(), Plan::Run { name: "backup".into() });
}
