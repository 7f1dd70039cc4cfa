use zrun::config::{shellexpand_tilde, Config, RawConfig};

fn strings(v: &[&str]) -> Vec<String> {
    v.iter().map(|s| s.to_string()).collect()
}

#[test]
fn tilde_expansion() {
    assert_eq!(shellexpand_tilde("~", "/home/u"), "/home/u");
    assert_eq!(shellexpand_tilde("~/scripts", "/home/u"), "/home/u/scripts");
    assert_eq!(shellexpand_tilde("~other/x", "/home/u"), "~other/x");
    assert_eq!(shellexpand_tilde("/a/~/b", "/home/u"), "/a/~/b");
    assert_eq!(shellexpand_tilde("", "/home/u"), "");
}

#[test]
fn load_defaults_only() {
    let c = Config::load(Vec::new(), RawConfig::empty(), "/home/u", false, false);
    assert_eq!(c.search_dirs, strings(&["/etc/zrun-scripts", "/usr/lib/zrun-scripts"]));
    assert_eq!(c.history_limit, 100);
    assert!(c.clear_on_run);
    assert!(!c.dry_run);
}

#[test]
fn load_priority_and_dedup() {
    let raw = RawConfig {
        search_dirs: Some(strings(&["~/s", "/a", "/etc/zrun-scripts/", "~/s"])),
        history_limit: Some(7),
        clear_on_run: None,
    };
    let c = Config::load(strings(&["/a", "/a"]), raw, "/home/u", true, false);
    assert_eq!(
        c.search_dirs,
        strings(&["/a", "/a", "/home/u/s", "/etc/zrun-scripts/", "/usr/lib/zrun-scripts"])
    );
    assert_eq!(c.history_limit, 7);
    assert!(c.dry_run);
}

#[test]
fn load_clear_on_run_switches() {
    let c = Config::load(Vec::new(), RawConfig::empty(), "/h", false, true);
    assert!(!c.clear_on_run);
    let raw = RawConfig { search_dirs: None, history_limit: None, clear_on_run: Some(false) };
    assert!(!Config::load(Vec::new(), raw, "/h", false, false).clear_on_run);
    let raw = RawConfig { search_dirs: None, history_limit: None, clear_on_run: Some(true) };
    assert!(Config::load(Vec::new(), raw, "/h", false, false).clear_on_run);
}

#[test]
fn load_equal_paths_are_merged() {
    let raw = RawConfig { search_dirs: Some(strings(&["/x//y", "/x/y/"])), history_limit: None, clear_on_run: None };
    let c = Config::load(Vec::new(), raw, "/h", false, false);
    assert_eq!(c.search_dirs, strings(&["/x//y", "/etc/zrun-scripts", "/usr/lib/zrun-scripts"]));
}
