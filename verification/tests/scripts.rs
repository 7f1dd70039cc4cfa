use zrun::scripts::{all_tags, collect, count_with_tag, find_by_name, find_script, has_tag, parse_header, Script, ScriptFile};

fn script(name: &str, tags: &[&str]) -> Script {
    Script {
        name: name.to_string(),
        path: format!("/s/{name}.sh"),
        description: String::new(),
        tags: tags.iter().map(|t| t.to_string()).collect(),
        info: String::new(),
    }
}

fn file(name: &str, path: &str, content: Option<&str>) -> ScriptFile {
    ScriptFile { name: name.to_string(), path: path.to_string(), content: content.map(|c| c.to_string()) }
}

#[test]
fn parse_header_readme_example() {
    let (d, t, i) = parse_header(
        "#!/usr/bin/env bash\n# @tags: backup, cron, Important\n# Backs up home directory to /mnt/backup\n\nset -euo pipefail\n",
    );
    assert_eq!(d, "Backs up home directory to /mnt/backup");
    assert_eq!(t, vec!["backup", "cron", "important"]);
    assert_eq!(i, "");
}

#[test]
fn parse_header_single_tag_and_info_block() {
    let (d, t, i) = parse_header(
        "#!/bin/bash\n# @tag: Deploy\n# @info\n# line one\n#   line two\necho hi\n# later comment\n",
    );
    assert_eq!(d, "later comment");
    assert_eq!(t, vec!["deploy"]);
    assert_eq!(i, "line one\nline two");
}

#[test]
fn parse_header_inline_info_and_empty_tags() {
    let (d, t, i) = parse_header("# @info: quick note\n# @info:   \n# desc here\n#@tags:a,,b ,\n");
    assert_eq!(d, "desc here");
    assert_eq!(t, vec!["a", "b"]);
    assert_eq!(i, "quick note");
}

#[test]
fn parse_header_trims_and_skips_directives() {
    let (d, t, i) = parse_header("  #   indented desc  \r\n# @foo not desc\n");
    assert_eq!(d, "indented desc");
    assert!(t.is_empty());
    assert_eq!(i, "");
    let (d2, _, _) = parse_header("# @foo not desc\n");
    assert_eq!(d2, "");
}

#[test]
fn parse_header_reads_only_forty_lines() {
    let mut content = "echo\n".repeat(40);
    content.push_str("# @tags: late\n# too late\n");
    let (d, t, i) = parse_header(&content);
    assert_eq!(d, "");
    assert!(t.is_empty());
    assert_eq!(i, "");
    let mut content39 = "echo\n".repeat(39);
    content39.push_str("# @tags: late\n");
    assert_eq!(parse_header(&content39).1, vec!["late"]);
}

#[test]
fn parse_header_empty_content() {
    let (d, t, i) = parse_header("");
    assert_eq!((d.as_str(), t.len(), i.as_str()), ("", 0, ""));
}

#[test]
fn script_from_contents_parses_header() {
    let s = Script::from_contents("a".to_string(), "/x/a.sh".to_string(), "# hello\n# @tags: x\n");
    assert_eq!(s.name, "a");
    assert_eq!(s.path, "/x/a.sh");
    assert_eq!(s.description, "hello");
    assert_eq!(s.tags, vec!["x"]);
}

#[test]
fn display_name_replaces_hyphens() {
    assert_eq!(script("deploy-web-app", &[]).display_name(), "deploy web app");
    assert_eq!(script("plain_name", &[]).display_name(), "plain_name");
}

#[test]
fn find_by_name_with_or_without_suffix() {
    let v = vec![script("a", &[]), script("backup", &[]), script("c", &[])];
    assert_eq!(find_by_name(&v, "backup").map(|s| s.name.as_str()), Some("backup"));
    assert_eq!(find_by_name(&v, "backup.sh").map(|s| s.name.as_str()), Some("backup"));
    assert!(find_by_name(&v, "missing").is_none());
    assert!(find_by_name(&v, "backup.s").is_none());
}

#[test]
fn find_by_name_returns_first() {
    let mut v = vec![script("a", &["first"]), script("a", &["second"])];
    v[1].path = "/other/a.sh".to_string();
    assert_eq!(find_by_name(&v, "a").unwrap().tags, vec!["first"]);
}

#[test]
fn all_tags_sorted_and_unique() {
    let v = vec![script("a", &["cron", "backup"]), script("b", &["backup", "deploy"]), script("c", &[])];
    assert_eq!(all_tags(&v), vec!["backup", "cron", "deploy"]);
    assert!(all_tags(&[]).is_empty());
}

#[test]
fn tag_membership_and_count() {
    let v = vec![script("a", &["cron", "backup"]), script("b", &["backup"]), script("c", &[])];
    assert!(has_tag(&v[0], "cron"));
    assert!(!has_tag(&v[1], "cron"));
    assert_eq!(count_with_tag(&v, "backup"), 2);
    assert_eq!(count_with_tag(&v, "none"), 0);
}

#[test]
fn collect_first_directory_wins() {
    let files = vec![
        file("zeta", "/high/zeta.sh", Some("# high zeta\n")),
        file("alpha", "/high/alpha.sh", Some("# high alpha\n")),
        file("zeta", "/low/zeta.sh", Some("# low zeta\n")),
        file("beta", "/low/beta.sh", Some("# low beta\n")),
    ];
    let s = collect(&files);
    let names: Vec<&str> = s.iter().map(|x| x.name.as_str()).collect();
    assert_eq!(names, vec!["alpha", "beta", "zeta"]);
    assert_eq!(s[2].path, "/high/zeta.sh");
    assert_eq!(s[2].description, "high zeta");
}

#[test]
fn collect_unreadable_file_still_shadows() {
    let files = vec![file("x", "/high/x.sh", None), file("x", "/low/x.sh", Some("# low\n"))];
    assert!(collect(&files).is_empty());
}

#[test]
fn collect_sorts_by_code_point() {
    let files = vec![file("b", "/d/b.sh", Some("")), file("B", "/d/B.sh", Some("")), file("a", "/d/a.sh", Some(""))];
    let names: Vec<String> = collect(&files).into_iter().map(|x| x.name).collect();
    assert_eq!(names, vec!["B", "a", "b"]);
}

#[test]
fn find_script_or_not_found() {
    let v = vec![script("backup", &[]), script("deploy", &[])];
    assert_eq!(find_script(&v, "deploy.sh").map(|s| s.name.as_str()), Ok("deploy"));
    assert_eq!(find_script(&v, "nope").map(|s| s.name.as_str()), Err("Script not found: nope".to_string()));
    assert_eq!(find_script(&[], "x.sh").map(|s| s.name.as_str()), Err("Script not found: x.sh".to_string()));
}
