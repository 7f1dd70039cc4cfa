use zrun::fuzzy::{match_positions, rank, score, item_best_score};
use zrun::scripts::Script;

fn script(name: &str, description: &str, tags: &[&str]) -> Script {
    Script {
        name: name.to_string(),
        path: format!("/s/{name}.sh"),
        description: description.to_string(),
        tags: tags.iter().map(|t| t.to_string()).collect(),
        info: String::new(),
    }
}

fn sample() -> Vec<Script> {
    vec![
        script("backup_home", "Backs up home directory", &["backup", "cron"]),
        script("deploy_nginx", "Deploy the web server", &["deploy", "infra"]),
        script("fix_perms", "Fix permissions on home", &["maintenance"]),
    ]
}

#[test]
fn score_exact_match() {
    // start bonus 16+1, then two consecutive matches 8+1 each, no penalty
    assert_eq!(score("abc", "abc"), Some(35));
}

#[test]
fn score_word_start_bonus() {
    // b at 0 (17), h after '_' (11), penalty (11 - 2) / 4 = 2
    assert_eq!(score("bh", "backup_home"), Some(26));
}

#[test]
fn score_ignores_case() {
    assert_eq!(score("BH", "Backup_Home"), Some(26));
    assert_eq!(score("ABC", "abc"), Some(35));
}

#[test]
fn score_empty_query_is_zero() {
    assert_eq!(score("", "anything at all"), Some(0));
    assert_eq!(score("", ""), Some(0));
}

#[test]
fn score_missing_characters_is_none() {
    assert_eq!(score("xyz", "abc"), None);
    assert_eq!(score("ba", "ab"), None);
    assert_eq!(score("abcd", "abc"), None);
}

#[test]
fn score_can_be_negative() {
    assert_eq!(score("e", "backup_home"), Some(-1));
    assert_eq!(score("x", "deploy_nginx"), Some(-1));
}

#[test]
fn score_consecutive_and_separator_bonuses() {
    assert_eq!(score("ngx", "deploy-nginx"), Some(19));
    assert_eq!(score("fp", "fix_perms"), Some(27));
    assert_eq!(score("b", "backup_home"), Some(15));
}

#[test]
fn match_positions_marks_matched_characters() {
    assert_eq!(match_positions("bh", "backup_home"), vec![0, 7]);
    assert_eq!(match_positions("BH", "Backup_Home"), vec![0, 7]);
}

#[test]
fn match_positions_empty_query() {
    assert!(match_positions("", "backup_home").is_empty());
}

#[test]
fn match_positions_partial_match_stops() {
    // 'b' is found, 'z' is not: only the found prefix is reported
    assert_eq!(match_positions("bz", "backup_home"), vec![0]);
    assert_eq!(score("bz", "backup_home"), None);
}

#[test]
fn match_positions_cover_query_iff_score() {
    for (q, t) in [("bh", "backup_home"), ("hb", "backup_home"), ("dn", "deploy_nginx"), ("q", "abc")] {
        let full = match_positions(q, t).len() == q.chars().count();
        assert_eq!(full, score(q, t).is_some(), "{q} / {t}");
    }
}

#[test]
fn item_score_takes_best_field() {
    let s = sample();
    // name 'deploy' scores (6 matches), description and tag are scaled down
    assert_eq!(item_best_score("deploy", &s[1]), Some(61));
    assert_eq!(item_best_score("home", &s[0]), Some(37));
    assert_eq!(item_best_score("zzz", &s[0]), None);
    // negative description score is halved toward zero
    assert_eq!(item_best_score("b", &s[1]), Some(-2));
}

#[test]
fn rank_empty_query_keeps_all_in_order() {
    let s = sample();
    let refs: Vec<&Script> = s.iter().collect();
    assert_eq!(rank("", &refs), vec![(0, 0), (1, 0), (2, 0)]);
}

#[test]
fn rank_best_first() {
    let s = sample();
    let refs: Vec<&Script> = s.iter().collect();
    assert_eq!(rank("home", &refs), vec![(0, 37), (2, 12)]);
    assert_eq!(rank("deploy", &refs), vec![(1, 61)]);
}

#[test]
fn rank_ties_broken_by_index() {
    let s = sample();
    let refs: Vec<&Script> = s.iter().collect();
    assert_eq!(rank("e", &refs), vec![(1, 0), (2, 0), (0, -1)]);
}

#[test]
fn rank_drops_non_matching() {
    let s = sample();
    let refs: Vec<&Script> = s.iter().collect();
    assert!(rank("zzz", &refs).is_empty());
    assert_eq!(rank("b", &refs), vec![(0, 15), (1, -2)]);
}

#[test]
fn score_long_target_still_matches() {
    // start bonus 16 + 1, penalty (1_000_000 - 1) / 4 = 249_999
    let t = "a".repeat(1_000_000);
    assert_eq!(score("a", &t), Some(17 - 249_999));
    // past 2^26 characters: penalty (67_108_867 - 1) / 4 = 16_777_216
    let t = "a".repeat(67_108_867);
    assert_eq!(score("a", &t), Some(17 - 16_777_216));
    assert_eq!(match_positions("a", &t), vec![0]);
}
