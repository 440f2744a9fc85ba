use file_mover::config::{Config, FileRule, RenameRule};
use file_mover::engine::{find_rule, join_path, plan_file, rename_file_name, summarize};
use file_mover::text::matches_pattern;

fn rename(from: &str, to: &str) -> RenameRule {
    RenameRule { from: from.to_string(), to: to.to_string() }
}

fn rule(pattern: &str, renames: Vec<RenameRule>, destination: &str) -> FileRule {
    FileRule {
        pattern: pattern.to_string(),
        renames,
        prefix: None,
        suffix: None,
        destination: destination.to_string(),
    }
}

fn photo_config() -> Config {
    Config { rules: vec![rule("IMG", vec![rename("IMG", "PHOTO")], "./photos")] }
}

#[test]
fn pattern_is_a_case_sensitive_substring() {
    assert!(matches_pattern("IMG_001.jpg", "IMG"));
    assert!(matches_pattern("IMG_001.jpg", "001.jpg"));
    assert!(matches_pattern("IMG_001.jpg", "IMG_001.jpg"));
    assert!(!matches_pattern("IMG_001.jpg", "img"));
    assert!(!matches_pattern("note.txt", "IMG"));
    assert!(!matches_pattern("IM", "IMG"));
    assert!(matches_pattern("note.txt", ""));
    assert!(matches_pattern("ünïcode.txt", "nïc"));
}

#[test]
fn first_matching_rule_wins() {
    let config = Config {
        rules: vec![
            rule("doc", vec![], "./a"),
            rule("report", vec![], "./b"),
            rule("pdf", vec![], "./c"),
        ],
    };
    assert_eq!(find_rule(&config, "report.pdf"), Some(1));
    assert_eq!(find_rule(&config, "doc_report.pdf"), Some(0));
    assert_eq!(find_rule(&config, "file.pdf"), Some(2));
    assert_eq!(find_rule(&config, "file.txt"), None);
    assert_eq!(find_rule(&Config { rules: vec![] }, "file.txt"), None);
}

#[test]
fn matching_is_deterministic() {
    let config = Config { rules: vec![rule("a", vec![], "./x"), rule("b", vec![], "./y")] };
    for name in ["ab", "ba", "b", "c"] {
        assert_eq!(find_rule(&config, name), find_rule(&config, name));
    }
    assert_eq!(find_rule(&config, "ba"), Some(0));
    assert_eq!(find_rule(&config, "b"), Some(1));
}

#[test]
fn renames_fold_left() {
    let (name, steps) = rename_file_name("cat", &vec![rename("a", "b"), rename("b", "c")]);
    assert_eq!(name, "cct");
    assert_eq!(steps.len(), 2);
    assert_eq!(steps[0].before, "cat");
    assert_eq!(steps[0].after, "cbt");
    assert_eq!(steps[1].before, "cbt");
    assert_eq!(steps[1].after, "cct");
}

#[test]
fn rename_replaces_a_word() {
    let (name, steps) = rename_file_name("data_old.txt", &vec![rename("old", "new")]);
    assert_eq!(name, "data_new.txt");
    assert_eq!(steps.len(), 1);
}

#[test]
fn rename_replaces_every_occurrence() {
    let (name, _) = rename_file_name("aXbXc", &vec![rename("X", "YY")]);
    assert_eq!(name, "aYYbYYc");
    let (name, _) = rename_file_name("aaaa", &vec![rename("aa", "b")]);
    assert_eq!(name, "bb");
    let (name, _) = rename_file_name("aaa", &vec![rename("aa", "a")]);
    assert_eq!(name, "aa");
}

#[test]
fn rename_step_without_occurrence_is_skipped() {
    let (name, steps) = rename_file_name("note.txt", &vec![rename("IMG", "PHOTO")]);
    assert_eq!(name, "note.txt");
    assert!(steps.is_empty());
}

#[test]
fn empty_rename_source_is_a_no_op() {
    let (name, steps) = rename_file_name("ab", &vec![rename("", "x")]);
    assert_eq!(name, "ab");
    assert!(steps.is_empty());
}

#[test]
fn no_renames_keeps_the_name() {
    let (name, steps) = rename_file_name("ab.txt", &vec![]);
    assert_eq!(name, "ab.txt");
    assert!(steps.is_empty());
}

#[test]
fn destination_path_joins_directory_and_name() {
    assert_eq!(join_path("./photos", "PHOTO_001.jpg"), "./photos/PHOTO_001.jpg");
    assert_eq!(join_path("photos/", "a.jpg"), "photos/a.jpg");
    assert_eq!(join_path("/tmp/out", "a.jpg"), "/tmp/out/a.jpg");
    assert_eq!(join_path("", "a.jpg"), "a.jpg");
}

#[test]
fn prefix_and_suffix_are_reserved() {
    let config = Config {
        rules: vec![FileRule {
            pattern: "IMG".to_string(),
            renames: vec![],
            prefix: Some("pre_".to_string()),
            suffix: Some("_post".to_string()),
            destination: "out".to_string(),
        }],
    };
    let plan = plan_file(&config, "IMG_1.jpg").unwrap();
    assert_eq!(plan.new_name, "IMG_1.jpg");
    assert_eq!(plan.destination, "out/IMG_1.jpg");
}

#[test]
fn photo_scenario_plan() {
    let config = photo_config();
    let plan = plan_file(&config, "IMG_001.jpg").unwrap();
    assert_eq!(plan.rule_index, 0);
    assert_eq!(plan.new_name, "PHOTO_001.jpg");
    assert_eq!(plan.destination, "./photos/PHOTO_001.jpg");
    assert_eq!(plan.steps.len(), 1);
    assert_eq!(plan.steps[0].before, "IMG_001.jpg");
    assert_eq!(plan.steps[0].after, "PHOTO_001.jpg");
    assert!(plan_file(&config, "note.txt").is_none());
    let summary = summarize(&config, &vec!["IMG_001.jpg".to_string(), "note.txt".to_string()]);
    assert_eq!(summary.processed, 1);
    assert_eq!(summary.total, 2);
}

#[test]
fn photo_scenario_second_run() {
    let config = photo_config();
    assert!(plan_file(&config, "PHOTO_001.jpg").is_none());
    let summary = summarize(&config, &vec!["PHOTO_001.jpg".to_string(), "note.txt".to_string()]);
    assert_eq!(summary.processed, 0);
    assert_eq!(summary.total, 2);
    let summary = summarize(&config, &vec!["note.txt".to_string()]);
    assert_eq!(summary.processed, 0);
    assert_eq!(summary.total, 1);
}

#[test]
fn summary_of_nothing() {
    let summary = summarize(&photo_config(), &vec![]);
    assert_eq!(summary.processed, 0);
    assert_eq!(summary.total, 0);
}
