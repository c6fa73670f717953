use folder_admin::CONFIG_FILE_NAME;
use folder_admin::ConfigError;
use folder_admin::admin::DirEntry;
use folder_admin::admin::FolderAdministrator;
use folder_admin::rules::SubdirRule;
use folder_admin::rules::rule_from_json;
use folder_admin::rules::rule_to_json;
use folder_admin::rules::rules_from_json;
use folder_admin::rules::rules_to_json;
use folder_admin::text::file_extension;

fn rule(dirname: &str, extensions: &[&str]) -> SubdirRule {
    SubdirRule::new(
        dirname.to_string(),
        extensions.iter().map(|e| e.to_string()).collect(),
    )
}

fn admin_from(text: &str) -> FolderAdministrator {
    FolderAdministrator::load_from_str(text, false).expect("configuration should load")
}

fn entry(name: &str, is_file: bool) -> DirEntry {
    DirEntry { name: name.to_string(), is_file }
}

#[test]
fn load_simple_config() {
    let a = admin_from(r#"[{"dirname":"docs","extensions":["pdf","txt"]}]"#);
    assert_eq!(a.config.len(), 1);
    assert_eq!(a.config[0].dirname, "docs");
    assert_eq!(a.config[0].extensions, vec!["pdf".to_string(), "txt".to_string()]);
    assert_eq!(a.file_ignore_list, vec![CONFIG_FILE_NAME.to_string()]);
    assert!(!a.verbose);
}

#[test]
fn empty_config_plans_nothing() {
    let a = admin_from("[]");
    assert!(a.config.is_empty());
    assert!(a.dirs_to_create(&Vec::new()).is_empty());
    assert!(a.plan_moves(&vec![entry("notes.txt", true)]).is_empty());
}

#[test]
fn invalid_json_is_malformed() {
    let r = FolderAdministrator::load_from_str("not json at all", false);
    assert_eq!(r.err(), Some(ConfigError::Malformed));
}

#[test]
fn non_array_top_level_is_malformed() {
    let r = FolderAdministrator::load_from_str(r#"{"not":"an array"}"#, false);
    assert_eq!(r.err(), Some(ConfigError::Malformed));
}

#[test]
fn missing_dirname_is_malformed() {
    let r = FolderAdministrator::load_from_str(r#"[{"extensions":["pdf"]}]"#, false);
    assert_eq!(r.err(), Some(ConfigError::Malformed));
}

#[test]
fn missing_extensions_is_malformed() {
    let r = FolderAdministrator::load_from_str(r#"[{"dirname":"docs"}]"#, false);
    assert_eq!(r.err(), Some(ConfigError::Malformed));
}

#[test]
fn wrong_typed_fields_are_malformed() {
    let r = FolderAdministrator::load_from_str(r#"[{"dirname":7,"extensions":["pdf"]}]"#, false);
    assert_eq!(r.err(), Some(ConfigError::Malformed));
    let r = FolderAdministrator::load_from_str(r#"[{"dirname":"d","extensions":"pdf"}]"#, false);
    assert_eq!(r.err(), Some(ConfigError::Malformed));
    let r = FolderAdministrator::load_from_str(r#"[{"dirname":"d","extensions":["pdf",3]}]"#, false);
    assert_eq!(r.err(), Some(ConfigError::Malformed));
}

#[test]
fn uppercase_extension_moves_with_case_preserved() {
    let a = admin_from(r#"[{"dirname":"docs","extensions":["pdf"]}]"#);
    assert_eq!(a.classify("report.PDF"), Some("docs".to_string()));
    let plan = a.plan_moves(&vec![entry("report.PDF", true)]);
    assert_eq!(plan.len(), 1);
    assert_eq!(plan[0].filename, "report.PDF");
    assert_eq!(plan[0].dest_dir, "docs");
}

#[test]
fn stored_extension_case_is_not_folded() {
    let a = admin_from(r#"[{"dirname":"docs","extensions":["PDF"]}]"#);
    assert_eq!(a.classify("report.pdf"), None);
    assert_eq!(a.classify("report.PDF"), None);
}

#[test]
fn no_extension_is_left_in_place() {
    let a = admin_from(r#"[{"dirname":"docs","extensions":["pdf","archive"]}]"#);
    assert_eq!(a.classify("archive"), None);
    assert!(a.plan_moves(&vec![entry("archive", true)]).is_empty());
}

#[test]
fn hidden_file_has_no_extension() {
    let a = admin_from(r#"[{"dirname":"g","extensions":["gitignore"]}]"#);
    assert_eq!(file_extension(".gitignore"), None);
    assert!(a.plan_moves(&vec![entry(".gitignore", true)]).is_empty());
}

#[test]
fn extension_is_after_last_dot() {
    assert_eq!(file_extension("a.tar.gz"), Some("gz".to_string()));
    assert_eq!(file_extension("name"), None);
    let a = admin_from(r#"[{"dirname":"zips","extensions":["gz"]}]"#);
    assert_eq!(a.classify("a.tar.gz"), Some("zips".to_string()));
}

#[test]
fn config_file_is_never_moved() {
    let a = admin_from(r#"[{"dirname":"j","extensions":["json"]}]"#);
    let plan = a.plan_moves(&vec![entry(CONFIG_FILE_NAME, true)]);
    assert!(plan.is_empty());
    let plan = a.plan_moves(&vec![entry(CONFIG_FILE_NAME, true), entry("other.json", true)]);
    assert_eq!(plan.len(), 1);
    assert_eq!(plan[0].filename, "other.json");
}

#[test]
fn directories_are_not_classified() {
    let a = admin_from(r#"[{"dirname":"docs","extensions":["pdf"]}]"#);
    assert!(a.plan_moves(&vec![entry("folder.pdf", false)]).is_empty());
}

#[test]
fn overlapping_rules_first_match_wins() {
    let a = admin_from(
        r#"[{"dirname":"a","extensions":["txt"]},{"dirname":"b","extensions":["txt"]}]"#,
    );
    let plan = a.plan_moves(&vec![entry("notes.txt", true)]);
    assert_eq!(plan.len(), 1);
    assert_eq!(plan[0].dest_dir, "a");
}

#[test]
fn second_listed_extension_matches() {
    let a = admin_from(r#"[{"dirname":"m","extensions":["png","jpg"]}]"#);
    assert_eq!(a.classify("photo.jpg"), Some("m".to_string()));
}

#[test]
fn create_dirs_is_idempotent() {
    let a = admin_from(
        r#"[{"dirname":"a","extensions":["x"]},{"dirname":"b","extensions":["y"]},{"dirname":"a","extensions":["z"]}]"#,
    );
    let mut existing: Vec<String> = Vec::new();
    let first = a.dirs_to_create(&existing);
    assert_eq!(first, vec!["a".to_string(), "b".to_string()]);
    existing.extend(first);
    let second = a.dirs_to_create(&existing);
    assert!(second.is_empty());
}

#[test]
fn dirs_to_create_skips_existing() {
    let a = admin_from(
        r#"[{"dirname":"a","extensions":["x"]},{"dirname":"b","extensions":["y"]}]"#,
    );
    assert_eq!(a.dirs_to_create(&vec!["a".to_string()]), vec!["b".to_string()]);
}

#[test]
fn one_rule_round_trips_through_json() {
    let r = rule("docs", &["pdf", "TXT"]);
    let j = rule_to_json(&r);
    assert_eq!(rule_from_json(&j), Some(rule("docs", &["pdf", "TXT"])));
}

#[test]
fn rules_round_trip_through_json() {
    let rs = vec![
        rule("docs", &["pdf", "TXT"]),
        rule("pics", &["png"]),
        rule("misc", &[]),
    ];
    let doc = rules_to_json(&rs);
    let back = rules_from_json(&doc).expect("written rules should read back");
    assert_eq!(back, rs);
}

#[test]
fn rules_round_trip_through_config_text() {
    let rs = vec![rule("docs", &["pdf", "TXT"]), rule("pics", &["png", "jpeg"])];
    let mut text = String::from("[");
    for (i, r) in rs.iter().enumerate() {
        if i > 0 {
            text.push(',');
        }
        let exts: Vec<String> = r.extensions.iter().map(|e| format!("\"{}\"", e)).collect();
        text.push_str(&format!(
            "{{\"dirname\":\"{}\",\"extensions\":[{}]}}",
            r.dirname,
            exts.join(",")
        ));
    }
    text.push(']');
    let a = admin_from(&text);
    assert_eq!(a.config, rs);
}
