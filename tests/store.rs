use hostly::error::StoreError;
use hostly::model::{AppConfig, ProfileFile, ProfileMetadata};
use hostly::profiles::{
    bootstrap_config, create_profile_internal, delete_profile_internal, find_profile_id_by_name_internal,
    is_profile_active, list_profiles_internal, read_profile_content, rename_profile_internal,
    upsert_profile_internal, upsert_profiles,
};

fn meta(id: &str, name: &str, active: bool) -> ProfileMetadata {
    ProfileMetadata { id: id.to_string(), name: name.to_string(), active }
}

fn config(multi: bool, profiles: Vec<ProfileMetadata>) -> AppConfig {
    AppConfig { multi_select: multi, profiles, active_profile_ids: Vec::new() }
}

fn names(c: &AppConfig) -> Vec<String> {
    c.profiles.iter().map(|p| p.name.clone()).collect()
}

fn file(id: &str, content: &str) -> ProfileFile {
    ProfileFile { id: id.to_string(), content: content.to_string() }
}

#[test]
fn bootstrap_creates_four_inactive_profiles() {
    let mut writes = Vec::new();
    let c = bootstrap_config(Ok("127.0.0.1 localhost\n".to_string()), &mut writes);
    assert!(!c.multi_select);
    assert_eq!(names(&c), vec!["系统hosts备份", "Dev", "Test", "Prod"]);
    assert!(c.profiles.iter().all(|p| !p.active));
    assert_eq!(writes.len(), 4);
    assert_eq!(writes[0].id, c.profiles[0].id);
    assert_eq!(writes[0].content, "127.0.0.1 localhost\n");
    for k in 1..4 {
        assert_eq!(writes[k].id, c.profiles[k].id);
        assert_eq!(writes[k].content, "");
    }
    let mut ids: Vec<&String> = c.profiles.iter().map(|p| &p.id).collect();
    ids.sort();
    ids.dedup();
    assert_eq!(ids.len(), 4);
}

#[test]
fn bootstrap_marks_unreadable_hosts_file() {
    let mut writes = Vec::new();
    let c = bootstrap_config(Err("permission denied".to_string()), &mut writes);
    assert_eq!(c.profiles.len(), 4);
    assert_eq!(writes[0].content, "# Backup failed");
}

#[test]
fn create_appends_inactive_profile_with_fresh_id() {
    let mut c = config(false, vec![meta("a", "Dev", true)]);
    let mut writes = Vec::new();
    let id = create_profile_internal(&mut c, "Stage".to_string(), Some("1.2.3.4 x\n".to_string()), &mut writes).unwrap();
    assert_eq!(id.len(), 36);
    assert_ne!(id, "a");
    assert_eq!(names(&c), vec!["Dev", "Stage"]);
    assert!(!c.profiles[1].active);
    assert_eq!(c.profiles[1].id, id);
    assert_eq!(writes.len(), 1);
    assert_eq!(writes[0].id, id);
    assert_eq!(writes[0].content, "1.2.3.4 x\n");
}

#[test]
fn create_without_content_writes_empty_document() {
    let mut c = config(false, vec![]);
    let mut writes = Vec::new();
    let id = create_profile_internal(&mut c, "Empty".to_string(), None, &mut writes).unwrap();
    assert_eq!(writes[0].id, id);
    assert_eq!(writes[0].content, "");
}

#[test]
fn create_refuses_duplicate_name() {
    let mut c = config(false, vec![meta("a", "Dev", false)]);
    let mut writes = Vec::new();
    let r = create_profile_internal(&mut c, "Dev".to_string(), None, &mut writes);
    assert!(matches!(r, Err(StoreError::DuplicateName)));
    assert_eq!(c.profiles.len(), 1);
    assert!(writes.is_empty());
}

#[test]
fn duplicate_name_message() {
    assert_eq!(StoreError::DuplicateName.message(), "环境名称已存在 / Profile name already exists");
    assert_eq!(StoreError::InvalidJson("eof".to_string()).message(), "Invalid JSON: eof");
    assert_eq!(StoreError::UnrecognizedFormat("bad".to_string()).message(), "bad");
    assert_eq!(StoreError::MalformedBackup("x".to_string()).message(), "Invalid backup: x");
}

#[test]
fn create_is_case_sensitive() {
    let mut c = config(false, vec![meta("a", "Dev", false)]);
    let mut writes = Vec::new();
    assert!(create_profile_internal(&mut c, "dev".to_string(), None, &mut writes).is_ok());
    assert_eq!(names(&c), vec!["Dev", "dev"]);
}

#[test]
fn rename_changes_name() {
    let mut c = config(false, vec![meta("a", "Dev", false), meta("b", "Test", false)]);
    rename_profile_internal(&mut c, "b", "QA".to_string()).unwrap();
    assert_eq!(names(&c), vec!["Dev", "QA"]);
}

#[test]
fn rename_refuses_name_of_another_profile() {
    let mut c = config(false, vec![meta("a", "Dev", false), meta("b", "Test", false)]);
    let r = rename_profile_internal(&mut c, "b", "Dev".to_string());
    assert!(matches!(r, Err(StoreError::DuplicateName)));
    assert_eq!(names(&c), vec!["Dev", "Test"]);
}

#[test]
fn rename_to_own_name_is_accepted() {
    let mut c = config(false, vec![meta("a", "Dev", false)]);
    assert!(rename_profile_internal(&mut c, "a", "Dev".to_string()).is_ok());
    assert_eq!(names(&c), vec!["Dev"]);
}

#[test]
fn rename_of_unknown_id_is_a_no_op() {
    let mut c = config(false, vec![meta("a", "Dev", false)]);
    assert!(rename_profile_internal(&mut c, "zz", "Other".to_string()).is_ok());
    assert_eq!(names(&c), vec!["Dev"]);
}

#[test]
fn delete_removes_profile_and_tolerates_unknown_id() {
    let mut c = config(false, vec![meta("a", "Dev", false), meta("b", "Test", true)]);
    assert!(delete_profile_internal(&mut c, "a"));
    assert_eq!(names(&c), vec!["Test"]);
    assert!(!delete_profile_internal(&mut c, "a"));
    assert_eq!(names(&c), vec!["Test"]);
}

#[test]
fn find_by_name_is_exact() {
    let c = config(false, vec![meta("a", "Dev", false), meta("b", "Test", false)]);
    assert_eq!(find_profile_id_by_name_internal(&c, "Test"), Some("b".to_string()));
    assert_eq!(find_profile_id_by_name_internal(&c, "test"), None);
}

#[test]
fn upsert_overwrites_existing_profile() {
    let mut c = config(false, vec![meta("a", "Dev", false)]);
    let mut writes = Vec::new();
    let id = upsert_profile_internal(&mut c, "Dev".to_string(), "new".to_string(), &mut writes);
    assert_eq!(id, "a");
    assert_eq!(c.profiles.len(), 1);
    assert_eq!(writes[0].id, "a");
    assert_eq!(writes[0].content, "new");
}

#[test]
fn upsert_creates_missing_profile() {
    let mut c = config(false, vec![meta("a", "Dev", false)]);
    let mut writes = Vec::new();
    let id = upsert_profile_internal(&mut c, "Prod".to_string(), "p".to_string(), &mut writes);
    assert_eq!(names(&c), vec!["Dev", "Prod"]);
    assert_eq!(c.profiles[1].id, id);
    assert_eq!(writes[0].content, "p");
}

#[test]
fn upsert_same_name_twice_keeps_one_profile_with_last_content() {
    let mut c = config(false, vec![]);
    let mut writes = Vec::new();
    let leaves = vec![("X".to_string(), "first".to_string()), ("X".to_string(), "second".to_string())];
    assert_eq!(upsert_profiles(&mut c, &mut writes, &leaves), 2);
    assert_eq!(names(&c), vec!["X"]);
    assert_eq!(read_profile_content(&writes, &c.profiles[0].id), "second");
}

#[test]
fn list_reads_content_by_id_and_defaults_to_empty() {
    let c = config(false, vec![meta("a", "Dev", true), meta("b", "Test", false)]);
    let files = vec![file("a", "old"), file("a", "new")];
    let listed = list_profiles_internal(&c, &files);
    assert_eq!(listed.len(), 2);
    assert_eq!((listed[0].id.as_str(), listed[0].name.as_str(), listed[0].content.as_str(), listed[0].active), ("a", "Dev", "new", true));
    assert_eq!((listed[1].id.as_str(), listed[1].name.as_str(), listed[1].content.as_str(), listed[1].active), ("b", "Test", "", false));
}

#[test]
fn active_check_by_id() {
    let c = config(true, vec![meta("a", "Dev", true), meta("b", "Test", false)]);
    assert!(is_profile_active(&c, "a"));
    assert!(!is_profile_active(&c, "b"));
    assert!(!is_profile_active(&c, "zz"));
}
