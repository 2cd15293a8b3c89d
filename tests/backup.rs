use hostly::error::StoreError;
use hostly::backup::{build_backup, export_data_internal, import_data_internal, BACKUP_VERSION};
use hostly::model::{AppConfig, FullBackup, ProfileData, ProfileFile, ProfileMetadata};
use hostly::profiles::read_profile_content;

fn meta(id: &str, name: &str, active: bool) -> ProfileMetadata {
    ProfileMetadata { id: id.to_string(), name: name.to_string(), active }
}

fn file(id: &str, content: &str) -> ProfileFile {
    ProfileFile { id: id.to_string(), content: content.to_string() }
}

fn sample() -> AppConfig {
    AppConfig {
        multi_select: true,
        profiles: vec![meta("a", "Dev", true), meta("b", "Test", false), meta("c", "Prod", true)],
        active_profile_ids: vec![],
    }
}

fn same_config(x: &AppConfig, y: &AppConfig) -> bool {
    x.multi_select == y.multi_select
        && x.active_profile_ids == y.active_profile_ids
        && x.profiles.len() == y.profiles.len()
        && x.profiles.iter().zip(y.profiles.iter()).all(|(p, q)| p.id == q.id && p.name == q.name && p.active == q.active)
}

#[test]
fn export_captures_every_profile() {
    let c = sample();
    let files = vec![file("a", "1.1.1.1 a"), file("c", "3.3.3.3 c")];
    let b = build_backup(&c, &files, "2024-01-01T00:00:00+00:00".to_string());
    assert_eq!(b.version, 2);
    assert_eq!(b.timestamp, "2024-01-01T00:00:00+00:00");
    assert!(same_config(&b.config, &c));
    assert!(b.profiles_content.is_none());
    let records = b.profiles.unwrap();
    let seen: Vec<(&str, &str, &str, bool)> =
        records.iter().map(|r| (r.id.as_str(), r.name.as_str(), r.content.as_str(), r.active)).collect();
    assert_eq!(seen, vec![("a", "Dev", "1.1.1.1 a", true), ("b", "Test", "", false), ("c", "Prod", "3.3.3.3 c", true)]);
}

#[test]
fn export_is_stamped_now() {
    let b = export_data_internal(&sample(), &vec![]);
    assert_eq!(b.version, BACKUP_VERSION);
    assert!(b.timestamp.len() >= 20);
    assert!(b.timestamp.contains('T'));
}

#[test]
fn import_of_export_round_trips() {
    let c = sample();
    let files = vec![file("a", "1.1.1.1 a"), file("b", "2.2.2.2 b"), file("c", "3.3.3.3 c")];
    let b = build_backup(&c, &files, "t".to_string());
    let mut disk = vec![file("a", "stale"), file("x", "other")];
    let restored = import_data_internal(b, &mut disk).unwrap();
    assert!(same_config(&restored, &c));
    for p in &c.profiles {
        assert_eq!(read_profile_content(&disk, &p.id), read_profile_content(&files, &p.id));
    }
}

#[test]
fn legacy_table_imports_like_records() {
    let config = sample();
    let current = FullBackup {
        version: 2,
        timestamp: "t".to_string(),
        config: config.clone(),
        profiles: Some(vec![
            ProfileData { id: "a".to_string(), name: "Dev".to_string(), content: "A".to_string(), active: true },
            ProfileData { id: "c".to_string(), name: "Prod".to_string(), content: "C".to_string(), active: true },
        ]),
        profiles_content: None,
    };
    let legacy = FullBackup {
        version: 1,
        timestamp: "t".to_string(),
        config: config.clone(),
        profiles: None,
        profiles_content: Some(vec![file("c", "C"), file("a", "A")]),
    };
    let mut w1 = vec![file("b", "B")];
    let mut w2 = vec![file("b", "B")];
    let c1 = import_data_internal(current, &mut w1).unwrap();
    let c2 = import_data_internal(legacy, &mut w2).unwrap();
    assert!(same_config(&c1, &c2));
    for id in ["a", "b", "c", "zz"] {
        let id = id.to_string();
        assert_eq!(read_profile_content(&w1, &id), read_profile_content(&w2, &id));
    }
    assert_eq!(read_profile_content(&w2, &"a".to_string()), "A");
}

#[test]
fn import_replaces_config_wholesale() {
    let backup = FullBackup {
        version: 2,
        timestamp: "t".to_string(),
        config: AppConfig { multi_select: false, profiles: vec![meta("n", "Only", false)], active_profile_ids: vec![] },
        profiles: None,
        profiles_content: None,
    };
    let mut writes = Vec::new();
    let c = import_data_internal(backup, &mut writes).unwrap();
    assert_eq!(c.profiles.len(), 1);
    assert_eq!(c.profiles[0].name, "Only");
    assert!(writes.is_empty());
}

#[test]
fn backup_with_duplicate_names_is_refused() {
    let backup = FullBackup {
        version: 2,
        timestamp: "t".to_string(),
        config: AppConfig {
            multi_select: true,
            profiles: vec![meta("1", "a", false), meta("2", "a", false)],
            active_profile_ids: vec![],
        },
        profiles: Some(vec![ProfileData { id: "1".to_string(), name: "a".to_string(), content: "x".to_string(), active: false }]),
        profiles_content: None,
    };
    let mut writes = Vec::new();
    let r = import_data_internal(backup, &mut writes);
    assert!(matches!(r, Err(StoreError::MalformedBackup(_))));
    assert!(writes.is_empty());
}

#[test]
fn backup_with_duplicate_ids_or_two_active_in_single_mode_is_refused() {
    let dup_ids = FullBackup {
        version: 2,
        timestamp: "t".to_string(),
        config: AppConfig { multi_select: true, profiles: vec![meta("1", "a", false), meta("1", "b", false)], active_profile_ids: vec![] },
        profiles: None,
        profiles_content: None,
    };
    assert!(matches!(import_data_internal(dup_ids, &mut Vec::new()), Err(StoreError::MalformedBackup(_))));
    let two_active = FullBackup {
        version: 2,
        timestamp: "t".to_string(),
        config: AppConfig { multi_select: false, profiles: vec![meta("1", "a", true), meta("2", "b", true)], active_profile_ids: vec![] },
        profiles: None,
        profiles_content: None,
    };
    assert!(matches!(import_data_internal(two_active, &mut Vec::new()), Err(StoreError::MalformedBackup(_))));
}
