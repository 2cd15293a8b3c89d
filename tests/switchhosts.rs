use hostly::error::StoreError;
use hostly::model::{AppConfig, ProfileMetadata};
use hostly::profiles::read_profile_content;
use hostly::switchhosts::import_switchhosts_internal;

fn empty() -> AppConfig {
    AppConfig { multi_select: false, profiles: vec![], active_profile_ids: vec![] }
}

fn content_of(c: &AppConfig, writes: &Vec<hostly::model::ProfileFile>, name: &str) -> String {
    let p = c.profiles.iter().find(|p| p.name == name).unwrap();
    read_profile_content(writes, &p.id)
}

#[test]
fn legacy_tree_with_nested_folder_imports_three() {
    let doc = r#"[{"title":"F","folder":true,"children":[
        {"title":"a","content":"1"},
        {"title":"b","content":"2"},
        {"title":"G","folder":true,"children":[{"title":"c","content":"3"}]}]}]"#;
    let mut c = empty();
    let mut w = Vec::new();
    assert_eq!(import_switchhosts_internal(&mut c, &mut w, doc).unwrap(), 3);
    let names: Vec<&str> = c.profiles.iter().map(|p| p.name.as_str()).collect();
    assert_eq!(names, vec!["a", "b", "c"]);
    assert_eq!(content_of(&c, &w, "c"), "3");
}

#[test]
fn same_title_twice_keeps_last_content() {
    let doc = r#"{"list":[{"title":"x","content":"old"},{"title":"y","type":"folder","children":[{"title":"x","content":"new"}]}]}"#;
    let mut c = empty();
    let mut w = Vec::new();
    assert_eq!(import_switchhosts_internal(&mut c, &mut w, doc).unwrap(), 2);
    assert_eq!(c.profiles.len(), 1);
    assert_eq!(content_of(&c, &w, "x"), "new");
}

#[test]
fn newer_tree_takes_content_from_table_first() {
    let doc = r#"{"data":{
        "collection":{"hosts":{"data":[{"id":"1","content":"from table"}]}},
        "list":{"tree":[
            {"title":"One","type":"local","id":"1","content":"inline"},
            {"title":"Two","id":"2","content":"inline two"},
            {"title":"Dir","type":"folder","children":[{"id":"9"}]}]}}}"#;
    let mut c = empty();
    let mut w = Vec::new();
    assert_eq!(import_switchhosts_internal(&mut c, &mut w, doc).unwrap(), 3);
    assert_eq!(content_of(&c, &w, "One"), "from table");
    assert_eq!(content_of(&c, &w, "Two"), "inline two");
    assert_eq!(content_of(&c, &w, "Unknown"), "");
}

#[test]
fn import_updates_existing_profile_by_title() {
    let mut c = AppConfig {
        multi_select: false,
        profiles: vec![ProfileMetadata { id: "k".to_string(), name: "Dev".to_string(), active: true }],
        active_profile_ids: vec![],
    };
    let mut w = Vec::new();
    assert_eq!(import_switchhosts_internal(&mut c, &mut w, r#"[{"title":"Dev","content":"z"}]"#).unwrap(), 1);
    assert_eq!(c.profiles.len(), 1);
    assert_eq!(read_profile_content(&w, &"k".to_string()), "z");
}

#[test]
fn invalid_json_is_refused() {
    let mut c = empty();
    let mut w = Vec::new();
    let r = import_switchhosts_internal(&mut c, &mut w, "{not json");
    assert!(matches!(r, Err(StoreError::InvalidJson(_))));
    assert!(c.profiles.is_empty() && w.is_empty());
}

#[test]
fn list_that_is_not_an_array_is_refused() {
    let mut c = empty();
    let mut w = Vec::new();
    let r = import_switchhosts_internal(&mut c, &mut w, r#"{"list":5}"#);
    match r {
        Err(StoreError::UnrecognizedFormat(m)) => assert_eq!(m, "Invalid SwitchHosts format: 'list' is not an array"),
        other => panic!("unexpected {:?}", other),
    }
}

#[test]
fn unrecognized_shape_is_refused() {
    let mut c = empty();
    let mut w = Vec::new();
    let r = import_switchhosts_internal(&mut c, &mut w, r#"{"hosts":[]}"#);
    match r {
        Err(StoreError::UnrecognizedFormat(m)) => {
            assert_eq!(m, "Invalid SwitchHosts format: Expected SH v4 structure or a simple array")
        },
        other => panic!("unexpected {:?}", other),
    }
}

#[test]
fn data_without_tree_falls_back_to_list() {
    let mut c = empty();
    let mut w = Vec::new();
    let doc = r#"{"data":{"list":{}},"list":[{"title":"L","content":"l"}]}"#;
    assert_eq!(import_switchhosts_internal(&mut c, &mut w, doc).unwrap(), 1);
    assert_eq!(content_of(&c, &w, "L"), "l");
}

#[test]
fn folder_flag_false_overrides_type() {
    let mut c = empty();
    let mut w = Vec::new();
    let doc = r#"[{"title":"T","folder":false,"type":"folder","content":"t"}]"#;
    assert_eq!(import_switchhosts_internal(&mut c, &mut w, doc).unwrap(), 1);
    assert_eq!(content_of(&c, &w, "T"), "t");
}

#[test]
fn newer_tree_with_nested_folder_imports_three() {
    let doc = r#"{"data":{"collection":{"hosts":{"data":[{"id":"1","content":"x"},{"id":"2","content":"y"},{"id":"3","content":"z"}]}},
        "list":{"tree":[{"title":"F","type":"folder","children":[{"id":"1","title":"a"},{"id":"2","title":"b"},
        {"title":"G","type":"folder","children":[{"id":"3","title":"c"}]}]}]}}}"#;
    let mut c = empty();
    let mut w = Vec::new();
    assert_eq!(import_switchhosts_internal(&mut c, &mut w, doc).unwrap(), 3);
    let names: Vec<&str> = c.profiles.iter().map(|p| p.name.as_str()).collect();
    assert_eq!(names, vec!["a", "b", "c"]);
    assert_eq!(content_of(&c, &w, "a"), "x");
    assert_eq!(content_of(&c, &w, "b"), "y");
    assert_eq!(content_of(&c, &w, "c"), "z");
}
