use hostly::model::{AppConfig, ProfileMetadata};
use hostly::selection::{set_multi_select_internal, toggle_profile_active_internal};

fn config(multi: bool, flags: &[(&str, &str, bool)]) -> AppConfig {
    AppConfig {
        multi_select: multi,
        profiles: flags
            .iter()
            .map(|(id, name, active)| ProfileMetadata { id: id.to_string(), name: name.to_string(), active: *active })
            .collect(),
        active_profile_ids: Vec::new(),
    }
}

fn active(c: &AppConfig) -> Vec<bool> {
    c.profiles.iter().map(|p| p.active).collect()
}

#[test]
fn single_select_click_activates_exclusively() {
    let mut c = config(false, &[("a", "Dev", true), ("b", "Test", false), ("c", "Prod", false)]);
    toggle_profile_active_internal(&mut c, "b");
    assert_eq!(active(&c), vec![false, true, false]);
}

#[test]
fn single_select_click_on_active_deactivates_all() {
    let mut c = config(false, &[("a", "Dev", false), ("b", "Test", true)]);
    toggle_profile_active_internal(&mut c, "b");
    assert_eq!(active(&c), vec![false, false]);
}

#[test]
fn single_select_click_on_unknown_id_deactivates_all() {
    let mut c = config(false, &[("a", "Dev", true), ("b", "Test", false)]);
    toggle_profile_active_internal(&mut c, "zz");
    assert_eq!(active(&c), vec![false, false]);
}

#[test]
fn multi_select_click_flips_only_target() {
    let mut c = config(true, &[("a", "Dev", true), ("b", "Test", false), ("c", "Prod", true)]);
    toggle_profile_active_internal(&mut c, "b");
    assert_eq!(active(&c), vec![true, true, true]);
    toggle_profile_active_internal(&mut c, "a");
    assert_eq!(active(&c), vec![false, true, true]);
    toggle_profile_active_internal(&mut c, "zz");
    assert_eq!(active(&c), vec![false, true, true]);
}

#[test]
fn leaving_multi_select_keeps_first_active() {
    let mut c = config(true, &[("a", "Dev", false), ("b", "Test", true), ("c", "Prod", true)]);
    set_multi_select_internal(&mut c, false);
    assert!(!c.multi_select);
    assert_eq!(active(&c), vec![false, true, false]);
}

#[test]
fn entering_multi_select_repairs_nothing() {
    let mut c = config(false, &[("a", "Dev", true), ("b", "Test", true)]);
    set_multi_select_internal(&mut c, true);
    assert!(c.multi_select);
    assert_eq!(active(&c), vec![true, true]);
}

#[test]
fn dev_and_test_then_single_keeps_dev() {
    let mut c = config(false, &[("s", "系统hosts备份", false), ("d", "Dev", false), ("t", "Test", false), ("p", "Prod", false)]);
    set_multi_select_internal(&mut c, true);
    toggle_profile_active_internal(&mut c, "t");
    toggle_profile_active_internal(&mut c, "d");
    assert_eq!(active(&c), vec![false, true, true, false]);
    set_multi_select_internal(&mut c, false);
    assert_eq!(active(&c), vec![false, true, false, false]);
}

#[test]
fn single_select_never_leaves_two_active() {
    let mut c = config(false, &[("a", "A", false), ("b", "B", false), ("c", "C", false)]);
    for id in ["a", "b", "b", "c", "a", "a", "c"] {
        toggle_profile_active_internal(&mut c, id);
        assert!(active(&c).iter().filter(|x| **x).count() <= 1);
    }
}
