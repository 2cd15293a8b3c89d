use hostly::model::{AppConfig, ProfileFile, ProfileMetadata};
use hostly::synth::synthesize;

fn meta(id: &str, name: &str, active: bool) -> ProfileMetadata {
    ProfileMetadata { id: id.to_string(), name: name.to_string(), active }
}

fn file(id: &str, content: &str) -> ProfileFile {
    ProfileFile { id: id.to_string(), content: content.to_string() }
}

#[test]
fn common_section_comes_before_profile_section() {
    let c = AppConfig { multi_select: false, profiles: vec![meta("x", "X", true)], active_profile_ids: vec![] };
    let out = synthesize(&c, "A\n", &vec![file("x", "B\n")]);
    assert_eq!(out, "# Generated by Hostly\n\n### Common Config ###\nA\n\n\n### Profile: X ###\nB\n\n\n");
    let common = out.find("### Common Config ###").unwrap();
    let x = out.find("### Profile: X ###").unwrap();
    assert!(common < x);
    assert_eq!(out.matches("### Common Config ###").count(), 1);
    assert_eq!(out.matches("### Profile: X ###").count(), 1);
}

#[test]
fn synthesis_is_idempotent() {
    let c = AppConfig {
        multi_select: true,
        profiles: vec![meta("a", "A", true), meta("b", "B", false), meta("c", "C", true)],
        active_profile_ids: vec![],
    };
    let files = vec![file("a", "1.1.1.1 a"), file("c", "3.3.3.3 c")];
    assert_eq!(synthesize(&c, "common", &files), synthesize(&c, "common", &files));
}

#[test]
fn synthesis_follows_config_order_and_skips_inactive() {
    let c = AppConfig {
        multi_select: true,
        profiles: vec![meta("b", "Second", true), meta("z", "Off", false), meta("a", "First", true)],
        active_profile_ids: vec![],
    };
    let files = vec![file("a", "aa"), file("b", "bb"), file("z", "zz")];
    let out = synthesize(&c, "", &files);
    assert_eq!(out, "# Generated by Hostly\n\n### Common Config ###\n\n\n### Profile: Second ###\nbb\n\n### Profile: First ###\naa\n\n");
}

#[test]
fn missing_content_reads_as_empty() {
    let c = AppConfig { multi_select: false, profiles: vec![meta("q", "Q", true)], active_profile_ids: vec![] };
    let out = synthesize(&c, "", &vec![]);
    assert_eq!(out, "# Generated by Hostly\n\n### Common Config ###\n\n\n### Profile: Q ###\n\n\n");
}

#[test]
fn no_active_profile_gives_common_only() {
    let c = AppConfig { multi_select: false, profiles: vec![meta("q", "Q", false)], active_profile_ids: vec![] };
    assert_eq!(synthesize(&c, "C", &vec![file("q", "x")]), "# Generated by Hostly\n\n### Common Config ###\nC\n\n");
}
