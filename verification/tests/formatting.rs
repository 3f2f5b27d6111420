use gdvm::listing::{
    format_records, format_releases_list, newest_per_major, read_version, release_report, report,
    stable_list,
};
use gdvm::release::Release;
use gdvm::version::{is_newer, sort_descending, Version};
use serde_json::Value;

const FOOTER: &str =
    "This is a partial list. For a complete list, visit: https://godotengine.org/download/archive/";

fn values(text: &str) -> Vec<Value> {
    let document: Value = serde_json::from_str(text).unwrap();
    document.as_array().unwrap().clone()
}

fn release(tag: Option<&str>, prerelease: Option<bool>, draft: Option<bool>) -> Release {
    Release { tag_name: tag.map(|t| t.to_string()), prerelease, draft }
}

fn version(major: u32, minor: u32, patch: u32, text: &str) -> Version {
    (major, minor, patch, text.to_string())
}

#[test]
fn listing_of_the_example() {
    let list = values(
        r#"[
            {"tag_name": "4.2.1-stable", "prerelease": false, "draft": false},
            {"tag_name": "4.2.0-stable", "prerelease": false, "draft": false},
            {"tag_name": "4.1.3-stable", "prerelease": false, "draft": false},
            {"tag_name": "4.2.2-stable", "prerelease": true, "draft": false}
        ]"#,
    );
    let versions = format_releases_list(list);
    assert_eq!(
        versions,
        vec![version(4, 2, 1, "4.2.1"), version(4, 2, 0, "4.2.0"), version(4, 1, 3, "4.1.3")]
    );
    assert_eq!(newest_per_major(&versions), vec!["4.2.1", "4.2.0", "4.1.3"]);
    assert_eq!(report(&versions), vec!["", "4.2.1", "4.2.0", "4.1.3", "", FOOTER]);
}

#[test]
fn report_of_the_example() {
    let list = values(
        r#"[
            {"tag_name": "4.2.1-stable", "prerelease": false, "draft": false},
            {"tag_name": "4.2.0-stable", "prerelease": false, "draft": false},
            {"tag_name": "4.1.3-stable", "prerelease": false, "draft": false},
            {"tag_name": "4.2.2-stable", "prerelease": true, "draft": false}
        ]"#,
    );
    assert_eq!(release_report(list), vec!["", "4.2.1", "4.2.0", "4.1.3", "", FOOTER]);
}

#[test]
fn report_of_nothing() {
    assert_eq!(release_report(Vec::new()), vec!["", "", FOOTER]);
    assert_eq!(report(&Vec::new()), vec!["", "", FOOTER]);
}

#[test]
fn record_is_read_from_json() {
    let list = values(
        r#"[
            {"tag_name": "4.2.1-stable", "prerelease": false, "draft": true, "name": "x"},
            {"tag_name": 7, "prerelease": "false", "draft": null},
            {},
            [1, 2],
            "tag_name"
        ]"#,
    );
    let first = Release::from_json(&list[0]);
    assert_eq!(first.tag_name, Some("4.2.1-stable".to_string()));
    assert_eq!(first.prerelease, Some(false));
    assert_eq!(first.draft, Some(true));
    for other in &list[1..] {
        let record = Release::from_json(other);
        assert_eq!(record.tag_name, None);
        assert_eq!(record.prerelease, None);
        assert_eq!(record.draft, None);
    }
}

#[test]
fn stable_means_both_flags_false() {
    assert!(release(Some("1"), Some(false), Some(false)).is_stable());
    assert!(release(None, Some(false), Some(false)).is_stable());
    assert!(!release(Some("1"), Some(true), Some(false)).is_stable());
    assert!(!release(Some("1"), Some(false), Some(true)).is_stable());
    assert!(!release(Some("1"), None, Some(false)).is_stable());
    assert!(!release(Some("1"), Some(false), None).is_stable());
    assert!(!release(Some("1"), None, None).is_stable());
}

#[test]
fn prereleases_and_drafts_are_excluded() {
    let list = values(
        r#"[
            {"tag_name": "1.0-stable", "prerelease": true, "draft": false},
            {"tag_name": "2.0-stable", "prerelease": false, "draft": true},
            {"tag_name": "3.0-stable", "prerelease": true, "draft": true},
            {"tag_name": "4.0-stable", "prerelease": false, "draft": false}
        ]"#,
    );
    assert_eq!(format_releases_list(list), vec![version(4, 0, 0, "4.0")]);
}

#[test]
fn records_with_missing_or_other_flags_are_excluded() {
    let list = values(
        r#"[
            {"tag_name": "1.0-stable", "draft": false},
            {"tag_name": "2.0-stable", "prerelease": false},
            {"tag_name": "3.0-stable"},
            {"tag_name": "4.0-stable", "prerelease": "false", "draft": false},
            {"tag_name": "5.0-stable", "prerelease": false, "draft": 0},
            {"tag_name": "6.0-stable", "prerelease": null, "draft": false},
            7,
            {"tag_name": "8.0-stable", "prerelease": false, "draft": false}
        ]"#,
    );
    assert_eq!(format_releases_list(list), vec![version(8, 0, 0, "8.0")]);
}

#[test]
fn records_without_a_text_tag_are_excluded() {
    let list = values(
        r#"[
            {"prerelease": false, "draft": false},
            {"tag_name": 4, "prerelease": false, "draft": false},
            {"tag_name": null, "prerelease": false, "draft": false},
            {"tag_name": "", "prerelease": false, "draft": false}
        ]"#,
    );
    assert_eq!(format_releases_list(list), vec![version(0, 0, 0, "")]);
}

#[test]
fn unreadable_tags_become_zero_versions() {
    let list = values(
        r#"[
            {"tag_name": "nightly", "prerelease": false, "draft": false},
            {"tag_name": "4.x-stable", "prerelease": false, "draft": false}
        ]"#,
    );
    assert_eq!(
        format_releases_list(list),
        vec![version(4, 0, 0, "4.x"), version(0, 0, 0, "nightly")]
    );
}

#[test]
fn version_is_read_from_a_tag() {
    assert_eq!(read_version("4.2.1-stable"), version(4, 2, 1, "4.2.1"));
    assert_eq!(read_version("3-stable.5"), version(3, 5, 0, "3.5"));
    assert_eq!(read_version("4.3-rc1"), version(4, 0, 0, "4.3-rc1"));
}

#[test]
fn stable_list_keeps_the_order_of_the_records() {
    let records = vec![
        release(Some("1.0-stable"), Some(false), Some(false)),
        release(Some("3.0-stable"), Some(true), Some(false)),
        release(Some("2.0-stable"), Some(false), Some(false)),
        release(None, Some(false), Some(false)),
    ];
    assert_eq!(stable_list(&records), vec![version(1, 0, 0, "1.0"), version(2, 0, 0, "2.0")]);
    assert_eq!(format_records(&records), vec![version(2, 0, 0, "2.0"), version(1, 0, 0, "1.0")]);
}

#[test]
fn newer_goes_by_major_then_minor_then_patch() {
    assert!(is_newer(&version(2, 0, 0, "a"), &version(1, 9, 9, "b")));
    assert!(is_newer(&version(1, 2, 0, "a"), &version(1, 1, 9, "b")));
    assert!(is_newer(&version(1, 1, 2, "a"), &version(1, 1, 1, "b")));
    assert!(!is_newer(&version(1, 1, 1, "z"), &version(1, 1, 1, "a")));
    assert!(!is_newer(&version(1, 9, 9, "a"), &version(2, 0, 0, "b")));
}

#[test]
fn versions_are_sorted_newest_first() {
    let sorted = sort_descending(vec![
        version(3, 5, 0, "3.5"),
        version(4, 0, 1, "4.0.1"),
        version(3, 5, 2, "3.5.2"),
        version(4, 1, 0, "4.1"),
        version(0, 0, 0, "old"),
        version(4, 0, 10, "4.0.10"),
    ]);
    assert_eq!(
        sorted,
        vec![
            version(4, 1, 0, "4.1"),
            version(4, 0, 10, "4.0.10"),
            version(4, 0, 1, "4.0.1"),
            version(3, 5, 2, "3.5.2"),
            version(3, 5, 0, "3.5"),
            version(0, 0, 0, "old"),
        ]
    );
}

#[test]
fn equal_versions_keep_their_order() {
    let sorted = sort_descending(vec![
        version(1, 0, 0, "b"),
        version(2, 0, 0, "x"),
        version(1, 0, 0, "c"),
        version(1, 0, 0, "a"),
        version(2, 0, 0, "w"),
    ]);
    assert_eq!(
        sorted,
        vec![
            version(2, 0, 0, "x"),
            version(2, 0, 0, "w"),
            version(1, 0, 0, "b"),
            version(1, 0, 0, "c"),
            version(1, 0, 0, "a"),
        ]
    );
}

#[test]
fn sorting_nothing_gives_nothing() {
    assert_eq!(sort_descending(Vec::new()), Vec::<Version>::new());
}

#[test]
fn at_most_three_of_a_major_line() {
    let versions = vec![
        version(4, 3, 0, "4.3"),
        version(4, 2, 2, "4.2.2"),
        version(4, 2, 1, "4.2.1"),
        version(4, 2, 0, "4.2"),
        version(4, 1, 0, "4.1"),
        version(3, 6, 0, "3.6"),
        version(3, 5, 3, "3.5.3"),
        version(2, 1, 6, "2.1.6"),
        version(1, 1, 0, "1.1"),
        version(1, 0, 3, "1.0.3"),
        version(1, 0, 2, "1.0.2"),
        version(1, 0, 1, "1.0.1"),
    ];
    assert_eq!(
        newest_per_major(&versions),
        vec!["4.3", "4.2.2", "4.2.1", "3.6", "3.5.3", "2.1.6", "1.1", "1.0.3", "1.0.2"]
    );
}

#[test]
fn a_major_line_that_returns_starts_a_new_run() {
    let versions = vec![
        version(1, 0, 0, "a"),
        version(1, 0, 0, "b"),
        version(1, 0, 0, "c"),
        version(1, 0, 0, "d"),
        version(2, 0, 0, "e"),
        version(1, 0, 0, "f"),
    ];
    assert_eq!(newest_per_major(&versions), vec!["a", "b", "c", "e", "f"]);
}

#[test]
fn shown_text_is_the_tag_without_marker() {
    let list = values(
        r#"[
            {"tag_name": "v4.2-stable", "prerelease": false, "draft": false},
            {"tag_name": "4.1.0.0-stable", "prerelease": false, "draft": false}
        ]"#,
    );
    assert_eq!(release_report(list), vec!["", "4.1.0.0", "v4.2", "", FOOTER]);
}
