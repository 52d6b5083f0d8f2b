use atm::pm::{close_topics, get_closed_topic, get_display_listing, save_as_previous_topics};
use atm::topics::{PreviousTopic, TopicManifest};

fn topic(name: &str, enabled: bool, packages: &[&str]) -> TopicManifest {
    TopicManifest {
        name: name.to_string(),
        description: None,
        date: 0,
        arch: vec!["amd64".to_string()],
        packages: packages.iter().map(|p| p.to_string()).collect(),
        enabled,
        closed: false,
    }
}

fn prev(name: &str, packages: &[&str]) -> PreviousTopic {
    PreviousTopic {
        name: name.to_string(),
        description: None,
        date: 0,
        packages: packages.iter().map(|p| p.to_string()).collect(),
    }
}

fn strings(v: &[&str]) -> Vec<String> {
    v.iter().map(|s| s.to_string()).collect()
}

#[test]
fn closed_topics_are_the_persisted_only_entries() {
    let current = vec![topic("gcc", false, &["gcc-12"])];
    let previous = vec![prev("gcc", &["gcc-12"]), prev("old-topic", &["foo"])];
    let closed = get_closed_topic(&current, &previous);
    assert_eq!(closed, vec![prev("old-topic", &["foo"])]);
}

#[test]
fn closed_topics_empty_when_history_empty() {
    let current = vec![topic("gcc", false, &["gcc-12"])];
    let closed = get_closed_topic(&current, &vec![]);
    assert!(closed.is_empty());
}

#[test]
fn closed_topics_preserve_persisted_order() {
    let current = vec![topic("kept", true, &[])];
    let previous = vec![prev("b", &[]), prev("kept", &[]), prev("a", &[])];
    let closed = get_closed_topic(&current, &previous);
    assert_eq!(closed, vec![prev("b", &[]), prev("a", &[])]);
}

#[test]
fn display_listing_end_to_end_scenario() {
    let current = vec![topic("gcc", false, &["gcc-12"])];
    let previous = vec![prev("gcc", &["gcc-12"]), prev("old-topic", &["foo"])];
    let listing = get_display_listing(current, &previous);
    assert_eq!(listing.len(), 2);
    // Synthesized closed entry first.
    assert_eq!(listing[0].name, "old-topic");
    assert!(listing[0].closed);
    assert!(!listing[0].enabled);
    assert!(listing[0].arch.is_empty());
    assert_eq!(listing[0].packages, strings(&["foo"]));
    // Then the current entry, enabled because the snapshot names it.
    assert_eq!(listing[1].name, "gcc");
    assert!(listing[1].enabled);
    assert!(!listing[1].closed);
    assert_eq!(listing[1].packages, strings(&["gcc-12"]));
}

#[test]
fn display_listing_length_counts_both_sources() {
    let current = vec![topic("a", false, &[]), topic("b", true, &[])];
    let previous = vec![prev("b", &[]), prev("gone", &[]), prev("gone-too", &[])];
    let listing = get_display_listing(current, &previous);
    // |current| + |persisted-only| = 2 + 2.
    assert_eq!(listing.len(), 4);
}

#[test]
fn display_listing_marks_common_names_enabled() {
    let current = vec![topic("a", false, &[]), topic("b", false, &[])];
    let previous = vec![prev("b", &[])];
    let listing = get_display_listing(current, &previous);
    assert_eq!(listing.len(), 2);
    assert_eq!(listing[0].name, "a");
    assert!(!listing[0].enabled);
    assert_eq!(listing[1].name, "b");
    assert!(listing[1].enabled);
}

#[test]
fn display_listing_of_empty_current_is_all_closed() {
    let previous = vec![prev("x", &["p1"]), prev("y", &[])];
    let listing = get_display_listing(vec![], &previous);
    assert_eq!(listing.len(), 2);
    for entry in &listing {
        assert!(entry.closed);
        assert!(!entry.enabled);
        assert!(entry.arch.is_empty());
    }
}

#[test]
fn repeated_commit_does_not_drift() {
    let make_current = || vec![topic("gcc", true, &["gcc-12"]), topic("llvm", false, &[])];
    let previous = vec![prev("gcc", &["gcc-12"]), prev("old-topic", &["foo"])];
    let listing = get_display_listing(make_current(), &previous);
    let enabled: Vec<TopicManifest> = listing
        .into_iter()
        .filter(|t| t.enabled && !t.closed)
        .collect();
    let snapshot = save_as_previous_topics(&enabled);
    let listing2 = get_display_listing(make_current(), &snapshot);
    let enabled2: Vec<TopicManifest> = listing2
        .into_iter()
        .filter(|t| t.enabled && !t.closed)
        .collect();
    let snapshot2 = save_as_previous_topics(&enabled2);
    assert_eq!(snapshot2, snapshot);
}

#[test]
fn revert_set_lists_installed_packages_of_closed_topics() {
    let closed = vec![topic("t", false, &["a", "b"])];
    let installed = strings(&["a"]);
    assert_eq!(close_topics(&closed, &installed), strings(&["a/stable"]));
    let installed = strings(&["a", "b"]);
    assert_eq!(
        close_topics(&closed, &installed),
        strings(&["a/stable", "b/stable"])
    );
}

#[test]
fn revert_set_keeps_duplicates_across_topics() {
    let closed = vec![topic("t1", false, &["a"]), topic("t2", false, &["a"])];
    let installed = strings(&["a"]);
    assert_eq!(
        close_topics(&closed, &installed),
        strings(&["a/stable", "a/stable"])
    );
}

#[test]
fn revert_set_empty_when_nothing_installed() {
    let closed = vec![topic("t", false, &["a", "b"])];
    assert!(close_topics(&closed, &vec![]).is_empty());
}
