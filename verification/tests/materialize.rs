use atm::pm::{make_topic_list, save_as_previous_topics};
use atm::topics::{PreviousTopic, TopicManifest};

fn topic(name: &str, enabled: bool, packages: &[&str]) -> TopicManifest {
    TopicManifest {
        name: name.to_string(),
        description: Some(format!("topic {}", name)),
        date: 1600000000,
        arch: vec!["amd64".to_string()],
        packages: packages.iter().map(|p| p.to_string()).collect(),
        enabled,
        closed: false,
    }
}

#[test]
fn topic_list_renders_comment_and_deb_line_per_topic() {
    let topics = vec![topic("gcc", true, &["gcc-12"])];
    let rendered = make_topic_list(&topics);
    assert_eq!(
        rendered,
        "# Topic `gcc`\ndeb https://repo.aosc.io/debs gcc main\n"
    );
}

#[test]
fn topic_list_keeps_input_order() {
    let topics = vec![topic("b", true, &[]), topic("a", true, &[])];
    let rendered = make_topic_list(&topics);
    assert_eq!(
        rendered,
        "# Topic `b`\ndeb https://repo.aosc.io/debs b main\n\
         # Topic `a`\ndeb https://repo.aosc.io/debs a main\n"
    );
}

#[test]
fn topic_list_of_nothing_is_empty() {
    assert_eq!(make_topic_list(&[]), "");
}

#[test]
fn commit_snapshot_holds_one_record_per_enabled_topic() {
    let topics = vec![topic("gcc", true, &["gcc-12"])];
    let snapshot = save_as_previous_topics(&topics);
    assert_eq!(
        snapshot,
        vec![PreviousTopic {
            name: "gcc".to_string(),
            description: Some("topic gcc".to_string()),
            date: 1600000000,
            packages: vec!["gcc-12".to_string()],
        }]
    );
}

#[test]
fn commit_snapshot_drops_disabled_topics() {
    let topics = vec![topic("on", true, &["p"]), topic("off", false, &["q"])];
    let snapshot = save_as_previous_topics(&topics);
    assert_eq!(snapshot.len(), 1);
    assert_eq!(snapshot[0].name, "on");
}
