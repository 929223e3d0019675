use cognitio::events::apply_config_reload;
use cognitio::events::check_if_path_exists;
use cognitio::events::classify_fs_notification;
use cognitio::events::classify_notification;
use cognitio::events::event_label;
use cognitio::events::make_file_event;
use cognitio::events::route_event;
use cognitio::events::ChangeKind;
use cognitio::events::FileEvent;
use cognitio::events::RawEventKind;
use cognitio::events::RoutedEvent;
use cognitio::model::CheatsheetData;
use cognitio::model::CognitioConfig;

const CONFIG_PATH: &str = "/home/user/.config/cognitio/cognitio.yaml";

#[test]
fn create_and_remove_map_directly() {
    assert_eq!(
        classify_notification(&RawEventKind::Create, true),
        Some(ChangeKind::Created)
    );
    assert_eq!(
        classify_notification(&RawEventKind::Create, false),
        Some(ChangeKind::Created)
    );
    assert_eq!(
        classify_notification(&RawEventKind::Remove, true),
        Some(ChangeKind::Removed)
    );
}

#[test]
fn modify_of_vanished_path_is_removed() {
    assert_eq!(
        classify_notification(&RawEventKind::Modify, false),
        Some(ChangeKind::Removed)
    );
    assert_eq!(
        classify_notification(&RawEventKind::Modify, true),
        Some(ChangeKind::Modified)
    );
}

#[test]
fn other_kinds_yield_nothing() {
    assert_eq!(classify_notification(&RawEventKind::Other, true), None);
    assert_eq!(classify_notification(&RawEventKind::Other, false), None);
}

#[test]
fn classification_consults_the_filesystem() {
    // The root directory exists; a modification of it stays a modification.
    assert_eq!(
        classify_fs_notification(&RawEventKind::Modify, "/"),
        Some(ChangeKind::Modified)
    );
    // A path that no longer exists turns a modification into a removal.
    assert_eq!(
        classify_fs_notification(&RawEventKind::Modify, "/no/such/path/cognitio-gone.md"),
        Some(ChangeKind::Removed)
    );
}

#[test]
fn existence_check_answers_both_ways() {
    assert!(check_if_path_exists("/"));
    assert!(!check_if_path_exists("/no/such/path/cognitio-gone.md"));
}

#[test]
fn event_labels() {
    assert_eq!(event_label(&ChangeKind::Created), "create");
    assert_eq!(event_label(&ChangeKind::Modified), "modify");
    assert_eq!(event_label(&ChangeKind::Removed), "remove");
}

#[test]
fn file_event_carries_path_and_label() {
    let e = make_file_event("/cs/Bash/vars.md".to_string(), &ChangeKind::Created);
    assert_eq!(e.path, "/cs/Bash/vars.md");
    assert_eq!(e.event, "create");
}

#[test]
fn config_path_yields_exactly_one_reload_and_no_change_event() {
    let e = FileEvent {
        path: CONFIG_PATH.to_string(),
        event: "modify".to_string(),
    };
    let routed = route_event(e, CONFIG_PATH);
    match routed {
        RoutedEvent::ConfigReload => {}
        RoutedEvent::FileChanged(other) => {
            panic!("config change leaked as a generic event for {}", other.path)
        }
    }
}

#[test]
fn other_paths_pass_through_unchanged() {
    let e = FileEvent {
        path: "/cs/Bash/vars.md".to_string(),
        event: "remove".to_string(),
    };
    let routed = route_event(e, CONFIG_PATH);
    assert_eq!(
        routed,
        RoutedEvent::FileChanged(FileEvent {
            path: "/cs/Bash/vars.md".to_string(),
            event: "remove".to_string(),
        })
    );
}

#[test]
fn events_from_two_roots_keep_their_attribution() {
    let from_first = FileEvent {
        path: "/roots/first/a.md".to_string(),
        event: "create".to_string(),
    };
    let from_second = FileEvent {
        path: "/roots/second/b.md".to_string(),
        event: "modify".to_string(),
    };
    let mut seen = Vec::new();
    for e in [from_first, from_second] {
        match route_event(e, CONFIG_PATH) {
            RoutedEvent::FileChanged(ev) => seen.push(ev),
            RoutedEvent::ConfigReload => panic!("unexpected reload"),
        }
    }
    assert_eq!(seen.len(), 2);
    assert_eq!(seen[0].path, "/roots/first/a.md");
    assert_eq!(seen[0].event, "create");
    assert_eq!(seen[1].path, "/roots/second/b.md");
    assert_eq!(seen[1].event, "modify");
}

#[test]
fn failed_reload_keeps_the_previous_configuration() {
    let current = CognitioConfig {
        editor: Some("vi".to_string()),
        cheatsheets: vec![CheatsheetData::Simple("/cs".to_string())],
        styling: None,
    };
    let kept = apply_config_reload(current.clone(), None);
    assert_eq!(kept, current);
    let fresh = CognitioConfig {
        editor: None,
        cheatsheets: Vec::new(),
        styling: None,
    };
    let replaced = apply_config_reload(current, Some(fresh.clone()));
    assert_eq!(replaced, fresh);
}
