use sotf_save_analyser::app::{
    SotfSaveAnalyserApp, WindowActionKind, WindowEvent, WindowOutcome,
};
use sotf_save_analyser::deserializer::JsonStore;
use sotf_save_analyser::json::JsonValue;

fn ids(app: &SotfSaveAnalyserApp) -> Vec<String> {
    app.window_stores().iter().map(|w| w.window_id.clone()).collect()
}

fn one_store() -> Vec<JsonStore> {
    vec![JsonStore { field: "a".to_string(), payload: Some(JsonValue::Null), children: None }]
}

#[test]
fn default_app() {
    let app = SotfSaveAnalyserApp::default();
    assert_eq!(app.label(), "Sons of the Forest Save Analyser");
    assert!(!app.is_open_file_clicked());
    assert!(app.window_stores().is_empty());
}

#[test]
fn new_windows_are_numbered() {
    let mut app = SotfSaveAnalyserApp::default();
    app.new_save_analyser_window("/a".to_string());
    app.new_save_analyser_window("/b".to_string());
    assert_eq!(ids(&app), vec!["Save Analysis #0", "Save Analysis #1"]);
    let w = &app.window_stores()[1];
    assert_eq!(w.save_folder_path, "/b");
    assert!(w.is_window_open);
    assert!(w.deseralized_jsons.is_none());
}

#[test]
fn actions_follow_window_state() {
    let mut app = SotfSaveAnalyserApp::default();
    app.new_save_analyser_window("/a".to_string());
    app.new_save_analyser_window(String::new());
    let actions = app.window_actions();
    assert_eq!(actions.len(), 2);
    assert_eq!(actions[0].kind, WindowActionKind::Deserialize);
    assert_eq!(actions[0].window_id, "Save Analysis #0");
    assert_eq!(actions[0].save_folder_path, "/a");
    assert_eq!(actions[1].kind, WindowActionKind::Warn);
}

#[test]
fn deserialized_stores_are_kept_only_when_not_empty() {
    let mut app = SotfSaveAnalyserApp::default();
    app.new_save_analyser_window("/a".to_string());
    app.window_backend(vec![WindowEvent {
        window_id: "Save Analysis #0".to_string(),
        outcome: WindowOutcome::Deserialized(vec![]),
    }]);
    assert!(app.window_stores()[0].deseralized_jsons.is_none());
    app.window_backend(vec![WindowEvent {
        window_id: "Save Analysis #0".to_string(),
        outcome: WindowOutcome::Deserialized(one_store()),
    }]);
    assert_eq!(app.window_stores()[0].deseralized_jsons.as_ref().unwrap().len(), 1);
    assert_eq!(app.window_actions()[0].kind, WindowActionKind::Show);
}

#[test]
fn closed_window_goes_at_the_next_frame() {
    let mut app = SotfSaveAnalyserApp::default();
    app.new_save_analyser_window("/a".to_string());
    app.new_save_analyser_window("/b".to_string());
    app.window_backend(vec![WindowEvent {
        window_id: "Save Analysis #0".to_string(),
        outcome: WindowOutcome::Deserialized(one_store()),
    }]);
    app.window_backend(vec![WindowEvent {
        window_id: "Save Analysis #0".to_string(),
        outcome: WindowOutcome::Shown(false),
    }]);
    assert_eq!(ids(&app), vec!["Save Analysis #0", "Save Analysis #1"]);
    assert!(!app.window_stores()[0].is_window_open);
    assert_eq!(app.window_actions()[0].kind, WindowActionKind::Remove);
    app.window_backend(vec![]);
    assert_eq!(ids(&app), vec!["Save Analysis #1"]);
}

#[test]
fn events_for_other_states_change_nothing() {
    let mut app = SotfSaveAnalyserApp::default();
    app.new_save_analyser_window("/a".to_string());
    app.window_backend(vec![
        WindowEvent { window_id: "Save Analysis #0".to_string(), outcome: WindowOutcome::Shown(false) },
        WindowEvent { window_id: "Nope".to_string(), outcome: WindowOutcome::Deserialized(one_store()) },
    ]);
    assert!(app.window_stores()[0].is_window_open);
    assert!(app.window_stores()[0].deseralized_jsons.is_none());
}

#[test]
fn reused_number_replaces_existing_window() {
    let mut app = SotfSaveAnalyserApp::default();
    app.new_save_analyser_window("/a".to_string());
    app.new_save_analyser_window("/b".to_string());
    app.window_backend(vec![WindowEvent {
        window_id: "Save Analysis #0".to_string(),
        outcome: WindowOutcome::Deserialized(one_store()),
    }]);
    app.window_backend(vec![WindowEvent {
        window_id: "Save Analysis #0".to_string(),
        outcome: WindowOutcome::Shown(false),
    }]);
    app.window_backend(vec![]);
    assert_eq!(ids(&app), vec!["Save Analysis #1"]);
    app.new_save_analyser_window("/c".to_string());
    assert_eq!(ids(&app), vec!["Save Analysis #1"]);
    assert_eq!(app.window_stores()[0].save_folder_path, "/c");
}

#[test]
fn folder_pick_outcomes() {
    let mut app = SotfSaveAnalyserApp::default();
    app.toggle_open_file();
    assert!(app.is_open_file_clicked());
    assert!(app.handle_folder_pick(Some("/bad".to_string()), false));
    assert!(!app.is_open_file_clicked());
    assert!(app.window_stores().is_empty());
    app.toggle_open_file();
    assert!(!app.handle_folder_pick(None, true));
    assert!(app.window_stores().is_empty());
    assert!(!app.handle_folder_pick(Some("/good".to_string()), true));
    assert_eq!(ids(&app), vec!["Save Analysis #0"]);
    app.toggle_open_file();
    app.toggle_open_file();
    assert!(!app.is_open_file_clicked());
}

#[test]
fn picker_request_never_outlasts_a_frame() {
    let mut app = SotfSaveAnalyserApp::default();
    for (clicked, picked, valid) in [
        (true, Some("/x".to_string()), true),
        (true, None, false),
        (false, None, false),
        (true, Some("/y".to_string()), false),
    ] {
        if clicked {
            app.toggle_open_file();
        }
        if app.is_open_file_clicked() {
            app.handle_folder_pick(picked, valid);
        }
        assert!(!app.is_open_file_clicked());
        assert_eq!(app.label(), "Sons of the Forest Save Analyser");
    }
    assert_eq!(ids(&app), vec!["Save Analysis #0"]);
}
