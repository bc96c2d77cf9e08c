use sotf_save_analyser::app::SotfSaveAnalyserApp;
use sotf_save_analyser::deserializer::{deserialize_json, JsonStore};
use sotf_save_analyser::json::{JsonNumber, JsonValue};
use sotf_save_analyser::walker::{json_store_walker, recursive_json_walker};

fn leaf(field: &str, value: JsonValue) -> JsonStore {
    JsonStore { field: field.to_string(), payload: Some(value), children: None }
}

fn node(field: &str, children: Vec<JsonStore>) -> JsonStore {
    JsonStore { field: field.to_string(), payload: None, children: Some(children) }
}

fn sample() -> Vec<JsonStore> {
    vec![
        leaf("Day", JsonValue::Number(JsonNumber::PosInt(12))),
        node("Player", vec![leaf("Health", JsonValue::Number(JsonNumber::NegInt(-3))), node("Empty", vec![])]),
        leaf("Name", JsonValue::Str("Kelvin".to_string())),
    ]
}

#[test]
fn walker_indents_by_level() {
    let mut counter: u128 = 0;
    let lines = recursive_json_walker(&sample(), '\t', &mut counter);
    assert_eq!(
        lines,
        vec![
            "\tDay: 12",
            "\tPlayer:",
            "\t\tHealth: -3",
            "\t\tEmpty:",
            "\tName: Kelvin",
        ]
    );
    assert_eq!(counter, 0);
}

#[test]
fn walker_starts_at_given_level_and_steps_back() {
    let mut counter: u128 = 2;
    let lines = recursive_json_walker(&vec![node("A", vec![leaf("b", JsonValue::Bool(true))])], '-', &mut counter);
    assert_eq!(lines, vec!["---A:", "----b: true"]);
    assert_eq!(counter, 1);
}

#[test]
fn walker_on_nothing_prints_nothing() {
    let mut counter: u128 = 0;
    assert!(recursive_json_walker(&vec![], ' ', &mut counter).is_empty());
    assert_eq!(counter, 0);
    let mut counter: u128 = 5;
    assert!(recursive_json_walker(&vec![], ' ', &mut counter).is_empty());
    assert_eq!(counter, 4);
}

#[test]
fn viewer_hides_vail_world_sim_children() {
    let app = SotfSaveAnalyserApp::default();
    let stores = vec![
        node("VailWorldSim", vec![leaf("Hidden", JsonValue::Null)]),
        leaf("VailWorldSim", JsonValue::Bool(false)),
        node("Shown", vec![leaf("x", JsonValue::Null)]),
    ];
    let mut counter: u128 = 0;
    let lines = app.recursive_json_viewer(&stores, ' ', &mut counter);
    assert_eq!(lines, vec![" VailWorldSim: false", " Shown:", "  x: "]);
    assert_eq!(counter, 0);
    let mut counter: u128 = 0;
    let walked = recursive_json_walker(&stores, ' ', &mut counter);
    assert_eq!(walked.len(), 5);
}

#[test]
fn viewer_matches_walker_without_vail_world_sim() {
    let app = SotfSaveAnalyserApp::default();
    let mut c1: u128 = 1;
    let mut c2: u128 = 1;
    assert_eq!(
        app.recursive_json_viewer(&sample(), '\t', &mut c1),
        recursive_json_walker(&sample(), '\t', &mut c2)
    );
    assert_eq!(c1, c2);
}

#[test]
fn store_walker_summarises_each_store() {
    let lines = json_store_walker(&sample());
    assert_eq!(
        lines,
        vec![
            "Field: Day, Contains Payload?: true, Contains Children?: false",
            "Payload: 12",
            "Field: Player, Contains Payload?: false, Contains Children?: true",
            "Zooming into Player",
            "Field: Health, Contains Payload?: true, Contains Children?: false",
            "Payload: -3",
            "Field: Empty, Contains Payload?: false, Contains Children?: true",
            "Zooming into Empty",
            "Field: Name, Contains Payload?: true, Contains Children?: false",
            "Payload: Kelvin",
        ]
    );
}

#[test]
fn walker_over_a_deserialized_save() {
    let stores = deserialize_json("{\"Data\": {\"Stats\": \"{\\\"Kills\\\": 3}\", \"Version\": \"1.0.0\"}}").unwrap();
    let mut counter: u128 = 0;
    let lines = recursive_json_walker(&stores, '\t', &mut counter);
    assert_eq!(
        lines,
        vec!["\tStats:", "\t\tKills: 3", "\tVersion:", "\t\tVersion: 1.0.0"]
    );
}
