use spcs_rust_utils::data_handler::naming::output_file_name;
use spcs_rust_utils::data_handler::{
    load_experimental_data, sanitize_filename, Device, Entity, Experiment, ExperimentInfo,
    MeasurementData, Node, ServerState,
};
use spcs_rust_utils::name_map::NameMap;
use spcs_rust_utils::tcp_handler::persist::{snapshot_steps, FileStep, LATEST_NAME, SCRATCH_NAME};

fn bits(values: &[f64]) -> Vec<u64> {
    values.iter().map(|x| x.to_bits()).collect()
}

fn numbers(values: &[f64]) -> Node {
    Node::List(values.iter().map(|x| Node::Number(x.to_bits())).collect())
}

fn text(s: &str) -> Node {
    Node::Text(s.to_string())
}

fn table<'a>(node: &'a Node) -> &'a NameMap<Node> {
    match node {
        Node::Table(t) => t,
        other => panic!("no table: {:?}", other),
    }
}

fn sample_state() -> ServerState {
    let mut state = ServerState::new();
    let mut measurements: NameMap<MeasurementData> = NameMap::new();
    measurements.insert("counts".to_string(), MeasurementData::Single(bits(&[1.0, 2.5])));
    measurements.insert(
        "spectrum".to_string(),
        MeasurementData::Multi(vec![bits(&[1.0]), bits(&[]), bits(&[2.0, 3.0])]),
    );
    let mut config: NameMap<toml::Value> = NameMap::new();
    config.insert("gate_time".to_string(), toml::Value::Integer(1000));
    config.insert("label".to_string(), toml::Value::String("front".to_string()));
    state.update_entity(
        "Fake_DAQ".to_string(),
        Entity::Device(Device {
            device_name: "Fake DAQ".to_string(),
            device_config: config,
            measurements,
        }),
    );
    state.update_entity_at(
        "Test User".to_string(),
        Entity::ExperimentSetup(Experiment {
            start_time: None,
            end_time: None,
            info: ExperimentInfo {
                name: "Test User".to_string(),
                email: "test@example.com".to_string(),
                experiment_name: "Test Experiment".to_string(),
                experiment_description: "This is a test.".to_string(),
            },
        }),
        "01-02-2024 03:04:05.678".to_string(),
    );
    state
}

#[test]
fn the_sanitized_name_of_my_experiment() {
    assert_eq!(sanitize_filename("My Experiment/2024".to_string()), "My_Experiment_2024");
}

#[test]
fn sanitizing_keeps_every_other_character() {
    assert_eq!(sanitize_filename("".to_string()), "");
    assert_eq!(sanitize_filename(" /".to_string()), "__");
    assert_eq!(sanitize_filename("a\\b\tc_d-é.toml".to_string()), "a\\b\tc_d-é.toml");
    assert_eq!(sanitize_filename("//a  b//".to_string()), "__a__b__");
}

#[test]
fn the_snapshot_path_is_made_of_directory_name_and_stamp() {
    assert_eq!(
        output_file_name("/data/out", Some("My Experiment/2024".to_string()), "01_02_2024_03_04_05_678"),
        "/data/out/My_Experiment_2024_01_02_2024_03_04_05_678.toml"
    );
    assert_eq!(output_file_name(".", Some("x".to_string()), "s"), "./x_s.toml");
}

#[test]
fn a_run_without_a_descriptor_has_a_stable_path() {
    assert_eq!(output_file_name("/data/out", None, "stamp"), "/data/out/_stamp.toml");
    assert_eq!(output_file_name("/data/out", Some(String::new()), "stamp"), "/data/out/_stamp.toml");
}

#[test]
fn the_document_of_an_empty_state_is_an_empty_table() {
    let root = ServerState::new().dump_to_toml();
    assert_eq!(table(&root).len(), 0);
}

#[test]
fn the_document_holds_the_descriptor_under_experiment() {
    let root = sample_state().dump_to_toml();
    let experiment = table(table(&root).get("experiment").unwrap());
    assert_eq!(experiment.len(), 3);
    assert_eq!(experiment.get("start_time"), Some(&text("01-02-2024 03:04:05.678")));
    assert_eq!(experiment.get("end_time"), Some(&text("")));
    let info = table(experiment.get("info").unwrap());
    assert_eq!(info.len(), 4);
    assert_eq!(info.get("name"), Some(&text("Test User")));
    assert_eq!(info.get("email"), Some(&text("test@example.com")));
    assert_eq!(info.get("experiment_name"), Some(&text("Test Experiment")));
    assert_eq!(info.get("experiment_description"), Some(&text("This is a test.")));
}

#[test]
fn the_document_holds_every_device_under_its_key() {
    let root = sample_state().dump_to_toml();
    assert_eq!(table(&root).len(), 2);
    let devices = table(table(&root).get("device").unwrap());
    assert_eq!(devices.len(), 1);
    let device = table(devices.get("Fake_DAQ").unwrap());
    assert_eq!(device.len(), 4);
    assert_eq!(device.get("device_name"), Some(&text("Fake DAQ")));
    assert_eq!(device.get("gate_time"), Some(&Node::Foreign(toml::Value::Integer(1000))));
    assert_eq!(
        device.get("label"),
        Some(&Node::Foreign(toml::Value::String("front".to_string())))
    );
    let data = table(device.get("data").unwrap());
    assert_eq!(data.len(), 2);
    assert_eq!(data.get("counts"), Some(&numbers(&[1.0, 2.5])));
    assert_eq!(
        data.get("spectrum"),
        Some(&Node::List(vec![numbers(&[1.0]), numbers(&[]), numbers(&[2.0, 3.0])]))
    );
}

#[test]
fn the_document_has_no_table_for_what_the_state_lacks() {
    let mut only_device = ServerState::new();
    only_device.update_entity(
        "D".to_string(),
        Entity::Device(Device {
            device_name: "D".to_string(),
            device_config: NameMap::new(),
            measurements: NameMap::new(),
        }),
    );
    let root = only_device.dump_to_toml();
    assert!(table(&root).get("experiment").is_none());
    assert_eq!(table(&root).len(), 1);
    let device = table(table(table(&root).get("device").unwrap()).get("D").unwrap());
    assert_eq!(device.len(), 2);
    assert_eq!(table(device.get("data").unwrap()).len(), 0);

    let mut only_descriptor = ServerState::new();
    only_descriptor.update_entity(
        "u".to_string(),
        Entity::ExperimentSetup(Experiment {
            start_time: None,
            end_time: None,
            info: ExperimentInfo::default(),
        }),
    );
    let root = only_descriptor.dump_to_toml();
    assert!(table(&root).get("device").is_none());
    assert_eq!(table(&root).len(), 1);
}

#[test]
fn settings_named_like_fixed_entries() {
    let mut config: NameMap<toml::Value> = NameMap::new();
    config.insert("device_name".to_string(), toml::Value::String("from config".to_string()));
    config.insert("data".to_string(), toml::Value::Integer(1));
    let mut measurements: NameMap<MeasurementData> = NameMap::new();
    measurements.insert("counts".to_string(), MeasurementData::Single(bits(&[1.0])));
    let device = Device { device_name: "D".to_string(), device_config: config, measurements };
    let node = device.to_node();
    let fields = table(&node);
    assert_eq!(fields.len(), 2);
    assert_eq!(
        fields.get("device_name"),
        Some(&Node::Foreign(toml::Value::String("from config".to_string())))
    );
    assert_eq!(table(fields.get("data").unwrap()).get("counts"), Some(&numbers(&[1.0])));
}

#[test]
fn the_end_shows_in_the_document_once_it_is_set() {
    let mut state = sample_state();
    state.finalise_time_at("09-02-2024 10:00:00.000".to_string());
    let root = state.dump_to_toml();
    let experiment = table(table(&root).get("experiment").unwrap());
    assert_eq!(experiment.get("end_time"), Some(&text("09-02-2024 10:00:00.000")));
    assert_eq!(experiment.get("start_time"), Some(&text("01-02-2024 03:04:05.678")));
}

#[test]
fn a_snapshot_is_written_then_moved_into_place() {
    let steps = snapshot_steps("/out/run.toml", "/tmp/pyfex.tmp", "/tmp/pyfex.toml", "a = 1\n");
    assert_eq!(
        steps,
        vec![
            FileStep::Write { path: "/out/run.toml".to_string(), text: "a = 1\n".to_string() },
            FileStep::Write { path: "/tmp/pyfex.tmp".to_string(), text: "a = 1\n".to_string() },
            FileStep::Rename { from: "/tmp/pyfex.tmp".to_string(), to: "/tmp/pyfex.toml".to_string() },
        ]
    );
    assert!(steps.iter().all(|s| match s {
        FileStep::Write { path, .. } => path != "/tmp/pyfex.toml",
        FileStep::Rename { .. } => true,
    }));
    assert_eq!(LATEST_NAME, "pyfex.toml");
    assert_eq!(SCRATCH_NAME, "pyfex.tmp");
}

#[test]
fn a_snapshot_gives_back_the_flat_histories() {
    let loaded = load_experimental_data(&sample_state().dump_to_toml());
    assert_eq!(loaded.len(), 1);
    let device = loaded.get("Fake_DAQ").unwrap();
    assert_eq!(device.get("counts"), Some(&bits(&[1.0, 2.5])));
    assert_eq!(device.get("spectrum"), Some(&vec![]));
    assert_eq!(device.len(), 2);
}

#[test]
fn a_snapshot_as_toml_text_gives_back_the_flat_histories() {
    let text = toml::to_string_pretty(&value_of(&sample_state().dump_to_toml())).unwrap();
    let parsed: toml::Value = text.parse().unwrap();
    let device = parsed.get("device").and_then(|d| d.get("Fake_DAQ")).unwrap();
    assert_eq!(device.get("gate_time"), Some(&toml::Value::Integer(1000)));
    assert_eq!(
        device.get("data").and_then(|d| d.get("counts")),
        Some(&toml::Value::Array(vec![toml::Value::Float(1.0), toml::Value::Float(2.5)]))
    );
    assert_eq!(
        parsed.get("experiment").and_then(|e| e.get("info")).and_then(|i| i.get("name")),
        Some(&toml::Value::String("Test User".to_string()))
    );
}

/// A node of the library as a TOML value.
fn value_of(node: &Node) -> toml::Value {
    match node {
        Node::Text(s) => toml::Value::String(s.clone()),
        Node::Number(b) => toml::Value::Float(f64::from_bits(*b)),
        Node::Foreign(v) => v.clone(),
        Node::List(items) => toml::Value::Array(items.iter().map(value_of).collect()),
        Node::Table(entries) => {
            let mut table = toml::Table::new();
            for i in 0..entries.len() {
                table.insert(entries.key(i).clone(), value_of(entries.value(i)));
            }
            toml::Value::Table(table)
        }
    }
}
