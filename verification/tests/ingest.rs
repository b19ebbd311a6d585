use spcs_rust_utils::data_handler::{
    Device, Entity, Experiment, ExperimentInfo, MeasurementData, ServerState, UpdateOutcome,
};
use spcs_rust_utils::name_map::NameMap;
use spcs_rust_utils::tcp_handler::{handle_connection, read_step, Decoded, ReadStep};

fn bits(values: &[f64]) -> Vec<u64> {
    values.iter().map(|x| x.to_bits()).collect()
}

fn floats_of(value: &serde_json::Value) -> Option<Vec<u64>> {
    value.as_array()?.iter().map(|x| x.as_f64().map(|f| f.to_bits())).collect()
}

fn series_of(value: &serde_json::Value) -> Option<MeasurementData> {
    if let Some(flat) = floats_of(value) {
        return Some(MeasurementData::Single(flat));
    }
    let arrays: Option<Vec<Vec<u64>>> = value.as_array()?.iter().map(floats_of).collect();
    arrays.map(MeasurementData::Multi)
}

fn device_of(line: &str) -> Result<Device, String> {
    let value: serde_json::Value = serde_json::from_str(line).map_err(|e| e.to_string())?;
    let object = value.as_object().ok_or("not an object")?;
    let name = object.get("device_name").and_then(|v| v.as_str()).ok_or("missing field `device_name`")?;
    object.get("device_config").and_then(|v| v.as_object()).ok_or("missing field `device_config`")?;
    let given = object.get("measurements").and_then(|v| v.as_object()).ok_or("missing field `measurements`")?;
    let mut measurements: NameMap<MeasurementData> = NameMap::new();
    for (key, item) in given {
        measurements.insert(key.clone(), series_of(item).ok_or("no measurement")?);
    }
    Ok(Device { device_name: name.to_string(), device_config: NameMap::new(), measurements })
}

fn experiment_of(line: &str) -> Result<Experiment, String> {
    let value: serde_json::Value = serde_json::from_str(line).map_err(|e| e.to_string())?;
    let object = value.as_object().ok_or("not an object")?;
    let info = object.get("info").and_then(|v| v.as_object()).ok_or("missing field `start_time`")?;
    let field = |name: &str| {
        info.get(name).and_then(|v| v.as_str()).map(|s| s.to_string()).ok_or(format!("missing field `{}`", name))
    };
    Ok(Experiment {
        start_time: object.get("start_time").and_then(|v| v.as_str()).map(|s| s.to_string()),
        end_time: object.get("end_time").and_then(|v| v.as_str()).map(|s| s.to_string()),
        info: ExperimentInfo {
            name: field("name")?,
            email: field("email")?,
            experiment_name: field("experiment_name")?,
            experiment_description: field("experiment_description")?,
        },
    })
}

/// What a connection does with one line that it has read, and what it
/// answers.
fn send(state: &mut ServerState, line: &str) -> Option<(String, bool)> {
    match read_step(Some(line.len()), line) {
        ReadStep::Decode(text) => {
            let decoded = Decoded::from_attempts(device_of(text), experiment_of(text));
            let outcome = handle_connection(state, decoded);
            Some((outcome.reply, outcome.publish))
        }
        ReadStep::Skip => None,
        ReadStep::Close => panic!("closed"),
    }
}

#[test]
fn two_lines_for_one_device_add_up() {
    let mut state = ServerState::new();
    let first = send(
        &mut state,
        "{\"device_name\":\"DAQ1\",\"device_config\":{},\"measurements\":{\"counts\":[1.0,2.0]}}\n",
    );
    assert_eq!(first, Some(("Device measurements recorded\n".to_string(), true)));
    let second = send(
        &mut state,
        "{\"device_name\":\"DAQ1\",\"device_config\":{},\"measurements\":{\"counts\":[3.0]}}\n",
    );
    assert_eq!(second, Some(("Device measurements recorded\n".to_string(), true)));
    match state.entities().get("DAQ1") {
        Some(Entity::Device(d)) => {
            assert_eq!(
                d.measurements.get("counts"),
                Some(&MeasurementData::Single(bits(&[1.0, 2.0, 3.0])))
            );
        }
        other => panic!("no device: {:?}", other),
    }
    assert_eq!(state.entities().len(), 1);
}

#[test]
fn a_malformed_line_is_answered_and_changes_nothing() {
    let mut state = ServerState::new();
    send(
        &mut state,
        "{\"device_name\":\"DAQ1\",\"device_config\":{},\"measurements\":{\"counts\":[1.0,2.0]}}\n",
    );
    let before = state.entities().clone();
    let answer = send(&mut state, "{\"foo\":1}\n").unwrap();
    assert!(answer.0.starts_with("Invalid format: "));
    assert!(answer.0.ends_with("\n"));
    assert!(!answer.1);
    assert_eq!(state.entities(), &before);
    let again = send(&mut state, "not json at all\n").unwrap();
    assert!(again.0.starts_with("Invalid format: "));
    assert_eq!(state.entities(), &before);
}

#[test]
fn the_reason_stands_in_the_answer_to_an_invalid_line() {
    let mut state = ServerState::new();
    let outcome = handle_connection(&mut state, Decoded::Invalid("missing field `x`".to_string()));
    assert_eq!(outcome.reply, "Invalid format: missing field `x`\n");
    assert!(!outcome.publish);
    assert_eq!(outcome.update, None);
    assert_eq!(state.entities().len(), 0);
}

#[test]
fn a_descriptor_line_is_stored_under_the_operator() {
    let mut state = ServerState::new();
    let line = "{\"start_time\":null,\"end_time\":null,\"info\":{\"name\":\"Test User\",\"email\":\"test@example.com\",\"experiment_name\":\"Test Experiment\",\"experiment_description\":\"This is a test.\"}}";
    let answer = send(&mut state, line);
    assert_eq!(answer, Some(("Experiment configuration processed\n".to_string(), true)));
    assert!(state.entities().contains_key("Test User"));
    assert_eq!(state.get_experiment_name(), Some("Test Experiment".to_string()));
    assert_eq!(state.validate(), Ok(()));
}

#[test]
fn the_outcome_of_the_update_is_handed_on() {
    let mut state = ServerState::new();
    let d = |values: MeasurementData| {
        let mut measurements: NameMap<MeasurementData> = NameMap::new();
        measurements.insert("counts".to_string(), values);
        Device { device_name: "DAQ1".to_string(), device_config: NameMap::new(), measurements }
    };
    let first = handle_connection(&mut state, Decoded::Device(d(MeasurementData::Single(bits(&[1.0])))));
    assert_eq!(first.update, Some(UpdateOutcome::DeviceAdded));
    let second = handle_connection(
        &mut state,
        Decoded::Device(d(MeasurementData::Multi(vec![bits(&[2.0])]))),
    );
    assert_eq!(
        second.update,
        Some(UpdateOutcome::DeviceMerged { refused: vec!["counts".to_string()] })
    );
    assert_eq!(second.reply, "Device measurements recorded\n");
    assert!(second.publish);
}

#[test]
fn a_line_is_taken_for_a_device_first() {
    let device = Device {
        device_name: "D".to_string(),
        device_config: NameMap::new(),
        measurements: NameMap::new(),
    };
    let experiment =
        Experiment { start_time: None, end_time: None, info: ExperimentInfo::default() };
    assert_eq!(
        Decoded::from_attempts(Ok(device.clone()), Ok(experiment.clone())),
        Decoded::Device(device.clone())
    );
    assert_eq!(
        Decoded::from_attempts(Ok(device.clone()), Err("no descriptor".to_string())),
        Decoded::Device(device)
    );
    assert_eq!(
        Decoded::from_attempts(Err("no device".to_string()), Ok(experiment.clone())),
        Decoded::Experiment(experiment)
    );
    assert_eq!(
        Decoded::from_attempts(Err("no device".to_string()), Err("no descriptor".to_string())),
        Decoded::Invalid("no descriptor".to_string())
    );
}

#[test]
fn reads_end_skip_or_decode() {
    assert_eq!(read_step(None, ""), ReadStep::Close);
    assert_eq!(read_step(None, "{\"a\":1}\n"), ReadStep::Close);
    assert_eq!(read_step(Some(0), ""), ReadStep::Close);
    assert_eq!(read_step(Some(1), "\n"), ReadStep::Skip);
    assert_eq!(read_step(Some(5), " \t\r\n\u{3000}"), ReadStep::Skip);
    assert_eq!(read_step(Some(9), "  {\"a\":1} \r\n"), ReadStep::Decode("{\"a\":1}"));
    assert_eq!(read_step(Some(3), "a b"), ReadStep::Decode("a b"));
    assert_eq!(read_step(Some(3), "\u{a0}x\u{2003}"), ReadStep::Decode("x"));
    assert_eq!(read_step(Some(3), "\u{200b}x"), ReadStep::Decode("\u{200b}x"));
}
