use spcs_rust_utils::data_handler::{
    Device, Entity, Experiment, ExperimentInfo, MeasurementData, Node, ServerState, StatusReport,
};
use spcs_rust_utils::name_map::NameMap;
use spcs_rust_utils::tcp_handler::lifecycle::{
    advance, ListenerAction, StatusAction, GRACE_SECONDS, TICK_SECONDS,
};
use spcs_rust_utils::tcp_handler::persist::SaveAction;
use spcs_rust_utils::tcp_handler::{save_state, server_status, start_tcp_server, Phase, Signal};

fn sample_state() -> ServerState {
    let mut state = ServerState::new();
    let mut measurements: NameMap<MeasurementData> = NameMap::new();
    measurements.insert("counts".to_string(), MeasurementData::Single(vec![1.0f64.to_bits()]));
    state.update_entity(
        "DAQ1".to_string(),
        Entity::Device(Device {
            device_name: "DAQ1".to_string(),
            device_config: NameMap::new(),
            measurements,
        }),
    );
    state.update_entity(
        "Test User".to_string(),
        Entity::ExperimentSetup(Experiment {
            start_time: None,
            end_time: None,
            info: ExperimentInfo {
                name: "Test User".to_string(),
                email: "test@example.com".to_string(),
                experiment_name: "My Experiment/2024".to_string(),
                experiment_description: "This is a test.".to_string(),
            },
        }),
    );
    state
}

fn end_time_in(document: &Node) -> String {
    let root = match document {
        Node::Table(t) => t,
        other => panic!("no table: {:?}", other),
    };
    let experiment = match root.get("experiment") {
        Some(Node::Table(t)) => t,
        other => panic!("no experiment: {:?}", other),
    };
    match experiment.get("end_time") {
        Some(Node::Text(s)) => s.clone(),
        other => panic!("no end: {:?}", other),
    }
}

#[test]
fn the_periods_are_three_and_five_seconds() {
    assert_eq!(GRACE_SECONDS, 3);
    assert_eq!(TICK_SECONDS, 5);
}

#[test]
fn phases_move_forward_only() {
    assert_eq!(advance(Phase::Active, Signal::Work), Phase::Active);
    assert_eq!(advance(Phase::Active, Signal::Shutdown), Phase::Draining);
    assert_eq!(advance(Phase::Active, Signal::GraceOver), Phase::Active);
    assert_eq!(advance(Phase::Draining, Signal::Work), Phase::Draining);
    assert_eq!(advance(Phase::Draining, Signal::Shutdown), Phase::Draining);
    assert_eq!(advance(Phase::Draining, Signal::GraceOver), Phase::Stopped);
    assert_eq!(advance(Phase::Stopped, Signal::Work), Phase::Stopped);
    assert_eq!(advance(Phase::Stopped, Signal::Shutdown), Phase::Stopped);
    assert_eq!(advance(Phase::Stopped, Signal::GraceOver), Phase::Stopped);
}

#[test]
fn the_listener_serves_until_the_signal_and_stops_after_the_grace() {
    assert_eq!(start_tcp_server(Phase::Active, Signal::Work), (Phase::Active, ListenerAction::Serve));
    assert_eq!(
        start_tcp_server(Phase::Active, Signal::Shutdown),
        (Phase::Draining, ListenerAction::Wait { seconds: 3 })
    );
    assert_eq!(
        start_tcp_server(Phase::Draining, Signal::Work),
        (Phase::Draining, ListenerAction::Ignore)
    );
    assert_eq!(
        start_tcp_server(Phase::Draining, Signal::Shutdown),
        (Phase::Draining, ListenerAction::Ignore)
    );
    assert_eq!(
        start_tcp_server(Phase::Draining, Signal::GraceOver),
        (Phase::Stopped, ListenerAction::Ignore)
    );
    assert_eq!(
        start_tcp_server(Phase::Stopped, Signal::Work),
        (Phase::Stopped, ListenerAction::Ignore)
    );
    assert_eq!(
        start_tcp_server(Phase::Active, Signal::GraceOver),
        (Phase::Active, ListenerAction::Ignore)
    );
}

#[test]
fn the_reporter_reports_on_each_period_and_not_at_the_end() {
    let state = sample_state();
    match server_status(Phase::Active, Signal::Work, &state) {
        (Phase::Active, StatusAction::Report(StatusReport::Devices(rows))) => {
            assert_eq!(rows.len(), 1);
            assert_eq!(rows[0].device_name, "DAQ1");
            assert_eq!(rows[0].total_measurements, 1);
        }
        other => panic!("no report: {:?}", other),
    }
    assert_eq!(
        server_status(Phase::Active, Signal::Work, &ServerState::new()),
        (Phase::Active, StatusAction::Report(StatusReport::NoDevices))
    );
    assert_eq!(
        server_status(Phase::Active, Signal::Shutdown, &state),
        (Phase::Draining, StatusAction::Wait { seconds: 3 })
    );
    assert_eq!(
        server_status(Phase::Draining, Signal::GraceOver, &state),
        (Phase::Stopped, StatusAction::Ignore)
    );
    assert_eq!(
        server_status(Phase::Draining, Signal::Work, &state),
        (Phase::Draining, StatusAction::Ignore)
    );
    assert_eq!(
        server_status(Phase::Stopped, Signal::Work, &state),
        (Phase::Stopped, StatusAction::Ignore)
    );
}

#[test]
fn each_period_writes_the_full_state_to_the_path_of_the_run() {
    let mut state = sample_state();
    let before = state.entities().clone();
    let out = "/data/out".to_string();
    match save_state(Phase::Active, Signal::Work, &mut state, "stamp", &out) {
        (Phase::Active, SaveAction::Write { path, document }) => {
            assert_eq!(path, "/data/out/My_Experiment_2024_stamp.toml");
            assert_eq!(document, state.dump_to_toml());
            assert_eq!(end_time_in(&document), "");
        }
        other => panic!("no snapshot: {:?}", other),
    }
    assert_eq!(state.entities(), &before);
}

#[test]
fn shutdown_ends_the_run_then_waits_then_writes_the_last_snapshot() {
    let mut state = sample_state();
    let out = "/data/out".to_string();
    let (phase, action) = save_state(Phase::Active, Signal::Shutdown, &mut state, "stamp", &out);
    assert_eq!(phase, Phase::Draining);
    assert_eq!(action, SaveAction::Wait { seconds: 3 });
    assert!(state.is_finalised());

    let ignored = save_state(phase, Signal::Work, &mut state, "stamp", &out);
    assert_eq!(ignored, (Phase::Draining, SaveAction::Ignore));
    let again = save_state(phase, Signal::Shutdown, &mut state, "stamp", &out);
    assert_eq!(again, (Phase::Draining, SaveAction::Ignore));

    match save_state(phase, Signal::GraceOver, &mut state, "stamp", &out) {
        (Phase::Stopped, SaveAction::Write { path, document }) => {
            assert_eq!(path, "/data/out/My_Experiment_2024_stamp.toml");
            assert!(!end_time_in(&document).is_empty());
        }
        other => panic!("no last snapshot: {:?}", other),
    }
    let after = save_state(Phase::Stopped, Signal::Work, &mut state, "stamp", &out);
    assert_eq!(after, (Phase::Stopped, SaveAction::Ignore));
}

#[test]
fn the_grace_period_lets_late_updates_into_the_last_snapshot() {
    let mut state = sample_state();
    let out = ".".to_string();
    let (phase, _) = save_state(Phase::Active, Signal::Shutdown, &mut state, "s", &out);
    let mut measurements: NameMap<MeasurementData> = NameMap::new();
    measurements.insert("counts".to_string(), MeasurementData::Single(vec![2.0f64.to_bits()]));
    state.update_entity(
        "DAQ1".to_string(),
        Entity::Device(Device {
            device_name: "DAQ1".to_string(),
            device_config: NameMap::new(),
            measurements,
        }),
    );
    match save_state(phase, Signal::GraceOver, &mut state, "s", &out) {
        (Phase::Stopped, SaveAction::Write { document, .. }) => {
            assert_eq!(document, state.dump_to_toml());
        }
        other => panic!("no last snapshot: {:?}", other),
    }
}

#[test]
fn a_run_without_a_descriptor_still_gets_its_snapshot() {
    let mut state = ServerState::new();
    let out = "/data/out".to_string();
    let (phase, action) = save_state(Phase::Active, Signal::Shutdown, &mut state, "stamp", &out);
    assert_eq!(action, SaveAction::Wait { seconds: 3 });
    match save_state(phase, Signal::GraceOver, &mut state, "stamp", &out) {
        (Phase::Stopped, SaveAction::Write { path, .. }) => {
            assert_eq!(path, "/data/out/_stamp.toml");
        }
        other => panic!("no last snapshot: {:?}", other),
    }
}

#[test]
fn a_state_that_has_its_end_keeps_it_on_shutdown() {
    let mut state = sample_state();
    state.finalise_time_at("the end".to_string());
    let out = ".".to_string();
    let (phase, _) = save_state(Phase::Active, Signal::Shutdown, &mut state, "s", &out);
    match save_state(phase, Signal::GraceOver, &mut state, "s", &out) {
        (_, SaveAction::Write { document, .. }) => assert_eq!(end_time_in(&document), "the end"),
        other => panic!("no last snapshot: {:?}", other),
    }
}
