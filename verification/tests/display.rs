use spcs_rust_utils::data_handler::series::{copy_range, cut_into_buckets};
use spcs_rust_utils::data_handler::{
    div_ceil, Device, DeviceStatus, DisplaySeries, Entity, Experiment, ExperimentInfo,
    MeasurementData, ServerState, StatusReport, DISPLAY_POINTS,
};
use spcs_rust_utils::name_map::NameMap;

fn ramp(from: usize, to: usize) -> Vec<u64> {
    (from..to).map(|i| (i as f64).to_bits()).collect()
}

fn mean(bucket: &Vec<u64>) -> f64 {
    bucket.iter().map(|b| f64::from_bits(*b)).sum::<f64>() / bucket.len() as f64
}

fn device(name: &str, measurements: Vec<(&str, MeasurementData)>) -> Device {
    let mut map: NameMap<MeasurementData> = NameMap::new();
    for (key, data) in measurements {
        map.insert(key.to_string(), data);
    }
    Device { device_name: name.to_string(), device_config: NameMap::new(), measurements: map }
}

#[test]
fn div_ceil_rounds_up() {
    assert_eq!(div_ceil(250, 100), 3);
    assert_eq!(div_ceil(200, 100), 2);
    assert_eq!(div_ceil(201, 100), 3);
    assert_eq!(div_ceil(101, 100), 2);
    assert_eq!(div_ceil(1, 100), 1);
    assert_eq!(div_ceil(0, 100), 0);
    assert_eq!(div_ceil(7, 1), 7);
    assert_eq!(div_ceil(usize::MAX, 1), usize::MAX);
    assert_eq!(div_ceil(usize::MAX, usize::MAX), 1);
    assert_eq!(div_ceil(usize::MAX, 2), usize::MAX / 2 + 1);
}

#[test]
fn the_display_bound_is_one_hundred() {
    assert_eq!(DISPLAY_POINTS, 100);
}

#[test]
fn a_flat_history_of_250_shows_its_last_100() {
    let series = MeasurementData::Single(ramp(0, 250));
    assert_eq!(series.latest_truncated(100), DisplaySeries::Verbatim(ramp(150, 250)));
}

#[test]
fn a_flat_history_shows_no_more_than_it_has() {
    let series = MeasurementData::Single(ramp(0, 80));
    assert_eq!(series.latest_truncated(100), DisplaySeries::Verbatim(ramp(0, 80)));
    assert_eq!(series.latest_truncated(80), DisplaySeries::Verbatim(ramp(0, 80)));
    assert_eq!(series.latest_truncated(79), DisplaySeries::Verbatim(ramp(1, 80)));
    assert_eq!(series.latest_truncated(1), DisplaySeries::Verbatim(ramp(79, 80)));
    assert_eq!(series.latest_truncated(0), DisplaySeries::Verbatim(vec![]));
    assert_eq!(series.latest_truncated(usize::MAX), DisplaySeries::Verbatim(ramp(0, 80)));
    let empty = MeasurementData::Single(vec![]);
    assert_eq!(empty.latest_truncated(100), DisplaySeries::Verbatim(vec![]));
}

#[test]
fn a_latest_array_of_250_is_shown_in_buckets_of_3() {
    let series = MeasurementData::Multi(vec![ramp(1000, 1010), ramp(0, 250)]);
    match series.latest_truncated(100) {
        DisplaySeries::Averaged(buckets) => {
            assert_eq!(buckets.len(), 84);
            for (i, bucket) in buckets.iter().enumerate() {
                if i < 83 {
                    assert_eq!(bucket, &ramp(3 * i, 3 * i + 3));
                } else {
                    assert_eq!(bucket, &ramp(249, 250));
                }
            }
            assert_eq!(mean(&buckets[0]), 1.0);
            assert_eq!(mean(&buckets[1]), 4.0);
            assert_eq!(mean(&buckets[82]), 247.0);
            assert_eq!(mean(&buckets[83]), 249.0);
            let all: Vec<u64> = buckets.into_iter().flatten().collect();
            assert_eq!(all, ramp(0, 250));
        }
        other => panic!("not averaged: {:?}", other),
    }
}

#[test]
fn a_latest_array_of_80_is_shown_as_it_is() {
    let series = MeasurementData::Multi(vec![ramp(0, 250), ramp(500, 580)]);
    assert_eq!(series.latest_truncated(100), DisplaySeries::Verbatim(ramp(500, 580)));
    assert_eq!(series.latest_truncated(5), DisplaySeries::Verbatim(ramp(500, 580)));
}

#[test]
fn the_bound_between_verbatim_and_averaged_is_100() {
    let at = MeasurementData::Multi(vec![ramp(0, 100)]);
    assert_eq!(at.latest_truncated(100), DisplaySeries::Verbatim(ramp(0, 100)));
    let over = MeasurementData::Multi(vec![ramp(0, 101)]);
    match over.latest_truncated(100) {
        DisplaySeries::Averaged(buckets) => {
            assert_eq!(buckets.len(), 51);
            assert_eq!(buckets[0], ramp(0, 2));
            assert_eq!(buckets[49], ramp(98, 100));
            assert_eq!(buckets[50], ramp(100, 101));
        }
        other => panic!("not averaged: {:?}", other),
    }
    let even = MeasurementData::Multi(vec![ramp(0, 1000)]);
    match even.latest_truncated(100) {
        DisplaySeries::Averaged(buckets) => {
            assert_eq!(buckets.len(), 100);
            assert!(buckets.iter().all(|b| b.len() == 10));
            assert_eq!(buckets[99], ramp(990, 1000));
        }
        other => panic!("not averaged: {:?}", other),
    }
}

#[test]
fn a_history_without_arrays_shows_nothing() {
    let none = MeasurementData::Multi(vec![]);
    assert_eq!(none.latest_truncated(100), DisplaySeries::Verbatim(vec![]));
    let empty_latest = MeasurementData::Multi(vec![ramp(0, 3), vec![]]);
    assert_eq!(empty_latest.latest_truncated(100), DisplaySeries::Verbatim(vec![]));
}

#[test]
fn copy_range_and_buckets() {
    let v = ramp(0, 10);
    assert_eq!(copy_range(&v, 2, 5), ramp(2, 5));
    assert_eq!(copy_range(&v, 0, 10), v);
    assert_eq!(copy_range(&v, 4, 4), Vec::<u64>::new());
    assert_eq!(cut_into_buckets(&v, 4), vec![ramp(0, 4), ramp(4, 8), ramp(8, 10)]);
    assert_eq!(cut_into_buckets(&v, 5), vec![ramp(0, 5), ramp(5, 10)]);
    assert_eq!(cut_into_buckets(&v, 10), vec![v.clone()]);
    assert_eq!(cut_into_buckets(&v, 11), vec![v.clone()]);
    assert_eq!(cut_into_buckets(&v, usize::MAX), vec![v.clone()]);
    assert_eq!(cut_into_buckets(&vec![], 3), Vec::<Vec<u64>>::new());
}

#[test]
fn a_device_is_projected_history_by_history() {
    let d = device(
        "DAQ1",
        vec![
            ("counts", MeasurementData::Single(ramp(0, 250))),
            ("spectrum", MeasurementData::Multi(vec![ramp(0, 3), ramp(10, 14)])),
        ],
    );
    let data = d.latest_data_truncated(100);
    assert_eq!(data.device_name, "DAQ1");
    assert_eq!(data.measurements.len(), 2);
    assert_eq!(data.measurements.key(0), "counts");
    assert_eq!(data.measurements.key(1), "spectrum");
    assert_eq!(data.measurements.get("counts"), Some(&DisplaySeries::Verbatim(ramp(150, 250))));
    assert_eq!(data.measurements.get("spectrum"), Some(&DisplaySeries::Verbatim(ramp(10, 14))));
    let short = d.latest_data_truncated(2);
    assert_eq!(short.measurements.get("counts"), Some(&DisplaySeries::Verbatim(ramp(248, 250))));
}

#[test]
fn the_stream_shows_every_device_under_its_own_name() {
    let mut state = ServerState::new();
    state.update_entity(
        "key-a".to_string(),
        Entity::Device(device("DAQ1", vec![("counts", MeasurementData::Single(ramp(0, 250)))])),
    );
    state.update_entity(
        "Test User".to_string(),
        Entity::ExperimentSetup(Experiment {
            start_time: None,
            end_time: None,
            info: ExperimentInfo::default(),
        }),
    );
    state.update_entity(
        "key-b".to_string(),
        Entity::Device(device("DAQ2", vec![("v", MeasurementData::Multi(vec![ramp(0, 101)]))])),
    );
    let stream = state.send_stream();
    assert_eq!(stream.len(), 2);
    let first = stream.get("DAQ1").unwrap();
    assert_eq!(first.device_name, "DAQ1");
    assert_eq!(first.measurements.get("counts"), Some(&DisplaySeries::Verbatim(ramp(150, 250))));
    let second = stream.get("DAQ2").unwrap();
    match second.measurements.get("v") {
        Some(DisplaySeries::Averaged(buckets)) => assert_eq!(buckets.len(), 51),
        other => panic!("not averaged: {:?}", other),
    }
    assert!(stream.get("key-a").is_none());
    assert!(stream.get("Test User").is_none());
}

#[test]
fn of_two_devices_with_one_name_the_stream_shows_the_later() {
    let mut state = ServerState::new();
    state.update_entity(
        "a".to_string(),
        Entity::Device(device("DAQ", vec![("x", MeasurementData::Single(ramp(0, 1)))])),
    );
    state.update_entity(
        "b".to_string(),
        Entity::Device(device("DAQ", vec![("y", MeasurementData::Single(ramp(5, 6)))])),
    );
    let stream = state.send_stream();
    assert_eq!(stream.len(), 1);
    let shown = stream.get("DAQ").unwrap();
    assert!(shown.measurements.get("x").is_none());
    assert_eq!(shown.measurements.get("y"), Some(&DisplaySeries::Verbatim(ramp(5, 6))));
}

#[test]
fn the_status_counts_measurements_and_shows_the_latest_sample() {
    let d = device(
        "DAQ1",
        vec![
            ("counts", MeasurementData::Single(ramp(0, 7))),
            ("spectrum", MeasurementData::Multi(vec![ramp(0, 3), ramp(10, 14)])),
            ("idle", MeasurementData::Single(vec![])),
            ("void", MeasurementData::Multi(vec![ramp(0, 2), vec![]])),
        ],
    );
    assert_eq!(
        d.status(),
        DeviceStatus {
            device_name: "DAQ1".to_string(),
            total_measurements: 7 + (3 + 4) + 0 + (2 + 0),
            last_measurement: Some(13.0f64.to_bits()),
        }
    );
    let nothing = device("quiet", vec![("idle", MeasurementData::Single(vec![]))]);
    assert_eq!(
        nothing.status(),
        DeviceStatus {
            device_name: "quiet".to_string(),
            total_measurements: 0,
            last_measurement: None
        }
    );
    assert_eq!(MeasurementData::Single(ramp(0, 7)).recorded(), 7);
    assert_eq!(MeasurementData::Multi(vec![ramp(0, 7), ramp(0, 7)]).recorded(), 14);
    assert_eq!(MeasurementData::Multi(vec![ramp(0, 2)]).recorded(), 2);
    assert_eq!(MeasurementData::Multi(vec![vec![], vec![]]).recorded(), 0);
    assert_eq!(MeasurementData::Multi(vec![]).recorded(), 0);
    assert_eq!(MeasurementData::Single(ramp(0, 7)).latest_sample(), Some(6.0f64.to_bits()));
    assert_eq!(MeasurementData::Multi(vec![]).latest_sample(), None);
}

#[test]
fn the_report_has_one_row_for_each_device_in_order() {
    let mut state = ServerState::new();
    assert_eq!(state.print_state(), StatusReport::NoDevices);
    state.update_entity(
        "Test User".to_string(),
        Entity::ExperimentSetup(Experiment {
            start_time: None,
            end_time: None,
            info: ExperimentInfo::default(),
        }),
    );
    assert_eq!(state.print_state(), StatusReport::NoDevices);
    state.update_entity(
        "b".to_string(),
        Entity::Device(device("DAQ-B", vec![("x", MeasurementData::Single(ramp(0, 3)))])),
    );
    state.update_entity(
        "a".to_string(),
        Entity::Device(device("DAQ-A", vec![("y", MeasurementData::Multi(vec![ramp(4, 6)]))])),
    );
    assert_eq!(
        state.print_state(),
        StatusReport::Devices(vec![
            DeviceStatus {
                device_name: "DAQ-B".to_string(),
                total_measurements: 3,
                last_measurement: Some(2.0f64.to_bits()),
            },
            DeviceStatus {
                device_name: "DAQ-A".to_string(),
                total_measurements: 2,
                last_measurement: Some(5.0f64.to_bits()),
            },
        ])
    );
}
