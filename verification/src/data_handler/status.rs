//! The summary of a run for the log.

use vstd::prelude::*;
use crate::data_handler::entity::{Device, DeviceView, Entity, EntityView};
use crate::data_handler::series::{rows, MeasurementData, Series};
use crate::data_handler::state::{entity_views, ServerState};

verus! {

/// How many samples some arrays hold together.
pub open spec fn samples_in(arrays: Seq<Seq<u64>>) -> nat
    decreases arrays.len(),
{
    if arrays.len() == 0 {
        0
    } else {
        samples_in(arrays.drop_last()) + arrays.last().len()
    }
}

/// How many values a history records: its samples if it is flat, the
/// samples of all its arrays if it is a run of arrays.
pub open spec fn recorded(series: Series) -> nat {
    match series {
        Series::Single(v) => v.len(),
        Series::Multi(arrays) => samples_in(arrays),
    }
}

/// The sample that a history took in last, if it has one.
pub open spec fn latest_sample(series: Series) -> Option<u64> {
    match series {
        Series::Single(v) => if v.len() > 0 {
            Some(v.last())
        } else {
            None
        },
        Series::Multi(arrays) => if arrays.len() > 0 && arrays.last().len() > 0 {
            Some(arrays.last().last())
        } else {
            None
        },
    }
}

/// How many values the histories called `names` record together.
pub open spec fn recorded_in(d: DeviceView, names: Seq<Seq<char>>) -> nat
    decreases names.len(),
{
    if names.len() == 0 {
        0
    } else {
        recorded_in(d, names.drop_last()) + recorded(d.measurements[names.last()])
    }
}

/// The latest sample of the last of the histories called `names` that has
/// one.
pub open spec fn latest_in(d: DeviceView, names: Seq<Seq<char>>) -> Option<u64>
    decreases names.len(),
{
    if names.len() == 0 {
        None
    } else {
        match latest_sample(d.measurements[names.last()]) {
            Some(sample) => Some(sample),
            None => latest_in(d, names.drop_last()),
        }
    }
}

/// The summary of one device.
#[derive(Debug, Clone, PartialEq)]
pub struct DeviceStatus {
    pub device_name: String,
    /// How many values the device has recorded, over all its histories, or
    /// `usize::MAX` if they are more than that.
    pub total_measurements: usize,
    /// The latest sample of the last of its histories that has one.
    pub last_measurement: Option<u64>,
}

/// What a `DeviceStatus` holds.
pub struct DeviceStatusView {
    pub device_name: Seq<char>,
    pub total_measurements: nat,
    pub last_measurement: Option<u64>,
}

impl View for DeviceStatus {
    type V = DeviceStatusView;

    open spec fn view(&self) -> DeviceStatusView {
        DeviceStatusView {
            device_name: self.device_name@,
            total_measurements: self.total_measurements as nat,
            last_measurement: self.last_measurement,
        }
    }
}

/// `n`, or `usize::MAX` if `n` is more than that.
pub open spec fn capped(n: nat) -> nat {
    if n <= usize::MAX {
        n
    } else {
        usize::MAX as nat
    }
}

/// The sum of two counts, or `usize::MAX` if it is more than that.
pub fn add_capped(a: usize, b: usize) -> (sum: usize)
    ensures
        sum == capped((a + b) as nat),
{
    if usize::MAX - a < b {
        usize::MAX
    } else {
        a + b
    }
}

/// The summary of a device: its name, how many values its histories record
/// together, and its latest sample.
pub open spec fn status_of(d: DeviceView) -> DeviceStatusView {
    DeviceStatusView {
        device_name: d.device_name,
        total_measurements: capped(recorded_in(d, d.measurement_order)),
        last_measurement: latest_in(d, d.measurement_order),
    }
}

impl MeasurementData {
    /// How many values this history records, or `usize::MAX` if they are
    /// more than that.
    pub fn recorded(&self) -> (n: usize)
        ensures
            n == capped(recorded(self@)),
    {
        match self {
            MeasurementData::Single(v) => v.len(),
            MeasurementData::Multi(arrays) => {
                let count: usize = arrays.len();
                let ghost all = rows(arrays@);
                let mut total: usize = 0;
                let mut i: usize = 0;
                while i < count
                    invariant
                        count == arrays.len(),
                        all == rows(arrays@),
                        i <= count,
                        total == capped(samples_in(all.take(i as int))),
                    decreases count - i,
                {
                    proof {
                        assert(all.take(i + 1).drop_last() =~= all.take(i as int));
                        assert(all.take(i + 1).last() == arrays[i as int]@);
                    }
                    total = add_capped(total, arrays[i].len());
                    i += 1;
                }
                proof {
                    assert(all.take(count as int) =~= all);
                }
                total
            },
        }
    }

    /// The sample that this history took in last, if it has one.
    pub fn latest_sample(&self) -> (sample: Option<u64>)
        ensures
            sample == latest_sample(self@),
    {
        match self {
            MeasurementData::Single(v) => {
                let n: usize = v.len();
                if n > 0 {
                    Some(v[n - 1])
                } else {
                    None
                }
            },
            MeasurementData::Multi(arrays) => {
                let n: usize = arrays.len();
                if n > 0 {
                    let inner = &arrays[n - 1];
                    let len: usize = inner.len();
                    if len > 0 {
                        Some(inner[len - 1])
                    } else {
                        None
                    }
                } else {
                    None
                }
            },
        }
    }
}

impl Device {
    /// The summary of this device.
    pub fn status(&self) -> (status: DeviceStatus)
        ensures
            status@ == status_of(self@),
    {
        let n: usize = self.measurements.len();
        let ghost names = self.measurements.keys();
        let mut total: usize = 0;
        let mut last: Option<u64> = None;
        let mut i: usize = 0;
        while i < n
            invariant
                self.measurements.wf(),
                names == self.measurements.keys(),
                n == names.len(),
                i <= n,
                total == capped(recorded_in(self@, names.take(i as int))),
                last == latest_in(self@, names.take(i as int)),
            decreases n - i,
        {
            let series = self.measurements.value(i);
            proof {
                self.measurements.lemma_entry(i as int);
                assert(names.take(i + 1).drop_last() =~= names.take(i as int));
                assert(names.take(i + 1).last() == names[i as int]);
                assert(self@.measurements[names[i as int]] == series@);
            }
            total = add_capped(total, series.recorded());
            match series.latest_sample() {
                Some(sample) => {
                    last = Some(sample);
                },
                None => {},
            }
            i += 1;
        }
        proof {
            assert(names.take(n as int) =~= names);
        }
        DeviceStatus {
            device_name: self.device_name.clone(),
            total_measurements: total,
            last_measurement: last,
        }
    }
}

/// The summaries of the devices among the entities called `names`, in the
/// order of `names`.
pub open spec fn device_rows(m: Map<Seq<char>, EntityView>, names: Seq<Seq<char>>) -> Seq<
    DeviceStatusView,
>
    decreases names.len(),
{
    if names.len() == 0 {
        Seq::empty()
    } else {
        let rest = device_rows(m, names.drop_last());
        match m[names.last()] {
            EntityView::Device(d) => rest.push(status_of(d)),
            EntityView::ExperimentSetup(_) => rest,
        }
    }
}

/// What a sequence of summaries holds.
pub open spec fn rows_of(v: Seq<DeviceStatus>) -> Seq<DeviceStatusView> {
    Seq::new(v.len(), |i: int| v[i]@)
}

/// A summary of a run, for the log.
#[derive(Debug, Clone, PartialEq)]
pub enum StatusReport {
    /// No device has reported yet.
    NoDevices,
    /// One summary for each device, in the order in which they came.
    Devices(Vec<DeviceStatus>),
}

impl ServerState {
    /// The summary of the run: one row for each device, in the order in
    /// which the devices came, or `NoDevices` where there is none.
    pub fn print_state(&self) -> (report: StatusReport)
        ensures
            match report {
                StatusReport::NoDevices => device_rows(self@, self.order()).len() == 0,
                StatusReport::Devices(rows) => rows@.len() > 0 && rows_of(rows@) == device_rows(
                    self@,
                    self.order(),
                ),
            },
    {
        let entities = self.entities();
        let n: usize = entities.len();
        let ghost names = entities.keys();
        let mut rows: Vec<DeviceStatus> = Vec::new();
        let mut i: usize = 0;
        while i < n
            invariant
                entities.wf(),
                names == entities.keys(),
                names == self.order(),
                entity_views(entities@) == self@,
                n == names.len(),
                i <= n,
                rows_of(rows@) == device_rows(self@, names.take(i as int)),
            decreases n - i,
        {
            proof {
                entities.lemma_entry(i as int);
                assert(names.take(i + 1).drop_last() =~= names.take(i as int));
                assert(names.take(i + 1).last() == names[i as int]);
            }
            let ghost before = rows_of(rows@);
            match entities.value(i) {
                Entity::Device(device) => {
                    rows.push(device.status());
                    proof {
                        assert(rows_of(rows@) =~= before.push(status_of(device@)));
                    }
                },
                Entity::ExperimentSetup(_) => {},
            }
            i += 1;
        }
        proof {
            assert(names.take(n as int) =~= names);
        }
        if rows.len() == 0 {
            StatusReport::NoDevices
        } else {
            StatusReport::Devices(rows)
        }
    }
}

} // verus!
