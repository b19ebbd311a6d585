//! The records of a run: devices and the descriptor of the experiment.

use vstd::prelude::*;
use crate::data_handler::series::{
    merged, same_variant, truncated, DisplaySeries, MeasurementData, Series, Shown,
};
use crate::data_handler::stamp::{create_time_stamp, is_clock_stamp};
use crate::name_map::{lemma_take_one_more, NameMap};
use crate::text::{text_of, texts};

verus! {

/// A value of a TOML document, as the `toml` crate holds it. The library
/// carries such values and copies them, and never looks into one.
#[verifier::external_type_specification]
#[verifier::external_body]
pub struct ExTomlValue(toml::Value);

/// A copy of a TOML value.
///
/// Trusted: this is the `Clone` that `toml::Value` derives, so the copy is
/// the same value as the one it was made of.
pub assume_specification[ <toml::Value as Clone>::clone ](v: &toml::Value) -> (copy: toml::Value)
    ensures
        copy == *v,
;

/// Who runs an experiment, and what it is.
#[derive(Debug, Clone, PartialEq)]
pub struct ExperimentInfo {
    pub name: String,
    pub email: String,
    pub experiment_name: String,
    pub experiment_description: String,
}

/// What an `ExperimentInfo` holds, as sequences of characters.
pub struct ExperimentInfoView {
    pub name: Seq<char>,
    pub email: Seq<char>,
    pub experiment_name: Seq<char>,
    pub experiment_description: Seq<char>,
}

impl View for ExperimentInfo {
    type V = ExperimentInfoView;

    open spec fn view(&self) -> ExperimentInfoView {
        ExperimentInfoView {
            name: self.name@,
            email: self.email@,
            experiment_name: self.experiment_name@,
            experiment_description: self.experiment_description@,
        }
    }
}

/// The info with every field empty.
pub open spec fn empty_info() -> ExperimentInfoView {
    ExperimentInfoView {
        name: Seq::empty(),
        email: Seq::empty(),
        experiment_name: Seq::empty(),
        experiment_description: Seq::empty(),
    }
}

impl Default for ExperimentInfo {
    /// An info with every field empty.
    fn default() -> (info: Self)
        ensures
            info@ == empty_info(),
    {
        ExperimentInfo {
            name: String::new(),
            email: String::new(),
            experiment_name: String::new(),
            experiment_description: String::new(),
        }
    }
}

/// The descriptor of a run: when it started, when it ended, and its
/// `ExperimentInfo`. The end is absent until the run is finalised.
#[derive(Debug, Clone, PartialEq)]
pub struct Experiment {
    pub start_time: Option<String>,
    pub end_time: Option<String>,
    pub info: ExperimentInfo,
}

/// What an `Experiment` holds, as sequences of characters.
pub struct ExperimentView {
    pub start_time: Option<Seq<char>>,
    pub end_time: Option<Seq<char>>,
    pub info: ExperimentInfoView,
}

impl View for Experiment {
    type V = ExperimentView;

    open spec fn view(&self) -> ExperimentView {
        ExperimentView {
            start_time: text_of(self.start_time),
            end_time: text_of(self.end_time),
            info: self.info@,
        }
    }
}

/// The descriptor of a run that starts at `now`: no end yet.
pub open spec fn started(info: ExperimentInfoView, now: Seq<char>) -> ExperimentView {
    ExperimentView { start_time: Some(now), end_time: None, info }
}

/// The descriptor as the store takes it in at `now`: its start is the one
/// it came with, or `now` if it came with none, and it has no end.
pub open spec fn admitted(incoming: ExperimentView, now: Seq<char>) -> ExperimentView {
    ExperimentView {
        start_time: if incoming.start_time is Some {
            incoming.start_time
        } else {
            Some(now)
        },
        end_time: None,
        info: incoming.info,
    }
}

/// The descriptor with its end set to `now`.
pub open spec fn ended(e: ExperimentView, now: Seq<char>) -> ExperimentView {
    ExperimentView { start_time: e.start_time, end_time: Some(now), info: e.info }
}

impl Experiment {
    /// A descriptor that starts at `now` and has not ended.
    pub fn started_at(info: ExperimentInfo, now: String) -> (e: Self)
        ensures
            e@ == started(info@, now@),
    {
        Experiment { start_time: Some(now), end_time: None, info }
    }

    /// A descriptor that starts at the current time and has not ended.
    pub fn new(info: ExperimentInfo) -> (e: Self)
        ensures
            e@.start_time is Some,
            is_clock_stamp(e@.start_time->0),
            e@ == started(info@, e@.start_time->0),
    {
        Experiment::started_at(info, create_time_stamp(false))
    }

    /// Sets the end of the run to `now`.
    pub fn end_at(&mut self, now: String)
        ensures
            final(self)@ == ended(old(self)@, now@),
    {
        self.end_time = Some(now);
    }

    /// Sets the end of the run to the current time.
    pub fn append_end_time(&mut self)
        ensures
            final(self)@.end_time is Some,
            is_clock_stamp(final(self)@.end_time->0),
            final(self)@ == ended(old(self)@, final(self)@.end_time->0),
    {
        self.end_at(create_time_stamp(false));
    }
}

impl Default for Experiment {
    /// A descriptor with an empty info that starts at the current time.
    fn default() -> (e: Self)
        ensures
            e@.start_time is Some,
            is_clock_stamp(e@.start_time->0),
            e@ == started(empty_info(), e@.start_time->0),
    {
        Experiment::new(ExperimentInfo::default())
    }
}

/// One instrument: its name, its settings, and the history of each of its
/// measurements.
#[derive(Debug, Clone, PartialEq)]
pub struct Device {
    pub device_name: String,
    pub device_config: NameMap<toml::Value>,
    pub measurements: NameMap<MeasurementData>,
}

/// What a `Device` holds: its name, its settings by name, its histories by
/// name, and the names of the histories in the order in which they came.
pub struct DeviceView {
    pub device_name: Seq<char>,
    pub device_config: Map<Seq<char>, toml::Value>,
    pub measurement_order: Seq<Seq<char>>,
    pub measurements: Map<Seq<char>, Series>,
}

/// The histories of a map of measurements, by name.
pub open spec fn series_of(m: Map<Seq<char>, MeasurementData>) -> Map<Seq<char>, Series> {
    Map::new(|k: Seq<char>| m.contains_key(k), |k: Seq<char>| m[k]@)
}

impl View for Device {
    type V = DeviceView;

    open spec fn view(&self) -> DeviceView {
        DeviceView {
            device_name: self.device_name@,
            device_config: self.device_config@,
            measurement_order: self.measurements.keys(),
            measurements: series_of(self.measurements@),
        }
    }
}

/// The stored histories after an update: a name that both hold gets the
/// merged history, and every other name keeps the history of the side that
/// holds it.
pub open spec fn merged_measurements(
    stored: Map<Seq<char>, Series>,
    incoming: Map<Seq<char>, Series>,
) -> Map<Seq<char>, Series> {
    Map::new(
        |k: Seq<char>| stored.contains_key(k) || incoming.contains_key(k),
        |k: Seq<char>|
            if stored.contains_key(k) {
                if incoming.contains_key(k) {
                    merged(stored[k], incoming[k])
                } else {
                    stored[k]
                }
            } else {
                incoming[k]
            },
    )
}

/// Whether an update for `name` is refused: both sides hold the name, with
/// histories of different variants.
pub open spec fn conflicts(
    stored: Map<Seq<char>, Series>,
    incoming: Map<Seq<char>, Series>,
    name: Seq<char>,
) -> bool {
    stored.contains_key(name) && incoming.contains_key(name) && !same_variant(
        stored[name],
        incoming[name],
    )
}

/// The names `order` followed by those of `incoming` that it lacks, each
/// once, in the order of `incoming`.
pub open spec fn appended_names(order: Seq<Seq<char>>, incoming: Seq<Seq<char>>) -> Seq<
    Seq<char>,
>
    decreases incoming.len(),
{
    if incoming.len() == 0 {
        order
    } else {
        let so_far = appended_names(order, incoming.drop_last());
        if so_far.contains(incoming.last()) {
            so_far
        } else {
            so_far.push(incoming.last())
        }
    }
}

/// The names of `incoming_order` whose histories are refused, in that
/// order.
pub open spec fn refused_names(
    stored: Map<Seq<char>, Series>,
    incoming: Map<Seq<char>, Series>,
    incoming_order: Seq<Seq<char>>,
) -> Seq<Seq<char>>
    decreases incoming_order.len(),
{
    if incoming_order.len() == 0 {
        Seq::empty()
    } else {
        let earlier = refused_names(stored, incoming, incoming_order.drop_last());
        if conflicts(stored, incoming, incoming_order.last()) {
            earlier.push(incoming_order.last())
        } else {
            earlier
        }
    }
}

/// A stored device after an update for it: the measurements are merged, new
/// names follow the stored ones, and the name and the settings stay as they
/// were stored.
pub open spec fn merged_device(stored: DeviceView, incoming: DeviceView) -> DeviceView {
    DeviceView {
        device_name: stored.device_name,
        device_config: stored.device_config,
        measurement_order: appended_names(stored.measurement_order, incoming.measurement_order),
        measurements: merged_measurements(stored.measurements, incoming.measurements),
    }
}

/// The bounded projection of a device for display: its name, and each of
/// its histories truncated.
#[derive(Debug, Clone, PartialEq)]
pub struct DeviceData {
    pub device_name: String,
    pub measurements: NameMap<DisplaySeries>,
}

/// What a `DeviceData` holds: the name, and what is shown of each history.
pub struct DeviceDataView {
    pub device_name: Seq<char>,
    pub measurements: Map<Seq<char>, Shown>,
}

/// What is shown of each of a map of projections, by name.
pub open spec fn shown_of(m: Map<Seq<char>, DisplaySeries>) -> Map<Seq<char>, Shown> {
    Map::new(|k: Seq<char>| m.contains_key(k), |k: Seq<char>| m[k]@)
}

impl View for DeviceData {
    type V = DeviceDataView;

    open spec fn view(&self) -> DeviceDataView {
        DeviceDataView {
            device_name: self.device_name@,
            measurements: shown_of(self.measurements@),
        }
    }
}

/// The projection of a device: every history truncated, with at most `max`
/// samples of a flat one.
pub open spec fn displayed(d: DeviceView, max: int) -> DeviceDataView {
    DeviceDataView {
        device_name: d.device_name,
        measurements: Map::new(
            |k: Seq<char>| d.measurements.contains_key(k),
            |k: Seq<char>| truncated(d.measurements[k], max),
        ),
    }
}

/// One record of a run: an instrument or the run's descriptor.
#[derive(Debug, Clone, PartialEq)]
pub enum Entity {
    Device(Device),
    ExperimentSetup(Experiment),
}

/// What an `Entity` holds.
pub enum EntityView {
    Device(DeviceView),
    ExperimentSetup(ExperimentView),
}

impl View for Entity {
    type V = EntityView;

    open spec fn view(&self) -> EntityView {
        match self {
            Entity::Device(d) => EntityView::Device(d@),
            Entity::ExperimentSetup(e) => EntityView::ExperimentSetup(e@),
        }
    }
}

/// `m` restricted to the names in `keys`.
pub open spec fn restricted(m: Map<Seq<char>, Series>, keys: Seq<Seq<char>>) -> Map<
    Seq<char>,
    Series,
> {
    Map::new(|k: Seq<char>| keys.contains(k) && m.contains_key(k), |k: Seq<char>| m[k])
}

impl Device {
    /// The projection of this device for display, with at most
    /// `max_measurements` samples of a flat history. It keeps the order of
    /// the measurements.
    pub fn latest_data_truncated(&self, max_measurements: usize) -> (data: DeviceData)
        ensures
            data@ == displayed(self@, max_measurements as int),
            data.measurements.keys() == self.measurements.keys(),
    {
        let mut shown: NameMap<DisplaySeries> = NameMap::new();
        let n: usize = self.measurements.len();
        let mut i: usize = 0;
        while i < n
            invariant
                self.measurements.wf(),
                n == self.measurements.keys().len(),
                i <= n,
                shown.wf(),
                shown.keys() == self.measurements.keys().take(i as int),
                forall|j: int|
                    0 <= j < i ==> (#[trigger] shown.values()[j])@ == truncated(
                        self.measurements.values()[j]@,
                        max_measurements as int,
                    ),
            decreases n - i,
        {
            let ghost keys = self.measurements.keys();
            let ghost before = shown;
            let name = self.measurements.key(i).clone();
            let part = self.measurements.value(i).latest_truncated(max_measurements);
            proof {
                assert(!keys.take(i as int).contains(name@)) by {
                    if keys.take(i as int).contains(name@) {
                        let j = keys.take(i as int).index_of(name@);
                        assert(keys[j] == keys[i as int]);
                    }
                }
            }
            shown.insert(name, part);
            i += 1;
            proof {
                assert(shown.keys() =~= keys.take(i as int));
                assert forall|j: int| 0 <= j < i implies (#[trigger] shown.values()[j])@
                    == truncated(self.measurements.values()[j]@, max_measurements as int) by {
                    if j < i - 1 {
                        assert(shown.values()[j] == before.values()[j]);
                    }
                }
            }
        }
        let data = DeviceData { device_name: self.device_name.clone(), measurements: shown };
        proof {
            let keys = self.measurements.keys();
            assert(keys.take(n as int) =~= keys);
            let want = displayed(self@, max_measurements as int).measurements;
            assert forall|k: Seq<char>| #[trigger] want.contains_key(k) implies data@.measurements[k]
                == want[k] by {
                let j = keys.index_of(k);
                self.measurements.lemma_entry(j);
                data.measurements.lemma_entry(j);
            }
            assert(data@.measurements =~= want);
        }
        data
    }

    /// Merges the measurements of `other` into this device, name by name.
    /// A new name is taken over with its history; a known name of the same
    /// variant gets the incoming values appended; a known name of the other
    /// variant keeps its history, and is reported in the result. The name
    /// and the settings of `other` are not looked at.
    pub fn update(&mut self, other: Device) -> (refused: Vec<String>)
        ensures
            final(self)@ == merged_device(old(self)@, other@),
            texts(refused@) == refused_names(
                old(self)@.measurements,
                other@.measurements,
                other@.measurement_order,
            ),
    {
        let ghost stored = old(self)@.measurements;
        let ghost incoming = other@.measurements;
        let ghost keys = other.measurements.keys();
        let ghost values = other.measurements.values();
        let ghost whole = other.measurements;
        let entries = other.measurements.into_entries();
        let mut refused: Vec<String> = Vec::new();
        proof {
            assert(self@.measurements =~= merged_measurements(stored, restricted(incoming, keys.take(0))));
        }
        let ghost mut done: int = 0;
        for entry in it: entries
            invariant
                done == it.index(),
                whole.wf(),
                keys == whole.keys(),
                values == whole.values(),
                incoming == series_of(whole@),
                it.seq().len() == keys.len(),
                forall|i: int| 0 <= i < keys.len() ==> (#[trigger] it.seq()[i]).0@ == keys[i],
                forall|i: int| 0 <= i < keys.len() ==> (#[trigger] it.seq()[i]).1 == values[i],
                self.device_name == old(self).device_name,
                self.device_config == old(self).device_config,
                stored == old(self)@.measurements,
                self@.measurements == merged_measurements(
                    stored,
                    restricted(incoming, keys.take(done)),
                ),
                self.measurements.keys() == appended_names(
                    old(self).measurements.keys(),
                    keys.take(done),
                ),
                texts(refused@) == refused_names(stored, incoming, keys.take(done)),
        {
            let ghost before = self@.measurements;
            let ghost seen = restricted(incoming, keys.take(done));
            let ghost next = restricted(incoming, keys.take(done + 1));
            let ghost earlier = texts(refused@);
            let ghost order = self.measurements.keys();
            let (name, fresh) = entry;
            proof {
                assert(keys.take(done + 1).drop_last() =~= keys.take(done));
                assert(keys.take(done + 1).last() == name@);
                assert(order.contains(name@) <==> self.measurements@.contains_key(name@));
                whole.lemma_entry(done);
                lemma_take_one_more(keys, done);
                assert(!keys.take(done).contains(name@));
                assert(incoming[name@] == fresh@);
                assert(next =~= seen.insert(name@, fresh@));
            }
            let ghost name_view = name@;
            let turned_away: Option<String> = match self.measurements.position(name.as_str()) {
                Some(p) => {
                    let ghost m0 = self.measurements;
                    proof {
                        m0.lemma_entry(p as int);
                    }
                    let mut held = self.measurements.replace_value(
                        p,
                        MeasurementData::Single(Vec::new()),
                    );
                    let ghost held_before = held@;
                    let accepted = held.extend(fresh);
                    self.measurements.replace_value(p, held);
                    proof {
                        assert(before.contains_key(name_view));
                        assert(!seen.contains_key(name_view));
                        assert(stored.contains_key(name_view));
                        assert(held_before == before[name_view]);
                        assert(held_before == stored[name_view]);
                        assert(self.measurements@ =~= m0@.insert(name_view, held));
                        assert(self@.measurements =~= before.insert(name_view, held@));
                        assert(self@.measurements =~= merged_measurements(stored, next));
                        assert(conflicts(stored, incoming, name_view) == !accepted);
                    }
                    if accepted {
                        None
                    } else {
                        Some(name)
                    }
                },
                None => {
                    proof {
                        assert(!before.contains_key(name_view));
                    }
                    self.measurements.insert(name, fresh);
                    proof {
                        assert(!stored.contains_key(name_view));
                        assert(!conflicts(stored, incoming, name_view));
                        assert(self@.measurements =~= before.insert(name_view, fresh@));
                        assert(self@.measurements =~= merged_measurements(stored, next));
                    }
                    None
                },
            };
            proof {
                assert(turned_away is Some == conflicts(stored, incoming, name_view));
                assert(turned_away matches Some(n) ==> n@ == name_view);
            }
            match turned_away {
                Some(n) => {
                    refused.push(n);
                    proof {
                        assert(texts(refused@) =~= earlier.push(name_view));
                    }
                },
                None => {
                    proof {
                        assert(texts(refused@) =~= earlier);
                    }
                },
            }
            proof {
                done = done + 1;
            }
        }
        proof {
            assert(keys.take(keys.len() as int) =~= keys);
            assert(restricted(incoming, keys) =~= incoming);
        }
        refused
    }
}

} // verus!
