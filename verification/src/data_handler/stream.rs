//! What a viewer of a run is sent.

use vstd::prelude::*;
use crate::data_handler::entity::{displayed, DeviceData, DeviceDataView, Entity, EntityView};
use crate::data_handler::series::DISPLAY_POINTS;
use crate::data_handler::state::{entity_views, ServerState};
use crate::name_map::NameMap;

verus! {

/// What a map of projections holds, by name.
pub open spec fn stream_views(m: Map<Seq<char>, DeviceData>) -> Map<Seq<char>, DeviceDataView> {
    Map::new(|k: Seq<char>| m.contains_key(k), |k: Seq<char>| m[k]@)
}

/// The projections of the devices among the entities called `names`, each
/// under the name that the device gives itself. Where two devices give
/// themselves one name, the later of them in `names` is shown.
pub open spec fn stream_of(m: Map<Seq<char>, EntityView>, names: Seq<Seq<char>>) -> Map<
    Seq<char>,
    DeviceDataView,
>
    decreases names.len(),
{
    if names.len() == 0 {
        Map::empty()
    } else {
        let rest = stream_of(m, names.drop_last());
        match m[names.last()] {
            EntityView::Device(d) => rest.insert(
                d.device_name,
                displayed(d, DISPLAY_POINTS as int),
            ),
            EntityView::ExperimentSetup(_) => rest,
        }
    }
}

/// The names that the devices among the entities called `names` give
/// themselves, each once, in the order in which they come first.
pub open spec fn stream_order(m: Map<Seq<char>, EntityView>, names: Seq<Seq<char>>) -> Seq<
    Seq<char>,
>
    decreases names.len(),
{
    if names.len() == 0 {
        Seq::empty()
    } else {
        let rest = stream_order(m, names.drop_last());
        match m[names.last()] {
            EntityView::Device(d) => if rest.contains(d.device_name) {
                rest
            } else {
                rest.push(d.device_name)
            },
            EntityView::ExperimentSetup(_) => rest,
        }
    }
}

impl ServerState {
    /// What a viewer is sent: the bounded projection of every device, with
    /// at most `DISPLAY_POINTS` samples of each flat history, under the name
    /// that the device gives itself.
    pub fn send_stream(&self) -> (stream: NameMap<DeviceData>)
        ensures
            stream_views(stream@) == stream_of(self@, self.order()),
            stream.keys() == stream_order(self@, self.order()),
    {
        let entities = self.entities();
        let n: usize = entities.len();
        let ghost names = entities.keys();
        let mut stream: NameMap<DeviceData> = NameMap::new();
        let mut i: usize = 0;
        proof {
            assert(stream_views(stream@) =~= stream_of(self@, names.take(0)));
        }
        while i < n
            invariant
                entities.wf(),
                names == entities.keys(),
                names == self.order(),
                entity_views(entities@) == self@,
                n == names.len(),
                i <= n,
                stream_views(stream@) == stream_of(self@, names.take(i as int)),
                stream.wf(),
                stream.keys() == stream_order(self@, names.take(i as int)),
            decreases n - i,
        {
            proof {
                entities.lemma_entry(i as int);
                assert(names.take(i + 1).drop_last() =~= names.take(i as int));
                assert(names.take(i + 1).last() == names[i as int]);
            }
            let ghost before = stream_views(stream@);
            match entities.value(i) {
                Entity::Device(device) => {
                    let data = device.latest_data_truncated(DISPLAY_POINTS);
                    stream.insert(device.device_name.clone(), data);
                    proof {
                        assert(stream_views(stream@) =~= before.insert(
                            device@.device_name,
                            displayed(device@, DISPLAY_POINTS as int),
                        ));
                    }
                },
                Entity::ExperimentSetup(_) => {},
            }
            i += 1;
        }
        proof {
            assert(names.take(n as int) =~= names);
        }
        stream
    }
}

} // verus!
