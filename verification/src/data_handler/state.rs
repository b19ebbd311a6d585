//! The state of a run: its entities by name, with one descriptor at most.

use vstd::prelude::*;
use crate::data_handler::entity::{
    admitted, ended, merged_device, refused_names, Entity, EntityView, Experiment,
    ExperimentView,
};
use crate::data_handler::stamp::{create_time_stamp, is_clock_stamp};
use crate::name_map::NameMap;
use crate::text::texts;

verus! {

/// What a map of entities holds, by name.
pub open spec fn entity_views(m: Map<Seq<char>, Entity>) -> Map<Seq<char>, EntityView> {
    Map::new(|k: Seq<char>| m.contains_key(k), |k: Seq<char>| m[k]@)
}

/// Whether `name` is the name of a descriptor in `m`.
pub open spec fn names_experiment(m: Map<Seq<char>, EntityView>, name: Seq<char>) -> bool {
    m.contains_key(name) && m[name] is ExperimentSetup
}

/// Whether `m` holds a descriptor.
pub open spec fn has_experiment(m: Map<Seq<char>, EntityView>) -> bool {
    exists|k: Seq<char>| names_experiment(m, k)
}

/// No two names of `m` hold a descriptor.
pub open spec fn at_most_one_experiment(m: Map<Seq<char>, EntityView>) -> bool {
    forall|a: Seq<char>, b: Seq<char>|
        names_experiment(m, a) && names_experiment(m, b) ==> a == b
}

/// The descriptor of `m`, where it holds one.
pub open spec fn experiment_of(m: Map<Seq<char>, EntityView>) -> ExperimentView {
    m[choose|k: Seq<char>| names_experiment(m, k)]->ExperimentSetup_0
}

/// The entities after an update arrives under `key` at the time `now`.
///
/// A device under a new name is taken in as it is; under the name of a
/// stored device it is merged into that device; under the name of the
/// descriptor it is dropped. A descriptor is taken in, as `admitted` says,
/// only while the run has none and its name is free; else it is dropped.
pub open spec fn updated(
    m: Map<Seq<char>, EntityView>,
    key: Seq<char>,
    incoming: EntityView,
    now: Seq<char>,
) -> Map<Seq<char>, EntityView> {
    match incoming {
        EntityView::Device(d) => {
            if m.contains_key(key) {
                match m[key] {
                    EntityView::Device(stored) => m.insert(
                        key,
                        EntityView::Device(merged_device(stored, d)),
                    ),
                    EntityView::ExperimentSetup(_) => m,
                }
            } else {
                m.insert(key, incoming)
            }
        },
        EntityView::ExperimentSetup(e) => {
            if m.contains_key(key) || has_experiment(m) {
                m
            } else {
                m.insert(key, EntityView::ExperimentSetup(admitted(e, now)))
            }
        },
    }
}

/// The entities with the end of the run set to `now` in the descriptor.
pub open spec fn finalised(m: Map<Seq<char>, EntityView>, now: Seq<char>) -> Map<
    Seq<char>,
    EntityView,
> {
    Map::new(
        |k: Seq<char>| m.contains_key(k),
        |k: Seq<char>|
            match m[k] {
                EntityView::ExperimentSetup(e) => EntityView::ExperimentSetup(ended(e, now)),
                EntityView::Device(d) => EntityView::Device(d),
            },
    )
}

/// Whether the end of the run has been set.
pub open spec fn has_ended(m: Map<Seq<char>, EntityView>) -> bool {
    has_experiment(m) && experiment_of(m).end_time is Some
}

/// How far an update got, by what it was and what the store held.
pub open spec fn outcome_of(
    m: Map<Seq<char>, EntityView>,
    key: Seq<char>,
    incoming: EntityView,
    outcome: UpdateOutcome,
) -> bool {
    match incoming {
        EntityView::Device(d) => {
            if m.contains_key(key) {
                match m[key] {
                    EntityView::Device(stored) => {
                        &&& outcome matches UpdateOutcome::DeviceMerged { refused }
                        &&& texts(refused@) == refused_names(
                            stored.measurements,
                            d.measurements,
                            d.measurement_order,
                        )
                    },
                    EntityView::ExperimentSetup(_) => outcome is DeviceDropped,
                }
            } else {
                outcome is DeviceAdded
            }
        },
        EntityView::ExperimentSetup(_) => {
            if m.contains_key(key) || has_experiment(m) {
                outcome is ExperimentDropped
            } else {
                outcome is ExperimentAdded
            }
        },
    }
}

/// Why a state is not complete.
#[derive(Debug, Clone, Copy, PartialEq, Eq)]
pub enum ValidationError {
    /// The run has no descriptor.
    NoExperimentSetup,
}

impl ValidationError {
    /// The error in words.
    pub fn message(&self) -> (text: String)
        ensures
            text@ == "No entity of type ExperimentSetup found"@,
    {
        "No entity of type ExperimentSetup found".to_owned()
    }
}

/// What became of an update.
#[derive(Debug, Clone, PartialEq)]
pub enum UpdateOutcome {
    /// A device under a new name was taken in.
    DeviceAdded,
    /// A device was merged into the stored one; the measurements named
    /// here were refused, for their variant differs from the stored one.
    DeviceMerged { refused: Vec<String> },
    /// A device came under the name of the descriptor and was dropped.
    DeviceDropped,
    /// The descriptor of the run was taken in.
    ExperimentAdded,
    /// A descriptor came while the run had one, or under a name in use,
    /// and was dropped.
    ExperimentDropped,
}

/// The canonical record of one run: its entities by name, and whether the
/// run is live. A run has at most one descriptor.
#[derive(Debug, PartialEq)]
pub struct ServerState {
    entities: NameMap<Entity>,
    internal_state: bool,
}

impl View for ServerState {
    type V = Map<Seq<char>, EntityView>;

    closed spec fn view(&self) -> Map<Seq<char>, EntityView> {
        entity_views(self.entities@)
    }
}

/// The position of the first descriptor among `entities`, if there is one.
pub(crate) fn experiment_position(entities: &NameMap<Entity>) -> (at: Option<usize>)
    ensures
        entities.wf(),
        match at {
            Some(i) => i < entities.values().len() && entities.values()[i as int] is ExperimentSetup,
            None => forall|j: int|
                0 <= j < entities.values().len() ==> #[trigger] entities.values()[j] is Device,
        },
        at is Some <==> has_experiment(entity_views(entities@)),
{
    let n: usize = entities.len();
    let mut i: usize = 0;
    while i < n
        invariant
            entities.wf(),
            n == entities.keys().len(),
            i <= n,
            forall|j: int| 0 <= j < i ==> #[trigger] entities.values()[j] is Device,
        decreases n - i,
    {
        match entities.value(i) {
            Entity::ExperimentSetup(_) => {
                proof {
                    entities.lemma_entry(i as int);
                    assert(names_experiment(entity_views(entities@), entities.keys()[i as int]));
                }
                return Some(i);
            },
            Entity::Device(_) => {},
        }
        i += 1;
    }
    proof {
        let m = entity_views(entities@);
        if has_experiment(m) {
            let k = choose|k: Seq<char>| names_experiment(m, k);
            entities.lemma_lookup(k);
            assert(entities.values()[entities.keys().index_of(k)] is Device);
        }
    }
    None
}

impl Default for ServerState {
    /// The state of a run that has just begun.
    fn default() -> (state: Self)
        ensures
            state@ == Map::<Seq<char>, EntityView>::empty(),
            state.order() == Seq::<Seq<char>>::empty(),
            state.live(),
    {
        ServerState::new()
    }
}

/// The names of a map of entities are the names that its view holds.
proof fn lemma_order_matches(entities: NameMap<Entity>)
    requires
        entities.wf(),
    ensures
        forall|k: Seq<char>| #[trigger]
            entities.keys().contains(k) <==> entity_views(entities@).contains_key(k),
{
    assert forall|k: Seq<char>| #[trigger]
        entities.keys().contains(k) <==> entity_views(entities@).contains_key(k) by {
        if entity_views(entities@).contains_key(k) {
            entities.lemma_lookup(k);
        }
        if entities.keys().contains(k) {
            let j = entities.keys().index_of(k);
            entities.lemma_entry(j);
        }
    }
}

impl ServerState {
    /// The names of the entities, in the order in which they were taken in.
    pub closed spec fn order(&self) -> Seq<Seq<char>> {
        self.entities.keys()
    }

    /// Whether the run is live.
    pub closed spec fn live(&self) -> bool {
        self.internal_state
    }

    /// What every state satisfies: a run has at most one descriptor, and
    /// the order lists each name of an entity once.
    #[verifier::type_invariant]
    pub open spec fn wf(&self) -> bool {
        &&& at_most_one_experiment(self@)
        &&& self.order().no_duplicates()
        &&& forall|k: Seq<char>| #[trigger] self.order().contains(k) <==> self@.contains_key(k)
    }

    /// The state of a run that has just begun: no entity, and live.
    pub fn new() -> (state: Self)
        ensures
            state.wf(),
            state@ == Map::<Seq<char>, EntityView>::empty(),
            state.order() == Seq::<Seq<char>>::empty(),
            state.live(),
    {
        let entities: NameMap<Entity> = NameMap::new();
        proof {
            assert(entity_views(entities@) =~= Map::<Seq<char>, EntityView>::empty());
            lemma_order_matches(entities);
        }
        ServerState { entities, internal_state: true }
    }

    /// The entities, by name.
    pub fn entities(&self) -> (entities: &NameMap<Entity>)
        ensures
            self.wf(),
            entities.wf(),
            entity_views(entities@) == self@,
            entities.keys() == self.order(),
    {
        proof {
            use_type_invariant(self);
            use_type_invariant(&self.entities);
        }
        &self.entities
    }

    /// Whether the run is live.
    pub fn internal_state(&self) -> (live: bool)
        ensures
            live == self.live(),
    {
        self.internal_state
    }

    /// Applies an update that arrives under `key` at the time `now`, and
    /// says what became of it. The entities change as `updated` says; a new
    /// name goes to the end of the order.
    pub fn update_entity_at(&mut self, key: String, incoming: Entity, now: String) -> (outcome:
        UpdateOutcome)
        ensures
            final(self).wf(),
            final(self)@ == updated(old(self)@, key@, incoming@, now@),
            outcome_of(old(self)@, key@, incoming@, outcome),
            final(self).order() == if old(self)@.contains_key(key@) || final(self)@ == old(self)@ {
                old(self).order()
            } else {
                old(self).order().push(key@)
            },
            final(self).live() == old(self).live(),
    {
        proof {
            use_type_invariant(&*self);
            use_type_invariant(&self.entities);
        }
        let ghost before = self@;
        let mut entities: NameMap<Entity> = NameMap::new();
        core::mem::swap(&mut self.entities, &mut entities);
        let ghost held = entities;
        assert(entity_views(held@) == before);
        let found = entities.position(key.as_str());
        let outcome = match incoming {
            Entity::Device(device) => {
                match found {
                    Some(p) => {
                        proof {
                            held.lemma_entry(p as int);
                        }
                        let stored = entities.replace_value(
                            p,
                            Entity::ExperimentSetup(
                                Experiment {
                                    start_time: None,
                                    end_time: None,
                                    info: Default::default(),
                                },
                            ),
                        );
                        match stored {
                            Entity::Device(mut target) => {
                                let ghost target_before = target@;
                                let refused = target.update(device);
                                let ghost merged = Entity::Device(target);
                                entities.replace_value(p, Entity::Device(target));
                                proof {
                                    assert(entities@ =~= held@.insert(key@, merged));
                                    assert(entity_views(entities@) =~= before.insert(
                                        key@,
                                        EntityView::Device(merged_device(target_before, device@)),
                                    ));
                                }
                                UpdateOutcome::DeviceMerged { refused }
                            },
                            Entity::ExperimentSetup(descriptor) => {
                                let ghost back = Entity::ExperimentSetup(descriptor);
                                entities.replace_value(p, Entity::ExperimentSetup(descriptor));
                                proof {
                                    assert(entities@ =~= held@.insert(key@, back));
                                    assert(entities@ =~= held@);
                                    assert(entity_views(entities@) =~= before);
                                }
                                UpdateOutcome::DeviceDropped
                            },
                        }
                    },
                    None => {
                        let ghost fresh = Entity::Device(device);
                        entities.insert(key, Entity::Device(device));
                        proof {
                            assert(entity_views(entities@) =~= before.insert(key@, fresh@));
                        }
                        UpdateOutcome::DeviceAdded
                    },
                }
            },
            Entity::ExperimentSetup(descriptor) => {
                let present = experiment_position(&entities);
                if found.is_some() || present.is_some() {
                    UpdateOutcome::ExperimentDropped
                } else {
                    let start = match descriptor.start_time {
                        Some(start) => start,
                        None => now,
                    };
                    let fresh = Entity::ExperimentSetup(
                        Experiment { start_time: Some(start), end_time: None, info: descriptor.info },
                    );
                    let ghost fresh_view = fresh@;
                    entities.insert(key, fresh);
                    proof {
                        assert(fresh_view == EntityView::ExperimentSetup(admitted(descriptor@, now@)));
                        assert(entity_views(entities@) =~= before.insert(key@, fresh_view));
                    }
                    UpdateOutcome::ExperimentAdded
                }
            },
        };
        proof {
            let after = entity_views(entities@);
            assert(after == updated(before, key@, incoming@, now@));
            assert(at_most_one_experiment(after)) by {
                assert forall|a: Seq<char>, b: Seq<char>|
                    names_experiment(after, a) && names_experiment(after, b) implies a == b by {
                    if after != before {
                        if incoming is ExperimentSetup {
                            if a != key@ {
                                assert(names_experiment(before, a));
                            }
                            if b != key@ {
                                assert(names_experiment(before, b));
                            }
                        } else {
                            assert(names_experiment(before, a));
                            assert(names_experiment(before, b));
                        }
                    }
                }
            }
        }
        proof {
            use_type_invariant(&entities);
            lemma_order_matches(entities);
        }
        self.entities = entities;
        outcome
    }

    /// Applies an update that arrives under `key` now. The time matters only
    /// where a descriptor without a start is taken in.
    pub fn update_entity(&mut self, key: String, incoming: Entity) -> (outcome: UpdateOutcome)
        ensures
            final(self).wf(),
            exists|now: Seq<char>|
                is_clock_stamp(now) && final(self)@ == #[trigger] updated(
                    old(self)@,
                    key@,
                    incoming@,
                    now,
                ),
            outcome_of(old(self)@, key@, incoming@, outcome),
            final(self).order() == if old(self)@.contains_key(key@) || final(self)@ == old(self)@ {
                old(self).order()
            } else {
                old(self).order().push(key@)
            },
            final(self).live() == old(self).live(),
    {
        let now = create_time_stamp(false);
        self.update_entity_at(key, incoming, now)
    }

    /// Sets the end of the run to `now` in the descriptor, where the run
    /// has one. It is for the shutdown of a run, once.
    pub fn finalise_time_at(&mut self, now: String)
        requires
            !has_ended(old(self)@),
        ensures
            final(self).wf(),
            final(self)@ == finalised(old(self)@, now@),
            final(self).order() == old(self).order(),
            final(self).live() == old(self).live(),
    {
        proof {
            use_type_invariant(&*self);
            use_type_invariant(&self.entities);
        }
        let ghost before = self@;
        let mut entities: NameMap<Entity> = NameMap::new();
        core::mem::swap(&mut self.entities, &mut entities);
        let ghost held = entities;
        match experiment_position(&entities) {
            Some(i) => {
                proof {
                    held.lemma_entry(i as int);
                }
                let ghost key = held.keys()[i as int];
                let stored = entities.replace_value(
                    i,
                    Entity::ExperimentSetup(
                        Experiment { start_time: None, end_time: None, info: Default::default() },
                    ),
                );
                match stored {
                    Entity::ExperimentSetup(mut descriptor) => {
                        let ghost descriptor_before = descriptor@;
                        descriptor.end_at(now);
                        let ghost closed = Entity::ExperimentSetup(descriptor);
                        entities.replace_value(i, Entity::ExperimentSetup(descriptor));
                        proof {
                            assert(entities@ =~= held@.insert(key, closed));
                            let after = entity_views(entities@);
                            assert forall|k: Seq<char>| #[trigger] after.contains_key(k) implies after[k]
                                == finalised(before, now@)[k] by {
                                if k != key {
                                    if before[k] is ExperimentSetup {
                                        assert(names_experiment(before, k));
                                        assert(names_experiment(before, key));
                                    }
                                }
                            }
                            assert(after =~= finalised(before, now@));
                        }
                    },
                    Entity::Device(device) => {
                        entities.replace_value(i, Entity::Device(device));
                    },
                }
            },
            None => {
                proof {
                    assert forall|k: Seq<char>| #[trigger] before.contains_key(k) implies before[k]
                        == finalised(before, now@)[k] by {
                        held.lemma_lookup(k);
                    }
                    assert(before =~= finalised(before, now@));
                }
            },
        }
        proof {
            let after = entity_views(entities@);
            assert(after == finalised(before, now@));
            assert forall|a: Seq<char>, b: Seq<char>|
                names_experiment(after, a) && names_experiment(after, b) implies a == b by {
                assert(names_experiment(before, a));
                assert(names_experiment(before, b));
            }
        }
        proof {
            use_type_invariant(&entities);
            lemma_order_matches(entities);
        }
        self.entities = entities;
    }

    /// Sets the end of the run to the current time in the descriptor, where
    /// the run has one. It is for the shutdown of a run, once.
    pub fn finalise_time(&mut self)
        requires
            !has_ended(old(self)@),
        ensures
            final(self).wf(),
            exists|now: Seq<char>|
                is_clock_stamp(now) && final(self)@ == #[trigger] finalised(old(self)@, now),
            final(self).order() == old(self).order(),
            final(self).live() == old(self).live(),
    {
        let now = create_time_stamp(false);
        self.finalise_time_at(now)
    }

    /// Checks that the state is complete: it is exactly when the run has
    /// its descriptor, whatever devices it holds.
    pub fn validate(&self) -> (checked: Result<(), ValidationError>)
        ensures
            checked is Ok <==> has_experiment(self@),
            checked is Err ==> checked == Err::<(), ValidationError>(
                ValidationError::NoExperimentSetup,
            ),
    {
        match experiment_position(&self.entities) {
            Some(_) => Ok(()),
            None => Err(ValidationError::NoExperimentSetup),
        }
    }

    /// The name of the experiment, where the run has its descriptor.
    pub fn get_experiment_name(&self) -> (name: Option<String>)
        ensures
            match name {
                Some(n) => has_experiment(self@) && n@ == experiment_of(self@).info.experiment_name,
                None => !has_experiment(self@),
            },
    {
        proof {
            use_type_invariant(self);
        }
        match experiment_position(&self.entities) {
            Some(i) => match self.entities.value(i) {
                Entity::ExperimentSetup(e) => {
                    proof {
                        let m = self@;
                        let k = self.entities.keys()[i as int];
                        let c = choose|k: Seq<char>| names_experiment(m, k);
                        assert(names_experiment(m, k));
                        assert(names_experiment(m, c));
                    }
                    Some(e.info.experiment_name.clone())
                },
                Entity::Device(_) => None,
            },
            None => None,
        }
    }

    /// Whether the end of the run has been set.
    pub fn is_finalised(&self) -> (done: bool)
        ensures
            done == has_ended(self@),
    {
        proof {
            use_type_invariant(self);
        }
        match experiment_position(&self.entities) {
            Some(i) => match self.entities.value(i) {
                Entity::ExperimentSetup(e) => {
                    proof {
                        let m = self@;
                        let k = self.entities.keys()[i as int];
                        let c = choose|k: Seq<char>| names_experiment(m, k);
                        assert(names_experiment(m, k));
                        assert(names_experiment(m, c));
                    }
                    e.end_time.is_some()
                },
                Entity::Device(_) => false,
            },
            None => false,
        }
    }
}

} // verus!
