//! What holds of the store whatever arrives: proved statements about its
//! updates, its projections and its snapshots.

use vstd::prelude::*;
use crate::data_handler::document::{
    data_doc, device_doc, devices_doc, document, experiment_doc, names_device, number_list, Doc,
};
use crate::data_handler::entity::{conflicts, ended, DeviceView, EntityView, ExperimentView};
use crate::data_handler::load::{floats_of, holds_data, recorded_data};
use crate::data_handler::series::{
    bucket, bucket_end, buckets, ceil_div, merged, tail, Series, DISPLAY_POINTS,
};
use crate::data_handler::stamp::is_clock_stamp;
use crate::data_handler::state::{
    at_most_one_experiment, experiment_of, finalised, has_ended, has_experiment, names_experiment,
    updated,
};

verus! {

/// One update as it reaches the store: the name it comes under, what it
/// brings, and the time at which it comes.
pub struct Arrival {
    pub key: Seq<char>,
    pub entity: EntityView,
    pub now: Seq<char>,
}

/// The entities after a run of updates, applied in the order of arrival.
pub open spec fn after_all(m: Map<Seq<char>, EntityView>, arrivals: Seq<Arrival>) -> Map<
    Seq<char>,
    EntityView,
>
    decreases arrivals.len(),
{
    if arrivals.len() == 0 {
        m
    } else {
        let last = arrivals.last();
        updated(after_all(m, arrivals.drop_last()), last.key, last.entity, last.now)
    }
}

/// Whether `m` holds a device under `key` with a history under `name`.
pub open spec fn holds_history(m: Map<Seq<char>, EntityView>, key: Seq<char>, name: Seq<char>) -> bool {
    &&& m.contains_key(key)
    &&& m[key] is Device
    &&& m[key]->Device_0.measurements.contains_key(name)
}

/// The history that `m` holds under `key` and `name`.
pub open spec fn history(m: Map<Seq<char>, EntityView>, key: Seq<char>, name: Seq<char>) -> Series {
    m[key]->Device_0.measurements[name]
}

/// The samples of the flat history under `key` and `name`; none where `m`
/// holds no such history.
pub open spec fn flat_samples(m: Map<Seq<char>, EntityView>, key: Seq<char>, name: Seq<char>) -> Seq<
    u64,
> {
    if holds_history(m, key, name) && history(m, key, name) is Single {
        history(m, key, name)->Single_0
    } else {
        Seq::empty()
    }
}

/// The arrays of the history of arrays under `key` and `name`; none where
/// `m` holds no such history.
pub open spec fn stored_arrays(m: Map<Seq<char>, EntityView>, key: Seq<char>, name: Seq<char>) -> Seq<
    Seq<u64>,
> {
    if holds_history(m, key, name) && history(m, key, name) is Multi {
        history(m, key, name)->Multi_0
    } else {
        Seq::empty()
    }
}

/// Whether an arrival brings, under `key`, a device with a flat history
/// under `name`.
pub open spec fn brings_flat(a: Arrival, key: Seq<char>, name: Seq<char>) -> bool {
    &&& a.key == key
    &&& a.entity is Device
    &&& a.entity->Device_0.measurements.contains_key(name)
    &&& a.entity->Device_0.measurements[name] is Single
}

/// Whether an arrival brings, under `key`, a device with a history of
/// arrays under `name`.
pub open spec fn brings_arrays(a: Arrival, key: Seq<char>, name: Seq<char>) -> bool {
    &&& a.key == key
    &&& a.entity is Device
    &&& a.entity->Device_0.measurements.contains_key(name)
    &&& a.entity->Device_0.measurements[name] is Multi
}

/// The samples that a run of arrivals brings under `name`, one arrival
/// after the other.
pub open spec fn incoming_samples(arrivals: Seq<Arrival>, name: Seq<char>) -> Seq<u64>
    decreases arrivals.len(),
{
    if arrivals.len() == 0 {
        Seq::empty()
    } else {
        incoming_samples(arrivals.drop_last(), name) + arrivals.last().entity->Device_0.measurements[name]->Single_0
    }
}

/// The arrays that a run of arrivals brings under `name`, one arrival after
/// the other.
pub open spec fn incoming_arrays(arrivals: Seq<Arrival>, name: Seq<char>) -> Seq<Seq<u64>>
    decreases arrivals.len(),
{
    if arrivals.len() == 0 {
        Seq::empty()
    } else {
        incoming_arrays(arrivals.drop_last(), name) + arrivals.last().entity->Device_0.measurements[name]->Multi_0
    }
}

/// Flat histories add up. Let every arrival of a run bring, under one name
/// of the store, a device with a flat history under one measurement name,
/// and let the store hold neither the descriptor under the first name nor a
/// history of arrays under the two. Then after the run the store holds,
/// under the two names, the samples it held before followed by all incoming
/// samples in the order of arrival.
pub proof fn lemma_flat_updates_concatenate(
    m: Map<Seq<char>, EntityView>,
    arrivals: Seq<Arrival>,
    key: Seq<char>,
    name: Seq<char>,
)
    requires
        forall|i: int| 0 <= i < arrivals.len() ==> brings_flat(#[trigger] arrivals[i], key, name),
        !(m.contains_key(key) && m[key] is ExperimentSetup),
        !(holds_history(m, key, name) && history(m, key, name) is Multi),
    ensures
        flat_samples(after_all(m, arrivals), key, name) == flat_samples(m, key, name)
            + incoming_samples(arrivals, name),
        arrivals.len() > 0 ==> holds_history(after_all(m, arrivals), key, name) && history(
            after_all(m, arrivals),
            key,
            name,
        ) is Single,
        !(after_all(m, arrivals).contains_key(key) && after_all(m, arrivals)[key] is ExperimentSetup),
        !(holds_history(after_all(m, arrivals), key, name) && history(
            after_all(m, arrivals),
            key,
            name,
        ) is Multi),
    decreases arrivals.len(),
{
    if arrivals.len() == 0 {
        assert(flat_samples(m, key, name) + Seq::<u64>::empty() =~= flat_samples(m, key, name));
    } else {
        let earlier = arrivals.drop_last();
        let last = arrivals.last();
        assert forall|i: int| 0 <= i < earlier.len() implies brings_flat(
            #[trigger] earlier[i],
            key,
            name,
        ) by {
            assert(earlier[i] == arrivals[i]);
        }
        lemma_flat_updates_concatenate(m, earlier, key, name);
        let mid = after_all(m, earlier);
        let end = after_all(m, arrivals);
        assert(brings_flat(last, key, name));
        let fresh = last.entity->Device_0.measurements[name]->Single_0;
        assert(end == updated(mid, key, last.entity, last.now));
        assert(flat_samples(end, key, name) =~= flat_samples(mid, key, name) + fresh);
        assert(flat_samples(end, key, name) =~= flat_samples(m, key, name) + (incoming_samples(
            earlier,
            name,
        ) + fresh));
    }
}

/// Histories of arrays add up. Let every arrival of a run bring, under one
/// name of the store, a device with a history of arrays under one
/// measurement name, and let the store hold neither the descriptor under
/// the first name nor a flat history under the two. Then after the run the
/// store holds, under the two names, the arrays it held before followed by
/// all incoming arrays in the order of arrival.
pub proof fn lemma_array_updates_concatenate(
    m: Map<Seq<char>, EntityView>,
    arrivals: Seq<Arrival>,
    key: Seq<char>,
    name: Seq<char>,
)
    requires
        forall|i: int| 0 <= i < arrivals.len() ==> brings_arrays(#[trigger] arrivals[i], key, name),
        !(m.contains_key(key) && m[key] is ExperimentSetup),
        !(holds_history(m, key, name) && history(m, key, name) is Single),
    ensures
        stored_arrays(after_all(m, arrivals), key, name) == stored_arrays(m, key, name)
            + incoming_arrays(arrivals, name),
        arrivals.len() > 0 ==> holds_history(after_all(m, arrivals), key, name) && history(
            after_all(m, arrivals),
            key,
            name,
        ) is Multi,
        !(after_all(m, arrivals).contains_key(key) && after_all(m, arrivals)[key] is ExperimentSetup),
        !(holds_history(after_all(m, arrivals), key, name) && history(
            after_all(m, arrivals),
            key,
            name,
        ) is Single),
    decreases arrivals.len(),
{
    if arrivals.len() == 0 {
        assert(stored_arrays(m, key, name) + Seq::<Seq<u64>>::empty() =~= stored_arrays(
            m,
            key,
            name,
        ));
    } else {
        let earlier = arrivals.drop_last();
        let last = arrivals.last();
        assert forall|i: int| 0 <= i < earlier.len() implies brings_arrays(
            #[trigger] earlier[i],
            key,
            name,
        ) by {
            assert(earlier[i] == arrivals[i]);
        }
        lemma_array_updates_concatenate(m, earlier, key, name);
        let mid = after_all(m, earlier);
        let end = after_all(m, arrivals);
        assert(brings_arrays(last, key, name));
        let fresh = last.entity->Device_0.measurements[name]->Multi_0;
        assert(end == updated(mid, key, last.entity, last.now));
        assert(stored_arrays(end, key, name) =~= stored_arrays(mid, key, name) + fresh);
        assert(stored_arrays(end, key, name) =~= stored_arrays(m, key, name) + (incoming_arrays(
            earlier,
            name,
        ) + fresh));
    }
}

/// A history of the other variant is refused, and nothing else is. Let a
/// device arrive under the name of a stored device, with a history whose
/// variant differs from the stored one of that name. Then the stored
/// history of that name stays as it was, and every other history that the
/// device brings is taken in: merged into the stored one of its name, or
/// stored as it is under a new name.
pub proof fn lemma_mismatch_drops_one_history(
    m: Map<Seq<char>, EntityView>,
    key: Seq<char>,
    incoming: DeviceView,
    name: Seq<char>,
    now: Seq<char>,
)
    requires
        m.contains_key(key),
        m[key] is Device,
        conflicts(m[key]->Device_0.measurements, incoming.measurements, name),
    ensures
        holds_history(updated(m, key, EntityView::Device(incoming), now), key, name),
        history(updated(m, key, EntityView::Device(incoming), now), key, name) == history(
            m,
            key,
            name,
        ),
        forall|other: Seq<char>|
            #![trigger incoming.measurements.contains_key(other)]
            incoming.measurements.contains_key(other) && !conflicts(
                m[key]->Device_0.measurements,
                incoming.measurements,
                other,
            ) ==> holds_history(updated(m, key, EntityView::Device(incoming), now), key, other)
                && history(updated(m, key, EntityView::Device(incoming), now), key, other) == (
            if holds_history(m, key, other) {
                merged(history(m, key, other), incoming.measurements[other])
            } else {
                incoming.measurements[other]
            }),
{
}

/// A run has one descriptor at most, whatever arrives. From entities with
/// at most one descriptor, every run of updates leads to entities with at
/// most one descriptor.
pub proof fn lemma_one_descriptor_at_most(m: Map<Seq<char>, EntityView>, arrivals: Seq<Arrival>)
    requires
        at_most_one_experiment(m),
    ensures
        at_most_one_experiment(after_all(m, arrivals)),
    decreases arrivals.len(),
{
    if arrivals.len() > 0 {
        let earlier = arrivals.drop_last();
        let last = arrivals.last();
        lemma_one_descriptor_at_most(m, earlier);
        let mid = after_all(m, earlier);
        let end = after_all(m, arrivals);
        assert forall|a: Seq<char>, b: Seq<char>|
            names_experiment(end, a) && names_experiment(end, b) implies a == b by {
            if end != mid {
                if last.entity is ExperimentSetup {
                    if a != last.key {
                        assert(names_experiment(mid, a));
                    }
                    if b != last.key {
                        assert(names_experiment(mid, b));
                    }
                } else {
                    assert(names_experiment(mid, a));
                    assert(names_experiment(mid, b));
                }
            }
        }
    }
}

/// A second descriptor changes nothing. Where the run has its descriptor,
/// a descriptor that arrives under any name leaves the entities as they
/// are.
pub proof fn lemma_second_descriptor_is_dropped(
    m: Map<Seq<char>, EntityView>,
    key: Seq<char>,
    incoming: ExperimentView,
    now: Seq<char>,
)
    requires
        has_experiment(m),
    ensures
        updated(m, key, EntityView::ExperimentSetup(incoming), now) == m,
{
}

/// Devices do not make a run complete or incomplete. Whether the entities
/// hold a descriptor is the same before and after a device arrives.
pub proof fn lemma_devices_leave_validity(
    m: Map<Seq<char>, EntityView>,
    key: Seq<char>,
    incoming: DeviceView,
    now: Seq<char>,
)
    ensures
        has_experiment(updated(m, key, EntityView::Device(incoming), now)) == has_experiment(m),
{
    let end = updated(m, key, EntityView::Device(incoming), now);
    if has_experiment(m) {
        let k = choose|k: Seq<char>| names_experiment(m, k);
        assert(names_experiment(end, k));
    }
    if has_experiment(end) {
        let k = choose|k: Seq<char>| names_experiment(end, k);
        assert(names_experiment(m, k));
    }
}

/// Whether `a` is the beginning of `b`: the same variant, and the values of
/// `a` first.
pub open spec fn begins(a: Series, b: Series) -> bool {
    match (a, b) {
        (Series::Single(x), Series::Single(y)) => x.is_prefix_of(y),
        (Series::Multi(x), Series::Multi(y)) => x.is_prefix_of(y),
        _ => false,
    }
}

/// Histories only grow. Whatever arrives, every history that the store
/// holds is still held afterwards, under the same names and of the same
/// variant, and begins with the values it had.
pub proof fn lemma_histories_only_grow(
    m: Map<Seq<char>, EntityView>,
    key: Seq<char>,
    incoming: EntityView,
    now: Seq<char>,
    device: Seq<char>,
    name: Seq<char>,
)
    requires
        holds_history(m, device, name),
    ensures
        holds_history(updated(m, key, incoming, now), device, name),
        begins(history(m, device, name), history(updated(m, key, incoming, now), device, name)),
{
    let before = history(m, device, name);
    let after = history(updated(m, key, incoming, now), device, name);
    match before {
        Series::Single(x) => {
            assert(x.is_prefix_of(x));
            if after != before {
                assert(after->Single_0.subrange(0, x.len() as int) =~= x);
            }
        },
        Series::Multi(x) => {
            assert(x.is_prefix_of(x));
            if after != before {
                assert(after->Multi_0.subrange(0, x.len() as int) =~= x);
            }
        },
    }
}

/// No update ends a run. While the end of the run is not set, it is not
/// set after an update either, whatever arrives.
pub proof fn lemma_updates_never_end_the_run(
    m: Map<Seq<char>, EntityView>,
    key: Seq<char>,
    incoming: EntityView,
    now: Seq<char>,
)
    requires
        at_most_one_experiment(m),
        !has_ended(m),
    ensures
        !has_ended(updated(m, key, incoming, now)),
{
    let end = updated(m, key, incoming, now);
    if has_experiment(end) {
        let k = choose|k: Seq<char>| names_experiment(end, k);
        if has_experiment(m) {
            let c = choose|c: Seq<char>| names_experiment(m, c);
            assert(names_experiment(m, c));
            if incoming is ExperimentSetup {
                assert(end == m);
            } else {
                assert(names_experiment(m, k));
                assert(c == k);
                assert(end[k] == m[k]);
            }
        } else {
            if incoming is ExperimentSetup {
                if k != key {
                    assert(names_experiment(m, k));
                }
            } else {
                assert(names_experiment(m, k));
            }
        }
    }
}

/// The last snapshot shows the end. The document of a run whose end has
/// been set to `now` shows `now` as the end of the run, and the start as it
/// was; and where `now` is a time stamp from the clock, the end that the
/// document shows is not empty.
pub proof fn lemma_snapshot_shows_the_end(m: Map<Seq<char>, EntityView>, now: Seq<char>)
    requires
        at_most_one_experiment(m),
        has_experiment(m),
    ensures
        is_clock_stamp(now) ==> now.len() > 0,
        has_ended(finalised(m, now)),
        document(finalised(m, now))->Table_0.contains_key("experiment"@),
        document(finalised(m, now))->Table_0["experiment"@] == experiment_doc(
            ended(experiment_of(m), now),
        ),
        experiment_doc(ended(experiment_of(m), now))->Table_0["end_time"@] == Doc::Text(now),
{
    let end = finalised(m, now);
    let k = choose|k: Seq<char>| names_experiment(m, k);
    assert(names_experiment(m, k));
    assert(names_experiment(end, k));
    let c = choose|c: Seq<char>| names_experiment(end, c);
    assert(names_experiment(end, c));
    assert(names_experiment(m, c));
    assert(c == k);
    reveal_strlit("start_time");
    reveal_strlit("end_time");
    assert("start_time"@.len() == 10);
    assert("end_time"@.len() == 8);
}

/// The floats of an array of floats are its floats.
proof fn lemma_floats_of_numbers(v: Seq<u64>)
    ensures
        floats_of(number_list(v)->List_0) == v,
    decreases v.len(),
{
    let items = number_list(v)->List_0;
    if v.len() == 0 {
        assert(floats_of(items) =~= v);
    } else {
        lemma_floats_of_numbers(v.drop_last());
        assert(items.drop_last() =~= number_list(v.drop_last())->List_0);
        assert(items.last() == Doc::Number(v.last()));
        assert(v.drop_last().push(v.last()) =~= v);
    }
}

/// A snapshot gives back what was stored. What is read out of the document
/// of a run holds, for every device of the run and every flat history of
/// the device, under the names they are stored under, the samples of that
/// history.
pub proof fn lemma_snapshot_gives_back_flat_histories(
    m: Map<Seq<char>, EntityView>,
    device: Seq<char>,
    name: Seq<char>,
)
    requires
        holds_history(m, device, name),
        history(m, device, name) is Single,
    ensures
        recorded_data(document(m)).contains_key(device),
        recorded_data(document(m))[device].contains_key(name),
        recorded_data(document(m))[device][name] == history(m, device, name)->Single_0,
{
    reveal_strlit("experiment");
    reveal_strlit("device");
    assert("experiment"@.len() == 10);
    assert("device"@.len() == 6);
    assert(names_device(m, device));
    let root = document(m)->Table_0;
    assert(root.contains_key("device"@));
    assert(root["device"@] == devices_doc(m));
    let devices = devices_doc(m)->Table_0;
    assert(devices.contains_key(device));
    let d = m[device]->Device_0;
    assert(devices[device] == device_doc(d));
    let fields = device_doc(d)->Table_0;
    assert(fields.contains_key("data"@));
    assert(fields["data"@] == data_doc(d.measurements));
    assert(holds_data(devices[device]));
    let data = data_doc(d.measurements)->Table_0;
    assert(data.contains_key(name));
    assert(data[name] == number_list(d.measurements[name]->Single_0));
    lemma_floats_of_numbers(d.measurements[name]->Single_0);
}

/// The items of some parts, one part after the other.
pub open spec fn joined(parts: Seq<Seq<u64>>) -> Seq<u64>
    decreases parts.len(),
{
    if parts.len() == 0 {
        Seq::empty()
    } else {
        joined(parts.drop_last()) + parts.last()
    }
}

/// How `len` items fall into buckets of `size`: bucket `i` exists exactly
/// when it starts before the end.
pub proof fn lemma_bucket_bounds(len: int, size: int, i: int)
    requires
        len >= 0,
        size > 0,
        i >= 0,
    ensures
        i < ceil_div(len, size) <==> i * size < len,
        i * size >= 0,
        (i + 1) * size == i * size + size,
{
    assert(i * size >= 0) by (nonlinear_arith)
        requires
            i >= 0,
            size > 0,
    ;
    assert((i + 1) * size == i * size + size) by (nonlinear_arith);
    let q = (len + size - 1) / size;
    assert(q * size <= len + size - 1 < q * size + size) by (nonlinear_arith)
        requires
            size > 0,
            q == (len + size - 1) / size,
    ;
    if i < q {
        assert(i * size < len) by (nonlinear_arith)
            requires
                i + 1 <= q,
                q * size <= len + size - 1,
                size > 0,
        ;
    } else {
        assert(i * size >= len) by (nonlinear_arith)
            requires
                i >= q,
                len + size - 1 < q * size + size,
                size > 0,
        ;
    }
}

/// The first `i` buckets hold the first items, up to the end of bucket
/// `i - 1`.
proof fn lemma_buckets_prefix(s: Seq<u64>, size: int, i: int)
    requires
        size > 0,
        0 <= i <= buckets(s, size).len(),
    ensures
        joined(buckets(s, size).take(i)) == s.subrange(
            0,
            if i == 0 {
                0
            } else {
                bucket_end(s.len() as int, size, i - 1)
            },
        ),
    decreases i,
{
    let all = buckets(s, size);
    if i == 0 {
        assert(all.take(0) =~= Seq::<Seq<u64>>::empty());
        assert(s.subrange(0, 0) =~= Seq::<u64>::empty());
    } else {
        lemma_buckets_prefix(s, size, i - 1);
        lemma_bucket_bounds(s.len() as int, size, i - 1);
        assert(all.take(i).drop_last() =~= all.take(i - 1));
        assert(all.take(i).last() == bucket(s, size, i - 1));
        let from = (i - 1) * size;
        let to = bucket_end(s.len() as int, size, i - 1);
        if i - 1 > 0 {
            lemma_bucket_bounds(s.len() as int, size, i - 2);
            assert(bucket_end(s.len() as int, size, i - 2) == from);
        }
        assert(s.subrange(0, from) + s.subrange(from, to) =~= s.subrange(0, to));
    }
}

/// Buckets lose nothing and add nothing: the buckets of a sequence, one
/// after the other, are the sequence.
pub proof fn lemma_buckets_rejoin(s: Seq<u64>, size: int)
    requires
        size > 0,
    ensures
        joined(buckets(s, size)) == s,
{
    let all = buckets(s, size);
    let n = all.len() as int;
    lemma_buckets_prefix(s, size, n);
    assert(all.take(n) =~= all);
    if n == 0 {
        lemma_bucket_bounds(s.len() as int, size, 0);
        assert(s.subrange(0, 0) =~= s);
    } else {
        lemma_bucket_bounds(s.len() as int, size, n - 1);
        lemma_bucket_bounds(s.len() as int, size, n);
        assert(bucket_end(s.len() as int, size, n - 1) == s.len());
        assert(s.subrange(0, s.len() as int) =~= s);
    }
}

/// No bucket is empty, none has more than `size` items, and all but the
/// last have `size` items.
pub proof fn lemma_bucket_sizes(s: Seq<u64>, size: int, i: int)
    requires
        size > 0,
        0 <= i < buckets(s, size).len(),
    ensures
        0 < buckets(s, size)[i].len() <= size,
        i + 1 < buckets(s, size).len() ==> buckets(s, size)[i].len() == size,
{
    lemma_bucket_bounds(s.len() as int, size, i);
    lemma_bucket_bounds(s.len() as int, size, i + 1);
}

/// A long array is shown with more than half and at most all of
/// `DISPLAY_POINTS` buckets.
pub proof fn lemma_display_buckets_are_bounded(s: Seq<u64>)
    requires
        s.len() > DISPLAY_POINTS,
    ensures
        DISPLAY_POINTS / 2 < buckets(s, ceil_div(s.len() as int, DISPLAY_POINTS as int)).len()
            <= DISPLAY_POINTS,
{
    let len = s.len() as int;
    let size = ceil_div(len, 100);
    assert(size * 100 <= len + 99 < size * 100 + 100 && size >= 2) by (nonlinear_arith)
        requires
            size == (len + 100 - 1) / 100,
            len > 100,
    ;
    let n = ceil_div(len, size);
    assert(n * size <= len + size - 1 < n * size + size) by (nonlinear_arith)
        requires
            size > 0,
            n == (len + size - 1) / size,
    ;
    assert(n <= 100) by (nonlinear_arith)
        requires
            n * size <= len + size - 1,
            len <= size * 100,
            size >= 2,
    ;
    assert(n > 50) by (nonlinear_arith)
        requires
            len + size - 1 < n * size + size,
            size * 100 <= len + 99,
            size >= 2,
            n >= 0,
    ;
}

/// What is shown of a flat history is its end: at most `max` samples, all
/// of them where the history has no more, in the order they have there.
pub proof fn lemma_tail_is_the_end(s: Seq<u64>, max: int)
    requires
        max >= 0,
    ensures
        tail(s, max).len() == if max <= s.len() {
            max
        } else {
            s.len() as int
        },
        forall|i: int|
            0 <= i < tail(s, max).len() ==> #[trigger] tail(s, max)[i] == s[s.len() - tail(
                s,
                max,
            ).len() + i],
{
}

} // verus!
