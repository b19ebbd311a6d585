//! The history of one measurement: how it grows, and how it is shown.

use vstd::prelude::*;

verus! {

/// The value history of one named measurement.
///
/// A sample is the IEEE 754 bit pattern of a 64-bit floating-point number, so
/// that two samples are equal exactly when their bits are. The history only
/// grows, and a history keeps the variant it was first seen with.
#[derive(Debug, Clone, PartialEq)]
pub enum MeasurementData {
    /// One flat run of samples.
    Single(Vec<u64>),
    /// A run of sample arrays.
    Multi(Vec<Vec<u64>>),
}

/// What a `MeasurementData` holds, as mathematical sequences.
pub enum Series {
    Single(Seq<u64>),
    Multi(Seq<Seq<u64>>),
}

/// The rows of a nested vector as a sequence of sequences.
pub open spec fn rows(v: Seq<Vec<u64>>) -> Seq<Seq<u64>> {
    Seq::new(v.len(), |i: int| v[i]@)
}

impl View for MeasurementData {
    type V = Series;

    open spec fn view(&self) -> Series {
        match self {
            MeasurementData::Single(v) => Series::Single(v@),
            MeasurementData::Multi(v) => Series::Multi(rows(v@)),
        }
    }
}

/// Whether two histories have the same variant.
pub open spec fn same_variant(a: Series, b: Series) -> bool {
    (a is Single) == (b is Single)
}

/// The stored history after an update arrives for it: the incoming values
/// follow the stored ones when the variants agree, and the stored history
/// stays as it is when they do not.
pub open spec fn merged(stored: Series, incoming: Series) -> Series {
    match (stored, incoming) {
        (Series::Single(a), Series::Single(b)) => Series::Single(a + b),
        (Series::Multi(a), Series::Multi(b)) => Series::Multi(a + b),
        _ => stored,
    }
}

impl MeasurementData {
    /// Appends `incoming` to this history when both have the same variant,
    /// and reports whether they had. A history of the other variant is
    /// refused and changes nothing.
    pub fn extend(&mut self, incoming: MeasurementData) -> (accepted: bool)
        ensures
            accepted == same_variant(old(self)@, incoming@),
            final(self)@ == merged(old(self)@, incoming@),
    {
        match self {
            MeasurementData::Single(stored) => {
                match incoming {
                    MeasurementData::Single(mut fresh) => {
                        stored.append(&mut fresh);
                        true
                    },
                    MeasurementData::Multi(_) => false,
                }
            },
            MeasurementData::Multi(stored) => {
                match incoming {
                    MeasurementData::Multi(mut fresh) => {
                        stored.append(&mut fresh);
                        proof {
                            assert(rows(stored@) =~= rows(old(self)->Multi_0@) + rows(
                                incoming->Multi_0@,
                            ));
                        }
                        true
                    },
                    MeasurementData::Single(_) => false,
                }
            },
        }
    }
}

/// Smallest number of groups of `b` items that hold `a` items.
pub open spec fn ceil_div(a: int, b: int) -> int {
    (a + b - 1) / b
}

/// Smallest number of groups of `b` items that hold `a` items.
pub fn div_ceil(a: usize, b: usize) -> (q: usize)
    requires
        b > 0,
    ensures
        q == ceil_div(a as int, b as int),
{
    let whole: usize = a / b;
    let rest: usize = a % b;
    proof {
        assert(a == b * whole + rest) by (nonlinear_arith)
            requires
                b > 0,
                whole == a as int / b as int,
                rest == a as int % b as int,
        ;
    }
    if rest == 0 {
        assert(ceil_div(a as int, b as int) == whole) by (nonlinear_arith)
            requires
                b > 0,
                a == b * whole,
        ;
        whole
    } else {
        assert(ceil_div(a as int, b as int) == whole + 1 && whole < usize::MAX)
            by (nonlinear_arith)
            requires
                b > 0,
                a == b * whole + rest,
                0 < rest < b,
                a <= usize::MAX,
        ;
        whole + 1
    }
}

/// How many points a history is shown with at most.
pub const DISPLAY_POINTS: usize = 100;

/// A history as it is shown: bounded in size, and not for storing.
#[derive(Debug, Clone, PartialEq)]
pub enum DisplaySeries {
    /// Samples to show as they are.
    Verbatim(Vec<u64>),
    /// Buckets of consecutive samples; each bucket is shown as the mean of
    /// its samples.
    Averaged(Vec<Vec<u64>>),
}

/// What a `DisplaySeries` holds, as mathematical sequences.
pub enum Shown {
    Verbatim(Seq<u64>),
    Averaged(Seq<Seq<u64>>),
}

impl View for DisplaySeries {
    type V = Shown;

    open spec fn view(&self) -> Shown {
        match self {
            DisplaySeries::Verbatim(v) => Shown::Verbatim(v@),
            DisplaySeries::Averaged(v) => Shown::Averaged(rows(v@)),
        }
    }
}

/// The last `max` items of `s`, or all of `s` if it has fewer.
pub open spec fn tail(s: Seq<u64>, max: int) -> Seq<u64> {
    if max >= s.len() {
        s
    } else {
        s.subrange(s.len() - max, s.len() as int)
    }
}

/// Where bucket `i` ends when `len` items are cut into buckets of `size`.
pub open spec fn bucket_end(len: int, size: int, i: int) -> int {
    if (i + 1) * size <= len {
        (i + 1) * size
    } else {
        len
    }
}

/// Bucket `i` of `s` cut into consecutive buckets of `size` items.
pub open spec fn bucket(s: Seq<u64>, size: int, i: int) -> Seq<u64> {
    s.subrange(i * size, bucket_end(s.len() as int, size, i))
}

/// `s` cut into consecutive buckets of `size` items, the last one shorter
/// where `size` does not divide the length.
pub open spec fn buckets(s: Seq<u64>, size: int) -> Seq<Seq<u64>> {
    Seq::new(ceil_div(s.len() as int, size) as nat, |i: int| bucket(s, size, i))
}

/// The bounded projection of a history. A flat history shows its last `max`
/// samples. A history of arrays shows its latest array only: as it is when
/// it has at most `DISPLAY_POINTS` samples, and else cut into buckets of
/// the length divided by `DISPLAY_POINTS`, rounded up.
pub open spec fn truncated(series: Series, max: int) -> Shown {
    match series {
        Series::Single(v) => Shown::Verbatim(tail(v, max)),
        Series::Multi(arrays) => {
            if arrays.len() == 0 {
                Shown::Verbatim(Seq::empty())
            } else if arrays.last().len() <= DISPLAY_POINTS {
                Shown::Verbatim(arrays.last())
            } else {
                let size = ceil_div(arrays.last().len() as int, DISPLAY_POINTS as int);
                Shown::Averaged(buckets(arrays.last(), size))
            }
        },
    }
}

/// A copy of the samples of `v` from position `from` up to `to`.
pub fn copy_range(v: &Vec<u64>, from: usize, to: usize) -> (part: Vec<u64>)
    requires
        from <= to <= v.len(),
    ensures
        part@ == v@.subrange(from as int, to as int),
{
    let mut part: Vec<u64> = Vec::new();
    let mut i: usize = from;
    while i < to
        invariant
            from <= i <= to <= v.len(),
            part@ == v@.subrange(from as int, i as int),
        decreases to - i,
    {
        part.push(v[i]);
        i += 1;
        assert(part@ =~= v@.subrange(from as int, i as int));
    }
    part
}

/// Cuts `v` into consecutive buckets of `size` samples.
pub fn cut_into_buckets(v: &Vec<u64>, size: usize) -> (cut: Vec<Vec<u64>>)
    requires
        size > 0,
    ensures
        rows(cut@) == buckets(v@, size as int),
{
    let len: usize = v.len();
    let mut cut: Vec<Vec<u64>> = Vec::new();
    let mut from: usize = 0;
    proof {
        assert(0 == 0 * size) by (nonlinear_arith);
        assert(ceil_div(0, size as int) == 0) by (nonlinear_arith)
            requires size > 0;
    }
    while from < len
        invariant
            len == v.len(),
            size > 0,
            from <= len,
            from < len ==> from == cut.len() * size,
            from == len ==> cut.len() == ceil_div(len as int, size as int),
            cut.len() <= ceil_div(len as int, size as int),
            forall|j: int|
                0 <= j < cut.len() ==> (#[trigger] cut@[j])@ == bucket(v@, size as int, j),
        decreases len - from,
    {
        let ghost i: int = cut.len() as int;
        let to: usize = if len - from <= size {
            len
        } else {
            from + size
        };
        proof {
            assert((i + 1) * size == from + size) by (nonlinear_arith)
                requires from == i * size;
            assert(to == bucket_end(len as int, size as int, i));
            if to == len {
                assert(i + 1 == ceil_div(len as int, size as int)) by (nonlinear_arith)
                    requires
                        size > 0,
                        i * size < len,
                        len <= (i + 1) * size,
                ;
            } else {
                assert(i + 1 < ceil_div(len as int, size as int)) by (nonlinear_arith)
                    requires
                        size > 0,
                        (i + 1) * size < len,
                ;
            }
        }
        let part = copy_range(v, from, to);
        cut.push(part);
        from = to;
    }
    proof {
        assert(rows(cut@) =~= buckets(v@, size as int));
    }
    cut
}

impl MeasurementData {
    /// The bounded projection of this history for display, with at most
    /// `max_measurements` samples of a flat history.
    pub fn latest_truncated(&self, max_measurements: usize) -> (shown: DisplaySeries)
        ensures
            shown@ == truncated(self@, max_measurements as int),
    {
        match self {
            MeasurementData::Single(v) => {
                let len: usize = v.len();
                let from: usize = if max_measurements >= len {
                    0
                } else {
                    len - max_measurements
                };
                let part = copy_range(v, from, len);
                proof {
                    if max_measurements >= len {
                        assert(v@.subrange(0, len as int) =~= v@);
                    }
                }
                DisplaySeries::Verbatim(part)
            },
            MeasurementData::Multi(arrays) => {
                let n: usize = arrays.len();
                if n == 0 {
                    DisplaySeries::Verbatim(Vec::new())
                } else {
                    let latest = &arrays[n - 1];
                    assert(latest@ == rows(arrays@).last());
                    let len: usize = latest.len();
                    if len <= DISPLAY_POINTS {
                        let part = copy_range(latest, 0, len);
                        assert(latest@.subrange(0, len as int) =~= latest@);
                        DisplaySeries::Verbatim(part)
                    } else {
                        let size = div_ceil(len, DISPLAY_POINTS);
                        assert(size > 0) by (nonlinear_arith)
                            requires size == (len as int + 100 - 1) / 100, len > 100;
                        DisplaySeries::Averaged(cut_into_buckets(latest, size))
                    }
                }
            },
        }
    }
}

} // verus!
