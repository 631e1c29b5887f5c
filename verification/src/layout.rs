//! Per-layout gate-time tables, allowed-shift data and row geometry.
//!
//! Each table is a list of records with one record per key: a setter removes
//! any earlier record for its key before appending the new one, so
//! re-recording a key overwrites it. Lookups read from the newest record
//! backwards. Gate times are opaque 64-bit payloads.

use crate::gates::MultiQubitGate;
use crate::gates::SingleQubitGate;
use crate::gates::ThreeQubitGate;
use crate::gates::TwoQubitGate;
use vstd::prelude::*;

verus! {

/// A recorded single-qubit gate time: gate at one tweezer.
#[derive(Clone, Copy, Debug, PartialEq, Eq, Structural)]
pub struct SingleEntry {
    /// Which gate the record concerns.
    pub gate: SingleQubitGate,
    /// The tweezer this gate acts on.
    pub tweezer: usize,
    /// The recorded gate time.
    pub time: u64,
}

/// A recorded two-qubit gate time: gate at an ordered tweezer pair.
#[derive(Clone, Copy, Debug, PartialEq, Eq, Structural)]
pub struct TwoEntry {
    /// Which gate the record concerns.
    pub gate: TwoQubitGate,
    /// The first tweezer of the ordered pair.
    pub tweezer0: usize,
    /// The second tweezer of the ordered pair.
    pub tweezer1: usize,
    /// The recorded gate time.
    pub time: u64,
}

/// A recorded three-qubit gate time: gate at an ordered tweezer triple.
#[derive(Clone, Copy, Debug, PartialEq, Eq, Structural)]
pub struct ThreeEntry {
    /// Which gate the record concerns.
    pub gate: ThreeQubitGate,
    /// The first tweezer of the ordered triple.
    pub tweezer0: usize,
    /// The second tweezer of the ordered triple.
    pub tweezer1: usize,
    /// The third tweezer of the ordered triple.
    pub tweezer2: usize,
    /// The recorded gate time.
    pub time: u64,
}

/// A recorded multi-qubit gate time: gate at an ordered tweezer list.
#[derive(Clone, Debug)]
pub struct MultiEntry {
    /// Which gate the record concerns.
    pub gate: MultiQubitGate,
    /// The ordered tweezer list this gate acts on.
    pub tweezers: Vec<usize>,
    /// The recorded gate time.
    pub time: u64,
}

/// The allowed shift paths out of one tweezer.
#[derive(Clone, Debug)]
pub struct ShiftEntry {
    /// The origin tweezer.
    pub tweezer: usize,
    /// The allowed paths: each is an ordered chain of destination tweezers.
    pub shifts: Vec<Vec<usize>>,
}

/// Gate availability, shift and geometry data of one named layout.
#[derive(Clone, Debug)]
pub struct TweezerLayoutInfo {
    /// Single-qubit gate times.
    pub single: Vec<SingleEntry>,
    /// Two-qubit gate times.
    pub two: Vec<TwoEntry>,
    /// Three-qubit gate times.
    pub three: Vec<ThreeEntry>,
    /// Multi-qubit gate times.
    pub multi: Vec<MultiEntry>,
    /// Allowed shift paths, one record per origin tweezer.
    pub shifts: Vec<ShiftEntry>,
    /// Optional row partition: tweezer count per row.
    pub per_row: Option<Vec<usize>>,
}

/// The recorded time of a single-qubit gate at a tweezer: last record wins.
pub open spec fn spec_single_time(s: Seq<SingleEntry>, g: SingleQubitGate, t: usize) -> Option<u64>
    decreases s.len(),
{
    if s.len() == 0 {
        None
    } else if s.last().gate == g && s.last().tweezer == t {
        Some(s.last().time)
    } else {
        spec_single_time(s.drop_last(), g, t)
    }
}

/// The recorded time of a two-qubit gate at an ordered pair: last record wins.
pub open spec fn spec_two_time(s: Seq<TwoEntry>, g: TwoQubitGate, t0: usize, t1: usize) -> Option<
    u64,
>
    decreases s.len(),
{
    if s.len() == 0 {
        None
    } else if s.last().gate == g && s.last().tweezer0 == t0 && s.last().tweezer1 == t1 {
        Some(s.last().time)
    } else {
        spec_two_time(s.drop_last(), g, t0, t1)
    }
}

/// The recorded time of a three-qubit gate at an ordered triple: last record wins.
pub open spec fn spec_three_time(
    s: Seq<ThreeEntry>,
    g: ThreeQubitGate,
    t0: usize,
    t1: usize,
    t2: usize,
) -> Option<u64>
    decreases s.len(),
{
    if s.len() == 0 {
        None
    } else if s.last().gate == g && s.last().tweezer0 == t0 && s.last().tweezer1 == t1
        && s.last().tweezer2 == t2 {
        Some(s.last().time)
    } else {
        spec_three_time(s.drop_last(), g, t0, t1, t2)
    }
}

/// The recorded time of a multi-qubit gate at an ordered tweezer list: last record wins.
pub open spec fn spec_multi_time(s: Seq<MultiEntry>, g: MultiQubitGate, ts: Seq<usize>) -> Option<
    u64,
>
    decreases s.len(),
{
    if s.len() == 0 {
        None
    } else if s.last().gate == g && s.last().tweezers@ == ts {
        Some(s.last().time)
    } else {
        spec_multi_time(s.drop_last(), g, ts)
    }
}

/// The allowed shift paths out of a tweezer, by view: last record wins.
pub open spec fn spec_shifts_at(s: Seq<ShiftEntry>, t: usize) -> Option<Seq<Seq<usize>>>
    decreases s.len(),
{
    if s.len() == 0 {
        None
    } else if s.last().tweezer == t {
        Some(s.last().shifts.deep_view())
    } else {
        spec_shifts_at(s.drop_last(), t)
    }
}

/// Whether a tweezer appears in any gate-time table of the layout.
pub open spec fn spec_site_used(info: TweezerLayoutInfo, t: usize) -> bool {
    spec_site_used_st3(info, t) || exists|i: int|
        0 <= i < info.multi@.len() && info.multi@[i].tweezers@.contains(t)
}

/// Whether a tweezer appears in the single-, two- or three-qubit table.
pub open spec fn spec_site_used_st3(info: TweezerLayoutInfo, t: usize) -> bool {
    (exists|i: int| 0 <= i < info.single@.len() && info.single@[i].tweezer == t) || (exists|i: int|
        0 <= i < info.two@.len() && (info.two@[i].tweezer0 == t || info.two@[i].tweezer1 == t))
        || (exists|i: int|
        0 <= i < info.three@.len() && (info.three@[i].tweezer0 == t || info.three@[i].tweezer1 == t
            || info.three@[i].tweezer2 == t))
}

/// The predicate keeping every single-qubit record with a different key.
pub open spec fn single_key_other(g: SingleQubitGate, t: usize) -> spec_fn(SingleEntry) -> bool {
    |e: SingleEntry| !(e.gate == g && e.tweezer == t)
}

/// The single-qubit table without any record for the given key.
pub open spec fn spec_single_without(s: Seq<SingleEntry>, g: SingleQubitGate, t: usize) -> Seq<
    SingleEntry,
> {
    s.filter(single_key_other(g, t))
}

/// The predicate keeping every two-qubit record with a different key.
pub open spec fn two_key_other(g: TwoQubitGate, t0: usize, t1: usize) -> spec_fn(TwoEntry) -> bool {
    |e: TwoEntry| !(e.gate == g && e.tweezer0 == t0 && e.tweezer1 == t1)
}

/// The two-qubit table without any record for the given key.
pub open spec fn spec_two_without(s: Seq<TwoEntry>, g: TwoQubitGate, t0: usize, t1: usize) -> Seq<
    TwoEntry,
> {
    s.filter(two_key_other(g, t0, t1))
}

/// The predicate keeping every three-qubit record with a different key.
pub open spec fn three_key_other(g: ThreeQubitGate, t0: usize, t1: usize, t2: usize) -> spec_fn(
    ThreeEntry,
) -> bool {
    |e: ThreeEntry| !(e.gate == g && e.tweezer0 == t0 && e.tweezer1 == t1 && e.tweezer2 == t2)
}

/// The three-qubit table without any record for the given key.
pub open spec fn spec_three_without(
    s: Seq<ThreeEntry>,
    g: ThreeQubitGate,
    t0: usize,
    t1: usize,
    t2: usize,
) -> Seq<ThreeEntry> {
    s.filter(three_key_other(g, t0, t1, t2))
}

/// The predicate keeping every multi-qubit record with a different key.
pub open spec fn multi_key_other(g: MultiQubitGate, ts: Seq<usize>) -> spec_fn(MultiEntry) -> bool {
    |e: MultiEntry| !(e.gate == g && e.tweezers@ == ts)
}

/// The multi-qubit table without any record for the given key.
pub open spec fn spec_multi_without(s: Seq<MultiEntry>, g: MultiQubitGate, ts: Seq<usize>) -> Seq<
    MultiEntry,
> {
    s.filter(multi_key_other(g, ts))
}

/// The predicate keeping every shift record with a different origin.
pub open spec fn shift_key_other(t: usize) -> spec_fn(ShiftEntry) -> bool {
    |e: ShiftEntry| e.tweezer != t
}

/// The shift table without any record for the given origin.
pub open spec fn spec_shifts_without(s: Seq<ShiftEntry>, t: usize) -> Seq<ShiftEntry> {
    s.filter(shift_key_other(t))
}

/// Dropping one origin's shift record leaves every other origin's lookup
/// unchanged.
pub proof fn lemma_shifts_without_at(s: Seq<ShiftEntry>, t: usize, t2: usize)
    ensures
        spec_shifts_at(spec_shifts_without(s, t), t2) == if t2 == t {
            None
        } else {
            spec_shifts_at(s, t2)
        },
    decreases s.len(),
{
    reveal_with_fuel(Seq::filter, 2);
    if s.len() == 0 {
        assert(spec_shifts_without(s, t) =~= s);
    } else {
        lemma_shifts_without_at(s.drop_last(), t, t2);
        let f = spec_shifts_without(s.drop_last(), t);
        if s.last().tweezer != t {
            assert(spec_shifts_without(s, t) == f.push(s.last()));
            assert(f.push(s.last()).drop_last() =~= f);
        } else {
            assert(spec_shifts_without(s, t) == f);
        }
    }
}

/// Filtering keeps a list whole when every element satisfies the predicate.
pub proof fn lemma_filter_all_kept<T>(s: Seq<T>, pred: spec_fn(T) -> bool)
    requires
        forall|i: int| 0 <= i < s.len() ==> pred(#[trigger] s[i]),
    ensures
        s.filter(pred) == s,
    decreases s.len(),
{
    reveal_with_fuel(Seq::filter, 2);
    if s.len() == 0 {
        assert(s.filter(pred) =~= s);
    } else {
        assert(forall|i: int| 0 <= i < s.len() - 1 ==> s.drop_last()[i] == s[i]);
        lemma_filter_all_kept(s.drop_last(), pred);
        assert(pred(s[s.len() - 1]));
        assert(s.filter(pred) =~= s);
    }
}

impl TweezerLayoutInfo {
    /// A layout with no recorded data.
    pub fn empty() -> (r: Self)
        ensures
            r.single@.len() == 0,
            r.two@.len() == 0,
            r.three@.len() == 0,
            r.multi@.len() == 0,
            r.shifts@.len() == 0,
            r.per_row is None,
    {
        TweezerLayoutInfo {
            single: Vec::new(),
            two: Vec::new(),
            three: Vec::new(),
            multi: Vec::new(),
            shifts: Vec::new(),
            per_row: None,
        }
    }

    /// The recorded time of a single-qubit gate at a tweezer.
    pub fn single_qubit_gate_time(&self, g: SingleQubitGate, tweezer: usize) -> (r: Option<u64>)
        ensures
            r == spec_single_time(self.single@, g, tweezer),
    {
        let mut i: usize = self.single.len();
        proof {
            assert(self.single@.take(i as int) =~= self.single@);
        }
        while i > 0
            invariant
                i <= self.single@.len(),
                spec_single_time(self.single@, g, tweezer) == spec_single_time(
                    self.single@.take(i as int),
                    g,
                    tweezer,
                ),
            decreases i,
        {
            let e = self.single[i - 1];
            proof {
                assert(self.single@.take(i as int).last() == self.single@[i - 1]);
                assert(self.single@.take(i as int).drop_last() =~= self.single@.take(i as int - 1));
            }
            if e.gate == g && e.tweezer == tweezer {
                return Some(e.time);
            }
            i -= 1;
        }
        proof {
            assert(self.single@.take(0) =~= Seq::<SingleEntry>::empty());
        }
        None
    }

    /// Records the time of a single-qubit gate at a tweezer, removing any
    /// earlier record for the same gate and tweezer: the table keeps one
    /// record per key.
    pub fn set_single_qubit_gate_time(&mut self, g: SingleQubitGate, tweezer: usize, time: u64)
        ensures
            final(self).single@ == spec_single_without(old(self).single@, g, tweezer).push(
                (SingleEntry { gate: g, tweezer, time }),
            ),
            final(self).two == old(self).two,
            final(self).three == old(self).three,
            final(self).multi == old(self).multi,
            final(self).shifts == old(self).shifts,
            final(self).per_row == old(self).per_row,
    {
        let mut out: Vec<SingleEntry> = Vec::new();
        let mut i: usize = 0;
        proof {
            reveal_with_fuel(Seq::filter, 2);
            assert(out@ =~= self.single@.take(0).filter(single_key_other(g, tweezer)));
        }
        while i < self.single.len()
            invariant
                i <= self.single@.len(),
                out@ == self.single@.take(i as int).filter(single_key_other(g, tweezer)),
            decreases self.single@.len() - i,
        {
            let e = self.single[i];
            proof {
                reveal_with_fuel(Seq::filter, 2);
                assert(self.single@.take(i as int + 1).last() == self.single@[i as int]);
                assert(self.single@.take(i as int + 1).drop_last() =~= self.single@.take(i as int));
            }
            if !(e.gate == g && e.tweezer == tweezer) {
                out.push(e);
            }
            i += 1;
        }
        proof {
            assert(self.single@.take(self.single@.len() as int) =~= self.single@);
        }
        out.push(SingleEntry { gate: g, tweezer, time });
        self.single = out;
    }

    /// The recorded time of a two-qubit gate at an ordered tweezer pair.
    pub fn two_qubit_gate_time(&self, g: TwoQubitGate, tweezer0: usize, tweezer1: usize) -> (r:
        Option<u64>)
        ensures
            r == spec_two_time(self.two@, g, tweezer0, tweezer1),
    {
        let mut i: usize = self.two.len();
        proof {
            assert(self.two@.take(i as int) =~= self.two@);
        }
        while i > 0
            invariant
                i <= self.two@.len(),
                spec_two_time(self.two@, g, tweezer0, tweezer1) == spec_two_time(
                    self.two@.take(i as int),
                    g,
                    tweezer0,
                    tweezer1,
                ),
            decreases i,
        {
            let e = self.two[i - 1];
            proof {
                assert(self.two@.take(i as int).last() == self.two@[i - 1]);
                assert(self.two@.take(i as int).drop_last() =~= self.two@.take(i as int - 1));
            }
            if e.gate == g && e.tweezer0 == tweezer0 && e.tweezer1 == tweezer1 {
                return Some(e.time);
            }
            i -= 1;
        }
        proof {
            assert(self.two@.take(0) =~= Seq::<TwoEntry>::empty());
        }
        None
    }

    /// Records the time of a two-qubit gate at an ordered tweezer pair,
    /// removing any earlier record for the same gate and pair: the table
    /// keeps one record per key.
    pub fn set_two_qubit_gate_time(
        &mut self,
        g: TwoQubitGate,
        tweezer0: usize,
        tweezer1: usize,
        time: u64,
    )
        ensures
            final(self).two@ == spec_two_without(old(self).two@, g, tweezer0, tweezer1).push(
                (TwoEntry { gate: g, tweezer0, tweezer1, time }),
            ),
            final(self).single == old(self).single,
            final(self).three == old(self).three,
            final(self).multi == old(self).multi,
            final(self).shifts == old(self).shifts,
            final(self).per_row == old(self).per_row,
    {
        let mut out: Vec<TwoEntry> = Vec::new();
        let mut i: usize = 0;
        proof {
            reveal_with_fuel(Seq::filter, 2);
            assert(out@ =~= self.two@.take(0).filter(two_key_other(g, tweezer0, tweezer1)));
        }
        while i < self.two.len()
            invariant
                i <= self.two@.len(),
                out@ == self.two@.take(i as int).filter(two_key_other(g, tweezer0, tweezer1)),
            decreases self.two@.len() - i,
        {
            let e = self.two[i];
            proof {
                reveal_with_fuel(Seq::filter, 2);
                assert(self.two@.take(i as int + 1).last() == self.two@[i as int]);
                assert(self.two@.take(i as int + 1).drop_last() =~= self.two@.take(i as int));
            }
            if !(e.gate == g && e.tweezer0 == tweezer0 && e.tweezer1 == tweezer1) {
                out.push(e);
            }
            i += 1;
        }
        proof {
            assert(self.two@.take(self.two@.len() as int) =~= self.two@);
        }
        out.push(TwoEntry { gate: g, tweezer0, tweezer1, time });
        self.two = out;
    }

    /// The recorded time of a three-qubit gate at an ordered tweezer triple.
    pub fn three_qubit_gate_time(
        &self,
        g: ThreeQubitGate,
        tweezer0: usize,
        tweezer1: usize,
        tweezer2: usize,
    ) -> (r: Option<u64>)
        ensures
            r == spec_three_time(self.three@, g, tweezer0, tweezer1, tweezer2),
    {
        let mut i: usize = self.three.len();
        proof {
            assert(self.three@.take(i as int) =~= self.three@);
        }
        while i > 0
            invariant
                i <= self.three@.len(),
                spec_three_time(self.three@, g, tweezer0, tweezer1, tweezer2) == spec_three_time(
                    self.three@.take(i as int),
                    g,
                    tweezer0,
                    tweezer1,
                    tweezer2,
                ),
            decreases i,
        {
            let e = self.three[i - 1];
            proof {
                assert(self.three@.take(i as int).last() == self.three@[i - 1]);
                assert(self.three@.take(i as int).drop_last() =~= self.three@.take(i as int - 1));
            }
            if e.gate == g && e.tweezer0 == tweezer0 && e.tweezer1 == tweezer1 && e.tweezer2
                == tweezer2 {
                return Some(e.time);
            }
            i -= 1;
        }
        proof {
            assert(self.three@.take(0) =~= Seq::<ThreeEntry>::empty());
        }
        None
    }

    /// Records the time of a three-qubit gate at an ordered tweezer triple,
    /// removing any earlier record for the same gate and triple: the table
    /// keeps one record per key.
    pub fn set_three_qubit_gate_time(
        &mut self,
        g: ThreeQubitGate,
        tweezer0: usize,
        tweezer1: usize,
        tweezer2: usize,
        time: u64,
    )
        ensures
            final(self).three@ == spec_three_without(
                old(self).three@,
                g,
                tweezer0,
                tweezer1,
                tweezer2,
            ).push((ThreeEntry { gate: g, tweezer0, tweezer1, tweezer2, time })),
            final(self).single == old(self).single,
            final(self).two == old(self).two,
            final(self).multi == old(self).multi,
            final(self).shifts == old(self).shifts,
            final(self).per_row == old(self).per_row,
    {
        let mut out: Vec<ThreeEntry> = Vec::new();
        let mut i: usize = 0;
        proof {
            reveal_with_fuel(Seq::filter, 2);
            assert(out@ =~= self.three@.take(0).filter(
                three_key_other(g, tweezer0, tweezer1, tweezer2),
            ));
        }
        while i < self.three.len()
            invariant
                i <= self.three@.len(),
                out@ == self.three@.take(i as int).filter(
                    three_key_other(g, tweezer0, tweezer1, tweezer2),
                ),
            decreases self.three@.len() - i,
        {
            let e = self.three[i];
            proof {
                reveal_with_fuel(Seq::filter, 2);
                assert(self.three@.take(i as int + 1).last() == self.three@[i as int]);
                assert(self.three@.take(i as int + 1).drop_last() =~= self.three@.take(i as int));
            }
            if !(e.gate == g && e.tweezer0 == tweezer0 && e.tweezer1 == tweezer1 && e.tweezer2
                == tweezer2) {
                out.push(e);
            }
            i += 1;
        }
        proof {
            assert(self.three@.take(self.three@.len() as int) =~= self.three@);
        }
        out.push(ThreeEntry { gate: g, tweezer0, tweezer1, tweezer2, time });
        self.three = out;
    }

    /// The recorded time of a multi-qubit gate at an ordered tweezer list.
    pub fn multi_qubit_gate_time(&self, g: MultiQubitGate, tweezers: &[usize]) -> (r: Option<u64>)
        ensures
            r == spec_multi_time(self.multi@, g, tweezers@),
    {
        let mut i: usize = self.multi.len();
        proof {
            assert(self.multi@.take(i as int) =~= self.multi@);
        }
        while i > 0
            invariant
                i <= self.multi@.len(),
                spec_multi_time(self.multi@, g, tweezers@) == spec_multi_time(
                    self.multi@.take(i as int),
                    g,
                    tweezers@,
                ),
            decreases i,
        {
            proof {
                assert(self.multi@.take(i as int).last() == self.multi@[i - 1]);
                assert(self.multi@.take(i as int).drop_last() =~= self.multi@.take(i as int - 1));
            }
            let e = &self.multi[i - 1];
            if e.gate == g && usize_slices_eq(e.tweezers.as_slice(), tweezers) {
                return Some(e.time);
            }
            i -= 1;
        }
        proof {
            assert(self.multi@.take(0) =~= Seq::<MultiEntry>::empty());
        }
        None
    }

    /// Records the time of a multi-qubit gate at an ordered tweezer list,
    /// removing any earlier record for the same gate and list: the table
    /// keeps one record per key.
    pub fn set_multi_qubit_gate_time(&mut self, g: MultiQubitGate, tweezers: Vec<usize>, time: u64)
        ensures
            final(self).multi@.len() == spec_multi_without(old(self).multi@, g, tweezers@).len()
                + 1,
            final(self).multi@.drop_last() == spec_multi_without(old(self).multi@, g, tweezers@),
            final(self).multi@.last().gate == g,
            final(self).multi@.last().tweezers@ == tweezers@,
            final(self).multi@.last().time == time,
            final(self).single == old(self).single,
            final(self).two == old(self).two,
            final(self).three == old(self).three,
            final(self).shifts == old(self).shifts,
            final(self).per_row == old(self).per_row,
    {
        let ghost multi_old = self.multi@;
        let ghost pred = multi_key_other(g, tweezers@);
        let mut i: usize = self.multi.len();
        proof {
            reveal_with_fuel(Seq::filter, 2);
            assert(multi_old.skip(i as int).filter(pred) =~= Seq::<MultiEntry>::empty());
            assert(self.multi@ =~= multi_old.take(i as int) + multi_old.skip(i as int).filter(
                pred,
            ));
        }
        while i > 0
            invariant
                pred == multi_key_other(g, tweezers@),
                i <= multi_old.len(),
                self.multi@ == multi_old.take(i as int) + multi_old.skip(i as int).filter(pred),
                self.single == old(self).single,
                self.two == old(self).two,
                self.three == old(self).three,
                self.shifts == old(self).shifts,
                self.per_row == old(self).per_row,
            decreases i,
        {
            i -= 1;
            proof {
                reveal_with_fuel(Seq::filter, 2);
                assert(self.multi@[i as int] == multi_old[i as int]);
                assert(multi_old.skip(i as int) =~= seq![multi_old[i as int]] + multi_old.skip(
                    i as int + 1,
                ));
                Seq::filter_distributes_over_add(
                    seq![multi_old[i as int]],
                    multi_old.skip(i as int + 1),
                    pred,
                );
                assert(seq![multi_old[i as int]].drop_last()
                    =~= Seq::<MultiEntry>::empty());
            }
            let same_gate = self.multi[i].gate == g;
            let same_key = same_gate && usize_slices_eq(
                self.multi[i].tweezers.as_slice(),
                tweezers.as_slice(),
            );
            if same_key {
                proof {
                    assert(multi_old[i as int].gate == g && multi_old[i as int].tweezers@
                        == tweezers@);
                    assert(!multi_key_other(g, tweezers@)(multi_old[i as int]));
                    assert(!pred(multi_old[i as int]));
                    assert(seq![multi_old[i as int]].filter(pred)
                        =~= Seq::<MultiEntry>::empty());
                }
                self.multi.remove(i);
                proof {
                    assert(self.multi@ =~= multi_old.take(i as int) + multi_old.skip(
                        i as int,
                    ).filter(pred));
                }
            } else {
                proof {
                    assert(!(multi_old[i as int].gate == g && multi_old[i as int].tweezers@
                        == tweezers@));
                    assert(multi_key_other(g, tweezers@)(multi_old[i as int]));
                    assert(pred(multi_old[i as int]));
                    assert(seq![multi_old[i as int]].filter(pred) =~= seq![multi_old[i as int]]);
                    assert(self.multi@ =~= multi_old.take(i as int) + multi_old.skip(
                        i as int,
                    ).filter(pred));
                }
            }
        }
        proof {
            assert(multi_old.take(0) =~= Seq::<MultiEntry>::empty());
            assert(multi_old.skip(0) =~= multi_old);
            assert(self.multi@ =~= spec_multi_without(multi_old, g, tweezers@));
        }
        let ghost filtered = self.multi@;
        self.multi.push(MultiEntry { gate: g, tweezers, time });
        proof {
            assert(self.multi@.drop_last() =~= filtered);
        }
    }

    /// The row partition of the layout, if one was recorded.
    pub fn tweezers_per_row(&self) -> (r: &Option<Vec<usize>>)
        ensures
            r == self.per_row,
    {
        &self.per_row
    }

    /// Records the row partition of the layout.
    pub fn set_tweezers_per_row(&mut self, rows: Vec<usize>)
        ensures
            final(self).per_row == Some(rows),
            final(self).single == old(self).single,
            final(self).two == old(self).two,
            final(self).three == old(self).three,
            final(self).multi == old(self).multi,
            final(self).shifts == old(self).shifts,
    {
        self.per_row = Some(rows);
    }
}

/// Compares two tweezer lists element for element.
pub fn usize_slices_eq(a: &[usize], b: &[usize]) -> (r: bool)
    ensures
        r == (a@ == b@),
{
    if a.len() != b.len() {
        return false;
    }
    let mut i: usize = 0;
    while i < a.len()
        invariant
            a@.len() == b@.len(),
            i <= a@.len(),
            forall|j: int| 0 <= j < i ==> a@[j] == b@[j],
        decreases a@.len() - i,
    {
        if a[i] != b[i] {
            return false;
        }
        i += 1;
    }
    proof {
        assert(a@ =~= b@);
    }
    true
}



/// A pushed element is contained, and containment is otherwise unchanged.
pub proof fn lemma_contains_push<T>(s: Seq<T>, x: T, y: T)
    ensures
        s.push(x).contains(y) <==> (s.contains(y) || x == y),
{
    if s.contains(y) {
        let i = choose|i: int| 0 <= i < s.len() && s[i] == y;
        assert(s.push(x)[i] == y);
    }
    if x == y {
        assert(s.push(x)[s.len() as int] == y);
    }
    if s.push(x).contains(y) {
        let i = choose|i: int| 0 <= i < s.push(x).len() && s.push(x)[i] == y;
        if i < s.len() {
            assert(s[i] == y);
        }
    }
}

/// The least strict upper bound of the tweezers in a single-qubit table.
pub open spec fn spec_bound_single(s: Seq<SingleEntry>) -> int
    decreases s.len(),
{
    if s.len() == 0 {
        0
    } else {
        let b = spec_bound_single(s.drop_last());
        if s.last().tweezer + 1 > b {
            s.last().tweezer + 1
        } else {
            b
        }
    }
}

/// The least strict upper bound of the tweezers in a two-qubit table.
pub open spec fn spec_bound_two(s: Seq<TwoEntry>) -> int
    decreases s.len(),
{
    if s.len() == 0 {
        0
    } else {
        let b = spec_bound_two(s.drop_last());
        let c = if s.last().tweezer0 > s.last().tweezer1 {
            s.last().tweezer0 + 1
        } else {
            s.last().tweezer1 + 1
        };
        if c > b {
            c
        } else {
            b
        }
    }
}

/// The least strict upper bound of the tweezers in a three-qubit table.
pub open spec fn spec_bound_three(s: Seq<ThreeEntry>) -> int
    decreases s.len(),
{
    if s.len() == 0 {
        0
    } else {
        let b = spec_bound_three(s.drop_last());
        let e = s.last();
        let c01 = if e.tweezer0 > e.tweezer1 {
            e.tweezer0
        } else {
            e.tweezer1
        };
        let c = if c01 > e.tweezer2 {
            c01 + 1
        } else {
            e.tweezer2 + 1
        };
        if c > b {
            c
        } else {
            b
        }
    }
}

/// The least strict upper bound of the sites in the single-, two- and
/// three-qubit tables of a layout.
pub open spec fn spec_st3_bound(info: TweezerLayoutInfo) -> int {
    let b1 = spec_bound_single(info.single@);
    let b2 = spec_bound_two(info.two@);
    let b3 = spec_bound_three(info.three@);
    if b1 > b2 && b1 > b3 {
        b1
    } else if b2 > b3 {
        b2
    } else {
        b3
    }
}

/// Every site used by the single-, two- or three-qubit tables lies below the
/// bound.
pub proof fn lemma_used_st3_below_bound(info: TweezerLayoutInfo, t: usize)
    requires
        spec_site_used_st3(info, t),
    ensures
        t < spec_st3_bound(info),
{
    if exists|i: int| 0 <= i < info.single@.len() && info.single@[i].tweezer == t {
        let i = choose|i: int| 0 <= i < info.single@.len() && info.single@[i].tweezer == t;
        lemma_bound_single_entry(info.single@, i);
    } else if exists|i: int|
        0 <= i < info.two@.len() && (info.two@[i].tweezer0 == t || info.two@[i].tweezer1 == t) {
        let i = choose|i: int|
            0 <= i < info.two@.len() && (info.two@[i].tweezer0 == t || info.two@[i].tweezer1 == t);
        lemma_bound_two_entry(info.two@, i);
    } else {
        let i = choose|i: int|
            0 <= i < info.three@.len() && (info.three@[i].tweezer0 == t || info.three@[i].tweezer1
                == t || info.three@[i].tweezer2 == t);
        lemma_bound_three_entry(info.three@, i);
    }
}

/// Each single-qubit entry's tweezer lies below the table bound.
pub proof fn lemma_bound_single_entry(s: Seq<SingleEntry>, i: int)
    requires
        0 <= i < s.len(),
    ensures
        s[i].tweezer < spec_bound_single(s),
    decreases s.len(),
{
    if i < s.len() - 1 {
        lemma_bound_single_entry(s.drop_last(), i);
    }
}

/// Each two-qubit entry's tweezers lie below the table bound.
pub proof fn lemma_bound_two_entry(s: Seq<TwoEntry>, i: int)
    requires
        0 <= i < s.len(),
    ensures
        s[i].tweezer0 < spec_bound_two(s),
        s[i].tweezer1 < spec_bound_two(s),
    decreases s.len(),
{
    if i < s.len() - 1 {
        lemma_bound_two_entry(s.drop_last(), i);
    }
}

/// Each three-qubit entry's tweezers lie below the table bound.
pub proof fn lemma_bound_three_entry(s: Seq<ThreeEntry>, i: int)
    requires
        0 <= i < s.len(),
    ensures
        s[i].tweezer0 < spec_bound_three(s),
        s[i].tweezer1 < spec_bound_three(s),
        s[i].tweezer2 < spec_bound_three(s),
    decreases s.len(),
{
    if i < s.len() - 1 {
        lemma_bound_three_entry(s.drop_last(), i);
    }
}

/// How many sites below the bound are used by the single-, two- or
/// three-qubit tables.
pub open spec fn spec_used_count_st3(info: TweezerLayoutInfo, n: int) -> nat
    decreases n,
{
    if n <= 0 {
        0
    } else {
        spec_used_count_st3(info, n - 1) + if spec_site_used_st3(info, (n - 1) as usize) {
            1nat
        } else {
            0nat
        }
    }
}



/// The least strict upper bound of the tweezers named in one multi-qubit list.
pub open spec fn spec_bound_usizes(ts: Seq<usize>) -> int
    decreases ts.len(),
{
    if ts.len() == 0 {
        0
    } else {
        let b = spec_bound_usizes(ts.drop_last());
        if ts.last() + 1 > b {
            ts.last() + 1
        } else {
            b
        }
    }
}

/// The least strict upper bound of the tweezers in a multi-qubit table.
pub open spec fn spec_bound_multi(s: Seq<MultiEntry>) -> int
    decreases s.len(),
{
    if s.len() == 0 {
        0
    } else {
        let b = spec_bound_multi(s.drop_last());
        let c = spec_bound_usizes(s.last().tweezers@);
        if c > b {
            c
        } else {
            b
        }
    }
}

/// The least strict upper bound of the sites in all gate-time tables.
pub open spec fn spec_all_bound(info: TweezerLayoutInfo) -> int {
    let b1 = spec_st3_bound(info);
    let b2 = spec_bound_multi(info.multi@);
    if b1 > b2 {
        b1
    } else {
        b2
    }
}

/// Each tweezer in a list lies below the list bound.
pub proof fn lemma_bound_usizes_entry(ts: Seq<usize>, i: int)
    requires
        0 <= i < ts.len(),
    ensures
        ts[i] < spec_bound_usizes(ts),
    decreases ts.len(),
{
    if i < ts.len() - 1 {
        lemma_bound_usizes_entry(ts.drop_last(), i);
    }
}

/// Each multi-qubit entry's tweezers lie below the table bound.
pub proof fn lemma_bound_multi_entry(s: Seq<MultiEntry>, i: int, t: usize)
    requires
        0 <= i < s.len(),
        s[i].tweezers@.contains(t),
    ensures
        t < spec_bound_multi(s),
    decreases s.len(),
{
    if i < s.len() - 1 {
        lemma_bound_multi_entry(s.drop_last(), i, t);
    } else {
        let j = choose|j: int| 0 <= j < s[i].tweezers@.len() && s[i].tweezers@[j] == t;
        lemma_bound_usizes_entry(s[i].tweezers@, j);
    }
}

/// Every site used by any gate-time table lies below the overall bound.
pub proof fn lemma_used_below_all_bound(info: TweezerLayoutInfo, t: usize)
    requires
        spec_site_used(info, t),
    ensures
        t < spec_all_bound(info),
{
    if spec_site_used_st3(info, t) {
        lemma_used_st3_below_bound(info, t);
    } else {
        let i = choose|i: int|
            0 <= i < info.multi@.len() && info.multi@[i].tweezers@.contains(t);
        lemma_bound_multi_entry(info.multi@, i, t);
    }
}

/// How many sites below the bound are used by any gate-time table.
pub open spec fn spec_used_count_all(info: TweezerLayoutInfo, n: int) -> nat
    decreases n,
{
    if n <= 0 {
        0
    } else {
        spec_used_count_all(info, n - 1) + if spec_site_used(info, (n - 1) as usize) {
            1nat
        } else {
            0nat
        }
    }
}

/// Whether a tweezer list contains a tweezer.
pub fn contains_usize(v: &[usize], x: usize) -> (r: bool)
    ensures
        r == v@.contains(x),
{
    let mut i: usize = 0;
    while i < v.len()
        invariant
            i <= v@.len(),
            forall|j: int| 0 <= j < i ==> v@[j] != x,
        decreases v@.len() - i,
    {
        if v[i] == x {
            proof {
                assert(v@[i as int] == x);
            }
            return true;
        }
        i += 1;
    }
    false
}

/// Whether a list of paths contains a path, compared by contents.
pub fn contains_path(paths: &Vec<Vec<usize>>, p: &[usize]) -> (r: bool)
    ensures
        r == paths.deep_view().contains(p@),
{
    let mut i: usize = 0;
    while i < paths.len()
        invariant
            i <= paths@.len(),
            forall|j: int| 0 <= j < i ==> paths.deep_view()[j] != p@,
        decreases paths@.len() - i,
    {
        proof {
            assert(paths.deep_view()[i as int] == paths@[i as int].deep_view());
            assert(paths@[i as int].deep_view() =~= paths@[i as int]@);
        }
        if usize_slices_eq(paths[i].as_slice(), p) {
            proof {
                assert(paths.deep_view()[i as int] == p@);
            }
            return true;
        }
        i += 1;
    }
    proof {
        assert(forall|j: int| 0 <= j < paths.deep_view().len() ==> paths.deep_view()[j] != p@);
    }
    false
}

impl TweezerLayoutInfo {
    /// Whether a tweezer appears in the single-, two- or three-qubit table.
    pub fn site_used_st3(&self, t: usize) -> (r: bool)
        ensures
            r == spec_site_used_st3(*self, t),
    {
        let mut i: usize = 0;
        while i < self.single.len()
            invariant
                i <= self.single@.len(),
                forall|j: int| 0 <= j < i ==> self.single@[j].tweezer != t,
            decreases self.single@.len() - i,
        {
            if self.single[i].tweezer == t {
                proof {
                    assert(self.single@[i as int].tweezer == t);
                }
                return true;
            }
            i += 1;
        }
        let mut i: usize = 0;
        while i < self.two.len()
            invariant
                i <= self.two@.len(),
                forall|j: int|
                    0 <= j < i ==> self.two@[j].tweezer0 != t && self.two@[j].tweezer1 != t,
            decreases self.two@.len() - i,
        {
            let e = self.two[i];
            if e.tweezer0 == t || e.tweezer1 == t {
                proof {
                    assert(self.two@[i as int].tweezer0 == t || self.two@[i as int].tweezer1 == t);
                }
                return true;
            }
            i += 1;
        }
        let mut i: usize = 0;
        while i < self.three.len()
            invariant
                i <= self.three@.len(),
                forall|j: int|
                    0 <= j < i ==> self.three@[j].tweezer0 != t && self.three@[j].tweezer1 != t
                        && self.three@[j].tweezer2 != t,
            decreases self.three@.len() - i,
        {
            let e = self.three[i];
            if e.tweezer0 == t || e.tweezer1 == t || e.tweezer2 == t {
                proof {
                    assert(self.three@[i as int].tweezer0 == t || self.three@[i as int].tweezer1
                        == t || self.three@[i as int].tweezer2 == t);
                }
                return true;
            }
            i += 1;
        }
        false
    }

    /// Whether a tweezer appears in any gate-time table of the layout.
    pub fn site_used(&self, t: usize) -> (r: bool)
        ensures
            r == spec_site_used(*self, t),
    {
        if self.site_used_st3(t) {
            return true;
        }
        let mut i: usize = 0;
        while i < self.multi.len()
            invariant
                i <= self.multi@.len(),
                forall|j: int| 0 <= j < i ==> !self.multi@[j].tweezers@.contains(t),
            decreases self.multi@.len() - i,
        {
            if contains_usize(self.multi[i].tweezers.as_slice(), t) {
                proof {
                    assert(self.multi@[i as int].tweezers@.contains(t));
                }
                return true;
            }
            i += 1;
        }
        false
    }

    /// The greatest site named in the single-, two- or three-qubit table, if
    /// any of them is nonempty.
    pub fn max_site_st3(&self) -> (r: Option<usize>)
        ensures
            match r {
                Some(m) => m as int + 1 == spec_st3_bound(*self),
                None => spec_st3_bound(*self) == 0,
            },
    {
        let mut has: bool = false;
        let mut m: usize = 0;
        let ghost cur = |has: bool, m: usize| if has { m as int + 1 } else { 0int };
        let mut i: usize = 0;
        proof {
            assert(self.single@.take(0) =~= Seq::<SingleEntry>::empty());
        }
        while i < self.single.len()
            invariant
                i <= self.single@.len(),
                (if has { m as int + 1 } else { 0int }) == spec_bound_single(
                    self.single@.take(i as int),
                ),
            decreases self.single@.len() - i,
        {
            let e = self.single[i];
            proof {
                assert(self.single@.take(i as int + 1).last() == self.single@[i as int]);
                assert(self.single@.take(i as int + 1).drop_last() =~= self.single@.take(
                    i as int,
                ));
            }
            if has == false || e.tweezer > m {
                m = e.tweezer;
                has = true;
            }
            i += 1;
        }
        proof {
            assert(self.single@.take(self.single@.len() as int) =~= self.single@);
            assert(self.two@.take(0) =~= Seq::<TwoEntry>::empty());
        }
        let ghost b1 = spec_bound_single(self.single@);
        let mut i: usize = 0;
        while i < self.two.len()
            invariant
                i <= self.two@.len(),
                (if has { m as int + 1 } else { 0int }) == if b1 > spec_bound_two(
                    self.two@.take(i as int),
                ) {
                    b1
                } else {
                    spec_bound_two(self.two@.take(i as int))
                },
            decreases self.two@.len() - i,
        {
            let e = self.two[i];
            proof {
                assert(self.two@.take(i as int + 1).last() == self.two@[i as int]);
                assert(self.two@.take(i as int + 1).drop_last() =~= self.two@.take(i as int));
            }
            if has == false || e.tweezer0 > m {
                m = e.tweezer0;
                has = true;
            }
            if e.tweezer1 > m {
                m = e.tweezer1;
            }
            i += 1;
        }
        proof {
            assert(self.two@.take(self.two@.len() as int) =~= self.two@);
            assert(self.three@.take(0) =~= Seq::<ThreeEntry>::empty());
        }
        let ghost b2 = if b1 > spec_bound_two(self.two@) {
            b1
        } else {
            spec_bound_two(self.two@)
        };
        let mut i: usize = 0;
        while i < self.three.len()
            invariant
                i <= self.three@.len(),
                (if has { m as int + 1 } else { 0int }) == if b2 > spec_bound_three(
                    self.three@.take(i as int),
                ) {
                    b2
                } else {
                    spec_bound_three(self.three@.take(i as int))
                },
            decreases self.three@.len() - i,
        {
            let e = self.three[i];
            proof {
                assert(self.three@.take(i as int + 1).last() == self.three@[i as int]);
                assert(self.three@.take(i as int + 1).drop_last() =~= self.three@.take(i as int));
            }
            if has == false || e.tweezer0 > m {
                m = e.tweezer0;
                has = true;
            }
            if e.tweezer1 > m {
                m = e.tweezer1;
            }
            if e.tweezer2 > m {
                m = e.tweezer2;
            }
            i += 1;
        }
        proof {
            assert(self.three@.take(self.three@.len() as int) =~= self.three@);
        }
        if has {
            Some(m)
        } else {
            None
        }
    }

    /// The trivial population of the layout: qubit i assigned to site i, for
    /// each site i with at least one single-, two- or three-qubit gate time.
    pub fn trivial_mapping(&self) -> (r: Vec<(usize, usize)>)
        ensures
            crate::mapping::spec_qmap_wf(r@),
            forall|q: usize| #![auto]
                crate::mapping::spec_qmap_get(r@, q) == if spec_site_used_st3(*self, q) {
                    Some(q)
                } else {
                    None::<usize>
                },
            forall|j: int| 0 <= j < r@.len() ==> (#[trigger] r@[j]).1 == r@[j].0,
            r@.len() == spec_used_count_st3(*self, spec_st3_bound(*self)),
    {
        let mut out: Vec<(usize, usize)> = Vec::new();
        let max_opt = self.max_site_st3();
        match max_opt {
            None => {
                proof {
                    assert forall|q: usize| !spec_site_used_st3(*self, q) by {
                        if spec_site_used_st3(*self, q) {
                            lemma_used_st3_below_bound(*self, q);
                        }
                    }
                    assert(out@.len() == 0);
                }
                out
            },
            Some(maxs) => {
                let mut i: usize = 0;
                loop
                    invariant_except_break
                        i <= maxs,
                        maxs as int + 1 == spec_st3_bound(*self),
                        out@.len() == spec_used_count_st3(*self, i as int),
                        forall|j1: int, j2: int|
                            0 <= j1 < j2 < out@.len() ==> out@[j1].0 < out@[j2].0,
                        forall|j: int|
                            0 <= j < out@.len() ==> (#[trigger] out@[j]).0 < i && out@[j].1
                                == out@[j].0,
                        forall|q: usize| #![auto]
                            q < i ==> crate::mapping::spec_qmap_get(out@, q) == (
                            if spec_site_used_st3(*self, q) {
                                Some(q)
                            } else {
                                None::<usize>
                            }),
                    ensures
                        out@.len() == spec_used_count_st3(*self, spec_st3_bound(*self)),
                        forall|j1: int, j2: int|
                            0 <= j1 < j2 < out@.len() ==> out@[j1].0 < out@[j2].0,
                        forall|j: int|
                            0 <= j < out@.len() ==> (#[trigger] out@[j]).0 <= maxs && out@[j].1
                                == out@[j].0,
                        forall|q: usize| #![auto]
                            q <= maxs ==> crate::mapping::spec_qmap_get(out@, q) == (
                            if spec_site_used_st3(*self, q) {
                                Some(q)
                            } else {
                                None::<usize>
                            }),
                    decreases maxs - i,
                {
                    let used = self.site_used_st3(i);
                    let ghost out_old = out@;
                    if used {
                        out.push((i, i));
                        proof {
                            assert(out@.drop_last() =~= out_old);
                            assert(out@.last() == (i, i));
                            assert(crate::mapping::spec_qmap_get(out@, i) == Some(i));
                        }
                    } else {
                        proof {
                            assert forall|j: int|
                                0 <= j < out@.len() implies (#[trigger] out@[j]).0 != i by {}
                            crate::mapping::lemma_qmap_get_none_iff(out@, i);
                            assert(crate::mapping::spec_qmap_get(out@, i) is None);
                        }
                    }
                    proof {
                        assert(spec_used_count_st3(*self, i as int + 1) == spec_used_count_st3(
                            *self,
                            i as int,
                        ) + if spec_site_used_st3(*self, i) {
                            1nat
                        } else {
                            0nat
                        });
                        assert forall|q: usize| #![auto]
                            q < i + 1 implies crate::mapping::spec_qmap_get(out@, q) == (
                        if spec_site_used_st3(*self, q) {
                            Some(q)
                        } else {
                            None::<usize>
                        }) by {
                            if q < i && used {
                                assert(out@.drop_last() =~= out_old);
                                assert(crate::mapping::spec_qmap_get(out@, q)
                                    == crate::mapping::spec_qmap_get(out_old, q));
                            }
                        }
                        assert(out@.len() == spec_used_count_st3(*self, i as int + 1));
                        assert forall|j: int|
                            0 <= j < out@.len() implies (#[trigger] out@[j]).0 < i + 1 && out@[j].1
                                == out@[j].0 by {
                            if used && j < out@.len() - 1 {
                                assert(out@[j] == out_old[j]);
                            }
                        }
                        assert forall|j1: int, j2: int|
                            0 <= j1 < j2 < out@.len() implies out@[j1].0 < out@[j2].0 by {
                            if used && j2 == out@.len() - 1 {
                                assert(out@[j1] == out_old[j1]);
                            }
                        }
                    }
                    if i == maxs {
                        break ;
                    }
                    i += 1;
                }
                proof {
                    assert forall|q: usize| #![auto]
                        crate::mapping::spec_qmap_get(out@, q) == (if spec_site_used_st3(
                        *self,
                        q,
                    ) {
                        Some(q)
                    } else {
                        None::<usize>
                    }) by {
                        if q > maxs {
                            if spec_site_used_st3(*self, q) {
                                lemma_used_st3_below_bound(*self, q);
                            }
                            assert forall|j: int|
                                0 <= j < out@.len() implies (#[trigger] out@[j]).0 != q by {}
                            crate::mapping::lemma_qmap_get_none_iff(out@, q);
                        }
                    }
                    assert forall|j1: int, j2: int|
                        0 <= j1 < j2 < out@.len() implies out@[j1].0 != out@[j2].0 && out@[j1].1
                            != out@[j2].1 by {
                        assert(out@[j1].0 < out@[j2].0);
                        assert(out@[j1].1 == out@[j1].0 && out@[j2].1 == out@[j2].0);
                    }
                }
                out
            },
        }
    }

    /// The allowed shift paths out of a tweezer, if any were recorded.
    pub fn allowed_shifts_at(&self, t: usize) -> (r: Option<&Vec<Vec<usize>>>)
        ensures
            match r {
                Some(v) => spec_shifts_at(self.shifts@, t) == Some(v.deep_view()),
                None => spec_shifts_at(self.shifts@, t) is None,
            },
    {
        let mut i: usize = self.shifts.len();
        proof {
            assert(self.shifts@.take(i as int) =~= self.shifts@);
        }
        while i > 0
            invariant
                i <= self.shifts@.len(),
                spec_shifts_at(self.shifts@, t) == spec_shifts_at(self.shifts@.take(i as int), t),
            decreases i,
        {
            proof {
                assert(self.shifts@.take(i as int).last() == self.shifts@[i - 1]);
                assert(self.shifts@.take(i as int).drop_last() =~= self.shifts@.take(i as int - 1));
            }
            if self.shifts[i - 1].tweezer == t {
                return Some(&self.shifts[i - 1].shifts);
            }
            i -= 1;
        }
        proof {
            assert(self.shifts@.take(0) =~= Seq::<ShiftEntry>::empty());
        }
        None
    }

    /// Merges new allowed shift paths into a tweezer's recorded paths,
    /// skipping paths that are already recorded; the table keeps one record
    /// per origin.
    #[verifier::rlimit(50)]
    pub fn merge_allowed_shifts(&mut self, t: usize, new_paths: &Vec<Vec<usize>>)
        ensures
            final(self).shifts@.len() == spec_shifts_without(old(self).shifts@, t).len() + 1,
            final(self).shifts@.drop_last() == spec_shifts_without(old(self).shifts@, t),
            final(self).shifts@.last().tweezer == t,
            spec_shifts_at(final(self).shifts@, t) == Some(
                final(self).shifts@.last().shifts.deep_view(),
            ),
            forall|p: Seq<usize>| #![trigger final(self).shifts@.last().shifts.deep_view().contains(p)]
                final(self).shifts@.last().shifts.deep_view().contains(p) <==> ((
                spec_shifts_at(old(self).shifts@, t) matches Some(m0) && m0.contains(p))
                    || new_paths.deep_view().contains(p)),
            forall|t2: usize|
                t2 != t ==> spec_shifts_at(final(self).shifts@, t2) == spec_shifts_at(
                    old(self).shifts@,
                    t2,
                ),
            final(self).single == old(self).single,
            final(self).two == old(self).two,
            final(self).three == old(self).three,
            final(self).multi == old(self).multi,
            final(self).per_row == old(self).per_row,
    {
        let ghost base: Seq<Seq<usize>> = match spec_shifts_at(self.shifts@, t) {
            Some(m0) => m0,
            None => Seq::empty(),
        };
        let mut combined: Vec<Vec<usize>> = Vec::new();
        let existing = self.allowed_shifts_at(t);
        match existing {
            Some(ex) => {
                let mut i: usize = 0;
                proof {
                    assert(combined.deep_view() =~= base.take(0));
                }
                while i < ex.len()
                    invariant
                        i <= ex@.len(),
                        ex.deep_view() == base,
                        combined.deep_view() == base.take(i as int),
                    decreases ex@.len() - i,
                {
                    proof {
                        assert(combined.deep_view().len() == combined@.len());
                        assert(base.len() == ex@.len());
                        assert(combined@.len() == i);
                    }
                    let path = vstd::slice::slice_to_vec(ex[i].as_slice());
                    combined.push(path);
                    proof {
                        assert(combined.deep_view() =~~= base.take(i as int + 1));
                    }
                    i += 1;
                }
                proof {
                    assert(base.take(base.len() as int) =~= base);
                }
            },
            None => {
                proof {
                    assert(combined.deep_view() =~= base);
                }
            },
        }
        let mut i: usize = 0;
        proof {
            assert(new_paths.deep_view().take(0) =~= Seq::<Seq<usize>>::empty());
        }
        while i < new_paths.len()
            invariant
                i <= new_paths@.len(),
                forall|p: Seq<usize>| #![trigger combined.deep_view().contains(p)]
                    combined.deep_view().contains(p) <==> (base.contains(p)
                        || new_paths.deep_view().take(i as int).contains(p)),
            decreases new_paths@.len() - i,
        {
            let ghost cd = combined.deep_view();
            let ghost nd = new_paths.deep_view();
            proof {
                assert(cd.len() == combined@.len());
                assert(nd.len() == new_paths@.len());
                assert(nd[i as int] == new_paths@[i as int].deep_view());
                assert(new_paths@[i as int].deep_view() =~= new_paths@[i as int]@);
            }
            let hit = contains_path(&combined, new_paths[i].as_slice());
            if !hit {
                let path = vstd::slice::slice_to_vec(new_paths[i].as_slice());
                combined.push(path);
                proof {
                    assert(combined.deep_view() =~~= cd.push(nd[i as int]));
                }
            }
            proof {
                assert forall|p: Seq<usize>| #![trigger combined.deep_view().contains(p)]
                    combined.deep_view().contains(p) <==> (base.contains(p) || nd.take(
                        i as int + 1,
                    ).contains(p)) by {
                    assert(cd.contains(p) <==> (base.contains(p) || nd.take(
                        i as int,
                    ).contains(p)));
                    lemma_contains_push(cd, nd[i as int], p);
                    lemma_contains_push(nd.take(i as int), nd[i as int], p);
                    assert(nd.take(i as int + 1) =~= nd.take(i as int).push(nd[i as int]));
                    assert(nd.take(i as int + 1).contains(p) <==> (nd.take(i as int).contains(p)
                        || p == nd[i as int]));
                    if hit && p == nd[i as int] {
                        assert(cd.contains(p));
                    }
                    if hit == false {
                        assert(combined.deep_view() == cd.push(nd[i as int]));
                        assert(combined.deep_view().contains(p) <==> (cd.contains(p) || p == nd[i as int]));
                    }
                }
            }
            i += 1;
        }
        proof {
            assert(new_paths.deep_view().take(new_paths.deep_view().len() as int)
                =~= new_paths.deep_view());
        }
        let ghost shifts_old = self.shifts@;
        self.remove_shifts_at(t);
        let ghost filtered = self.shifts@;
        self.shifts.push(ShiftEntry { tweezer: t, shifts: combined });
        proof {
            assert(self.shifts@.last().tweezer == t);
            assert(self.shifts@.drop_last() =~= filtered);
            assert forall|t2: usize|
                t2 != t implies spec_shifts_at(self.shifts@, t2) == spec_shifts_at(
                shifts_old,
                t2,
            ) by {
                lemma_shifts_without_at(shifts_old, t, t2);
            }
        }
    }

    /// Removes any recorded shift paths for an origin.
    fn remove_shifts_at(&mut self, t: usize)
        ensures
            final(self).shifts@ == spec_shifts_without(old(self).shifts@, t),
            final(self).single == old(self).single,
            final(self).two == old(self).two,
            final(self).three == old(self).three,
            final(self).multi == old(self).multi,
            final(self).per_row == old(self).per_row,
    {
        let ghost shifts_old = self.shifts@;
        let ghost spred = shift_key_other(t);
        let mut i: usize = self.shifts.len();
        proof {
            reveal_with_fuel(Seq::filter, 2);
            assert(shifts_old.skip(i as int).filter(spred) =~= Seq::<ShiftEntry>::empty());
            assert(self.shifts@ =~= shifts_old.take(i as int) + shifts_old.skip(i as int).filter(
                spred,
            ));
        }
        while i > 0
            invariant
                spred == shift_key_other(t),
                i <= shifts_old.len(),
                self.shifts@ == shifts_old.take(i as int) + shifts_old.skip(i as int).filter(
                    spred,
                ),
                self.single == old(self).single,
                self.two == old(self).two,
                self.three == old(self).three,
                self.multi == old(self).multi,
                self.per_row == old(self).per_row,
            decreases i,
        {
            i -= 1;
            proof {
                reveal_with_fuel(Seq::filter, 2);
                assert(self.shifts@[i as int] == shifts_old[i as int]);
                assert(shifts_old.skip(i as int) =~= seq![shifts_old[i as int]]
                    + shifts_old.skip(i as int + 1));
                Seq::filter_distributes_over_add(
                    seq![shifts_old[i as int]],
                    shifts_old.skip(i as int + 1),
                    spred,
                );
                assert(seq![shifts_old[i as int]].drop_last() =~= Seq::<ShiftEntry>::empty());
            }
            if self.shifts[i].tweezer == t {
                proof {
                    assert(!spred(shifts_old[i as int]));
                    assert(seq![shifts_old[i as int]].filter(spred)
                        =~= Seq::<ShiftEntry>::empty());
                }
                self.shifts.remove(i);
                proof {
                    assert(self.shifts@ =~= shifts_old.take(i as int) + shifts_old.skip(
                        i as int,
                    ).filter(spred));
                }
            } else {
                proof {
                    assert(spred(shifts_old[i as int]));
                    assert(seq![shifts_old[i as int]].filter(spred)
                        =~= seq![shifts_old[i as int]]);
                    assert(self.shifts@ =~= shifts_old.take(i as int) + shifts_old.skip(
                        i as int,
                    ).filter(spred));
                }
            }
        }
        proof {
            assert(shifts_old.take(0) =~= Seq::<ShiftEntry>::empty());
            assert(shifts_old.skip(0) =~= shifts_old);
            assert(self.shifts@ =~= spec_shifts_without(shifts_old, t));
        }
    }

    /// How many distinct sites have at least one gate time recorded in any
    /// table of the layout.
    pub fn count_used_sites(&self) -> (r: usize)
        ensures
            r == spec_used_count_all(*self, spec_all_bound(*self)),
    {
        let st3 = self.max_site_st3();
        let mut has: bool = false;
        let mut m: usize = 0;
        match st3 {
            Some(ms) => {
                has = true;
                m = ms;
            },
            None => {
            },
        }
        let ghost bst3 = spec_st3_bound(*self);
        proof {
            assert((if has { m as int + 1 } else { 0int }) == bst3);
            assert(self.multi@.take(0) =~= Seq::<MultiEntry>::empty());
        }
        let mut i: usize = 0;
        while i < self.multi.len()
            invariant
                i <= self.multi@.len(),
                (if has { m as int + 1 } else { 0int }) == if bst3 > spec_bound_multi(
                    self.multi@.take(i as int),
                ) {
                    bst3
                } else {
                    spec_bound_multi(self.multi@.take(i as int))
                },
            decreases self.multi@.len() - i,
        {
            proof {
                assert(self.multi@.take(i as int + 1).last() == self.multi@[i as int]);
                assert(self.multi@.take(i as int + 1).drop_last() =~= self.multi@.take(i as int));
            }
            let ts = &self.multi[i].tweezers;
            let mut k: usize = 0;
            proof {
                assert(ts@.take(0) =~= Seq::<usize>::empty());
            }
            let ghost before = if has {
                m as int + 1
            } else {
                0int
            };
            while k < ts.len()
                invariant
                    k <= ts@.len(),
                    (if has { m as int + 1 } else { 0int }) == if before > spec_bound_usizes(
                        ts@.take(k as int),
                    ) {
                        before
                    } else {
                        spec_bound_usizes(ts@.take(k as int))
                    },
                decreases ts@.len() - k,
            {
                proof {
                    assert(ts@.take(k as int + 1).last() == ts@[k as int]);
                    assert(ts@.take(k as int + 1).drop_last() =~= ts@.take(k as int));
                }
                let c = ts[k];
                if has == false || c > m {
                    m = c;
                    has = true;
                }
                k += 1;
            }
            proof {
                assert(ts@.take(ts@.len() as int) =~= ts@);
            }
            i += 1;
        }
        proof {
            assert(self.multi@.take(self.multi@.len() as int) =~= self.multi@);
            assert((if has { m as int + 1 } else { 0int }) == spec_all_bound(*self));
        }
        if has == false {
            proof {
                assert(spec_used_count_all(*self, spec_all_bound(*self)) == 0);
            }
            return 0;
        }
        let maxs = m;
        let mut out: Vec<usize> = Vec::new();
        let mut i: usize = 0;
        loop
            invariant_except_break
                i <= maxs,
                maxs as int + 1 == spec_all_bound(*self),
                out@.len() == spec_used_count_all(*self, i as int),
            ensures
                out@.len() == spec_used_count_all(*self, spec_all_bound(*self)),
            decreases maxs - i,
        {
            if self.site_used(i) {
                out.push(i);
            }
            proof {
                assert(spec_used_count_all(*self, i as int + 1) == spec_used_count_all(
                    *self,
                    i as int,
                ) + if spec_site_used(*self, i) {
                    1nat
                } else {
                    0nat
                });
            }
            if i == maxs {
                break ;
            }
            i += 1;
        }
        out.len()
    }
}


/// Whether any two-qubit gate time is recorded for a site pair, in either
/// orientation.
pub open spec fn spec_site_edge(info: TweezerLayoutInfo, s0: usize, s1: usize) -> bool {
    exists|i: int|
        0 <= i < info.two@.len() && ((info.two@[i].tweezer0 == s0 && info.two@[i].tweezer1 == s1)
            || (info.two@[i].tweezer0 == s1 && info.two@[i].tweezer1 == s0))
}

impl TweezerLayoutInfo {
    /// Whether any two-qubit gate time is recorded for a site pair, in either
    /// orientation.
    pub fn site_edge(&self, s0: usize, s1: usize) -> (r: bool)
        ensures
            r == spec_site_edge(*self, s0, s1),
    {
        let mut i: usize = 0;
        while i < self.two.len()
            invariant
                i <= self.two@.len(),
                forall|j: int|
                    0 <= j < i ==> !((self.two@[j].tweezer0 == s0 && self.two@[j].tweezer1 == s1)
                        || (self.two@[j].tweezer0 == s1 && self.two@[j].tweezer1 == s0)),
            decreases self.two@.len() - i,
        {
            let e = self.two[i];
            if (e.tweezer0 == s0 && e.tweezer1 == s1) || (e.tweezer0 == s1 && e.tweezer1 == s0) {
                proof {
                    assert((self.two@[i as int].tweezer0 == s0 && self.two@[i as int].tweezer1
                        == s1) || (self.two@[i as int].tweezer0 == s1 && self.two@[
                    i as int].tweezer1 == s0));
                }
                return true;
            }
            i += 1;
        }
        false
    }
}


/// Whether a single-qubit gate has any recorded time in the layout.
pub open spec fn spec_has_single(info: TweezerLayoutInfo, g: SingleQubitGate) -> bool {
    exists|i: int| 0 <= i < info.single@.len() && info.single@[i].gate == g
}

/// Whether a two-qubit gate has any recorded time in the layout.
pub open spec fn spec_has_two(info: TweezerLayoutInfo, g: TwoQubitGate) -> bool {
    exists|i: int| 0 <= i < info.two@.len() && info.two@[i].gate == g
}

/// Whether a three-qubit gate has any recorded time in the layout.
pub open spec fn spec_has_three(info: TweezerLayoutInfo, g: ThreeQubitGate) -> bool {
    exists|i: int| 0 <= i < info.three@.len() && info.three@[i].gate == g
}

/// Whether a multi-qubit gate has any recorded time in the layout.
pub open spec fn spec_has_multi(info: TweezerLayoutInfo, g: MultiQubitGate) -> bool {
    exists|i: int| 0 <= i < info.multi@.len() && info.multi@[i].gate == g
}

/// The name of a gate as a one-element list when that gate has a recorded
/// time, and an empty list otherwise.
pub open spec fn spec_name_if_single(info: TweezerLayoutInfo, g: SingleQubitGate) -> Seq<
    Seq<char>,
> {
    if spec_has_single(info, g) {
        seq![crate::gates::spec_single_gate_name(g)]
    } else {
        Seq::empty()
    }
}

/// The name of a two-qubit gate as a conditional one-element list.
pub open spec fn spec_name_if_two(info: TweezerLayoutInfo, g: TwoQubitGate) -> Seq<Seq<char>> {
    if spec_has_two(info, g) {
        seq![crate::gates::spec_two_gate_name(g)]
    } else {
        Seq::empty()
    }
}

/// The name of a three-qubit gate as a conditional one-element list.
pub open spec fn spec_name_if_three(info: TweezerLayoutInfo, g: ThreeQubitGate) -> Seq<Seq<char>> {
    if spec_has_three(info, g) {
        seq![crate::gates::spec_three_gate_name(g)]
    } else {
        Seq::empty()
    }
}

/// The name of a multi-qubit gate as a conditional one-element list.
pub open spec fn spec_name_if_multi(info: TweezerLayoutInfo, g: MultiQubitGate) -> Seq<Seq<char>> {
    if spec_has_multi(info, g) {
        seq![crate::gates::spec_multi_gate_name(g)]
    } else {
        Seq::empty()
    }
}

/// The names of all gates with a recorded time in the layout, by arity, in
/// the fixed order of the native gate sets.
pub open spec fn spec_gate_names(info: TweezerLayoutInfo) -> Seq<Seq<char>> {
    spec_name_if_single(info, SingleQubitGate::PhaseShiftState1) + spec_name_if_single(
        info,
        SingleQubitGate::RotateX,
    ) + spec_name_if_single(info, SingleQubitGate::RotateY) + spec_name_if_single(
        info,
        SingleQubitGate::RotateZ,
    ) + spec_name_if_single(info, SingleQubitGate::RotateXY) + spec_name_if_single(
        info,
        SingleQubitGate::PauliX,
    ) + spec_name_if_single(info, SingleQubitGate::PauliY) + spec_name_if_single(
        info,
        SingleQubitGate::PauliZ,
    ) + spec_name_if_single(info, SingleQubitGate::SqrtPauliX) + spec_name_if_single(
        info,
        SingleQubitGate::InvSqrtPauliX,
    ) + spec_name_if_two(info, TwoQubitGate::PhaseShiftedControlledZ) + spec_name_if_two(
        info,
        TwoQubitGate::PhaseShiftedControlledPhase,
    ) + spec_name_if_two(info, TwoQubitGate::CNOT) + spec_name_if_three(
        info,
        ThreeQubitGate::ControlledControlledPauliZ,
    ) + spec_name_if_three(info, ThreeQubitGate::ControlledControlledPhaseShift)
        + spec_name_if_multi(info, MultiQubitGate::MultiQubitZZ)
}

impl TweezerLayoutInfo {
    /// Whether a single-qubit gate has any recorded time.
    pub fn has_single_gate(&self, g: SingleQubitGate) -> (r: bool)
        ensures
            r == spec_has_single(*self, g),
    {
        let mut i: usize = 0;
        while i < self.single.len()
            invariant
                i <= self.single@.len(),
                forall|j: int| 0 <= j < i ==> self.single@[j].gate != g,
            decreases self.single@.len() - i,
        {
            if self.single[i].gate == g {
                proof {
                    assert(self.single@[i as int].gate == g);
                }
                return true;
            }
            i += 1;
        }
        false
    }

    /// Whether a two-qubit gate has any recorded time.
    pub fn has_two_gate(&self, g: TwoQubitGate) -> (r: bool)
        ensures
            r == spec_has_two(*self, g),
    {
        let mut i: usize = 0;
        while i < self.two.len()
            invariant
                i <= self.two@.len(),
                forall|j: int| 0 <= j < i ==> self.two@[j].gate != g,
            decreases self.two@.len() - i,
        {
            if self.two[i].gate == g {
                proof {
                    assert(self.two@[i as int].gate == g);
                }
                return true;
            }
            i += 1;
        }
        false
    }

    /// Whether a three-qubit gate has any recorded time.
    pub fn has_three_gate(&self, g: ThreeQubitGate) -> (r: bool)
        ensures
            r == spec_has_three(*self, g),
    {
        let mut i: usize = 0;
        while i < self.three.len()
            invariant
                i <= self.three@.len(),
                forall|j: int| 0 <= j < i ==> self.three@[j].gate != g,
            decreases self.three@.len() - i,
        {
            if self.three[i].gate == g {
                proof {
                    assert(self.three@[i as int].gate == g);
                }
                return true;
            }
            i += 1;
        }
        false
    }

    /// Whether a multi-qubit gate has any recorded time.
    pub fn has_multi_gate(&self, g: MultiQubitGate) -> (r: bool)
        ensures
            r == spec_has_multi(*self, g),
    {
        let mut i: usize = 0;
        while i < self.multi.len()
            invariant
                i <= self.multi@.len(),
                forall|j: int| 0 <= j < i ==> self.multi@[j].gate != g,
            decreases self.multi@.len() - i,
        {
            if self.multi[i].gate == g {
                proof {
                    assert(self.multi@[i as int].gate == g);
                }
                return true;
            }
            i += 1;
        }
        false
    }

    /// Appends a gate's name when it has a recorded time.
    fn push_if_single(&self, out: &mut Vec<String>, g: SingleQubitGate)
        ensures
            final(out).deep_view() == old(out).deep_view() + spec_name_if_single(*self, g),
    {
        let ghost a = out.deep_view();
        if self.has_single_gate(g) {
            out.push(crate::gates::single_gate_name(g));
        }
        proof {
            assert(out.deep_view() =~= a + spec_name_if_single(*self, g));
        }
    }

    /// Appends a gate's name when it has a recorded time.
    fn push_if_two(&self, out: &mut Vec<String>, g: TwoQubitGate)
        ensures
            final(out).deep_view() == old(out).deep_view() + spec_name_if_two(*self, g),
    {
        let ghost a = out.deep_view();
        if self.has_two_gate(g) {
            out.push(crate::gates::two_gate_name(g));
        }
        proof {
            assert(out.deep_view() =~= a + spec_name_if_two(*self, g));
        }
    }

    /// Appends a gate's name when it has a recorded time.
    fn push_if_three(&self, out: &mut Vec<String>, g: ThreeQubitGate)
        ensures
            final(out).deep_view() == old(out).deep_view() + spec_name_if_three(*self, g),
    {
        let ghost a = out.deep_view();
        if self.has_three_gate(g) {
            out.push(crate::gates::three_gate_name(g));
        }
        proof {
            assert(out.deep_view() =~= a + spec_name_if_three(*self, g));
        }
    }

    /// Appends a gate's name when it has a recorded time.
    fn push_if_multi(&self, out: &mut Vec<String>, g: MultiQubitGate)
        ensures
            final(out).deep_view() == old(out).deep_view() + spec_name_if_multi(*self, g),
    {
        let ghost a = out.deep_view();
        if self.has_multi_gate(g) {
            out.push(crate::gates::multi_gate_name(g));
        }
        proof {
            assert(out.deep_view() =~= a + spec_name_if_multi(*self, g));
        }
    }

    /// The names of all gates with a recorded time, by arity, in the fixed
    /// order of the native gate sets.
    pub fn gate_names(&self) -> (r: Vec<String>)
        ensures
            r.deep_view() == spec_gate_names(*self),
    {
        let mut out: Vec<String> = Vec::new();
        proof {
            assert(out.deep_view() =~= Seq::<Seq<char>>::empty());
        }
        self.push_if_single(&mut out, SingleQubitGate::PhaseShiftState1);
        proof {
            assert(Seq::<Seq<char>>::empty() + spec_name_if_single(
                *self,
                SingleQubitGate::PhaseShiftState1,
            ) =~= spec_name_if_single(*self, SingleQubitGate::PhaseShiftState1));
        }
        self.push_if_single(&mut out, SingleQubitGate::RotateX);
        self.push_if_single(&mut out, SingleQubitGate::RotateY);
        self.push_if_single(&mut out, SingleQubitGate::RotateZ);
        self.push_if_single(&mut out, SingleQubitGate::RotateXY);
        self.push_if_single(&mut out, SingleQubitGate::PauliX);
        self.push_if_single(&mut out, SingleQubitGate::PauliY);
        self.push_if_single(&mut out, SingleQubitGate::PauliZ);
        self.push_if_single(&mut out, SingleQubitGate::SqrtPauliX);
        self.push_if_single(&mut out, SingleQubitGate::InvSqrtPauliX);
        self.push_if_two(&mut out, TwoQubitGate::PhaseShiftedControlledZ);
        self.push_if_two(&mut out, TwoQubitGate::PhaseShiftedControlledPhase);
        self.push_if_two(&mut out, TwoQubitGate::CNOT);
        self.push_if_three(&mut out, ThreeQubitGate::ControlledControlledPauliZ);
        self.push_if_three(&mut out, ThreeQubitGate::ControlledControlledPhaseShift);
        self.push_if_multi(&mut out, MultiQubitGate::MultiQubitZZ);
        out
    }
}

} // verus!
