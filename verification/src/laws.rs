//! Device-wide laws, stated and proved over the model.
//!
//! Each law here relates several operations of the device; laws that concern
//! a single operation are stated directly in that operation's contract, such
//! as the trivial-population recomputation of `switch_layout`, the
//! all-or-nothing behaviour of `change_device`, and the phase-gated
//! availability of the controlled gates. The round-trip laws of the
//! reconfiguration payloads stand beside their codecs in the module that
//! defines the wire format.

use crate::device::TweezerDevice;
use crate::device::spec_layout_at;
use crate::device::spec_multi_qubit_gate_time;
use crate::device::spec_single_qubit_gate_time;
use crate::device::spec_three_qubit_gate_time;
use crate::device::spec_two_qubit_gate_time;
use crate::gates::MultiQubitGate;
use crate::gates::SingleQubitGate;
use crate::gates::ThreeQubitGate;
use crate::gates::TwoQubitGate;
use crate::layout::MultiEntry;
use crate::layout::SingleEntry;
use crate::layout::ThreeEntry;
use crate::layout::TwoEntry;
use crate::mapping::lemma_qmap_get_is_entry;
use crate::mapping::lemma_qmap_without_get;
use crate::mapping::spec_qmap_get;
use crate::mapping::spec_qmap_without;
use vstd::prelude::*;

verus! {

/// Mapping injectivity: on a well-formed device, no two distinct qubits are
/// ever assigned to the same tweezer. Every mutator of the assignment
/// guarantees well-formedness in its contract, so this holds after any
/// sequence of successful calls.
pub proof fn lemma_mapping_injective(d: TweezerDevice, q1: usize, q2: usize)
    requires
        d.wf(),
        q1 != q2,
        spec_qmap_get(d.spec_qmap(), q1) is Some,
        spec_qmap_get(d.spec_qmap(), q2) is Some,
    ensures
        spec_qmap_get(d.spec_qmap(), q1) != spec_qmap_get(d.spec_qmap(), q2),
{
    let m = d.spec_qmap();
    lemma_qmap_get_is_entry(m, q1);
    lemma_qmap_get_is_entry(m, q2);
    let t1 = spec_qmap_get(m, q1)->Some_0;
    let t2 = spec_qmap_get(m, q2)->Some_0;
    let i = choose|i: int| 0 <= i < m.len() && m[i] == (q1, t1);
    let j = choose|j: int| 0 <= j < m.len() && m[j] == (q2, t2);
    assert(i != j);
    assert(m[i].1 != m[j].1);
}

/// Layout isolation: when two devices differ only in the layout registered
/// under one name, agree on the current layout, which is another name, and
/// share the qubit assignment, then every gate-time query answers the same
/// on both. Recording a gate time under a layout name is therefore invisible
/// to queries made under any other layout.
pub proof fn lemma_layout_isolation(d0: TweezerDevice, d1: TweezerDevice, target: Seq<char>)
    requires
        forall|n2: Seq<char>|
            n2 != target ==> spec_layout_at(d1.layout_register@, n2) == spec_layout_at(
                d0.layout_register@,
                n2,
            ),
        d1.current_layout == d0.current_layout,
        match d1.current_layout {
            Some(c) => c@ != target,
            None => true,
        },
        d1.qubit_to_tweezer == d0.qubit_to_tweezer,
    ensures
        forall|name: Seq<char>, q: usize|
            spec_single_qubit_gate_time(d1, name, q) == #[trigger] spec_single_qubit_gate_time(
                d0,
                name,
                q,
            ),
        forall|name: Seq<char>, c: usize, t: usize|
            spec_two_qubit_gate_time(d1, name, c, t) == #[trigger] spec_two_qubit_gate_time(
                d0,
                name,
                c,
                t,
            ),
        forall|name: Seq<char>, c0: usize, c1: usize, t: usize|
            spec_three_qubit_gate_time(d1, name, c0, c1, t)
                == #[trigger] spec_three_qubit_gate_time(d0, name, c0, c1, t),
        forall|name: Seq<char>, qs: Seq<usize>|
            spec_multi_qubit_gate_time(d1, name, qs) == #[trigger] spec_multi_qubit_gate_time(
                d0,
                name,
                qs,
            ),
{
    assert(d1.spec_current_info() == d0.spec_current_info());
    assert(d1.spec_qmap() == d0.spec_qmap());
}

/// Deactivation idempotence: removing a qubit's assignment leaves no
/// assignment for it, so a second deactivation of the same qubit cannot
/// succeed: `deactivate_qubit` fails exactly on unassigned qubits.
pub proof fn lemma_deactivate_idempotent(d0: TweezerDevice, d1: TweezerDevice, q: usize)
    requires
        d1.spec_qmap() == spec_qmap_without(d0.spec_qmap(), q),
    ensures
        spec_qmap_get(d1.spec_qmap(), q) is None,
{
    lemma_qmap_without_get(d0.spec_qmap(), q, q);
}


/// Setter idempotence, single-qubit table: each table keeps one record per
/// key, so recording the identical entry a second time reproduces exactly
/// the state after the first recording.
pub proof fn lemma_single_set_idempotent(s: Seq<SingleEntry>, e: SingleEntry)
    ensures
        ({
            let once = crate::layout::spec_single_without(s, e.gate, e.tweezer).push(e);
            crate::layout::spec_single_without(once, e.gate, e.tweezer).push(e) == once
        }),
{
    reveal_with_fuel(Seq::filter, 2);
    let p = crate::layout::single_key_other(e.gate, e.tweezer);
    let w = s.filter(p);
    assert(w.push(e).drop_last() =~= w);
    assert(!p(e));
    assert(w.push(e).filter(p) == w.filter(p));
    assert forall|i: int| 0 <= i < w.len() implies p(#[trigger] w[i]) by {
        s.lemma_filter_pred(p, i);
    }
    crate::layout::lemma_filter_all_kept(w, p);
}

/// Setter idempotence, two-qubit table.
pub proof fn lemma_two_set_idempotent(s: Seq<TwoEntry>, e: TwoEntry)
    ensures
        ({
            let once = crate::layout::spec_two_without(s, e.gate, e.tweezer0, e.tweezer1).push(e);
            crate::layout::spec_two_without(once, e.gate, e.tweezer0, e.tweezer1).push(e) == once
        }),
{
    reveal_with_fuel(Seq::filter, 2);
    let p = crate::layout::two_key_other(e.gate, e.tweezer0, e.tweezer1);
    let w = s.filter(p);
    assert(w.push(e).drop_last() =~= w);
    assert(!p(e));
    assert(w.push(e).filter(p) == w.filter(p));
    assert forall|i: int| 0 <= i < w.len() implies p(#[trigger] w[i]) by {
        s.lemma_filter_pred(p, i);
    }
    crate::layout::lemma_filter_all_kept(w, p);
}

/// Setter idempotence, three-qubit table.
pub proof fn lemma_three_set_idempotent(s: Seq<ThreeEntry>, e: ThreeEntry)
    ensures
        ({
            let once = crate::layout::spec_three_without(
                s,
                e.gate,
                e.tweezer0,
                e.tweezer1,
                e.tweezer2,
            ).push(e);
            crate::layout::spec_three_without(
                once,
                e.gate,
                e.tweezer0,
                e.tweezer1,
                e.tweezer2,
            ).push(e) == once
        }),
{
    reveal_with_fuel(Seq::filter, 2);
    let p = crate::layout::three_key_other(e.gate, e.tweezer0, e.tweezer1, e.tweezer2);
    let w = s.filter(p);
    assert(w.push(e).drop_last() =~= w);
    assert(!p(e));
    assert(w.push(e).filter(p) == w.filter(p));
    assert forall|i: int| 0 <= i < w.len() implies p(#[trigger] w[i]) by {
        s.lemma_filter_pred(p, i);
    }
    crate::layout::lemma_filter_all_kept(w, p);
}

/// Setter idempotence, multi-qubit table, stated over the recorded tweezer
/// lists.
pub proof fn lemma_multi_set_idempotent(s: Seq<MultiEntry>, e: MultiEntry)
    ensures
        ({
            let once = crate::layout::spec_multi_without(s, e.gate, e.tweezers@).push(e);
            crate::layout::spec_multi_without(once, e.gate, e.tweezers@).push(e) == once
        }),
{
    reveal_with_fuel(Seq::filter, 2);
    let p = crate::layout::multi_key_other(e.gate, e.tweezers@);
    let w = s.filter(p);
    assert(w.push(e).drop_last() =~= w);
    assert(!p(e));
    assert(w.push(e).filter(p) == w.filter(p));
    assert forall|i: int| 0 <= i < w.len() implies p(#[trigger] w[i]) by {
        s.lemma_filter_pred(p, i);
    }
    crate::layout::lemma_filter_all_kept(w, p);
}

} // verus!
