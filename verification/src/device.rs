//! The tweezer device: a registry of named layouts, a current and a default
//! layout, a qubit-to-tweezer assignment, and calibration configuration.

use crate::error::QRydError;
use crate::gates::MultiQubitGate;
use crate::gates::SingleQubitGate;
use crate::gates::ThreeQubitGate;
use crate::gates::TwoQubitGate;
use crate::gates::spec_multi_gate_of;
use crate::gates::spec_single_gate_of;
use crate::gates::spec_three_gate_of;
use crate::gates::spec_two_gate_of;
use crate::gates::multi_gate_of;
use crate::gates::single_gate_of;
use crate::gates::three_gate_of;
use crate::gates::two_gate_of;
use crate::layout::SingleEntry;
use crate::layout::ThreeEntry;
use crate::layout::TweezerLayoutInfo;
use crate::layout::TwoEntry;
use crate::layout::spec_single_time;
use crate::layout::spec_three_time;
use crate::layout::spec_two_time;
use crate::layout::spec_multi_time;
use crate::mapping::spec_qmap_get;
use crate::mapping::spec_qmap_wf;
use vstd::prelude::*;

verus! {

/// Duration reported for the phase-shifted controlled gates, as the bit
/// pattern of a one-microsecond duration.
pub const CONTROLLED_GATE_TIME: u64 = 0x3EB0C6F7A0B5ED8D;

/// A tweezer device.
///
/// Gate times are opaque 64-bit payloads. The device starts with no layouts;
/// layouts are added by name and gate times, shifts and geometry are recorded
/// per layout. A qubit is usable only while it is assigned to a tweezer.
#[derive(Clone, Debug)]
pub struct TweezerDevice {
    /// The qubit-to-tweezer assignment; unset until a qubit is first mapped
    /// or a layout is switched in with remapping.
    pub qubit_to_tweezer: Option<Vec<(usize, usize)>>,
    /// The named layouts, in insertion order, with pairwise distinct names.
    pub layout_register: Vec<(String, TweezerLayoutInfo)>,
    /// The name of the layout in force, when one was chosen.
    pub current_layout: Option<String>,
    /// The name of the layout in force after reconstruction, when set.
    pub default_layout: Option<String>,
    /// The phase relation of the controlled-Z gate: a named relation or a
    /// numeric literal.
    pub controlled_z_phase_relation: String,
    /// The phase relation of the controlled-phase gate.
    pub controlled_phase_phase_relation: String,
    /// Whether qubit-reset operations are permitted.
    pub allow_reset: bool,
    /// The backend name.
    pub device_name: String,
    /// The optional seed for randomized backends.
    pub seed: Option<usize>,
}

/// The layout registered under a name: the last record wins, and the device
/// keeps names pairwise distinct.
pub open spec fn spec_layout_at(
    s: Seq<(String, TweezerLayoutInfo)>,
    name: Seq<char>,
) -> Option<TweezerLayoutInfo>
    decreases s.len(),
{
    if s.len() == 0 {
        None
    } else if s.last().0@ == name {
        Some(s.last().1)
    } else {
        spec_layout_at(s.drop_last(), name)
    }
}

impl TweezerDevice {
    /// The layout names are pairwise distinct, the current and default layout
    /// names are registered, and the qubit assignment is injective.
    pub open spec fn wf(self) -> bool {
        &&& (forall|i: int, j: int|
            0 <= i < j < self.layout_register@.len() ==> self.layout_register@[i].0@
                != self.layout_register@[j].0@)
        &&& (match self.current_layout {
            Some(n) => spec_layout_at(self.layout_register@, n@) is Some,
            None => true,
        })
        &&& (match self.default_layout {
            Some(n) => spec_layout_at(self.layout_register@, n@) is Some,
            None => true,
        })
        &&& (match self.qubit_to_tweezer {
            Some(m) => spec_qmap_wf(m@),
            None => true,
        })
    }

    /// The qubit assignment as a list, empty when unset.
    pub open spec fn spec_qmap(self) -> Seq<(usize, usize)> {
        match self.qubit_to_tweezer {
            Some(m) => m@,
            None => Seq::empty(),
        }
    }

    /// The layout currently in force, if one was chosen.
    pub open spec fn spec_current_info(self) -> Option<TweezerLayoutInfo> {
        match self.current_layout {
            Some(n) => spec_layout_at(self.layout_register@, n@),
            None => None,
        }
    }

    /// The layout a setter call addresses: the explicit name if given, else
    /// the current layout's name.
    pub open spec fn spec_target_name(self, layout_name: Option<String>) -> Option<Seq<char>> {
        match layout_name {
            Some(n) => Some(n@),
            None => match self.current_layout {
                Some(c) => Some(c@),
                None => None,
            },
        }
    }
}

/// Looking up a name after updating the entry of that name at its position.
pub proof fn lemma_layout_at_update(
    s: Seq<(String, TweezerLayoutInfo)>,
    i: int,
    e: (String, TweezerLayoutInfo),
    n: Seq<char>,
)
    requires
        forall|a: int, b: int| 0 <= a < b < s.len() ==> s[a].0@ != s[b].0@,
        0 <= i < s.len(),
        e.0@ == s[i].0@,
    ensures
        spec_layout_at(s.update(i, e), n) == if n == e.0@ {
            Some(e.1)
        } else {
            spec_layout_at(s, n)
        },
    decreases s.len(),
{
    let u = s.update(i, e);
    if i == s.len() - 1 {
        assert(u.last() == e);
        assert(u.drop_last() =~= s.drop_last());
    } else {
        assert(u.last() == s.last());
        assert(u.drop_last() =~= s.drop_last().update(i, e));
        assert(forall|a: int| 0 <= a < s.len() - 1 ==> s.drop_last()[a] == s[a]);
        lemma_layout_at_update(s.drop_last(), i, e, n);
        if n == e.0@ {
            assert(s.last().0@ != s[i].0@);
        }
    }
}

impl TweezerDevice {
    /// Creates a device with no layouts, no qubit assignment, and the given
    /// seed and phase relations; a missing relation defaults to the named
    /// relation "DefaultRelation".
    pub fn new(
        seed: Option<usize>,
        controlled_z_phase_relation: Option<String>,
        controlled_phase_phase_relation: Option<String>,
    ) -> (r: Self)
        ensures
            r.wf(),
            r.qubit_to_tweezer is None,
            r.layout_register@.len() == 0,
            r.current_layout is None,
            r.default_layout is None,
            r.controlled_z_phase_relation@ == (match controlled_z_phase_relation {
                Some(s) => s@,
                None => "DefaultRelation"@,
            }),
            r.controlled_phase_phase_relation@ == (match controlled_phase_phase_relation {
                Some(s) => s@,
                None => "DefaultRelation"@,
            }),
            !r.allow_reset,
            r.device_name@ == "qryd_tweezer_device"@,
            r.seed == seed,
    {
        let cz = match controlled_z_phase_relation {
            Some(s) => s,
            None => "DefaultRelation".to_owned(),
        };
        let cp = match controlled_phase_phase_relation {
            Some(s) => s,
            None => "DefaultRelation".to_owned(),
        };
        TweezerDevice {
            qubit_to_tweezer: None,
            layout_register: Vec::new(),
            current_layout: None,
            default_layout: None,
            controlled_z_phase_relation: cz,
            controlled_phase_phase_relation: cp,
            allow_reset: false,
            device_name: "qryd_tweezer_device".to_owned(),
            seed,
        }
    }

    /// The device's seed.
    pub fn seed(&self) -> (r: Option<usize>)
        ensures
            r == self.seed,
    {
        self.seed
    }

    /// The backend name of the device.
    pub fn qrydbackend(&self) -> (r: String)
        ensures
            r@ == self.device_name@,
    {
        self.device_name.clone()
    }

    /// Permits or forbids qubit-reset operations.
    pub fn set_allow_reset(&mut self, allow_reset: bool) -> (r: Result<(), QRydError>)
        requires
            old(self).wf(),
        ensures
            final(self).wf(),
            r is Ok,
            *final(self) == (TweezerDevice { allow_reset, ..*old(self) }),
    {
        self.allow_reset = allow_reset;
        Ok(())
    }

    /// The position of the layout registered under a name, if any.
    fn find_layout(&self, name: &str) -> (r: Option<usize>)
        ensures
            match r {
                Some(i) => i < self.layout_register@.len()
                    && self.layout_register@[i as int].0@ == name@
                    && spec_layout_at(self.layout_register@, name@) == Some(
                    self.layout_register@[i as int].1,
                ),
                None => spec_layout_at(self.layout_register@, name@) is None,
            },
    {
        let mut i: usize = self.layout_register.len();
        proof {
            assert(self.layout_register@.take(i as int) =~= self.layout_register@);
        }
        while i > 0
            invariant
                i <= self.layout_register@.len(),
                spec_layout_at(self.layout_register@, name@) == spec_layout_at(
                    self.layout_register@.take(i as int),
                    name@,
                ),
            decreases i,
        {
            proof {
                assert(self.layout_register@.take(i as int).last()
                    == self.layout_register@[i - 1]);
                assert(self.layout_register@.take(i as int).drop_last()
                    =~= self.layout_register@.take(i as int - 1));
            }
            if crate::strutil::str_eq(self.layout_register[i - 1].0.as_str(), name) {
                return Some(i - 1);
            }
            i -= 1;
        }
        proof {
            assert(self.layout_register@.take(0) =~= Seq::<(String, TweezerLayoutInfo)>::empty());
        }
        None
    }

    /// Registers a new empty layout under a name; fails when the name is
    /// already registered, leaving the device unchanged.
    pub fn add_layout(&mut self, name: &str) -> (r: Result<(), QRydError>)
        requires
            old(self).wf(),
        ensures
            final(self).wf(),
            r is Ok <==> spec_layout_at(old(self).layout_register@, name@) is None,
            r is Err ==> *final(self) == *old(self) && r == Err::<(), QRydError>(
                QRydError::DuplicateLayout,
            ),
            r is Ok ==> {
                &&& final(self).layout_register@.len() == old(self).layout_register@.len() + 1
                &&& (spec_layout_at(final(self).layout_register@, name@) matches Some(info)
                    && info.single@.len() == 0 && info.two@.len() == 0 && info.three@.len() == 0
                    && info.multi@.len() == 0 && info.shifts@.len() == 0 && info.per_row is None)
                &&& forall|n2: Seq<char>|
                    n2 != name@ ==> spec_layout_at(final(self).layout_register@, n2)
                        == spec_layout_at(old(self).layout_register@, n2)
                &&& final(self).qubit_to_tweezer == old(self).qubit_to_tweezer
                &&& final(self).current_layout == old(self).current_layout
                &&& final(self).default_layout == old(self).default_layout
                &&& final(self).controlled_z_phase_relation
                    == old(self).controlled_z_phase_relation
                &&& final(self).controlled_phase_phase_relation == old(
                    self,
                ).controlled_phase_phase_relation
                &&& final(self).allow_reset == old(self).allow_reset
                &&& final(self).device_name == old(self).device_name
                &&& final(self).seed == old(self).seed
            },
    {
        match self.find_layout(name) {
            Some(_) => Err(QRydError::DuplicateLayout),
            None => {
                let ghost reg_old = self.layout_register@;
                proof {
                    crate::mapping::lemma_qmap_get_none_iff(Seq::empty(), 0);
                }
                self.layout_register.push((name.to_owned(), TweezerLayoutInfo::empty()));
                proof {
                    assert(self.layout_register@.drop_last() =~= reg_old);
                    assert(self.layout_register@.last().0@ == name@);
                    assert forall|i: int, j: int|
                        0 <= i < j < self.layout_register@.len() implies self.layout_register@[i].0@
                        != self.layout_register@[j].0@ by {
                        if j == self.layout_register@.len() - 1 && self.layout_register@[i].0@
                            == name@ {
                            assert(reg_old[i] == self.layout_register@[i]);
                            lemma_layout_at_present(reg_old, i, name@);
                        }
                    }
                    assert(spec_layout_at(self.layout_register@, name@) == Some(
                        self.layout_register@.last().1,
                    ));
                }
                Ok(())
            },
        }
    }

    /// The names of the registered layouts, in registration order.
    pub fn available_layouts(&self) -> (r: Vec<String>)
        ensures
            r@.len() == self.layout_register@.len(),
            forall|i: int|
                0 <= i < r@.len() ==> (#[trigger] r@[i])@ == self.layout_register@[i].0@,
    {
        let mut out: Vec<String> = Vec::new();
        let mut i: usize = 0;
        while i < self.layout_register.len()
            invariant
                i <= self.layout_register@.len(),
                out@.len() == i,
                forall|j: int|
                    0 <= j < i ==> (#[trigger] out@[j])@ == self.layout_register@[j].0@,
            decreases self.layout_register@.len() - i,
        {
            out.push(self.layout_register[i].0.clone());
            i += 1;
        }
        out
    }
}

impl TweezerDevice {
    /// Records the time of a single-qubit gate in the given layout, or in the
    /// current layout when no name is given. Fails with `UnknownGate` for a
    /// name outside the native whitelist, with `NoLayoutSet` when neither a
    /// layout name nor a current layout exists, and with `UnknownLayout` for
    /// an unregistered name; a failed call leaves the device unchanged.
    pub fn set_tweezer_single_qubit_gate_time(
        &mut self,
        hqslang: &str,
        tweezer: usize,
        gate_time: u64,
        layout_name: Option<String>,
    ) -> (r: Result<(), QRydError>)
        requires
            old(self).wf(),
        ensures
            final(self).wf(),
            r is Ok <==> (spec_single_gate_of(hqslang@) is Some && (old(self).spec_target_name(
                layout_name,
            ) matches Some(n) && spec_layout_at(old(self).layout_register@, n) is Some)),
            r is Err ==> *final(self) == *old(self),
            spec_single_gate_of(hqslang@) is None ==> r == Err::<(), QRydError>(
                QRydError::UnknownGate,
            ),
            spec_single_gate_of(hqslang@) is Some && old(self).spec_target_name(layout_name) is None
                ==> r == Err::<(), QRydError>(QRydError::NoLayoutSet),
            spec_single_gate_of(hqslang@) is Some && (old(self).spec_target_name(layout_name)
                matches Some(n) && spec_layout_at(old(self).layout_register@, n) is None) ==> r
                == Err::<(), QRydError>(QRydError::UnknownLayout),
            r is Ok ==> ({
                let n = old(self).spec_target_name(layout_name)->Some_0;
                let g = spec_single_gate_of(hqslang@)->Some_0;
                let info = spec_layout_at(old(self).layout_register@, n)->Some_0;
                &&& (spec_layout_at(final(self).layout_register@, n) matches Some(info2)
                    && info2.single@ == crate::layout::spec_single_without(
                    info.single@,
                    g,
                    tweezer,
                ).push((SingleEntry { gate: g, tweezer, time: gate_time })) && info2.two
                    == info.two && info2.three == info.three && info2.multi == info.multi
                    && info2.shifts == info.shifts && info2.per_row == info.per_row)
                &&& (forall|n2: Seq<char>|
                    n2 != n ==> spec_layout_at(final(self).layout_register@, n2) == spec_layout_at(
                        old(self).layout_register@,
                        n2,
                    ))
                &&& final(self).qubit_to_tweezer == old(self).qubit_to_tweezer
                &&& final(self).current_layout == old(self).current_layout
                &&& final(self).default_layout == old(self).default_layout
                &&& final(self).controlled_z_phase_relation
                    == old(self).controlled_z_phase_relation
                &&& final(self).controlled_phase_phase_relation == old(
                    self,
                ).controlled_phase_phase_relation
                &&& final(self).allow_reset == old(self).allow_reset
                &&& final(self).device_name == old(self).device_name
                &&& final(self).seed == old(self).seed
                &&& final(self).layout_register@.len() == old(self).layout_register@.len()
            }),
    {
        let g = match single_gate_of(hqslang) {
            Some(g) => g,
            None => {
                return Err(QRydError::UnknownGate);
            },
        };
        let target: String = match layout_name {
            Some(n) => n,
            None => match &self.current_layout {
                Some(c) => c.clone(),
                None => {
                    return Err(QRydError::NoLayoutSet);
                },
            },
        };
        let idx = match self.find_layout(target.as_str()) {
            Some(i) => i,
            None => {
                return Err(QRydError::UnknownLayout);
            },
        };
        let ghost reg_old = self.layout_register@;
        let mut entry = self.layout_register.remove(idx);
        entry.1.set_single_qubit_gate_time(g, tweezer, gate_time);
        self.layout_register.insert(idx, entry);
        proof {
            assert(self.layout_register@ =~= reg_old.update(idx as int, self.layout_register@[idx as int]));
            lemma_layout_at_update(
                reg_old,
                idx as int,
                self.layout_register@[idx as int],
                target@,
            );
            assert forall|n2: Seq<char>|
                n2 != target@ implies spec_layout_at(self.layout_register@, n2) == spec_layout_at(
                reg_old,
                n2,
            ) by {
                lemma_layout_at_update(
                    reg_old,
                    idx as int,
                    self.layout_register@[idx as int],
                    n2,
                );
            }
        }
        Ok(())
    }

    /// Records the time of a two-qubit gate in the given layout, or in the
    /// current layout when no name is given. Fails with `UnknownGate` for a
    /// name outside the native whitelist, with `NoLayoutSet` when neither a
    /// layout name nor a current layout exists, and with `UnknownLayout` for
    /// an unregistered name; a failed call leaves the device unchanged.
    pub fn set_tweezer_two_qubit_gate_time(
        &mut self,
        hqslang: &str,
        tweezer0: usize,
        tweezer1: usize,
        gate_time: u64,
        layout_name: Option<String>,
    ) -> (r: Result<(), QRydError>)
        requires
            old(self).wf(),
        ensures
            final(self).wf(),
            r is Ok <==> (spec_two_gate_of(hqslang@) is Some && (old(self).spec_target_name(
                layout_name,
            ) matches Some(n) && spec_layout_at(old(self).layout_register@, n) is Some)),
            r is Err ==> *final(self) == *old(self),
            spec_two_gate_of(hqslang@) is None ==> r == Err::<(), QRydError>(
                QRydError::UnknownGate,
            ),
            spec_two_gate_of(hqslang@) is Some && old(self).spec_target_name(layout_name) is None
                ==> r == Err::<(), QRydError>(QRydError::NoLayoutSet),
            spec_two_gate_of(hqslang@) is Some && (old(self).spec_target_name(layout_name)
                matches Some(n) && spec_layout_at(old(self).layout_register@, n) is None) ==> r
                == Err::<(), QRydError>(QRydError::UnknownLayout),
            r is Ok ==> ({
                let n = old(self).spec_target_name(layout_name)->Some_0;
                let g = spec_two_gate_of(hqslang@)->Some_0;
                let info = spec_layout_at(old(self).layout_register@, n)->Some_0;
                &&& (spec_layout_at(final(self).layout_register@, n) matches Some(info2)
                    && info2.two@ == crate::layout::spec_two_without(
                    info.two@,
                    g,
                    tweezer0,
                    tweezer1,
                ).push((TwoEntry { gate: g, tweezer0, tweezer1, time: gate_time })) && info2.single
                    == info.single && info2.three == info.three && info2.multi == info.multi
                    && info2.shifts == info.shifts && info2.per_row == info.per_row)
                &&& (forall|n2: Seq<char>|
                    n2 != n ==> spec_layout_at(final(self).layout_register@, n2) == spec_layout_at(
                        old(self).layout_register@,
                        n2,
                    ))
                &&& final(self).qubit_to_tweezer == old(self).qubit_to_tweezer
                &&& final(self).current_layout == old(self).current_layout
                &&& final(self).default_layout == old(self).default_layout
                &&& final(self).controlled_z_phase_relation
                    == old(self).controlled_z_phase_relation
                &&& final(self).controlled_phase_phase_relation == old(
                    self,
                ).controlled_phase_phase_relation
                &&& final(self).allow_reset == old(self).allow_reset
                &&& final(self).device_name == old(self).device_name
                &&& final(self).seed == old(self).seed
                &&& final(self).layout_register@.len() == old(self).layout_register@.len()
            }),
    {
        let g = match two_gate_of(hqslang) {
            Some(g) => g,
            None => {
                return Err(QRydError::UnknownGate);
            },
        };
        let target: String = match layout_name {
            Some(n) => n,
            None => match &self.current_layout {
                Some(c) => c.clone(),
                None => {
                    return Err(QRydError::NoLayoutSet);
                },
            },
        };
        let idx = match self.find_layout(target.as_str()) {
            Some(i) => i,
            None => {
                return Err(QRydError::UnknownLayout);
            },
        };
        let ghost reg_old = self.layout_register@;
        let mut entry = self.layout_register.remove(idx);
        entry.1.set_two_qubit_gate_time(g, tweezer0, tweezer1, gate_time);
        self.layout_register.insert(idx, entry);
        proof {
            assert(self.layout_register@ =~= reg_old.update(idx as int, self.layout_register@[idx as int]));
            lemma_layout_at_update(
                reg_old,
                idx as int,
                self.layout_register@[idx as int],
                target@,
            );
            assert forall|n2: Seq<char>|
                n2 != target@ implies spec_layout_at(self.layout_register@, n2) == spec_layout_at(
                reg_old,
                n2,
            ) by {
                lemma_layout_at_update(
                    reg_old,
                    idx as int,
                    self.layout_register@[idx as int],
                    n2,
                );
            }
        }
        Ok(())
    }

    /// Records the time of a three-qubit gate in the given layout, or in the
    /// current layout when no name is given. Fails with `UnknownGate` for a
    /// name outside the native whitelist, with `NoLayoutSet` when neither a
    /// layout name nor a current layout exists, and with `UnknownLayout` for
    /// an unregistered name; a failed call leaves the device unchanged.
    pub fn set_tweezer_three_qubit_gate_time(
        &mut self,
        hqslang: &str,
        tweezer0: usize,
        tweezer1: usize,
        tweezer2: usize,
        gate_time: u64,
        layout_name: Option<String>,
    ) -> (r: Result<(), QRydError>)
        requires
            old(self).wf(),
        ensures
            final(self).wf(),
            r is Ok <==> (spec_three_gate_of(hqslang@) is Some && (old(self).spec_target_name(
                layout_name,
            ) matches Some(n) && spec_layout_at(old(self).layout_register@, n) is Some)),
            r is Err ==> *final(self) == *old(self),
            spec_three_gate_of(hqslang@) is None ==> r == Err::<(), QRydError>(
                QRydError::UnknownGate,
            ),
            spec_three_gate_of(hqslang@) is Some && old(self).spec_target_name(layout_name) is None
                ==> r == Err::<(), QRydError>(QRydError::NoLayoutSet),
            spec_three_gate_of(hqslang@) is Some && (old(self).spec_target_name(layout_name)
                matches Some(n) && spec_layout_at(old(self).layout_register@, n) is None) ==> r
                == Err::<(), QRydError>(QRydError::UnknownLayout),
            r is Ok ==> ({
                let n = old(self).spec_target_name(layout_name)->Some_0;
                let g = spec_three_gate_of(hqslang@)->Some_0;
                let info = spec_layout_at(old(self).layout_register@, n)->Some_0;
                &&& (spec_layout_at(final(self).layout_register@, n) matches Some(info2)
                    && info2.three@ == crate::layout::spec_three_without(
                    info.three@,
                    g,
                    tweezer0,
                    tweezer1,
                    tweezer2,
                ).push(
                        (ThreeEntry { gate: g, tweezer0, tweezer1, tweezer2, time: gate_time }),
                    ) && info2.single == info.single && info2.two == info.two && info2.multi
                    == info.multi && info2.shifts == info.shifts && info2.per_row == info.per_row)
                &&& (forall|n2: Seq<char>|
                    n2 != n ==> spec_layout_at(final(self).layout_register@, n2) == spec_layout_at(
                        old(self).layout_register@,
                        n2,
                    ))
                &&& final(self).qubit_to_tweezer == old(self).qubit_to_tweezer
                &&& final(self).current_layout == old(self).current_layout
                &&& final(self).default_layout == old(self).default_layout
                &&& final(self).controlled_z_phase_relation
                    == old(self).controlled_z_phase_relation
                &&& final(self).controlled_phase_phase_relation == old(
                    self,
                ).controlled_phase_phase_relation
                &&& final(self).allow_reset == old(self).allow_reset
                &&& final(self).device_name == old(self).device_name
                &&& final(self).seed == old(self).seed
                &&& final(self).layout_register@.len() == old(self).layout_register@.len()
            }),
    {
        let g = match three_gate_of(hqslang) {
            Some(g) => g,
            None => {
                return Err(QRydError::UnknownGate);
            },
        };
        let target: String = match layout_name {
            Some(n) => n,
            None => match &self.current_layout {
                Some(c) => c.clone(),
                None => {
                    return Err(QRydError::NoLayoutSet);
                },
            },
        };
        let idx = match self.find_layout(target.as_str()) {
            Some(i) => i,
            None => {
                return Err(QRydError::UnknownLayout);
            },
        };
        let ghost reg_old = self.layout_register@;
        let mut entry = self.layout_register.remove(idx);
        entry.1.set_three_qubit_gate_time(g, tweezer0, tweezer1, tweezer2, gate_time);
        self.layout_register.insert(idx, entry);
        proof {
            assert(self.layout_register@ =~= reg_old.update(idx as int, self.layout_register@[idx as int]));
            lemma_layout_at_update(
                reg_old,
                idx as int,
                self.layout_register@[idx as int],
                target@,
            );
            assert forall|n2: Seq<char>|
                n2 != target@ implies spec_layout_at(self.layout_register@, n2) == spec_layout_at(
                reg_old,
                n2,
            ) by {
                lemma_layout_at_update(
                    reg_old,
                    idx as int,
                    self.layout_register@[idx as int],
                    n2,
                );
            }
        }
        Ok(())
    }

    /// Records the time of a multi-qubit gate at an ordered tweezer list in
    /// the given layout, or in the current layout when no name is given; the
    /// same failure cases as the other setters apply.
    pub fn set_tweezer_multi_qubit_gate_time(
        &mut self,
        hqslang: &str,
        tweezers: &[usize],
        gate_time: u64,
        layout_name: Option<String>,
    ) -> (r: Result<(), QRydError>)
        requires
            old(self).wf(),
        ensures
            final(self).wf(),
            r is Ok <==> (spec_multi_gate_of(hqslang@) is Some && (old(self).spec_target_name(
                layout_name,
            ) matches Some(n) && spec_layout_at(old(self).layout_register@, n) is Some)),
            r is Err ==> *final(self) == *old(self),
            spec_multi_gate_of(hqslang@) is None ==> r == Err::<(), QRydError>(
                QRydError::UnknownGate,
            ),
            spec_multi_gate_of(hqslang@) is Some && old(self).spec_target_name(layout_name) is None
                ==> r == Err::<(), QRydError>(QRydError::NoLayoutSet),
            spec_multi_gate_of(hqslang@) is Some && (old(self).spec_target_name(layout_name)
                matches Some(n) && spec_layout_at(old(self).layout_register@, n) is None) ==> r
                == Err::<(), QRydError>(QRydError::UnknownLayout),
            r is Ok ==> ({
                let n = old(self).spec_target_name(layout_name)->Some_0;
                let g = spec_multi_gate_of(hqslang@)->Some_0;
                let info = spec_layout_at(old(self).layout_register@, n)->Some_0;
                &&& (spec_layout_at(final(self).layout_register@, n) matches Some(info2)
                    && info2.multi@.len() == crate::layout::spec_multi_without(
                    info.multi@,
                    g,
                    tweezers@,
                ).len() + 1 && info2.multi@.last().gate == g && info2.multi@.last().tweezers@
                    == tweezers@ && info2.multi@.last().time == gate_time
                    && info2.multi@.drop_last() == crate::layout::spec_multi_without(
                    info.multi@,
                    g,
                    tweezers@,
                ) && info2.single == info.single && info2.two == info.two && info2.three
                    == info.three && info2.shifts == info.shifts && info2.per_row == info.per_row)
                &&& (forall|n2: Seq<char>|
                    n2 != n ==> spec_layout_at(final(self).layout_register@, n2) == spec_layout_at(
                        old(self).layout_register@,
                        n2,
                    ))
                &&& final(self).qubit_to_tweezer == old(self).qubit_to_tweezer
                &&& final(self).current_layout == old(self).current_layout
                &&& final(self).default_layout == old(self).default_layout
                &&& final(self).controlled_z_phase_relation
                    == old(self).controlled_z_phase_relation
                &&& final(self).controlled_phase_phase_relation == old(
                    self,
                ).controlled_phase_phase_relation
                &&& final(self).allow_reset == old(self).allow_reset
                &&& final(self).device_name == old(self).device_name
                &&& final(self).seed == old(self).seed
                &&& final(self).layout_register@.len() == old(self).layout_register@.len()
            }),
    {
        let g = match multi_gate_of(hqslang) {
            Some(g) => g,
            None => {
                return Err(QRydError::UnknownGate);
            },
        };
        let target: String = match layout_name {
            Some(n) => n,
            None => match &self.current_layout {
                Some(c) => c.clone(),
                None => {
                    return Err(QRydError::NoLayoutSet);
                },
            },
        };
        let idx = match self.find_layout(target.as_str()) {
            Some(i) => i,
            None => {
                return Err(QRydError::UnknownLayout);
            },
        };
        let ghost reg_old = self.layout_register@;
        let mut entry = self.layout_register.remove(idx);
        let ts = vstd::slice::slice_to_vec(tweezers);
        entry.1.set_multi_qubit_gate_time(g, ts, gate_time);
        self.layout_register.insert(idx, entry);
        proof {
            assert(self.layout_register@ =~= reg_old.update(idx as int, self.layout_register@[idx as int]));
            lemma_layout_at_update(
                reg_old,
                idx as int,
                self.layout_register@[idx as int],
                target@,
            );
            assert forall|n2: Seq<char>|
                n2 != target@ implies spec_layout_at(self.layout_register@, n2) == spec_layout_at(
                reg_old,
                n2,
            ) by {
                lemma_layout_at_update(
                    reg_old,
                    idx as int,
                    self.layout_register@[idx as int],
                    n2,
                );
            }
        }
        Ok(())
    }

    /// Records the row partition of the given layout, or of the current
    /// layout when no name is given. Fails with `NoLayoutSet` when neither a
    /// layout name nor a current layout exists and with `UnknownLayout` for
    /// an unregistered name; a failed call leaves the device unchanged.
    pub fn set_tweezers_per_row(
        &mut self,
        tweezers_per_row: Vec<usize>,
        layout_name: Option<String>,
    ) -> (r: Result<(), QRydError>)
        requires
            old(self).wf(),
        ensures
            final(self).wf(),
            r is Ok <==> (old(self).spec_target_name(layout_name) matches Some(n)
                && spec_layout_at(old(self).layout_register@, n) is Some),
            r is Err ==> *final(self) == *old(self),
            old(self).spec_target_name(layout_name) is None ==> r == Err::<(), QRydError>(
                QRydError::NoLayoutSet,
            ),
            (old(self).spec_target_name(layout_name) matches Some(n) && spec_layout_at(
                old(self).layout_register@,
                n,
            ) is None) ==> r == Err::<(), QRydError>(QRydError::UnknownLayout),
            r is Ok ==> ({
                let n = old(self).spec_target_name(layout_name)->Some_0;
                let info = spec_layout_at(old(self).layout_register@, n)->Some_0;
                &&& (spec_layout_at(final(self).layout_register@, n) matches Some(info2)
                    && info2.per_row == Some(tweezers_per_row) && info2.single == info.single
                    && info2.two == info.two && info2.three == info.three && info2.multi
                    == info.multi && info2.shifts == info.shifts)
                &&& (forall|n2: Seq<char>|
                    n2 != n ==> spec_layout_at(final(self).layout_register@, n2) == spec_layout_at(
                        old(self).layout_register@,
                        n2,
                    ))
                &&& final(self).qubit_to_tweezer == old(self).qubit_to_tweezer
                &&& final(self).current_layout == old(self).current_layout
                &&& final(self).default_layout == old(self).default_layout
                &&& final(self).controlled_z_phase_relation
                    == old(self).controlled_z_phase_relation
                &&& final(self).controlled_phase_phase_relation == old(
                    self,
                ).controlled_phase_phase_relation
                &&& final(self).allow_reset == old(self).allow_reset
                &&& final(self).device_name == old(self).device_name
                &&& final(self).seed == old(self).seed
                &&& final(self).layout_register@.len() == old(self).layout_register@.len()
            }),
    {
        let target: String = match layout_name {
            Some(n) => n,
            None => match &self.current_layout {
                Some(c) => c.clone(),
                None => {
                    return Err(QRydError::NoLayoutSet);
                },
            },
        };
        let idx = match self.find_layout(target.as_str()) {
            Some(i) => i,
            None => {
                return Err(QRydError::UnknownLayout);
            },
        };
        let ghost reg_old = self.layout_register@;
        let mut entry = self.layout_register.remove(idx);
        entry.1.set_tweezers_per_row(tweezers_per_row);
        self.layout_register.insert(idx, entry);
        proof {
            assert(self.layout_register@ =~= reg_old.update(idx as int, self.layout_register@[idx as int]));
            lemma_layout_at_update(
                reg_old,
                idx as int,
                self.layout_register@[idx as int],
                target@,
            );
            assert forall|n2: Seq<char>|
                n2 != target@ implies spec_layout_at(self.layout_register@, n2) == spec_layout_at(
                reg_old,
                n2,
            ) by {
                lemma_layout_at_update(
                    reg_old,
                    idx as int,
                    self.layout_register@[idx as int],
                    n2,
                );
            }
        }
        Ok(())
    }
}


impl TweezerDevice {
    /// Assigns a qubit to a tweezer of the current layout, overwriting the
    /// qubit's earlier assignment, and returns the full assignment. Fails
    /// with `NoLayoutSet` when no current layout exists, with `SiteNotFound`
    /// when the tweezer has no gate-time data in the current layout, and with
    /// `SiteOccupied` when another qubit already sits on the tweezer; a
    /// failed call leaves the device unchanged.
    pub fn add_qubit_tweezer_mapping(&mut self, qubit: usize, tweezer: usize) -> (r: Result<
        Vec<(usize, usize)>,
        QRydError,
    >)
        requires
            old(self).wf(),
        ensures
            final(self).wf(),
            r is Ok <==> (old(self).spec_current_info() matches Some(info)
                && crate::layout::spec_site_used(info, tweezer) && (crate::mapping::spec_qmap_holder(
                old(self).spec_qmap(),
                tweezer,
            ) is None || crate::mapping::spec_qmap_holder(old(self).spec_qmap(), tweezer) == Some(
                qubit,
            ))),
            r is Err ==> *final(self) == *old(self),
            old(self).spec_current_info() is None ==> r == Err::<Vec<(usize, usize)>, QRydError>(
                QRydError::NoLayoutSet,
            ),
            (old(self).spec_current_info() matches Some(info) && !crate::layout::spec_site_used(
                info,
                tweezer,
            )) ==> r == Err::<Vec<(usize, usize)>, QRydError>(QRydError::SiteNotFound),
            (old(self).spec_current_info() matches Some(info) && crate::layout::spec_site_used(
                info,
                tweezer,
            ) && (crate::mapping::spec_qmap_holder(old(self).spec_qmap(), tweezer) matches Some(h)
                && h != qubit)) ==> r == Err::<Vec<(usize, usize)>, QRydError>(
                QRydError::SiteOccupied,
            ),
            r is Ok ==> ({
                &&& final(self).spec_qmap() == crate::mapping::spec_qmap_without(
                    old(self).spec_qmap(),
                    qubit,
                ).push((qubit, tweezer))
                &&& final(self).qubit_to_tweezer is Some
                &&& spec_qmap_get(final(self).spec_qmap(), qubit) == Some(tweezer)
                &&& (forall|q2: usize|
                    q2 != qubit ==> spec_qmap_get(final(self).spec_qmap(), q2) == spec_qmap_get(
                        old(self).spec_qmap(),
                        q2,
                    ))
                &&& (r matches Ok(v) && v@ == final(self).spec_qmap())
                &&& final(self).layout_register == old(self).layout_register
                &&& final(self).current_layout == old(self).current_layout
                &&& final(self).default_layout == old(self).default_layout
                &&& final(self).controlled_z_phase_relation
                    == old(self).controlled_z_phase_relation
                &&& final(self).controlled_phase_phase_relation == old(
                    self,
                ).controlled_phase_phase_relation
                &&& final(self).allow_reset == old(self).allow_reset
                &&& final(self).device_name == old(self).device_name
                &&& final(self).seed == old(self).seed
            }),
    {
        let cur: String = match &self.current_layout {
            Some(c) => c.clone(),
            None => {
                return Err(QRydError::NoLayoutSet);
            },
        };
        let idx = match self.find_layout(cur.as_str()) {
            Some(i) => i,
            None => {
                return Err(QRydError::NoLayoutSet);
            },
        };
        if !self.layout_register[idx].1.site_used(tweezer) {
            return Err(QRydError::SiteNotFound);
        }
        let holder: Option<usize> = match &self.qubit_to_tweezer {
            Some(m) => crate::mapping::qmap_holder(m, tweezer),
            None => None,
        };
        match holder {
            Some(h) => {
                if h != qubit {
                    return Err(QRydError::SiteOccupied);
                }
            },
            None => {},
        }
        let ghost m0 = self.spec_qmap();
        match &mut self.qubit_to_tweezer {
            Some(m) => {
                crate::mapping::qmap_set(m, qubit, tweezer);
            },
            None => {
                let mut m: Vec<(usize, usize)> = Vec::new();
                m.push((qubit, tweezer));
                proof {
                    vstd::seq::Seq::<(usize, usize)>::empty().lemma_filter_len(
                        crate::mapping::qmap_pred(qubit),
                    );
                    assert(crate::mapping::spec_qmap_without(Seq::empty(), qubit)
                        =~= Seq::<(usize, usize)>::empty());
                    assert(m@ =~= crate::mapping::spec_qmap_without(m0, qubit).push(
                        (qubit, tweezer),
                    ));
                }
                self.qubit_to_tweezer = Some(m);
            },
        }
        proof {
            let mnew = self.spec_qmap();
            assert(mnew == crate::mapping::spec_qmap_without(m0, qubit).push((qubit, tweezer)));
            let w = crate::mapping::spec_qmap_without(m0, qubit);
            assert(w.push((qubit, tweezer)).drop_last() =~= w);
            assert(spec_qmap_get(mnew, qubit) == Some(tweezer));
            assert forall|q2: usize|
                q2 != qubit implies spec_qmap_get(mnew, q2) == spec_qmap_get(m0, q2) by {
                crate::mapping::lemma_qmap_without_get(m0, qubit, q2);
            }
            crate::mapping::lemma_qmap_without_wf(m0, qubit);
            crate::mapping::lemma_qmap_without_get(m0, qubit, qubit);
            crate::mapping::lemma_qmap_get_none_iff(w, qubit);
            crate::mapping::lemma_qmap_without_holder(m0, qubit, tweezer);
            crate::mapping::lemma_qmap_holder_none_iff(w, tweezer);
            assert forall|i: int, j: int|
                0 <= i < j < mnew.len() implies mnew[i].0 != mnew[j].0 && mnew[i].1
                    != mnew[j].1 by {
                if j == mnew.len() - 1 {
                    assert(mnew[i] == w[i]);
                    assert(w[i].0 != qubit);
                    assert(w[i].1 != tweezer);
                } else {
                    assert(mnew[i] == w[i] && mnew[j] == w[j]);
                }
            }
        }
        let out: Vec<(usize, usize)> = match &self.qubit_to_tweezer {
            Some(m) => vstd::slice::slice_to_vec(m.as_slice()),
            None => Vec::new(),
        };
        Ok(out)
    }

    /// Removes a qubit from the assignment and returns the remaining
    /// assignment; fails with `QubitNotFound` when the qubit is not assigned,
    /// leaving the device unchanged. A second deactivation of the same qubit
    /// therefore always fails.
    pub fn deactivate_qubit(&mut self, qubit: usize) -> (r: Result<Vec<(usize, usize)>, QRydError>)
        requires
            old(self).wf(),
        ensures
            final(self).wf(),
            r is Ok <==> spec_qmap_get(old(self).spec_qmap(), qubit) is Some,
            r is Err ==> *final(self) == *old(self) && r == Err::<Vec<(usize, usize)>, QRydError>(
                QRydError::QubitNotFound,
            ),
            r is Ok ==> ({
                &&& final(self).spec_qmap() == crate::mapping::spec_qmap_without(
                    old(self).spec_qmap(),
                    qubit,
                )
                &&& spec_qmap_get(final(self).spec_qmap(), qubit) is None
                &&& (forall|q2: usize|
                    q2 != qubit ==> spec_qmap_get(final(self).spec_qmap(), q2) == spec_qmap_get(
                        old(self).spec_qmap(),
                        q2,
                    ))
                &&& final(self).spec_qmap().len() == old(self).spec_qmap().len() - 1
                &&& (r matches Ok(v) && v@ == final(self).spec_qmap())
                &&& final(self).layout_register == old(self).layout_register
                &&& final(self).current_layout == old(self).current_layout
                &&& final(self).default_layout == old(self).default_layout
                &&& final(self).controlled_z_phase_relation
                    == old(self).controlled_z_phase_relation
                &&& final(self).controlled_phase_phase_relation == old(
                    self,
                ).controlled_phase_phase_relation
                &&& final(self).allow_reset == old(self).allow_reset
                &&& final(self).device_name == old(self).device_name
                &&& final(self).seed == old(self).seed
            }),
    {
        let ghost m0 = self.spec_qmap();
        match &mut self.qubit_to_tweezer {
            Some(m) => {
                match crate::mapping::qmap_get(m, qubit) {
                    Some(_) => {
                        crate::mapping::qmap_remove(m, qubit);
                        proof {
                            crate::mapping::lemma_qmap_without_get(m0, qubit, qubit);
                            assert forall|q2: usize|
                                q2 != qubit implies spec_qmap_get(m@, q2) == spec_qmap_get(
                                m0,
                                q2,
                            ) by {
                                crate::mapping::lemma_qmap_without_get(m0, qubit, q2);
                            }
                            crate::mapping::lemma_qmap_without_wf(m0, qubit);
                            crate::mapping::lemma_qmap_without_len(m0, qubit);
                        }
                        let out = vstd::slice::slice_to_vec(m.as_slice());
                        Ok(out)
                    },
                    None => Err(QRydError::QubitNotFound),
                }
            },
            None => Err(QRydError::QubitNotFound),
        }
    }

    /// The tweezer a qubit is assigned to; fails with `QubitNotFound` when
    /// the qubit is not assigned.
    pub fn get_tweezer_from_qubit(&self, qubit: &usize) -> (r: Result<usize, QRydError>)
        ensures
            r == (match spec_qmap_get(self.spec_qmap(), *qubit) {
                Some(t) => Ok::<usize, QRydError>(t),
                None => Err::<usize, QRydError>(QRydError::QubitNotFound),
            }),
    {
        match &self.qubit_to_tweezer {
            Some(m) => {
                match crate::mapping::qmap_get(m, *qubit) {
                    Some(t) => Ok(t),
                    None => Err(QRydError::QubitNotFound),
                }
            },
            None => Err(QRydError::QubitNotFound),
        }
    }

    /// How many qubits are currently assigned to a tweezer.
    pub fn number_qubits(&self) -> (r: usize)
        ensures
            r == self.spec_qmap().len(),
    {
        match &self.qubit_to_tweezer {
            Some(m) => m.len(),
            None => 0,
        }
    }

    /// Makes a registered layout the current one. With remapping requested,
    /// or by default, the qubit assignment is recomputed as the trivial
    /// population of the new layout: qubit i on site i for every site i with
    /// a single-, two- or three-qubit gate time; with remapping explicitly
    /// declined, the assignment is cleared. Fails with `UnknownLayout` for an
    /// unregistered name, leaving the device unchanged.
    pub fn switch_layout(&mut self, name: &str, with_trivial_map: Option<bool>) -> (r: Result<
        (),
        QRydError,
    >)
        requires
            old(self).wf(),
        ensures
            final(self).wf(),
            r is Ok <==> spec_layout_at(old(self).layout_register@, name@) is Some,
            r is Err ==> *final(self) == *old(self) && r == Err::<(), QRydError>(
                QRydError::UnknownLayout,
            ),
            r is Ok ==> ({
                let info = spec_layout_at(old(self).layout_register@, name@)->Some_0;
                &&& final(self).layout_register == old(self).layout_register
                &&& (final(self).current_layout matches Some(c) && c@ == name@)
                &&& final(self).default_layout == old(self).default_layout
                &&& final(self).controlled_z_phase_relation
                    == old(self).controlled_z_phase_relation
                &&& final(self).controlled_phase_phase_relation == old(
                    self,
                ).controlled_phase_phase_relation
                &&& final(self).allow_reset == old(self).allow_reset
                &&& final(self).device_name == old(self).device_name
                &&& final(self).seed == old(self).seed
                &&& (with_trivial_map == Some(false) ==> final(self).qubit_to_tweezer is None)
                &&& (with_trivial_map != Some(false) ==> final(self).qubit_to_tweezer is Some)
                &&& (with_trivial_map != Some(false) ==> final(self).spec_qmap().len()
                    == crate::layout::spec_used_count_st3(
                    info,
                    crate::layout::spec_st3_bound(info),
                ))
                &&& (forall|q: usize| #![auto]
                    with_trivial_map != Some(false) ==> spec_qmap_get(final(self).spec_qmap(), q)
                        == (if crate::layout::spec_site_used_st3(info, q) {
                        Some(q)
                    } else {
                        None::<usize>
                    }))
            }),
    {
        let idx = match self.find_layout(name) {
            Some(i) => i,
            None => {
                return Err(QRydError::UnknownLayout);
            },
        };
        let remap: bool = match with_trivial_map {
            Some(b) => b,
            None => true,
        };
        if remap {
            let tm = self.layout_register[idx].1.trivial_mapping();
            self.qubit_to_tweezer = Some(tm);
        } else {
            self.qubit_to_tweezer = None;
        }
        self.current_layout = Some(name.to_owned());
        proof {
            lemma_layout_at_present(self.layout_register@, idx as int, name@);
        }
        Ok(())
    }

    /// Records a registered layout as the default and immediately switches
    /// the current layout to it, recomputing the qubit assignment as the
    /// trivial population. Fails with `UnknownLayout` for an unregistered
    /// name, leaving the device unchanged.
    pub fn set_default_layout(&mut self, name: &str) -> (r: Result<(), QRydError>)
        requires
            old(self).wf(),
        ensures
            final(self).wf(),
            r is Ok <==> spec_layout_at(old(self).layout_register@, name@) is Some,
            r is Err ==> *final(self) == *old(self) && r == Err::<(), QRydError>(
                QRydError::UnknownLayout,
            ),
            r is Ok ==> ({
                let info = spec_layout_at(old(self).layout_register@, name@)->Some_0;
                &&& final(self).layout_register == old(self).layout_register
                &&& (final(self).current_layout matches Some(c) && c@ == name@)
                &&& (final(self).default_layout matches Some(d) && d@ == name@)
                &&& final(self).controlled_z_phase_relation
                    == old(self).controlled_z_phase_relation
                &&& final(self).controlled_phase_phase_relation == old(
                    self,
                ).controlled_phase_phase_relation
                &&& final(self).allow_reset == old(self).allow_reset
                &&& final(self).device_name == old(self).device_name
                &&& final(self).seed == old(self).seed
                &&& (forall|q: usize| #![auto]
                    spec_qmap_get(final(self).spec_qmap(), q) == (
                    if crate::layout::spec_site_used_st3(info, q) {
                        Some(q)
                    } else {
                        None::<usize>
                    }))
            }),
    {
        match self.switch_layout(name, None) {
            Ok(_) => {
                self.default_layout = Some(name.to_owned());
                Ok(())
            },
            Err(e) => Err(e),
        }
    }
}


/// The sites assigned to a list of qubits, when all of them are assigned.
pub open spec fn spec_map_sites(m: Seq<(usize, usize)>, qs: Seq<usize>) -> Option<Seq<usize>>
    decreases qs.len(),
{
    if qs.len() == 0 {
        Some(Seq::empty())
    } else {
        match spec_map_sites(m, qs.drop_last()) {
            None => None,
            Some(pre) => match spec_qmap_get(m, qs.last()) {
                None => None,
                Some(site) => Some(pre.push(site)),
            },
        }
    }
}

/// The time a single-qubit gate takes on a qubit: its name must be native,
/// a current layout chosen, the qubit assigned, and a time recorded for the
/// gate at the qubit's site.
pub open spec fn spec_single_qubit_gate_time(
    d: TweezerDevice,
    name: Seq<char>,
    qubit: usize,
) -> Option<u64> {
    match spec_single_gate_of(name) {
        None => None,
        Some(g) => match d.spec_current_info() {
            None => None,
            Some(info) => match spec_qmap_get(d.spec_qmap(), qubit) {
                None => None,
                Some(site) => spec_single_time(info.single@, g, site),
            },
        },
    }
}

/// The time a two-qubit gate takes on an ordered qubit pair.
pub open spec fn spec_two_qubit_gate_time(
    d: TweezerDevice,
    name: Seq<char>,
    control: usize,
    target: usize,
) -> Option<u64> {
    match spec_two_gate_of(name) {
        None => None,
        Some(g) => match d.spec_current_info() {
            None => None,
            Some(info) => match (
                spec_qmap_get(d.spec_qmap(), control),
                spec_qmap_get(d.spec_qmap(), target),
            ) {
                (Some(sc), Some(st)) => spec_two_time(info.two@, g, sc, st),
                _ => None,
            },
        },
    }
}

/// The time a three-qubit gate takes on an ordered qubit triple.
pub open spec fn spec_three_qubit_gate_time(
    d: TweezerDevice,
    name: Seq<char>,
    control0: usize,
    control1: usize,
    target: usize,
) -> Option<u64> {
    match spec_three_gate_of(name) {
        None => None,
        Some(g) => match d.spec_current_info() {
            None => None,
            Some(info) => match (
                spec_qmap_get(d.spec_qmap(), control0),
                spec_qmap_get(d.spec_qmap(), control1),
                spec_qmap_get(d.spec_qmap(), target),
            ) {
                (Some(s0), Some(s1), Some(s2)) => spec_three_time(info.three@, g, s0, s1, s2),
                _ => None,
            },
        },
    }
}

/// The time a multi-qubit gate takes on an ordered qubit list.
pub open spec fn spec_multi_qubit_gate_time(
    d: TweezerDevice,
    name: Seq<char>,
    qubits: Seq<usize>,
) -> Option<u64> {
    match spec_multi_gate_of(name) {
        None => None,
        Some(g) => match d.spec_current_info() {
            None => None,
            Some(info) => match spec_map_sites(d.spec_qmap(), qubits) {
                None => None,
                Some(sites) => spec_multi_time(info.multi@, g, sites),
            },
        },
    }
}

/// A list with an unresolvable prefix resolves to nothing as a whole.
pub proof fn lemma_map_sites_prefix_none(m: Seq<(usize, usize)>, qs: Seq<usize>, i: int, j: int)
    requires
        0 <= i <= j <= qs.len(),
        spec_map_sites(m, qs.take(i)) is None,
    ensures
        spec_map_sites(m, qs.take(j)) is None,
    decreases j - i,
{
    if j > i {
        assert(qs.take(i + 1).drop_last() =~= qs.take(i));
        lemma_map_sites_prefix_none(m, qs, i + 1, j);
    }
}

impl TweezerDevice {
    /// The layout currently in force, if one was chosen.
    fn current_info(&self) -> (r: Option<&TweezerLayoutInfo>)
        ensures
            match r {
                Some(info) => self.spec_current_info() == Some(*info),
                None => self.spec_current_info() is None,
            },
    {
        match &self.current_layout {
            Some(c) => {
                match self.find_layout(c.as_str()) {
                    Some(i) => Some(&self.layout_register[i].1),
                    None => None,
                }
            },
            None => None,
        }
    }

    /// The site assigned to a qubit, if the assignment exists.
    fn site_of(&self, qubit: usize) -> (r: Option<usize>)
        ensures
            r == spec_qmap_get(self.spec_qmap(), qubit),
    {
        match &self.qubit_to_tweezer {
            Some(m) => crate::mapping::qmap_get(m, qubit),
            None => None,
        }
    }

    /// Duration of a single-qubit gate on a qubit, when its name is
    /// native, a current layout is chosen, the qubit is assigned, and a time
    /// is recorded at the qubit's site.
    pub fn single_qubit_gate_time(&self, hqslang: &str, qubit: &usize) -> (r: Option<u64>)
        ensures
            r == spec_single_qubit_gate_time(*self, hqslang@, *qubit),
    {
        let g = match single_gate_of(hqslang) {
            Some(g) => g,
            None => {
                return None;
            },
        };
        let site = match self.site_of(*qubit) {
            Some(s) => s,
            None => {
                return None;
            },
        };
        match self.current_info() {
            Some(info) => info.single_qubit_gate_time(g, site),
            None => None,
        }
    }

    /// Duration of a two-qubit gate on an ordered qubit pair.
    pub fn two_qubit_gate_time(&self, hqslang: &str, control: &usize, target: &usize) -> (r:
        Option<u64>)
        ensures
            r == spec_two_qubit_gate_time(*self, hqslang@, *control, *target),
    {
        let g = match two_gate_of(hqslang) {
            Some(g) => g,
            None => {
                return None;
            },
        };
        let sc = match self.site_of(*control) {
            Some(s) => s,
            None => {
                return None;
            },
        };
        let st = match self.site_of(*target) {
            Some(s) => s,
            None => {
                return None;
            },
        };
        match self.current_info() {
            Some(info) => info.two_qubit_gate_time(g, sc, st),
            None => None,
        }
    }

    /// Duration of a three-qubit gate on an ordered qubit triple.
    pub fn three_qubit_gate_time(
        &self,
        hqslang: &str,
        control_0: &usize,
        control_1: &usize,
        target: &usize,
    ) -> (r: Option<u64>)
        ensures
            r == spec_three_qubit_gate_time(*self, hqslang@, *control_0, *control_1, *target),
    {
        let g = match three_gate_of(hqslang) {
            Some(g) => g,
            None => {
                return None;
            },
        };
        let s0 = match self.site_of(*control_0) {
            Some(s) => s,
            None => {
                return None;
            },
        };
        let s1 = match self.site_of(*control_1) {
            Some(s) => s,
            None => {
                return None;
            },
        };
        let s2 = match self.site_of(*target) {
            Some(s) => s,
            None => {
                return None;
            },
        };
        match self.current_info() {
            Some(info) => info.three_qubit_gate_time(g, s0, s1, s2),
            None => None,
        }
    }

    /// Duration of a multi-qubit gate on an ordered qubit list.
    pub fn multi_qubit_gate_time(&self, hqslang: &str, qubits: &[usize]) -> (r: Option<u64>)
        ensures
            r == spec_multi_qubit_gate_time(*self, hqslang@, qubits@),
    {
        let g = match multi_gate_of(hqslang) {
            Some(g) => g,
            None => {
                return None;
            },
        };
        let ghost m = self.spec_qmap();
        let mut sites: Vec<usize> = Vec::new();
        let mut i: usize = 0;
        proof {
            assert(qubits@.take(0) =~= Seq::<usize>::empty());
        }
        while i < qubits.len()
            invariant
                i <= qubits@.len(),
                m == self.spec_qmap(),
                spec_map_sites(m, qubits@.take(i as int)) == Some(sites@),
            decreases qubits@.len() - i,
        {
            proof {
                assert(qubits@.take(i as int + 1).drop_last() =~= qubits@.take(i as int));
                assert(qubits@.take(i as int + 1).last() == qubits@[i as int]);
            }
            match self.site_of(qubits[i]) {
                Some(site) => {
                    sites.push(site);
                },
                None => {
                    proof {
                        lemma_map_sites_prefix_none(
                            m,
                            qubits@,
                            i as int + 1,
                            qubits@.len() as int,
                        );
                        assert(qubits@.take(qubits@.len() as int) =~= qubits@);
                    }
                    return None;
                },
            }
            i += 1;
        }
        proof {
            assert(qubits@.take(qubits@.len() as int) =~= qubits@);
        }
        match self.current_info() {
            Some(info) => info.multi_qubit_gate_time(g, sites.as_slice()),
            None => None,
        }
    }

    /// Duration of a phase-shifted controlled-Z operation on a qubit
    /// pair. The phase-tolerance comparison of the requested phase against
    /// the device's derived controlled-Z phase shift involves floating-point
    /// evaluation, so the caller performs it and passes the verdict in
    /// `phase_matches`; the time is reported exactly when the verdict holds
    /// and a PhaseShiftedControlledZ time is recorded for the pair.
    pub fn gate_time_controlled_z(&self, control: &usize, target: &usize, phase_matches: bool) -> (r:
        Option<u64>)
        ensures
            r == (if phase_matches && spec_two_qubit_gate_time(
                *self,
                "PhaseShiftedControlledZ"@,
                *control,
                *target,
            ) is Some {
                Some(CONTROLLED_GATE_TIME)
            } else {
                None::<u64>
            }),
    {
        if self.two_qubit_gate_time("PhaseShiftedControlledZ", control, target).is_some()
            && phase_matches {
            Some(CONTROLLED_GATE_TIME)
        } else {
            None
        }
    }

    /// Duration of a phase-shifted controlled-phase operation on a qubit
    /// pair; as with the controlled-Z case, the caller evaluates the phase
    /// tolerance and passes the verdict in `phase_matches`.
    pub fn gate_time_controlled_phase(
        &self,
        control: &usize,
        target: &usize,
        phase_matches: bool,
    ) -> (r: Option<u64>)
        ensures
            r == (if phase_matches && spec_two_qubit_gate_time(
                *self,
                "PhaseShiftedControlledPhase"@,
                *control,
                *target,
            ) is Some {
                Some(CONTROLLED_GATE_TIME)
            } else {
                None::<u64>
            }),
    {
        if self.two_qubit_gate_time("PhaseShiftedControlledPhase", control, target).is_some()
            && phase_matches {
            Some(CONTROLLED_GATE_TIME)
        } else {
            None
        }
    }

    /// The distinct ordered site pairs with a recorded two-qubit gate time in
    /// the current layout: a pair appears exactly once however often its time
    /// was re-recorded.
    pub fn two_tweezer_edges(&self) -> (r: Vec<(usize, usize)>)
        ensures
            match self.spec_current_info() {
                Some(info) => (forall|p: (usize, usize)| #![trigger r@.contains(p)]
                    r@.contains(p) <==> exists|i: int|
                        0 <= i < info.two@.len() && ((#[trigger] info.two@[i]).tweezer0,
                        info.two@[i].tweezer1) == p) && (forall|i: int, j: int|
                    0 <= i < j < r@.len() ==> r@[i] != r@[j]),
                None => r@.len() == 0,
            },
    {
        let mut out: Vec<(usize, usize)> = Vec::new();
        match self.current_info() {
            Some(info) => {
                let mut i: usize = 0;
                while i < info.two.len()
                    invariant
                        i <= info.two@.len(),
                        forall|p: (usize, usize)| #![trigger out@.contains(p)]
                            out@.contains(p) <==> exists|j: int|
                                0 <= j < i && ((#[trigger] info.two@[j]).tweezer0,
                                info.two@[j].tweezer1) == p,
                        forall|a: int, b: int| 0 <= a < b < out@.len() ==> out@[a] != out@[b],
                    decreases info.two@.len() - i,
                {
                    let e = info.two[i];
                    let pair = (e.tweezer0, e.tweezer1);
                    let ghost out_old = out@;
                    let seen = contains_pair(&out, pair);
                    if !seen {
                        out.push(pair);
                        proof {
                            assert forall|a: int, b: int|
                                0 <= a < b < out@.len() implies out@[a] != out@[b] by {
                                if b == out@.len() - 1 {
                                    assert(out@[a] == out_old[a]);
                                    assert(!out_old.contains(pair));
                                    assert(out_old[a] != pair) by {
                                        if out_old[a] == pair {
                                            assert(out_old.contains(pair));
                                        }
                                    }
                                }
                            }
                        }
                    }
                    proof {
                        assert forall|p: (usize, usize)| #![trigger out@.contains(p)]
                            out@.contains(p) <==> exists|j: int|
                                0 <= j < i + 1 && ((#[trigger] info.two@[j]).tweezer0,
                                info.two@[j].tweezer1) == p by {
                            crate::layout::lemma_contains_push(out_old, pair, p);
                            if p == pair {
                                assert(((info.two@[i as int]).tweezer0,
                                info.two@[i as int].tweezer1) == p);
                                assert(out@.contains(p)) by {
                                    if seen {
                                        assert(out_old.contains(p));
                                    } else {
                                        assert(out@.last() == p);
                                        assert(out@[out@.len() - 1] == p);
                                    }
                                }
                            }
                        }
                    }
                    i += 1;
                }
                out
            },
            None => out,
        }
    }
}

/// Whether a list of ordered pairs contains a pair.
fn contains_pair(v: &Vec<(usize, usize)>, p: (usize, usize)) -> (r: bool)
    ensures
        r == v@.contains(p),
{
    let mut i: usize = 0;
    while i < v.len()
        invariant
            i <= v@.len(),
            forall|j: int| 0 <= j < i ==> v@[j] != p,
        decreases v@.len() - i,
    {
        let e = v[i];
        if e.0 == p.0 && e.1 == p.1 {
            proof {
                assert(v@[i as int] == p);
            }
            return true;
        }
        i += 1;
    }
    false
}


/// Whether a qubit pair is an edge: ascending, both qubits assigned, and a
/// two-qubit gate time recorded for their sites in either orientation.
pub open spec fn spec_qubit_edge(
    info: TweezerLayoutInfo,
    m: Seq<(usize, usize)>,
    q1: usize,
    q2: usize,
) -> bool {
    q1 < q2 && spec_qmap_get(m, q1) is Some && spec_qmap_get(m, q2) is Some
        && crate::layout::spec_site_edge(
        info,
        spec_qmap_get(m, q1)->Some_0,
        spec_qmap_get(m, q2)->Some_0,
    )
}

/// Whether a site is free for a qubit: unheld, or held by that qubit itself.
pub open spec fn spec_free_for(m: Seq<(usize, usize)>, q: usize, t: usize) -> bool {
    crate::mapping::spec_qmap_holder(m, t) is None || crate::mapping::spec_qmap_holder(m, t)
        == Some(q)
}

/// Whether any of the paths contains the destination.
pub open spec fn spec_paths_reach(paths: Seq<Seq<usize>>, d: usize) -> bool {
    exists|pi: int| 0 <= pi < paths.len() && (#[trigger] paths[pi]).contains(d)
}

/// Whether any of the paths lets the qubit reach the destination over free
/// sites.
pub open spec fn spec_some_path_free(
    m: Seq<(usize, usize)>,
    q: usize,
    paths: Seq<Seq<usize>>,
    d: usize,
) -> bool {
    exists|pi: int| 0 <= pi < paths.len() && spec_path_free(m, q, #[trigger] paths[pi], d)
}

/// Whether a recorded path lets a qubit reach a destination: the destination
/// appears on the path and every site up to and including it is free for the
/// qubit.
pub open spec fn spec_path_free(m: Seq<(usize, usize)>, q: usize, path: Seq<usize>, d: usize) -> bool {
    exists|k: int|
        0 <= k < path.len() && path[k] == d && (forall|j: int|
            0 <= j <= k ==> spec_free_for(m, q, #[trigger] path[j]))
}

/// Whether a move is possible now: some allowed path out of the qubit's
/// current site reaches the destination over free sites.
pub open spec fn spec_move_ok(
    info: TweezerLayoutInfo,
    m: Seq<(usize, usize)>,
    q: usize,
    s: usize,
    d: usize,
) -> bool {
    match crate::layout::spec_shifts_at(info.shifts@, s) {
        None => false,
        Some(paths) => spec_some_path_free(m, q, paths, d),
    }
}

/// One move: the qubit must be assigned and the move possible; the qubit then
/// sits on the destination.
pub open spec fn spec_one_move(
    info: TweezerLayoutInfo,
    m: Seq<(usize, usize)>,
    mv: (usize, usize),
) -> Option<Seq<(usize, usize)>> {
    match spec_qmap_get(m, mv.0) {
        None => None,
        Some(site) => if spec_move_ok(info, m, mv.0, site, mv.1) {
            Some(crate::mapping::spec_qmap_without(m, mv.0).push((mv.0, mv.1)))
        } else {
            None
        },
    }
}

/// The assignment after applying the moves in order; nothing when any move
/// fails.
pub open spec fn spec_apply_moves(
    info: TweezerLayoutInfo,
    m: Seq<(usize, usize)>,
    moves: Seq<(usize, usize)>,
) -> Option<Seq<(usize, usize)>>
    decreases moves.len(),
{
    if moves.len() == 0 {
        Some(m)
    } else {
        match spec_one_move(info, m, moves[0]) {
            None => None,
            Some(m2) => spec_apply_moves(info, m2, moves.skip(1)),
        }
    }
}

/// Whether every move names an assigned qubit whose initial site has some
/// allowed path through the destination.
pub open spec fn spec_moves_valid(
    info: TweezerLayoutInfo,
    m0: Seq<(usize, usize)>,
    moves: Seq<(usize, usize)>,
) -> bool {
    forall|i: int|
        0 <= i < moves.len() ==> spec_move_listed(info, m0, #[trigger] moves[i])
}

/// Whether one move names an assigned qubit whose initial site has some
/// allowed path through the destination.
pub open spec fn spec_move_listed(
    info: TweezerLayoutInfo,
    m0: Seq<(usize, usize)>,
    mv: (usize, usize),
) -> bool {
    match spec_qmap_get(m0, mv.0) {
        None => false,
        Some(s) => match crate::layout::spec_shifts_at(info.shifts@, s) {
            None => false,
            Some(paths) => exists|pi: int|
                0 <= pi < paths.len() && #[trigger] paths[pi].contains(mv.1),
        },
    }
}


/// Unfolds the per-move validity test against known lookups.
pub proof fn lemma_move_listed_unfold(
    info: TweezerLayoutInfo,
    m: Seq<(usize, usize)>,
    q: usize,
    d: usize,
    site: usize,
    pv: Seq<Seq<usize>>,
)
    requires
        spec_qmap_get(m, q) == Some(site),
        crate::layout::spec_shifts_at(info.shifts@, site) == Some(pv),
    ensures
        spec_move_listed(info, m, (q, d)) == spec_paths_reach(pv, d),
{
    let mv = (q, d);
    assert(mv.0 == q);
    assert(mv.1 == d);
    assert(spec_qmap_get(m, mv.0) == Some(site));
    assert(crate::layout::spec_shifts_at(info.shifts@, site) == Some(pv));
    assert(spec_move_listed(info, m, mv) == (match spec_qmap_get(m, mv.0) {
        None => false,
        Some(s2) => match crate::layout::spec_shifts_at(info.shifts@, s2) {
            None => false,
            Some(paths) => spec_paths_reach(paths, mv.1),
        },
    }));
    assert(spec_move_listed(info, m, mv) == spec_paths_reach(pv, d));
}

/// Applying one more move at the end.
pub proof fn lemma_apply_moves_push(
    info: TweezerLayoutInfo,
    m: Seq<(usize, usize)>,
    moves: Seq<(usize, usize)>,
    mv: (usize, usize),
)
    ensures
        spec_apply_moves(info, m, moves.push(mv)) == (match spec_apply_moves(info, m, moves) {
            None => None::<Seq<(usize, usize)>>,
            Some(m2) => spec_one_move(info, m2, mv),
        }),
    decreases moves.len(),
{
    reveal_with_fuel(spec_apply_moves, 3);
    if moves.len() == 0 {
        assert(moves.push(mv)[0] == mv);
        assert(moves.push(mv).skip(1) =~= Seq::<(usize, usize)>::empty());
        assert(spec_apply_moves(info, m, moves) == Some(m));
    } else {
        assert(moves.push(mv)[0] == moves[0]);
        assert(moves.push(mv).skip(1) =~= moves.skip(1).push(mv));
        match spec_one_move(info, m, moves[0]) {
            None => {
                assert(spec_apply_moves(info, m, moves) is None);
                assert(spec_apply_moves(info, m, moves.push(mv)) is None);
            },
            Some(m2) => {
                lemma_apply_moves_push(info, m2, moves.skip(1), mv);
                assert(spec_apply_moves(info, m, moves) == spec_apply_moves(
                    info,
                    m2,
                    moves.skip(1),
                ));
                assert(spec_apply_moves(info, m, moves.push(mv)) == spec_apply_moves(
                    info,
                    m2,
                    moves.skip(1).push(mv),
                ));
            },
        }
    }
}

/// A successful sequence of moves keeps the assignment well formed.
pub proof fn lemma_apply_moves_wf(
    info: TweezerLayoutInfo,
    m: Seq<(usize, usize)>,
    moves: Seq<(usize, usize)>,
)
    requires
        spec_qmap_wf(m),
        spec_apply_moves(info, m, moves) is Some,
    ensures
        spec_qmap_wf(spec_apply_moves(info, m, moves)->Some_0),
    decreases moves.len(),
{
    if moves.len() > 0 {
        let mv = moves[0];
        let site = spec_qmap_get(m, mv.0)->Some_0;
        let paths = crate::layout::spec_shifts_at(info.shifts@, site)->Some_0;
        let pi = choose|pi: int| 0 <= pi < paths.len() && spec_path_free(m, mv.0, paths[pi], mv.1);
        let k = choose|k: int|
            0 <= k < paths[pi].len() && paths[pi][k] == mv.1 && (forall|j: int|
                0 <= j <= k ==> spec_free_for(m, mv.0, #[trigger] paths[pi][j]));
        assert(spec_free_for(m, mv.0, mv.1));
        crate::mapping::lemma_qmap_set_wf(m, mv.0, mv.1);
        lemma_apply_moves_wf(info, spec_one_move(info, m, mv)->Some_0, moves.skip(1));
    }
}

/// Whether a path lets a qubit reach a destination over free sites.
fn path_free(m: &Vec<(usize, usize)>, q: usize, path: &Vec<usize>, d: usize) -> (r: bool)
    ensures
        r == spec_path_free(m@, q, path@, d),
{
    let mut j: usize = 0;
    while j < path.len()
        invariant
            j <= path@.len(),
            forall|j2: int|
                0 <= j2 < j ==> spec_free_for(m@, q, #[trigger] path@[j2]) && path@[j2] != d,
        decreases path@.len() - j,
    {
        let site = path[j];
        let free = match crate::mapping::qmap_holder(m, site) {
            None => true,
            Some(h) => h == q,
        };
        if !free {
            proof {
                assert(!spec_free_for(m@, q, path@[j as int]));
                assert forall|k: int|
                    0 <= k < path@.len() && path@[k] == d implies !(forall|j2: int|
                    0 <= j2 <= k ==> spec_free_for(m@, q, #[trigger] path@[j2])) by {
                    assert(k >= j);
                    assert(!spec_free_for(m@, q, path@[j as int]));
                }
            }
            return false;
        }
        if site == d {
            proof {
                let k = j as int;
                assert(path@[k] == d && (forall|j2: int|
                    0 <= j2 <= k ==> spec_free_for(m@, q, #[trigger] path@[j2])));
            }
            return true;
        }
        j += 1;
    }
    false
}


/// Whether some recorded path contains the destination.
fn paths_reach(paths: &Vec<Vec<usize>>, d: usize) -> (r: bool)
    ensures
        r == spec_paths_reach(paths.deep_view(), d),
{
    let mut pi: usize = 0;
    while pi < paths.len()
        invariant
            pi <= paths@.len(),
            forall|p2: int| 0 <= p2 < pi ==> !(#[trigger] paths.deep_view()[p2]).contains(d),
        decreases paths@.len() - pi,
    {
        proof {
            assert(paths.deep_view()[pi as int] == paths@[pi as int].deep_view());
            assert(paths@[pi as int].deep_view() =~= paths@[pi as int]@);
        }
        if crate::layout::contains_usize(paths[pi].as_slice(), d) {
            proof {
                assert((paths.deep_view()[pi as int]).contains(d));
                assert(spec_paths_reach(paths.deep_view(), d));
            }
            return true;
        }
        pi += 1;
    }
    false
}

/// Whether some recorded path lets the qubit reach the destination over free
/// sites.
fn find_free_path(m: &Vec<(usize, usize)>, q: usize, paths: &Vec<Vec<usize>>, d: usize) -> (r:
    bool)
    ensures
        r == spec_some_path_free(m@, q, paths.deep_view(), d),
{
    let mut pi: usize = 0;
    while pi < paths.len()
        invariant
            pi <= paths@.len(),
            forall|p2: int|
                0 <= p2 < pi ==> !spec_path_free(m@, q, #[trigger] paths.deep_view()[p2], d),
        decreases paths@.len() - pi,
    {
        proof {
            assert(paths.deep_view()[pi as int] == paths@[pi as int].deep_view());
            assert(paths@[pi as int].deep_view() =~= paths@[pi as int]@);
        }
        if path_free(m, q, &paths[pi], d) {
            proof {
                assert(spec_path_free(m@, q, paths.deep_view()[pi as int], d));
                assert(spec_some_path_free(m@, q, paths.deep_view(), d));
            }
            return true;
        }
        pi += 1;
    }
    false
}

impl TweezerDevice {
    /// Whether every move names an assigned qubit whose initial site has an
    /// allowed path through its destination.
    #[verifier::rlimit(50)]
    fn moves_listed(&self, info: &TweezerLayoutInfo, m: &Vec<(usize, usize)>, moves: &Vec<(usize, usize)>) -> (r: bool)
        ensures
            r == spec_moves_valid(*info, m@, moves@),
    {
        let mut i: usize = 0;
        while i < moves.len()
            invariant
                i <= moves@.len(),
                forall|i2: int| 0 <= i2 < i ==> spec_move_listed(*info, m@, #[trigger] moves@[i2]),
            decreases moves@.len() - i,
        {
            let (q, d) = moves[i];
            let site = match crate::mapping::qmap_get(m, q) {
                Some(s) => s,
                None => {
                    proof {
                        assert(!spec_move_listed(*info, m@, moves@[i as int]));
                    }
                    return false;
                },
            };
            let paths = match info.allowed_shifts_at(site) {
                Some(p) => p,
                None => {
                    proof {
                        assert(!spec_move_listed(*info, m@, moves@[i as int]));
                    }
                    return false;
                },
            };
            let found = paths_reach(paths, d);
            proof {
                assert(moves@[i as int] == (q, d));
                assert(spec_qmap_get(m@, q) == Some(site));
                assert(crate::layout::spec_shifts_at(info.shifts@, site) == Some(
                    paths.deep_view(),
                ));
                lemma_move_listed_unfold(*info, m@, q, d, site, paths.deep_view());
                assert(spec_move_listed(*info, m@, moves@[i as int]) == spec_paths_reach(
                    paths.deep_view(),
                    d,
                ));
            }
            if !found {
                return false;
            }
            i += 1;
        }
        true
    }

    /// The qubit pairs whose assigned sites carry a two-qubit gate time in
    /// either orientation in the current layout: each unordered pair appears
    /// exactly once, oriented smaller qubit first, and the list ascends
    /// lexicographically.
    pub fn two_qubit_edges(&self) -> (r: Vec<(usize, usize)>)
        ensures
            match self.spec_current_info() {
                Some(info) => (forall|q1: usize, q2: usize| #![trigger r@.contains((q1, q2))]
                    r@.contains((q1, q2)) <==> spec_qubit_edge(info, self.spec_qmap(), q1, q2)) && (
                forall|i: int, j: int|
                    0 <= i < j < r@.len() ==> (r@[i].0 < r@[j].0 || (r@[i].0 == r@[j].0 && r@[i].1
                        < r@[j].1))),
                None => r@.len() == 0,
            },
    {
        let mut out: Vec<(usize, usize)> = Vec::new();
        let info = match self.current_info() {
            Some(info) => info,
            None => {
                return out;
            },
        };
        let m: &Vec<(usize, usize)> = match &self.qubit_to_tweezer {
            Some(m) => m,
            None => {
                proof {
                    assert forall|q1: usize, q2: usize| #![trigger out@.contains((q1, q2))]
                        out@.contains((q1, q2)) <==> spec_qubit_edge(
                        *info,
                        self.spec_qmap(),
                        q1,
                        q2,
                    ) by {
                        assert(spec_qmap_get(self.spec_qmap(), q1) is None);
                    }
                }
                return out;
            },
        };
        let ghost ms = self.spec_qmap();
        let ghost ginfo = *info;
        let maxq = match crate::mapping::qmap_max_key(m) {
            Some(x) => x,
            None => {
                proof {
                    assert forall|q1: usize, q2: usize| #![trigger out@.contains((q1, q2))]
                        out@.contains((q1, q2)) <==> spec_qubit_edge(ginfo, ms, q1, q2) by {
                        crate::mapping::lemma_qmap_get_none_iff(ms, q1);
                    }
                }
                return out;
            },
        };
        let mut q1: usize = 0;
        loop
            invariant_except_break
                q1 <= maxq,
                ms == self.spec_qmap(),
                m@ == ms,
                ginfo == *info,
                self.spec_current_info() == Some(ginfo),
                forall|k: int| 0 <= k < ms.len() ==> (#[trigger] ms[k]).0 <= maxq,
                forall|a: usize, b: usize| #![trigger out@.contains((a, b))]
                    out@.contains((a, b)) <==> (a < q1 && spec_qubit_edge(ginfo, ms, a, b)),
                forall|i: int| 0 <= i < out@.len() ==> (#[trigger] out@[i]).0 < q1,
                forall|i: int, j: int|
                    0 <= i < j < out@.len() ==> (out@[i].0 < out@[j].0 || (out@[i].0 == out@[j].0
                        && out@[i].1 < out@[j].1)),
            ensures
                ms == self.spec_qmap(),
                ginfo == *info,
                forall|k: int| 0 <= k < ms.len() ==> (#[trigger] ms[k]).0 <= maxq,
                forall|a: usize, b: usize| #![trigger out@.contains((a, b))]
                    out@.contains((a, b)) <==> (a <= maxq && spec_qubit_edge(ginfo, ms, a, b)),
                forall|i: int, j: int|
                    0 <= i < j < out@.len() ==> (out@[i].0 < out@[j].0 || (out@[i].0 == out@[j].0
                        && out@[i].1 < out@[j].1)),
            decreases maxq - q1,
        {
            match crate::mapping::qmap_get(m, q1) {
                Some(s1) => {
                    if q1 < maxq {
                        let mut q2: usize = q1 + 1;
                        loop
                            invariant_except_break
                                q1 < q2 <= maxq,
                                q1 < maxq,
                                ms == self.spec_qmap(),
                                m@ == ms,
                                ginfo == *info,
                                spec_qmap_get(ms, q1) == Some(s1),
                                forall|k: int|
                                    0 <= k < ms.len() ==> (#[trigger] ms[k]).0 <= maxq,
                                forall|a: usize, b: usize| #![trigger out@.contains((a, b))]
                                    out@.contains((a, b)) <==> ((a < q1 && spec_qubit_edge(
                                        ginfo,
                                        ms,
                                        a,
                                        b,
                                    )) || (a == q1 && b < q2 && spec_qubit_edge(ginfo, ms, a, b))),
                                forall|i: int|
                                    0 <= i < out@.len() ==> ((#[trigger] out@[i]).0 < q1 || (
                                    out@[i].0 == q1 && out@[i].1 < q2)),
                                forall|i: int, j: int|
                                    0 <= i < j < out@.len() ==> (out@[i].0 < out@[j].0 || (
                                    out@[i].0 == out@[j].0 && out@[i].1 < out@[j].1)),
                            ensures
                                ms == self.spec_qmap(),
                                ginfo == *info,
                                spec_qmap_get(ms, q1) == Some(s1),
                                forall|k: int|
                                    0 <= k < ms.len() ==> (#[trigger] ms[k]).0 <= maxq,
                                forall|a: usize, b: usize| #![trigger out@.contains((a, b))]
                                    out@.contains((a, b)) <==> ((a < q1 && spec_qubit_edge(
                                        ginfo,
                                        ms,
                                        a,
                                        b,
                                    )) || (a == q1 && b <= maxq && spec_qubit_edge(
                                        ginfo,
                                        ms,
                                        a,
                                        b,
                                    ))),
                                forall|i: int|
                                    0 <= i < out@.len() ==> ((#[trigger] out@[i]).0 < q1 || (
                                    out@[i].0 == q1 && out@[i].1 <= maxq)),
                                forall|i: int, j: int|
                                    0 <= i < j < out@.len() ==> (out@[i].0 < out@[j].0 || (
                                    out@[i].0 == out@[j].0 && out@[i].1 < out@[j].1)),
                            decreases maxq - q2,
                        {
                            let ghost out_old = out@;
                            let mut pushed: bool = false;
                            match crate::mapping::qmap_get(m, q2) {
                                Some(s2) => {
                                    if info.site_edge(s1, s2) {
                                        out.push((q1, q2));
                                        pushed = true;
                                        proof {
                                            assert(spec_qubit_edge(ginfo, ms, q1, q2));
                                        }
                                    }
                                },
                                None => {},
                            }
                            proof {
                                if !pushed {
                                    assert(!spec_qubit_edge(ginfo, ms, q1, q2));
                                }
                                assert forall|a: usize, b: usize| #![trigger out@.contains((a, b))]
                                    out@.contains((a, b)) <==> ((a < q1 && spec_qubit_edge(
                                        ginfo,
                                        ms,
                                        a,
                                        b,
                                    )) || (a == q1 && b < q2 + 1 && spec_qubit_edge(
                                        ginfo,
                                        ms,
                                        a,
                                        b,
                                    ))) by {
                                    crate::layout::lemma_contains_push(out_old, (q1, q2), (a, b));
                                    if pushed && (a, b) == (q1, q2) {
                                        assert(out@.contains((a, b)));
                                    }
                                }
                                assert forall|i: int, j: int|
                                    0 <= i < j < out@.len() implies (out@[i].0 < out@[j].0 || (
                                out@[i].0 == out@[j].0 && out@[i].1 < out@[j].1)) by {
                                    if pushed && j == out@.len() - 1 {
                                        assert(out@[i] == out_old[i]);
                                        assert(out@[j] == (q1, q2));
                                    }
                                }
                            }
                            if q2 == maxq {
                                break ;
                            }
                            q2 += 1;
                        }
                    }
                    proof {
                        assert forall|a: usize, b: usize| #![trigger out@.contains((a, b))]
                            out@.contains((a, b)) <==> (a < q1 + 1 && spec_qubit_edge(
                            ginfo,
                            ms,
                            a,
                            b,
                        )) by {
                            if a == q1 && spec_qubit_edge(ginfo, ms, a, b) {
                                assert(b <= maxq) by {
                                    crate::mapping::lemma_qmap_get_none_iff(ms, b);
                                    if b > maxq {
                                        assert(forall|k: int|
                                            0 <= k < ms.len() ==> (#[trigger] ms[k]).0 != b);
                                    }
                                }
                            }
                        }
                    }
                },
                None => {
                    proof {
                        assert forall|a: usize, b: usize| #![trigger out@.contains((a, b))]
                            out@.contains((a, b)) <==> (a < q1 + 1 && spec_qubit_edge(
                            ginfo,
                            ms,
                            a,
                            b,
                        )) by {
                            if a == q1 {
                                assert(!spec_qubit_edge(ginfo, ms, a, b));
                            }
                        }
                    }
                },
            }
            if q1 == maxq {
                break ;
            }
            q1 += 1;
        }
        proof {
            assert forall|a: usize, b: usize| #![trigger out@.contains((a, b))]
                out@.contains((a, b)) <==> spec_qubit_edge(ginfo, ms, a, b) by {
                if a > maxq {
                    crate::mapping::lemma_qmap_get_none_iff(ms, a);
                    assert(forall|k: int| 0 <= k < ms.len() ==> (#[trigger] ms[k]).0 != a);
                    assert(!spec_qubit_edge(ginfo, ms, a, b));
                }
            }
        }
        out
    }

    /// Applies a named reconfiguration operation with a byte-encoded payload.
    /// Recognized are a layout switch by name, an ordered list of qubit moves
    /// between tweezers, and the legacy layout change by index; the legacy
    /// grid move is recognized but not supported on this device. A failed
    /// call of any kind leaves the device exactly as it was.
    pub fn change_device(&mut self, hqslang: &str, operation: &[u8]) -> (r: Result<(), QRydError>)
        requires
            old(self).wf(),
        ensures
            final(self).wf(),
            r is Err ==> *final(self) == *old(self),
            (hqslang@ != "PragmaChangeQRydLayout"@ && hqslang@ != "PragmaShiftQRydQubit"@
                && hqslang@ != "PragmaSwitchDeviceLayout"@ && hqslang@
                != "PragmaShiftQubitsTweezers"@) ==> r == Err::<(), QRydError>(
                QRydError::UnsupportedOperation,
            ),
            hqslang@ == "PragmaShiftQRydQubit"@ ==> r == Err::<(), QRydError>(
                QRydError::UnsupportedOperation,
            ),
            hqslang@ == "PragmaChangeQRydLayout"@ ==> (match crate::pragmas::spec_dec_usize(
                operation@,
                0,
            ) {
                None => r == Err::<(), QRydError>(QRydError::SerializationError),
                Some((idx, p)) => {
                    &&& (r is Ok <==> spec_layout_at(
                        old(self).layout_register@,
                        crate::strutil::spec_decimal(idx as nat),
                    ) is Some)
                    &&& (spec_layout_at(
                        old(self).layout_register@,
                        crate::strutil::spec_decimal(idx as nat),
                    ) is None ==> r == Err::<(), QRydError>(QRydError::UnknownLayout))
                    &&& (r is Ok ==> (final(self).current_layout matches Some(c) && c@
                        == crate::strutil::spec_decimal(idx as nat)) && final(self).layout_register
                        == old(self).layout_register && final(self).default_layout == old(
                        self,
                    ).default_layout)
                    &&& (r is Ok ==> ({
                        let info = spec_layout_at(
                            old(self).layout_register@,
                            crate::strutil::spec_decimal(idx as nat),
                        )->Some_0;
                        &&& final(self).qubit_to_tweezer is Some
                        &&& (forall|q: usize| #![auto]
                            spec_qmap_get(final(self).spec_qmap(), q) == (
                            if crate::layout::spec_site_used_st3(info, q) {
                                Some(q)
                            } else {
                                None::<usize>
                            }))
                        &&& final(self).spec_qmap().len() == crate::layout::spec_used_count_st3(
                            info,
                            crate::layout::spec_st3_bound(info),
                        )
                    }))
                },
            }),
            hqslang@ == "PragmaSwitchDeviceLayout"@ ==> (match crate::pragmas::spec_dec_string(
                operation@,
                0,
            ) {
                None => r == Err::<(), QRydError>(QRydError::SerializationError),
                Some((name, p)) => {
                    &&& (spec_layout_at(old(self).layout_register@, name) is None ==> r == Err::<
                        (),
                        QRydError,
                    >(QRydError::UnknownLayout))
                    &&& (spec_layout_at(old(self).layout_register@, name) is Some && old(
                        self,
                    ).spec_current_info() is None ==> r == Err::<(), QRydError>(
                        QRydError::NoLayoutSet,
                    ))
                    &&& ((spec_layout_at(old(self).layout_register@, name) is Some && old(
                        self,
                    ).spec_current_info() is Some) ==> ({
                        let target = spec_layout_at(old(self).layout_register@, name)->Some_0;
                        let curinfo = old(self).spec_current_info()->Some_0;
                        &&& ((curinfo.per_row is None || target.per_row is None) ==> r == Err::<
                            (),
                            QRydError,
                        >(QRydError::RowPartitionMissing))
                        &&& ((curinfo.per_row is Some && target.per_row is Some) ==> ({
                            let cr = curinfo.per_row->Some_0;
                            let tr = target.per_row->Some_0;
                            &&& (cr@ != tr@ ==> r == Err::<(), QRydError>(
                                QRydError::RowPartitionMismatch,
                            ))
                            &&& (cr@ == tr@ ==> r is Ok && (final(self).current_layout matches Some(
                                c,
                            ) && c@ == name) && final(self).layout_register == old(
                                self,
                            ).layout_register && final(self).default_layout == old(
                                self,
                            ).default_layout && ({
                                let info = spec_layout_at(old(self).layout_register@, name)->Some_0;
                                &&& final(self).qubit_to_tweezer is Some
                                &&& (forall|q: usize| #![auto]
                                    spec_qmap_get(final(self).spec_qmap(), q) == (
                                    if crate::layout::spec_site_used_st3(info, q) {
                                        Some(q)
                                    } else {
                                        None::<usize>
                                    }))
                                &&& final(self).spec_qmap().len()
                                    == crate::layout::spec_used_count_st3(
                                    info,
                                    crate::layout::spec_st3_bound(info),
                                )
                            }))
                        }))
                    }))
                },
            }),
            hqslang@ == "PragmaShiftQubitsTweezers"@ ==> (match spec_dec_moves(operation@) {
                None => r == Err::<(), QRydError>(QRydError::SerializationError),
                Some(moves) => {
                    &&& (old(self).qubit_to_tweezer is None ==> r == Err::<(), QRydError>(
                        QRydError::QubitNotFound,
                    ))
                    &&& (old(self).qubit_to_tweezer is Some && old(self).spec_current_info()
                        is None ==> r == Err::<(), QRydError>(QRydError::InvalidShift))
                    &&& ((old(self).qubit_to_tweezer is Some && old(self).spec_current_info()
                        is Some) ==> ({
                        let info = old(self).spec_current_info()->Some_0;
                        &&& (r is Ok <==> spec_moves_valid(info, old(self).spec_qmap(), moves)
                            && spec_apply_moves(info, old(self).spec_qmap(), moves) is Some)
                        &&& (r is Err ==> r == Err::<(), QRydError>(QRydError::InvalidShift))
                        &&& (r is Ok ==> final(self).spec_qmap() == spec_apply_moves(
                            info,
                            old(self).spec_qmap(),
                            moves,
                        )->Some_0 && final(self).layout_register == old(self).layout_register
                            && final(self).current_layout == old(self).current_layout)
                    }))
                },
            }),
    {
        proof {
            reveal_strlit("PragmaChangeQRydLayout");
            reveal_strlit("PragmaShiftQRydQubit");
            reveal_strlit("PragmaSwitchDeviceLayout");
            reveal_strlit("PragmaShiftQubitsTweezers");
            assert("PragmaChangeQRydLayout"@.len() == 22);
            assert("PragmaShiftQRydQubit"@.len() == 20);
            assert("PragmaSwitchDeviceLayout"@.len() == 24);
            assert("PragmaShiftQubitsTweezers"@.len() == 25);
        }
        if crate::strutil::str_eq(hqslang, "PragmaChangeQRydLayout") {
            let pragma = match crate::pragmas::PragmaChangeQRydLayout::from_bytes(operation) {
                Some(p) => p,
                None => {
                    return Err(QRydError::SerializationError);
                },
            };
            let name = crate::strutil::u64_to_string(pragma.new_layout() as u64);
            match self.switch_layout(name.as_str(), None) {
                Ok(_) => Ok(()),
                Err(e) => Err(e),
            }
        } else if crate::strutil::str_eq(hqslang, "PragmaSwitchDeviceLayout") {
            let pragma = match crate::pragmas::PragmaSwitchDeviceLayout::from_bytes(operation) {
                Some(p) => p,
                None => {
                    return Err(QRydError::SerializationError);
                },
            };
            let tidx = match self.find_layout(pragma.new_layout().as_str()) {
                Some(i) => i,
                None => {
                    return Err(QRydError::UnknownLayout);
                },
            };
            let cidx = match &self.current_layout {
                Some(c) => {
                    match self.find_layout(c.as_str()) {
                        Some(i) => i,
                        None => {
                            // A well-formed device registers its current
                            // layout, so this branch cannot be reached.
                            proof {
                                assert(false);
                            }
                            return Err(QRydError::NoLayoutSet);
                        },
                    }
                },
                None => {
                    return Err(QRydError::NoLayoutSet);
                },
            };
            let rows_equal: bool = match (
                &self.layout_register[cidx].1.per_row,
                &self.layout_register[tidx].1.per_row,
            ) {
                (Some(cr), Some(tr)) => crate::layout::usize_slices_eq(
                    cr.as_slice(),
                    tr.as_slice(),
                ),
                _ => {
                    return Err(QRydError::RowPartitionMissing);
                },
            };
            if !rows_equal {
                return Err(QRydError::RowPartitionMismatch);
            }
            match self.switch_layout(pragma.new_layout().as_str(), None) {
                Ok(_) => Ok(()),
                Err(e) => Err(e),
            }
        } else if crate::strutil::str_eq(hqslang, "PragmaShiftQubitsTweezers") {
            let pragma = match crate::pragmas::PragmaShiftQubitsTweezers::from_bytes(operation) {
                Some(p) => p,
                None => {
                    return Err(QRydError::SerializationError);
                },
            };
            let m: &Vec<(usize, usize)> = match &self.qubit_to_tweezer {
                Some(m) => m,
                None => {
                    return Err(QRydError::QubitNotFound);
                },
            };
            let info = match self.current_info() {
                Some(info) => info,
                None => {
                    return Err(QRydError::InvalidShift);
                },
            };
            let ghost ginfo = *info;
            let ghost m0 = m@;
            if !self.moves_listed(info, m, &pragma.shifts) {
                return Err(QRydError::InvalidShift);
            }
            let mut work: Vec<(usize, usize)> = vstd::slice::slice_to_vec(m.as_slice());
            let moves = &pragma.shifts;
            let mut i: usize = 0;
            proof {
                assert(moves@.take(0) =~= Seq::<(usize, usize)>::empty());
            }
            while i < moves.len()
                invariant
                    i <= moves@.len(),
                    *self == *old(self),
                    old(self).wf(),
                    hqslang@ == "PragmaShiftQubitsTweezers"@,
                    hqslang@ != "PragmaChangeQRydLayout"@,
                    hqslang@ != "PragmaShiftQRydQubit"@,
                    hqslang@ != "PragmaSwitchDeviceLayout"@,
                    spec_dec_moves(operation@) == Some(moves@),
                    old(self).qubit_to_tweezer is Some,
                    old(self).spec_qmap() == m0,
                    old(self).spec_current_info() == Some(ginfo),
                    spec_qmap_wf(m0),
                    spec_qmap_wf(work@),
                    ginfo == *info,
                    spec_apply_moves(ginfo, m0, moves@.take(i as int)) == Some(work@),
                decreases moves@.len() - i,
            {
                let (q, d) = moves[i];
                proof {
                    assert(moves@.take(i as int + 1) =~= moves@.take(i as int).push(
                        moves@[i as int],
                    ));
                    lemma_apply_moves_push(ginfo, m0, moves@.take(i as int), moves@[i as int]);
                }
                let site = match crate::mapping::qmap_get(&work, q) {
                    Some(s) => s,
                    None => {
                        proof {
                            assert(spec_one_move(ginfo, work@, (q, d)) is None);
                            assert(spec_apply_moves(ginfo, m0, moves@.take(i as int + 1))
                                is None);
                            lemma_apply_prefix_none(ginfo, m0, moves@, i as int + 1);
                        }
                        return Err(QRydError::InvalidShift);
                    },
                };
                let paths = match info.allowed_shifts_at(site) {
                    Some(p) => p,
                    None => {
                        proof {
                            assert(!spec_move_ok(ginfo, work@, q, site, d));
                            assert(spec_one_move(ginfo, work@, (q, d)) is None);
                            assert(spec_apply_moves(ginfo, m0, moves@.take(i as int + 1))
                                is None);
                            lemma_apply_prefix_none(ginfo, m0, moves@, i as int + 1);
                        }
                        return Err(QRydError::InvalidShift);
                    },
                };
                let moved = find_free_path(&work, q, paths, d);
                proof {
                    assert(crate::layout::spec_shifts_at(ginfo.shifts@, site) == Some(
                        paths.deep_view(),
                    ));
                    assert(moves@[i as int] == (q, d));
                    assert(spec_move_ok(ginfo, work@, q, site, d) == spec_some_path_free(
                        work@,
                        q,
                        paths.deep_view(),
                        d,
                    ));
                }
                if !moved {
                    proof {
                        assert(spec_one_move(ginfo, work@, (q, d)) is None);
                        assert(spec_apply_moves(ginfo, m0, moves@.take(i as int + 1)) is None);
                        lemma_apply_prefix_none(ginfo, m0, moves@, i as int + 1);
                    }
                    return Err(QRydError::InvalidShift);
                }
                proof {
                    assert(spec_move_ok(ginfo, work@, q, site, d));
                    let pv = paths.deep_view();
                    let pi = choose|pi: int|
                        0 <= pi < pv.len() && spec_path_free(work@, q, #[trigger] pv[pi], d);
                    assert(0 <= pi < pv.len() && spec_path_free(work@, q, pv[pi], d));
                    let k = choose|k: int|
                        0 <= k < pv[pi].len() && pv[pi][k] == d && (forall|j: int|
                            0 <= j <= k ==> spec_free_for(work@, q, #[trigger] pv[pi][j]));
                    assert(spec_free_for(work@, q, d));
                    crate::mapping::lemma_qmap_set_wf(work@, q, d);
                }
                let ghost work_before = work@;
                crate::mapping::qmap_set(&mut work, q, d);
                proof {
                    assert(spec_move_ok(ginfo, work_before, q, site, d));
                    assert(spec_one_move(ginfo, work_before, (q, d)) == Some(work@));
                    assert(spec_apply_moves(ginfo, m0, moves@.take(i as int + 1)) == Some(
                        work@,
                    ));
                }
                i += 1;
            }
            proof {
                assert(moves@.take(moves@.len() as int) =~= moves@);
            }
            self.qubit_to_tweezer = Some(work);
            Ok(())
        } else if crate::strutil::str_eq(hqslang, "PragmaShiftQRydQubit") {
            Err(QRydError::UnsupportedOperation)
        } else {
            Err(QRydError::UnsupportedOperation)
        }
    }
}

/// The moves decoded from a shift payload, if it is well formed.
pub open spec fn spec_dec_moves(s: Seq<u8>) -> Option<Seq<(usize, usize)>> {
    match crate::pragmas::spec_dec_usize(s, 0) {
        None => None,
        Some((n, p)) => match crate::pragmas::spec_dec_pairs(s, p, n as int) {
            None => None,
            Some((es, pe)) => Some(es),
        },
    }
}

/// A failing move makes the whole sequence fail.
pub proof fn lemma_apply_prefix_none(
    info: TweezerLayoutInfo,
    m: Seq<(usize, usize)>,
    moves: Seq<(usize, usize)>,
    i: int,
)
    requires
        0 <= i <= moves.len(),
        spec_apply_moves(info, m, moves.take(i)) is None,
    ensures
        spec_apply_moves(info, m, moves) is None,
    decreases i,
{
    lemma_apply_prefix_none_aux(info, m, moves, i, moves.len() as int);
    assert(moves.take(moves.len() as int) =~= moves);
}

/// A failing prefix of moves makes every longer prefix fail.
pub proof fn lemma_apply_prefix_none_aux(
    info: TweezerLayoutInfo,
    m: Seq<(usize, usize)>,
    moves: Seq<(usize, usize)>,
    i: int,
    j: int,
)
    requires
        0 <= i <= j <= moves.len(),
        spec_apply_moves(info, m, moves.take(i)) is None,
    ensures
        spec_apply_moves(info, m, moves.take(j)) is None,
    decreases j - i,
{
    if j > i {
        assert(moves.take(i + 1) =~= moves.take(i).push(moves[i]));
        lemma_apply_moves_push(info, m, moves.take(i), moves[i]);
        lemma_apply_prefix_none_aux(info, m, moves, i + 1, j);
    }
}


impl TweezerDevice {
    /// The layout registered under a name, if any.
    pub fn get_layout(&self, name: &str) -> (r: Option<&TweezerLayoutInfo>)
        ensures
            match r {
                Some(info) => spec_layout_at(self.layout_register@, name@) == Some(*info),
                None => spec_layout_at(self.layout_register@, name@) is None,
            },
    {
        match self.find_layout(name) {
            Some(i) => Some(&self.layout_register[i].1),
            None => None,
        }
    }

    /// How many distinct sites carry at least one gate time in the given
    /// layout, or in the current layout when no name is given. Fails with
    /// `NoLayoutSet` when neither exists and with `UnknownLayout` for an
    /// unregistered name.
    pub fn number_tweezer_positions(&self, layout_name: Option<String>) -> (r: Result<
        usize,
        QRydError,
    >)
        ensures
            self.spec_target_name(layout_name) is None ==> r == Err::<usize, QRydError>(
                QRydError::NoLayoutSet,
            ),
            (self.spec_target_name(layout_name) matches Some(n) && spec_layout_at(
                self.layout_register@,
                n,
            ) is None) ==> r == Err::<usize, QRydError>(QRydError::UnknownLayout),
            (self.spec_target_name(layout_name) matches Some(n) && spec_layout_at(
                self.layout_register@,
                n,
            ) is Some) ==> ({
                let info = spec_layout_at(
                    self.layout_register@,
                    self.spec_target_name(layout_name)->Some_0,
                )->Some_0;
                r == Ok::<usize, QRydError>(
                    crate::layout::spec_used_count_all(
                        info,
                        crate::layout::spec_all_bound(info),
                    ) as usize,
                )
            }),
    {
        let target: String = match layout_name {
            Some(n) => n,
            None => match &self.current_layout {
                Some(c) => c.clone(),
                None => {
                    return Err(QRydError::NoLayoutSet);
                },
            },
        };
        match self.find_layout(target.as_str()) {
            Some(i) => {
                proof {
                    assert forall|t: usize|
                        crate::layout::spec_site_used(self.layout_register@[i as int].1, t)
                            implies t < crate::layout::spec_all_bound(
                        self.layout_register@[i as int].1,
                    ) by {
                        crate::layout::lemma_used_below_all_bound(
                            self.layout_register@[i as int].1,
                            t,
                        );
                    }
                }
                Ok(self.layout_register[i].1.count_used_sites())
            },
            None => Err(QRydError::UnknownLayout),
        }
    }

    /// The names of the gates with at least one recorded time in the given
    /// layout, or in the current layout when no name is given. Fails with
    /// `NoLayoutSet` when neither exists; an unregistered name yields an
    /// empty list.
    pub fn get_available_gates_names(&self, layout_name: Option<String>) -> (r: Result<
        Vec<String>,
        QRydError,
    >)
        ensures
            self.spec_target_name(layout_name) is None ==> r == Err::<Vec<String>, QRydError>(
                QRydError::NoLayoutSet,
            ),
            (self.spec_target_name(layout_name) matches Some(n) && spec_layout_at(
                self.layout_register@,
                n,
            ) is None) ==> (r matches Ok(v) && v@.len() == 0),
            (self.spec_target_name(layout_name) matches Some(n) && spec_layout_at(
                self.layout_register@,
                n,
            ) is Some) ==> ({
                let info = spec_layout_at(
                    self.layout_register@,
                    self.spec_target_name(layout_name)->Some_0,
                )->Some_0;
                r matches Ok(v) && v.deep_view() == crate::layout::spec_gate_names(info)
            }),
    {
        let target: String = match layout_name {
            Some(n) => n,
            None => match &self.current_layout {
                Some(c) => c.clone(),
                None => {
                    return Err(QRydError::NoLayoutSet);
                },
            },
        };
        match self.find_layout(target.as_str()) {
            Some(i) => Ok(self.layout_register[i].1.gate_names()),
            None => Ok(Vec::new()),
        }
    }
}

/// The permissive editing view of a tweezer device: layouts, gate times,
/// geometry and shifts are assembled through its public field before the
/// device is promoted to the runtime view.
#[derive(Clone, Debug)]
pub struct TweezerMutableDevice {
    /// The device under construction.
    pub device: TweezerDevice,
}

impl TweezerMutableDevice {
    /// Starts a device under construction; the arguments are those of
    /// [`TweezerDevice::new`].
    pub fn new(
        seed: Option<usize>,
        controlled_z_phase_relation: Option<String>,
        controlled_phase_phase_relation: Option<String>,
    ) -> (r: Self)
        ensures
            r.device.wf(),
            r.device.layout_register@.len() == 0,
            r.device.current_layout is None,
            r.device.default_layout is None,
            r.device.qubit_to_tweezer is None,
            r.device.seed == seed,
    {
        TweezerMutableDevice {
            device: TweezerDevice::new(
                seed,
                controlled_z_phase_relation,
                controlled_phase_phase_relation,
            ),
        }
    }
}

impl TweezerDevice {
    /// Promotes a device under construction to the runtime view, taking over
    /// all layouts, gate times, the current and default layout, and the seed.
    pub fn from_mutable(builder: TweezerMutableDevice) -> (r: Self)
        ensures
            r == builder.device,
    {
        builder.device
    }
}

/// A predecessor of the tweezer device: the same layout registry and qubit
/// assignment, but created with a layout named "Default" already registered
/// and in force.
#[derive(Clone, Debug)]
pub struct ExperimentalDevice {
    /// The underlying device state.
    pub device: TweezerDevice,
}

impl ExperimentalDevice {
    /// Creates a device with one empty layout named "Default", which is the
    /// current layout, and no qubit assignment.
    pub fn new() -> (r: Self)
        ensures
            r.device.wf(),
            r.device.layout_register@.len() == 1,
            (r.device.current_layout matches Some(c) && c@ == "Default"@),
            (spec_layout_at(r.device.layout_register@, "Default"@) matches Some(info)
                && info.single@.len() == 0 && info.two@.len() == 0 && info.three@.len() == 0
                && info.multi@.len() == 0 && info.shifts@.len() == 0 && info.per_row is None),
            r.device.qubit_to_tweezer is None,
            r.device.default_layout is None,
    {
        let mut device = TweezerDevice::new(None, None, None);
        let added = device.add_layout("Default");
        proof {
            assert(added is Ok);
        }
        let switched = device.switch_layout("Default", Some(false));
        proof {
            assert(switched is Ok);
        }
        ExperimentalDevice { device }
    }

    /// Makes a registered layout the current one, keeping the qubit
    /// assignment; fails with `UnknownLayout` for an unregistered name.
    pub fn switch_layout(&mut self, name: &str) -> (r: Result<(), QRydError>)
        requires
            old(self).device.wf(),
        ensures
            final(self).device.wf(),
            r is Ok <==> spec_layout_at(old(self).device.layout_register@, name@) is Some,
            r is Err ==> *final(self) == *old(self) && r == Err::<(), QRydError>(
                QRydError::UnknownLayout,
            ),
            r is Ok ==> (final(self).device.current_layout matches Some(c) && c@ == name@)
                && final(self).device.layout_register == old(self).device.layout_register
                && final(self).device.qubit_to_tweezer == old(self).device.qubit_to_tweezer
                && final(self).device.default_layout == old(self).device.default_layout,
    {
        match self.device.find_layout(name) {
            Some(i) => {
                self.device.current_layout = Some(name.to_owned());
                proof {
                    lemma_layout_at_present(self.device.layout_register@, i as int, name@);
                }
                Ok(())
            },
            None => Err(QRydError::UnknownLayout),
        }
    }

    /// Registers a new empty layout; fails with `DuplicateLayout` when the
    /// name is taken, leaving the device unchanged.
    pub fn add_layout(&mut self, name: &str) -> (r: Result<(), QRydError>)
        requires
            old(self).device.wf(),
        ensures
            final(self).device.wf(),
            r is Ok <==> spec_layout_at(old(self).device.layout_register@, name@) is None,
            r is Err ==> *final(self) == *old(self) && r == Err::<(), QRydError>(
                QRydError::DuplicateLayout,
            ),
            r is Ok ==> ({
                &&& final(self).device.layout_register@.len() == old(
                    self,
                ).device.layout_register@.len() + 1
                &&& (spec_layout_at(final(self).device.layout_register@, name@) matches Some(info)
                    && info.single@.len() == 0 && info.two@.len() == 0 && info.three@.len() == 0
                    && info.multi@.len() == 0 && info.shifts@.len() == 0 && info.per_row is None)
                &&& (forall|n2: Seq<char>|
                    n2 != name@ ==> spec_layout_at(final(self).device.layout_register@, n2)
                        == spec_layout_at(old(self).device.layout_register@, n2))
                &&& final(self).device.qubit_to_tweezer == old(self).device.qubit_to_tweezer
                &&& final(self).device.current_layout == old(self).device.current_layout
                &&& final(self).device.default_layout == old(self).device.default_layout
                &&& final(self).device.controlled_z_phase_relation == old(
                    self,
                ).device.controlled_z_phase_relation
                &&& final(self).device.controlled_phase_phase_relation == old(
                    self,
                ).device.controlled_phase_phase_relation
                &&& final(self).device.allow_reset == old(self).device.allow_reset
                &&& final(self).device.device_name == old(self).device.device_name
                &&& final(self).device.seed == old(self).device.seed
            }),
    {
        self.device.add_layout(name)
    }

    /// Assigns a qubit to a tweezer of the current layout; the tweezer must
    /// carry gate-time data and must not be held by another qubit.
    pub fn add_qubit_tweezer_mapping(&mut self, qubit: usize, tweezer: usize) -> (r: Result<
        (),
        QRydError,
    >)
        requires
            old(self).device.wf(),
        ensures
            final(self).device.wf(),
            r is Err ==> *final(self) == *old(self),
            r is Ok <==> (old(self).device.spec_current_info() matches Some(info)
                && crate::layout::spec_site_used(info, tweezer) && (
            crate::mapping::spec_qmap_holder(old(self).device.spec_qmap(), tweezer) is None
                || crate::mapping::spec_qmap_holder(old(self).device.spec_qmap(), tweezer) == Some(
                qubit,
            ))),
            r is Ok ==> spec_qmap_get(final(self).device.spec_qmap(), qubit) == Some(tweezer) && (
            forall|q2: usize|
                q2 != qubit ==> spec_qmap_get(final(self).device.spec_qmap(), q2) == spec_qmap_get(
                    old(self).device.spec_qmap(),
                    q2,
                )),
    {
        match self.device.add_qubit_tweezer_mapping(qubit, tweezer) {
            Ok(_) => Ok(()),
            Err(e) => Err(e),
        }
    }

    /// The tweezer a qubit is assigned to.
    pub fn get_tweezer_from_qubit(&self, qubit: &usize) -> (r: Result<usize, QRydError>)
        ensures
            r == (match spec_qmap_get(self.device.spec_qmap(), *qubit) {
                Some(t) => Ok::<usize, QRydError>(t),
                None => Err::<usize, QRydError>(QRydError::QubitNotFound),
            }),
    {
        self.device.get_tweezer_from_qubit(qubit)
    }

    /// Records the time of a single-qubit gate; see
    /// [`TweezerDevice::set_tweezer_single_qubit_gate_time`].
    pub fn set_tweezer_single_qubit_gate_time(
        &mut self,
        hqslang: &str,
        tweezer: usize,
        gate_time: u64,
        layout_name: Option<String>,
    ) -> (r: Result<(), QRydError>)
        requires
            old(self).device.wf(),
        ensures
            final(self).device.wf(),
            r is Err ==> *final(self) == *old(self),
            r is Ok <==> (spec_single_gate_of(hqslang@) is Some && (old(
                self,
            ).device.spec_target_name(layout_name) matches Some(n) && spec_layout_at(
                old(self).device.layout_register@,
                n,
            ) is Some)),
            spec_single_gate_of(hqslang@) is None ==> r == Err::<(), QRydError>(QRydError::UnknownGate),
            spec_single_gate_of(hqslang@) is Some && old(self).device.spec_target_name(layout_name)
                is None ==> r == Err::<(), QRydError>(QRydError::NoLayoutSet),
            spec_single_gate_of(hqslang@) is Some && (old(self).device.spec_target_name(layout_name)
                matches Some(n) && spec_layout_at(old(self).device.layout_register@, n) is None)
                ==> r == Err::<(), QRydError>(QRydError::UnknownLayout),
            r is Ok ==> ({
                let n = old(self).device.spec_target_name(layout_name)->Some_0;
                let g = spec_single_gate_of(hqslang@)->Some_0;
                let info = spec_layout_at(old(self).device.layout_register@, n)->Some_0;
                &&& (spec_layout_at(final(self).device.layout_register@, n) matches Some(info2)
                    && info2.single@ == crate::layout::spec_single_without(
                    info.single@,
                    g,
                    tweezer,
                ).push(
                    (SingleEntry { gate: g, tweezer, time: gate_time }),
                ) && info2.two == info.two && info2.three == info.three && info2.multi
                    == info.multi && info2.shifts == info.shifts && info2.per_row == info.per_row)
                &&& (forall|n2: Seq<char>|
                    n2 != n ==> spec_layout_at(final(self).device.layout_register@, n2)
                        == spec_layout_at(old(self).device.layout_register@, n2))
                &&& final(self).device.qubit_to_tweezer == old(self).device.qubit_to_tweezer
                &&& final(self).device.current_layout == old(self).device.current_layout
                &&& final(self).device.default_layout == old(self).device.default_layout
                &&& final(self).device.layout_register@.len() == old(
                    self,
                ).device.layout_register@.len()
            }),
    {
        self.device.set_tweezer_single_qubit_gate_time(hqslang, tweezer, gate_time, layout_name)
    }

    /// Records the time of a two-qubit gate; see
    /// [`TweezerDevice::set_tweezer_two_qubit_gate_time`].
    pub fn set_tweezer_two_qubit_gate_time(
        &mut self,
        hqslang: &str,
        tweezer0: usize,
        tweezer1: usize,
        gate_time: u64,
        layout_name: Option<String>,
    ) -> (r: Result<(), QRydError>)
        requires
            old(self).device.wf(),
        ensures
            final(self).device.wf(),
            r is Err ==> *final(self) == *old(self),
            r is Ok <==> (spec_two_gate_of(hqslang@) is Some && (old(self).device.spec_target_name(
                layout_name,
            ) matches Some(n) && spec_layout_at(old(self).device.layout_register@, n) is Some)),
            spec_two_gate_of(hqslang@) is None ==> r == Err::<(), QRydError>(QRydError::UnknownGate),
            spec_two_gate_of(hqslang@) is Some && old(self).device.spec_target_name(layout_name)
                is None ==> r == Err::<(), QRydError>(QRydError::NoLayoutSet),
            spec_two_gate_of(hqslang@) is Some && (old(self).device.spec_target_name(layout_name)
                matches Some(n) && spec_layout_at(old(self).device.layout_register@, n) is None)
                ==> r == Err::<(), QRydError>(QRydError::UnknownLayout),
            r is Ok ==> ({
                let n = old(self).device.spec_target_name(layout_name)->Some_0;
                let g = spec_two_gate_of(hqslang@)->Some_0;
                let info = spec_layout_at(old(self).device.layout_register@, n)->Some_0;
                &&& (spec_layout_at(final(self).device.layout_register@, n) matches Some(info2)
                    && info2.two@ == crate::layout::spec_two_without(
                    info.two@,
                    g,
                    tweezer0,
                    tweezer1,
                ).push(
                    (TwoEntry { gate: g, tweezer0, tweezer1, time: gate_time }),
                ) && info2.single == info.single && info2.three == info.three && info2.multi
                    == info.multi && info2.shifts == info.shifts && info2.per_row == info.per_row)
                &&& (forall|n2: Seq<char>|
                    n2 != n ==> spec_layout_at(final(self).device.layout_register@, n2)
                        == spec_layout_at(old(self).device.layout_register@, n2))
                &&& final(self).device.qubit_to_tweezer == old(self).device.qubit_to_tweezer
                &&& final(self).device.current_layout == old(self).device.current_layout
                &&& final(self).device.default_layout == old(self).device.default_layout
                &&& final(self).device.layout_register@.len() == old(
                    self,
                ).device.layout_register@.len()
            }),
    {
        self.device.set_tweezer_two_qubit_gate_time(
            hqslang,
            tweezer0,
            tweezer1,
            gate_time,
            layout_name,
        )
    }

    /// Records the time of a three-qubit gate; see
    /// [`TweezerDevice::set_tweezer_three_qubit_gate_time`].
    pub fn set_tweezer_three_qubit_gate_time(
        &mut self,
        hqslang: &str,
        tweezer0: usize,
        tweezer1: usize,
        tweezer2: usize,
        gate_time: u64,
        layout_name: Option<String>,
    ) -> (r: Result<(), QRydError>)
        requires
            old(self).device.wf(),
        ensures
            final(self).device.wf(),
            r is Err ==> *final(self) == *old(self),
            r is Ok <==> (spec_three_gate_of(hqslang@) is Some && (old(
                self,
            ).device.spec_target_name(layout_name) matches Some(n) && spec_layout_at(
                old(self).device.layout_register@,
                n,
            ) is Some)),
            spec_three_gate_of(hqslang@) is None ==> r == Err::<(), QRydError>(QRydError::UnknownGate),
            spec_three_gate_of(hqslang@) is Some && old(self).device.spec_target_name(layout_name)
                is None ==> r == Err::<(), QRydError>(QRydError::NoLayoutSet),
            spec_three_gate_of(hqslang@) is Some && (old(self).device.spec_target_name(layout_name)
                matches Some(n) && spec_layout_at(old(self).device.layout_register@, n) is None)
                ==> r == Err::<(), QRydError>(QRydError::UnknownLayout),
            r is Ok ==> ({
                let n = old(self).device.spec_target_name(layout_name)->Some_0;
                let g = spec_three_gate_of(hqslang@)->Some_0;
                let info = spec_layout_at(old(self).device.layout_register@, n)->Some_0;
                &&& (spec_layout_at(final(self).device.layout_register@, n) matches Some(info2)
                    && info2.three@ == crate::layout::spec_three_without(
                    info.three@,
                    g,
                    tweezer0,
                    tweezer1,
                    tweezer2,
                ).push(
                    (ThreeEntry { gate: g, tweezer0, tweezer1, tweezer2, time: gate_time }),
                ) && info2.single == info.single && info2.two == info.two && info2.multi
                    == info.multi && info2.shifts == info.shifts && info2.per_row == info.per_row)
                &&& (forall|n2: Seq<char>|
                    n2 != n ==> spec_layout_at(final(self).device.layout_register@, n2)
                        == spec_layout_at(old(self).device.layout_register@, n2))
                &&& final(self).device.qubit_to_tweezer == old(self).device.qubit_to_tweezer
                &&& final(self).device.current_layout == old(self).device.current_layout
                &&& final(self).device.default_layout == old(self).device.default_layout
                &&& final(self).device.layout_register@.len() == old(
                    self,
                ).device.layout_register@.len()
            }),
    {
        self.device.set_tweezer_three_qubit_gate_time(
            hqslang,
            tweezer0,
            tweezer1,
            tweezer2,
            gate_time,
            layout_name,
        )
    }

    /// Records the time of a multi-qubit gate; see
    /// [`TweezerDevice::set_tweezer_multi_qubit_gate_time`].
    pub fn set_tweezer_multi_qubit_gate_time(
        &mut self,
        hqslang: &str,
        tweezers: &[usize],
        gate_time: u64,
        layout_name: Option<String>,
    ) -> (r: Result<(), QRydError>)
        requires
            old(self).device.wf(),
        ensures
            final(self).device.wf(),
            r is Err ==> *final(self) == *old(self),
            r is Ok <==> (spec_multi_gate_of(hqslang@) is Some && (old(
                self,
            ).device.spec_target_name(layout_name) matches Some(n) && spec_layout_at(
                old(self).device.layout_register@,
                n,
            ) is Some)),
            spec_multi_gate_of(hqslang@) is None ==> r == Err::<(), QRydError>(QRydError::UnknownGate),
            spec_multi_gate_of(hqslang@) is Some && old(self).device.spec_target_name(layout_name)
                is None ==> r == Err::<(), QRydError>(QRydError::NoLayoutSet),
            spec_multi_gate_of(hqslang@) is Some && (old(self).device.spec_target_name(layout_name)
                matches Some(n) && spec_layout_at(old(self).device.layout_register@, n) is None)
                ==> r == Err::<(), QRydError>(QRydError::UnknownLayout),
            r is Ok ==> ({
                let n = old(self).device.spec_target_name(layout_name)->Some_0;
                let g = spec_multi_gate_of(hqslang@)->Some_0;
                let info = spec_layout_at(old(self).device.layout_register@, n)->Some_0;
                &&& (spec_layout_at(final(self).device.layout_register@, n) matches Some(info2)
                    && info2.multi@.len() == crate::layout::spec_multi_without(
                    info.multi@,
                    g,
                    tweezers@,
                ).len() + 1 && info2.multi@.last().gate == g && info2.multi@.last().tweezers@
                    == tweezers@ && info2.multi@.last().time == gate_time
                    && info2.multi@.drop_last() == crate::layout::spec_multi_without(
                    info.multi@,
                    g,
                    tweezers@,
                ) && info2.single == info.single && info2.two == info.two && info2.three
                    == info.three && info2.shifts == info.shifts && info2.per_row == info.per_row)
                &&& (forall|n2: Seq<char>|
                    n2 != n ==> spec_layout_at(final(self).device.layout_register@, n2)
                        == spec_layout_at(old(self).device.layout_register@, n2))
                &&& final(self).device.qubit_to_tweezer == old(self).device.qubit_to_tweezer
                &&& final(self).device.current_layout == old(self).device.current_layout
                &&& final(self).device.default_layout == old(self).device.default_layout
                &&& final(self).device.layout_register@.len() == old(
                    self,
                ).device.layout_register@.len()
            }),
    {
        self.device.set_tweezer_multi_qubit_gate_time(hqslang, tweezers, gate_time, layout_name)
    }

    /// How many qubits are assigned to a tweezer.
    pub fn number_qubits(&self) -> (r: usize)
        ensures
            r == self.device.spec_qmap().len(),
    {
        self.device.number_qubits()
    }
}


/// The contents of a list of borrowed tweezer paths, as sequences.
pub open spec fn spec_paths_of(s: Seq<&[usize]>) -> Seq<Seq<usize>> {
    Seq::new(s.len(), |i: int| s[i]@)
}

/// Every tweezer named on any of the paths has gate-time data in the layout.
pub open spec fn spec_paths_sites_used(info: TweezerLayoutInfo, paths: Seq<Seq<usize>>) -> bool {
    forall|i: int, j: int|
        0 <= i < paths.len() && 0 <= j < paths[i].len() ==> crate::layout::spec_site_used(
            info,
            #[trigger] paths[i][j],
        )
}

/// No path names the origin tweezer itself.
pub open spec fn spec_paths_self_free(t: usize, paths: Seq<Seq<usize>>) -> bool {
    forall|i: int| 0 <= i < paths.len() ==> !(#[trigger] paths[i]).contains(t)
}

/// The leftward shift chain out of position j of a row: the predecessors of
/// the position, nearest first.
pub open spec fn spec_left_path(row: Seq<usize>, j: int) -> Seq<usize> {
    Seq::new(j as nat, |k: int| row[j - 1 - k])
}

/// The rightward shift chain out of position j of a row: the successors of
/// the position, nearest first.
pub open spec fn spec_right_path(row: Seq<usize>, j: int) -> Seq<usize> {
    Seq::new((row.len() - 1 - j) as nat, |k: int| row[j + 1 + k])
}

impl TweezerDevice {
    /// Records allowed shift paths out of a tweezer in the given layout, or
    /// in the current layout when no name is given, merging them into any
    /// paths already recorded and skipping duplicates. Fails with
    /// `NoLayoutSet` or `UnknownLayout` as the other setters do, with
    /// `SiteNotFound` when the origin or any path tweezer has no gate-time
    /// data in the layout, and with `InvalidShift` when a path names the
    /// origin itself; a failed call leaves the device unchanged.
    pub fn set_allowed_tweezer_shifts(
        &mut self,
        tweezer: &usize,
        allowed_shifts: &[&[usize]],
        layout_name: Option<String>,
    ) -> (r: Result<(), QRydError>)
        requires
            old(self).wf(),
        ensures
            final(self).wf(),
            r is Err ==> *final(self) == *old(self),
            old(self).spec_target_name(layout_name) is None ==> r == Err::<(), QRydError>(
                QRydError::NoLayoutSet,
            ),
            (old(self).spec_target_name(layout_name) matches Some(n) && spec_layout_at(
                old(self).layout_register@,
                n,
            ) is None) ==> r == Err::<(), QRydError>(QRydError::UnknownLayout),
            (old(self).spec_target_name(layout_name) matches Some(n) && spec_layout_at(
                old(self).layout_register@,
                n,
            ) is Some) ==> ({
                let n2 = old(self).spec_target_name(layout_name)->Some_0;
                let info = spec_layout_at(old(self).layout_register@, n2)->Some_0;
                let paths = spec_paths_of(allowed_shifts@);
                &&& (r is Ok <==> crate::layout::spec_site_used(info, *tweezer)
                    && spec_paths_sites_used(info, paths) && spec_paths_self_free(*tweezer, paths))
                &&& ((!crate::layout::spec_site_used(info, *tweezer) || !spec_paths_sites_used(
                    info,
                    paths,
                )) ==> r == Err::<(), QRydError>(QRydError::SiteNotFound))
                &&& ((crate::layout::spec_site_used(info, *tweezer) && spec_paths_sites_used(
                    info,
                    paths,
                ) && !spec_paths_self_free(*tweezer, paths)) ==> r == Err::<(), QRydError>(
                    QRydError::InvalidShift,
                ))
                &&& (r is Ok ==> ({
                    &&& (spec_layout_at(final(self).layout_register@, n2) matches Some(info2)
                        && info2.single == info.single && info2.two == info.two && info2.three
                        == info.three && info2.multi == info.multi && info2.per_row == info.per_row
                        && (crate::layout::spec_shifts_at(info2.shifts@, *tweezer) matches Some(m)
                        && (forall|pa: Seq<usize>| #![auto]
                        m.contains(pa) <==> ((crate::layout::spec_shifts_at(
                            info.shifts@,
                            *tweezer,
                        ) matches Some(m0) && m0.contains(pa)) || paths.contains(pa)))) && (
                    forall|t2: usize|
                        t2 != *tweezer ==> crate::layout::spec_shifts_at(info2.shifts@, t2)
                            == crate::layout::spec_shifts_at(info.shifts@, t2)))
                    &&& (forall|n3: Seq<char>|
                        n3 != n2 ==> spec_layout_at(final(self).layout_register@, n3)
                            == spec_layout_at(old(self).layout_register@, n3))
                    &&& final(self).qubit_to_tweezer == old(self).qubit_to_tweezer
                    &&& final(self).current_layout == old(self).current_layout
                    &&& final(self).default_layout == old(self).default_layout
                    &&& final(self).layout_register@.len() == old(self).layout_register@.len()
                }))
            }),
    {
        let ghost tn = old(self).spec_target_name(layout_name);
        let target: String = match layout_name {
            Some(n) => n,
            None => match &self.current_layout {
                Some(c) => c.clone(),
                None => {
                    return Err(QRydError::NoLayoutSet);
                },
            },
        };
        proof {
            assert(tn == Some(target@));
        }
        let idx = match self.find_layout(target.as_str()) {
            Some(i) => i,
            None => {
                return Err(QRydError::UnknownLayout);
            },
        };
        let ghost paths_spec = spec_paths_of(allowed_shifts@);
        let info_ref = &self.layout_register[idx].1;
        if !info_ref.site_used(*tweezer) {
            return Err(QRydError::SiteNotFound);
        }
        let mut i: usize = 0;
        while i < allowed_shifts.len()
            invariant
                *self == *old(self),
                old(self).wf(),
                old(self).spec_target_name(layout_name) == Some(target@),
                spec_layout_at(old(self).layout_register@, target@) == Some(
                    old(self).layout_register@[idx as int].1,
                ),
                crate::layout::spec_site_used(
                    old(self).layout_register@[idx as int].1,
                    *tweezer,
                ),
                i <= allowed_shifts@.len(),
                paths_spec == spec_paths_of(allowed_shifts@),
                idx < self.layout_register@.len(),
                forall|i2: int, j2: int|
                    0 <= i2 < i && 0 <= j2 < paths_spec[i2].len()
                        ==> crate::layout::spec_site_used(
                        self.layout_register@[idx as int].1,
                        #[trigger] paths_spec[i2][j2],
                    ),
            decreases allowed_shifts@.len() - i,
        {
            let path = allowed_shifts[i];
            let mut j: usize = 0;
            while j < path.len()
                invariant
                    *self == *old(self),
                old(self).wf(),
                old(self).spec_target_name(layout_name) == Some(target@),
                spec_layout_at(old(self).layout_register@, target@) == Some(
                    old(self).layout_register@[idx as int].1,
                ),
                crate::layout::spec_site_used(
                        old(self).layout_register@[idx as int].1,
                        *tweezer,
                    ),
                    paths_spec == spec_paths_of(allowed_shifts@),
                    i < allowed_shifts@.len(),
                    j <= path@.len(),
                    path@ == paths_spec[i as int],
                    idx < self.layout_register@.len(),
                    forall|j2: int|
                        0 <= j2 < j ==> crate::layout::spec_site_used(
                            self.layout_register@[idx as int].1,
                            #[trigger] paths_spec[i as int][j2],
                        ),
                decreases path@.len() - j,
            {
                if !self.layout_register[idx].1.site_used(path[j]) {
                    proof {
                        assert(!crate::layout::spec_site_used(
                            self.layout_register@[idx as int].1,
                            paths_spec[i as int][j as int],
                        ));
                        assert(!spec_paths_sites_used(
                            self.layout_register@[idx as int].1,
                            paths_spec,
                        ));
                    }
                    return Err(QRydError::SiteNotFound);
                }
                j += 1;
            }
            i += 1;
        }
        let mut i: usize = 0;
        while i < allowed_shifts.len()
            invariant
                *self == *old(self),
                old(self).wf(),
                old(self).spec_target_name(layout_name) == Some(target@),
                spec_layout_at(old(self).layout_register@, target@) == Some(
                    old(self).layout_register@[idx as int].1,
                ),
                crate::layout::spec_site_used(
                    old(self).layout_register@[idx as int].1,
                    *tweezer,
                ),
                spec_paths_sites_used(old(self).layout_register@[idx as int].1, paths_spec),
                i <= allowed_shifts@.len(),
                paths_spec == spec_paths_of(allowed_shifts@),
                idx < self.layout_register@.len(),
                forall|i2: int| 0 <= i2 < i ==> !(#[trigger] paths_spec[i2]).contains(*tweezer),
            decreases allowed_shifts@.len() - i,
        {
            if crate::layout::contains_usize(allowed_shifts[i], *tweezer) {
                proof {
                    assert(paths_spec[i as int].contains(*tweezer));
                }
                return Err(QRydError::InvalidShift);
            }
            i += 1;
        }
        let mut new_paths: Vec<Vec<usize>> = Vec::new();
        let mut i: usize = 0;
        while i < allowed_shifts.len()
            invariant
                i <= allowed_shifts@.len(),
                paths_spec == spec_paths_of(allowed_shifts@),
                new_paths.deep_view() == paths_spec.take(i as int),
            decreases allowed_shifts@.len() - i,
        {
            proof {
                assert(new_paths.deep_view().len() == new_paths@.len());
            }
            let path = vstd::slice::slice_to_vec(allowed_shifts[i]);
            new_paths.push(path);
            proof {
                assert(new_paths.deep_view() =~~= paths_spec.take(i as int + 1));
            }
            i += 1;
        }
        proof {
            assert(paths_spec.take(paths_spec.len() as int) =~= paths_spec);
        }
        let ghost reg_old = self.layout_register@;
        let mut entry = self.layout_register.remove(idx);
        entry.1.merge_allowed_shifts(*tweezer, &new_paths);
        self.layout_register.insert(idx, entry);
        proof {
            assert(self.layout_register@ =~= reg_old.update(
                idx as int,
                self.layout_register@[idx as int],
            ));
            lemma_layout_at_update(
                reg_old,
                idx as int,
                self.layout_register@[idx as int],
                target@,
            );
            assert forall|n3: Seq<char>|
                n3 != target@ implies spec_layout_at(self.layout_register@, n3) == spec_layout_at(
                reg_old,
                n3,
            ) by {
                lemma_layout_at_update(
                    reg_old,
                    idx as int,
                    self.layout_register@[idx as int],
                    n3,
                );
            }
        }
        Ok(())
    }

    /// Derives allowed shift paths from a row partition of the sites: each
    /// site of a row may shuttle toward either end of its row, through its
    /// neighbours in order. The derived paths are merged into the recorded
    /// ones. Fails with `NoLayoutSet` or `UnknownLayout` as the other
    /// setters do and with `SiteNotFound` when any named site has no
    /// gate-time data in the layout; a failed call leaves the device
    /// unchanged.
    pub fn set_allowed_tweezer_shifts_from_rows(
        &mut self,
        row_shifts: &[&[usize]],
        layout_name: Option<String>,
    ) -> (r: Result<(), QRydError>)
        requires
            old(self).wf(),
        ensures
            final(self).wf(),
            r is Err ==> *final(self) == *old(self),
            old(self).spec_target_name(layout_name) is None ==> r == Err::<(), QRydError>(
                QRydError::NoLayoutSet,
            ),
            (old(self).spec_target_name(layout_name) matches Some(n) && spec_layout_at(
                old(self).layout_register@,
                n,
            ) is None) ==> r == Err::<(), QRydError>(QRydError::UnknownLayout),
            (old(self).spec_target_name(layout_name) matches Some(n) && spec_layout_at(
                old(self).layout_register@,
                n,
            ) is Some) ==> ({
                let n2 = old(self).spec_target_name(layout_name)->Some_0;
                let info = spec_layout_at(old(self).layout_register@, n2)->Some_0;
                let rows = spec_paths_of(row_shifts@);
                &&& (r is Ok <==> spec_paths_sites_used(info, rows))
                &&& (!spec_paths_sites_used(info, rows) ==> r == Err::<(), QRydError>(
                    QRydError::SiteNotFound,
                ))
                &&& (r is Ok ==> ({
                    &&& (spec_layout_at(final(self).layout_register@, n2) matches Some(info2)
                        && info2.single == info.single && info2.two == info.two && info2.three
                        == info.three && info2.multi == info.multi && info2.per_row == info.per_row
                        && (forall|ri: int, j: int|
                        0 <= ri < rows.len() && 0 <= j < rows[ri].len() && (j > 0 || j
                            < rows[ri].len() - 1) ==> (crate::layout::spec_shifts_at(
                            info2.shifts@,
                            #[trigger] rows[ri][j],
                        ) matches Some(m) && (j > 0 ==> m.contains(spec_left_path(rows[ri], j)))
                            && (j < rows[ri].len() - 1 ==> m.contains(
                            spec_right_path(rows[ri], j),
                        )))))
                    &&& (forall|n3: Seq<char>|
                        n3 != n2 ==> spec_layout_at(final(self).layout_register@, n3)
                            == spec_layout_at(old(self).layout_register@, n3))
                    &&& final(self).qubit_to_tweezer == old(self).qubit_to_tweezer
                    &&& final(self).current_layout == old(self).current_layout
                    &&& final(self).default_layout == old(self).default_layout
                    &&& final(self).layout_register@.len() == old(self).layout_register@.len()
                }))
            }),
    {
        let ghost tn = old(self).spec_target_name(layout_name);
        let target: String = match layout_name {
            Some(n) => n,
            None => match &self.current_layout {
                Some(c) => c.clone(),
                None => {
                    return Err(QRydError::NoLayoutSet);
                },
            },
        };
        proof {
            assert(tn == Some(target@));
        }
        let idx = match self.find_layout(target.as_str()) {
            Some(i) => i,
            None => {
                return Err(QRydError::UnknownLayout);
            },
        };
        let ghost rows = spec_paths_of(row_shifts@);
        let mut i: usize = 0;
        while i < row_shifts.len()
            invariant
                *self == *old(self),
                old(self).wf(),
                old(self).spec_target_name(layout_name) == Some(target@),
                spec_layout_at(old(self).layout_register@, target@) == Some(
                    old(self).layout_register@[idx as int].1,
                ),
                i <= row_shifts@.len(),
                rows == spec_paths_of(row_shifts@),
                idx < self.layout_register@.len(),
                forall|i2: int, j2: int|
                    0 <= i2 < i && 0 <= j2 < rows[i2].len() ==> crate::layout::spec_site_used(
                        self.layout_register@[idx as int].1,
                        #[trigger] rows[i2][j2],
                    ),
            decreases row_shifts@.len() - i,
        {
            let row = row_shifts[i];
            let mut j: usize = 0;
            while j < row.len()
                invariant
                    *self == *old(self),
                old(self).wf(),
                old(self).spec_target_name(layout_name) == Some(target@),
                spec_layout_at(old(self).layout_register@, target@) == Some(
                    old(self).layout_register@[idx as int].1,
                ),
                rows == spec_paths_of(row_shifts@),
                    i < row_shifts@.len(),
                    j <= row@.len(),
                    row@ == rows[i as int],
                    idx < self.layout_register@.len(),
                    forall|j2: int|
                        0 <= j2 < j ==> crate::layout::spec_site_used(
                            self.layout_register@[idx as int].1,
                            #[trigger] rows[i as int][j2],
                        ),
                decreases row@.len() - j,
            {
                if !self.layout_register[idx].1.site_used(row[j]) {
                    proof {
                        assert(!crate::layout::spec_site_used(
                            self.layout_register@[idx as int].1,
                            rows[i as int][j as int],
                        ));
                        assert(!spec_paths_sites_used(
                            self.layout_register@[idx as int].1,
                            rows,
                        ));
                    }
                    return Err(QRydError::SiteNotFound);
                }
                j += 1;
            }
            i += 1;
        }
        let ghost reg_old = self.layout_register@;
        let mut entry = self.layout_register.remove(idx);
        let ghost info0 = entry.1;
        let mut ri: usize = 0;
        while ri < row_shifts.len()
            invariant
                reg_old == old(self).layout_register@,
                old(self).wf(),
                idx < reg_old.len(),
                old(self).spec_target_name(layout_name) == Some(target@),
                spec_layout_at(old(self).layout_register@, target@) == Some(
                    reg_old[idx as int].1,
                ),
                info0 == reg_old[idx as int].1,
                entry.0 == reg_old[idx as int].0,
                self.layout_register@ == reg_old.remove(idx as int),
                self.qubit_to_tweezer == old(self).qubit_to_tweezer,
                self.current_layout == old(self).current_layout,
                self.default_layout == old(self).default_layout,
                self.controlled_z_phase_relation == old(self).controlled_z_phase_relation,
                self.controlled_phase_phase_relation == old(
                    self,
                ).controlled_phase_phase_relation,
                self.allow_reset == old(self).allow_reset,
                self.device_name == old(self).device_name,
                self.seed == old(self).seed,
                ri <= row_shifts@.len(),
                rows == spec_paths_of(row_shifts@),
                entry.1.single == info0.single,
                entry.1.two == info0.two,
                entry.1.three == info0.three,
                entry.1.multi == info0.multi,
                entry.1.per_row == info0.per_row,
                forall|ri2: int, j2: int|
                    0 <= ri2 < ri && 0 <= j2 < rows[ri2].len() && (j2 > 0 || j2 < rows[ri2].len()
                        - 1) ==> (crate::layout::spec_shifts_at(
                        entry.1.shifts@,
                        #[trigger] rows[ri2][j2],
                    ) matches Some(m) && (j2 > 0 ==> m.contains(spec_left_path(rows[ri2], j2)))
                        && (j2 < rows[ri2].len() - 1 ==> m.contains(
                        spec_right_path(rows[ri2], j2),
                    ))),
            decreases row_shifts@.len() - ri,
        {
            let row = row_shifts[ri];
            let row_total = row.len();
            proof {
                assert(row_total == row@.len());
            }
            let mut j: usize = 0;
            while j < row.len()
                invariant
                    reg_old == old(self).layout_register@,
                old(self).wf(),
                idx < reg_old.len(),
                old(self).spec_target_name(layout_name) == Some(target@),
                spec_layout_at(old(self).layout_register@, target@) == Some(
                    reg_old[idx as int].1,
                ),
                info0 == reg_old[idx as int].1,
                entry.0 == reg_old[idx as int].0,
                self.layout_register@ == reg_old.remove(idx as int),
                self.qubit_to_tweezer == old(self).qubit_to_tweezer,
                self.current_layout == old(self).current_layout,
                self.default_layout == old(self).default_layout,
                self.controlled_z_phase_relation == old(self).controlled_z_phase_relation,
                self.controlled_phase_phase_relation == old(
                    self,
                ).controlled_phase_phase_relation,
                self.allow_reset == old(self).allow_reset,
                self.device_name == old(self).device_name,
                self.seed == old(self).seed,
                ri < row_shifts@.len(),
                    j <= row@.len(),
                    row@.len() <= usize::MAX,
                    row@ == rows[ri as int],
                    rows == spec_paths_of(row_shifts@),
                    entry.1.single == info0.single,
                    entry.1.two == info0.two,
                    entry.1.three == info0.three,
                    entry.1.multi == info0.multi,
                    entry.1.per_row == info0.per_row,
                    forall|ri2: int, j2: int|
                        0 <= ri2 < ri && 0 <= j2 < rows[ri2].len() && (j2 > 0 || j2 < rows[ri2].len() - 1) ==> (crate::layout::spec_shifts_at(
                            entry.1.shifts@,
                            #[trigger] rows[ri2][j2],
                        ) matches Some(m) && (j2 > 0 ==> m.contains(spec_left_path(rows[ri2], j2)))
                            && (j2 < rows[ri2].len() - 1 ==> m.contains(
                            spec_right_path(rows[ri2], j2),
                        ))),
                    forall|j2: int|
                        0 <= j2 < j && (j2 > 0 || j2 < rows[ri as int].len() - 1) ==> (
                        crate::layout::spec_shifts_at(
                            entry.1.shifts@,
                            #[trigger] rows[ri as int][j2],
                        ) matches Some(m) && (j2 > 0 ==> m.contains(
                            spec_left_path(rows[ri as int], j2),
                        )) && (j2 < rows[ri as int].len() - 1 ==> m.contains(
                            spec_right_path(rows[ri as int], j2),
                        ))),
                decreases row@.len() - j,
            {
                let mut paths: Vec<Vec<usize>> = Vec::new();
                let mut left: Vec<usize> = Vec::new();
                let mut k: usize = 0;
                while k < j
                    invariant
                        ri < rows.len(),
                        j < row@.len(),
                        row@.len() <= usize::MAX,
                        k <= j,
                        row@ == rows[ri as int],
                        left@ == spec_left_path(row@, j as int).take(k as int),
                    decreases j - k,
                {
                    left.push(row[j - 1 - k]);
                    proof {
                        assert(left@ =~= spec_left_path(row@, j as int).take(k as int + 1));
                    }
                    k += 1;
                }
                proof {
                    assert(spec_left_path(row@, j as int).take(j as int) =~= spec_left_path(
                        row@,
                        j as int,
                    ));
                }
                let mut right: Vec<usize> = Vec::new();
                let mut k: usize = 0;
                let right_len = row.len() - 1 - j;
                while k < right_len
                    invariant
                        ri < rows.len(),
                        j < row@.len(),
                        row@.len() <= usize::MAX,
                        right_len == row@.len() - 1 - j,
                        k <= right_len,
                        row@ == rows[ri as int],
                        right@ == spec_right_path(row@, j as int).take(k as int),
                    decreases right_len - k,
                {
                    right.push(row[j + 1 + k]);
                    proof {
                        assert(right@ =~= spec_right_path(row@, j as int).take(k as int + 1));
                    }
                    k += 1;
                }
                proof {
                    assert(spec_right_path(row@, j as int).take(
                        row@.len() - 1 - j as int,
                    ) =~= spec_right_path(row@, j as int));
                }
                let has_left = j > 0;
                let has_right = j + 1 < row.len();
                if has_left {
                    paths.push(left);
                }
                if has_right {
                    paths.push(right);
                }
                proof {
                    if has_left {
                        assert(paths.deep_view()[0] == spec_left_path(row@, j as int));
                        assert(paths.deep_view().contains(spec_left_path(row@, j as int)));
                    }
                    if has_right {
                        let ridx: int = if has_left { 1 } else { 0 };
                        assert(paths.deep_view()[ridx] == spec_right_path(row@, j as int));
                        assert(paths.deep_view().contains(spec_right_path(row@, j as int)));
                    }
                }
                let ghost shifts_before = entry.1.shifts@;
                if has_left || has_right {
                    entry.1.merge_allowed_shifts(row[j], &paths);
                }
                proof {
                    let site = rows[ri as int][j as int];
                    if has_left || has_right {
                        assert(crate::layout::spec_shifts_at(entry.1.shifts@, site) == Some(
                            entry.1.shifts@.last().shifts.deep_view(),
                        ));
                        if has_left {
                            assert(entry.1.shifts@.last().shifts.deep_view().contains(
                                spec_left_path(rows[ri as int], j as int),
                            ));
                        }
                        if has_right {
                            assert(entry.1.shifts@.last().shifts.deep_view().contains(
                                spec_right_path(rows[ri as int], j as int),
                            ));
                        }
                    }
                    assert forall|ri2: int, j2: int|
                        0 <= ri2 < ri && 0 <= j2 < rows[ri2].len() && (j2 > 0 || j2 < rows[ri2].len() - 1) implies (crate::layout::spec_shifts_at(
                        entry.1.shifts@,
                        #[trigger] rows[ri2][j2],
                    ) matches Some(m) && (j2 > 0 ==> m.contains(spec_left_path(rows[ri2], j2)))
                        && (j2 < rows[ri2].len() - 1 ==> m.contains(
                        spec_right_path(rows[ri2], j2),
                    ))) by {
                        if (has_left || has_right) && rows[ri2][j2] == site {
                            assert(crate::layout::spec_shifts_at(shifts_before, rows[ri2][j2])
                                matches Some(m0));
                        }
                    }
                    assert forall|j2: int|
                        0 <= j2 < j + 1 && (j2 > 0 || j2 < rows[ri as int].len() - 1) implies (
                    crate::layout::spec_shifts_at(
                        entry.1.shifts@,
                        #[trigger] rows[ri as int][j2],
                    ) matches Some(m) && (j2 > 0 ==> m.contains(spec_left_path(rows[ri as int], j2)))
                        && (j2 < rows[ri as int].len() - 1 ==> m.contains(
                        spec_right_path(rows[ri as int], j2),
                    ))) by {
                        if j2 < j && (has_left || has_right) && rows[ri as int][j2] == site {
                            assert(crate::layout::spec_shifts_at(shifts_before, rows[ri as int][j2])
                                matches Some(m0));
                        }
                    }
                }
                j += 1;
            }
            ri += 1;
        }
        self.layout_register.insert(idx, entry);
        proof {
            assert(self.layout_register@ =~= reg_old.update(
                idx as int,
                self.layout_register@[idx as int],
            ));
            lemma_layout_at_update(
                reg_old,
                idx as int,
                self.layout_register@[idx as int],
                target@,
            );
            assert forall|n3: Seq<char>|
                n3 != target@ implies spec_layout_at(self.layout_register@, n3) == spec_layout_at(
                reg_old,
                n3,
            ) by {
                lemma_layout_at_update(
                    reg_old,
                    idx as int,
                    self.layout_register@[idx as int],
                    n3,
                );
            }
        }
        Ok(())
    }
}

/// An entry whose name a lookup resolves proves the name is registered.
pub proof fn lemma_layout_at_present(s: Seq<(String, TweezerLayoutInfo)>, i: int, n: Seq<char>)
    requires
        0 <= i < s.len(),
        s[i].0@ == n,
    ensures
        spec_layout_at(s, n) is Some,
    decreases s.len(),
{
    if s.last().0@ != n {
        assert(forall|a: int| 0 <= a < s.len() - 1 ==> s.drop_last()[a] == s[a]);
        lemma_layout_at_present(s.drop_last(), i, n);
    }
}

} // verus!
