//! The native gate sets of the hardware, by arity.
//!
//! Gate names arrive as strings (the `hqslang` naming scheme); each arity has
//! a fixed whitelist. Parsing a name outside the whitelist fails, so all
//! internal tables are keyed by these enums rather than by raw strings.

use crate::strutil::str_eq;
use vstd::prelude::*;

verus! {

/// The native single-qubit gates.
#[derive(Clone, Copy, Debug, PartialEq, Eq, Structural)]
pub enum SingleQubitGate {
    /// The PhaseShiftState1 gate.
    PhaseShiftState1,
    /// The RotateX gate.
    RotateX,
    /// The RotateY gate.
    RotateY,
    /// The RotateZ gate.
    RotateZ,
    /// The RotateXY gate.
    RotateXY,
    /// The PauliX gate.
    PauliX,
    /// The PauliY gate.
    PauliY,
    /// The PauliZ gate.
    PauliZ,
    /// The SqrtPauliX gate.
    SqrtPauliX,
    /// The InvSqrtPauliX gate.
    InvSqrtPauliX,
}

/// The native two-qubit gates.
#[derive(Clone, Copy, Debug, PartialEq, Eq, Structural)]
pub enum TwoQubitGate {
    /// The PhaseShiftedControlledZ gate.
    PhaseShiftedControlledZ,
    /// The PhaseShiftedControlledPhase gate.
    PhaseShiftedControlledPhase,
    /// The CNOT gate.
    CNOT,
}

/// The native three-qubit gates.
#[derive(Clone, Copy, Debug, PartialEq, Eq, Structural)]
pub enum ThreeQubitGate {
    /// The ControlledControlledPauliZ gate.
    ControlledControlledPauliZ,
    /// The ControlledControlledPhaseShift gate.
    ControlledControlledPhaseShift,
}

/// The native multi-qubit gates.
#[derive(Clone, Copy, Debug, PartialEq, Eq, Structural)]
pub enum MultiQubitGate {
    /// The MultiQubitZZ gate.
    MultiQubitZZ,
}

/// Which single-qubit gate a name denotes, if any.
pub open spec fn spec_single_gate_of(name: Seq<char>) -> Option<SingleQubitGate> {
    if name == "PhaseShiftState1"@ {
        Some(SingleQubitGate::PhaseShiftState1)
    } else if name == "RotateX"@ {
        Some(SingleQubitGate::RotateX)
    } else if name == "RotateY"@ {
        Some(SingleQubitGate::RotateY)
    } else if name == "RotateZ"@ {
        Some(SingleQubitGate::RotateZ)
    } else if name == "RotateXY"@ {
        Some(SingleQubitGate::RotateXY)
    } else if name == "PauliX"@ {
        Some(SingleQubitGate::PauliX)
    } else if name == "PauliY"@ {
        Some(SingleQubitGate::PauliY)
    } else if name == "PauliZ"@ {
        Some(SingleQubitGate::PauliZ)
    } else if name == "SqrtPauliX"@ {
        Some(SingleQubitGate::SqrtPauliX)
    } else if name == "InvSqrtPauliX"@ {
        Some(SingleQubitGate::InvSqrtPauliX)
    } else {
        None
    }
}

/// Parses a single-qubit gate name against the native whitelist.
pub fn single_gate_of(name: &str) -> (r: Option<SingleQubitGate>)
    ensures
        r == spec_single_gate_of(name@),
{
    if str_eq(name, "PhaseShiftState1") {
        Some(SingleQubitGate::PhaseShiftState1)
    } else if str_eq(name, "RotateX") {
        Some(SingleQubitGate::RotateX)
    } else if str_eq(name, "RotateY") {
        Some(SingleQubitGate::RotateY)
    } else if str_eq(name, "RotateZ") {
        Some(SingleQubitGate::RotateZ)
    } else if str_eq(name, "RotateXY") {
        Some(SingleQubitGate::RotateXY)
    } else if str_eq(name, "PauliX") {
        Some(SingleQubitGate::PauliX)
    } else if str_eq(name, "PauliY") {
        Some(SingleQubitGate::PauliY)
    } else if str_eq(name, "PauliZ") {
        Some(SingleQubitGate::PauliZ)
    } else if str_eq(name, "SqrtPauliX") {
        Some(SingleQubitGate::SqrtPauliX)
    } else if str_eq(name, "InvSqrtPauliX") {
        Some(SingleQubitGate::InvSqrtPauliX)
    } else {
        None
    }
}

/// The name of each single-qubit gate.
pub open spec fn spec_single_gate_name(g: SingleQubitGate) -> Seq<char> {
    match g {
        SingleQubitGate::PhaseShiftState1 => "PhaseShiftState1"@,
        SingleQubitGate::RotateX => "RotateX"@,
        SingleQubitGate::RotateY => "RotateY"@,
        SingleQubitGate::RotateZ => "RotateZ"@,
        SingleQubitGate::RotateXY => "RotateXY"@,
        SingleQubitGate::PauliX => "PauliX"@,
        SingleQubitGate::PauliY => "PauliY"@,
        SingleQubitGate::PauliZ => "PauliZ"@,
        SingleQubitGate::SqrtPauliX => "SqrtPauliX"@,
        SingleQubitGate::InvSqrtPauliX => "InvSqrtPauliX"@,
    }
}

/// Renders the name of a single-qubit gate.
pub fn single_gate_name(g: SingleQubitGate) -> (r: String)
    ensures
        r@ == spec_single_gate_name(g),
{
    match g {
        SingleQubitGate::PhaseShiftState1 => "PhaseShiftState1".to_owned(),
        SingleQubitGate::RotateX => "RotateX".to_owned(),
        SingleQubitGate::RotateY => "RotateY".to_owned(),
        SingleQubitGate::RotateZ => "RotateZ".to_owned(),
        SingleQubitGate::RotateXY => "RotateXY".to_owned(),
        SingleQubitGate::PauliX => "PauliX".to_owned(),
        SingleQubitGate::PauliY => "PauliY".to_owned(),
        SingleQubitGate::PauliZ => "PauliZ".to_owned(),
        SingleQubitGate::SqrtPauliX => "SqrtPauliX".to_owned(),
        SingleQubitGate::InvSqrtPauliX => "InvSqrtPauliX".to_owned(),
    }
}

/// Which two-qubit gate a name denotes, if any.
pub open spec fn spec_two_gate_of(name: Seq<char>) -> Option<TwoQubitGate> {
    if name == "PhaseShiftedControlledZ"@ {
        Some(TwoQubitGate::PhaseShiftedControlledZ)
    } else if name == "PhaseShiftedControlledPhase"@ {
        Some(TwoQubitGate::PhaseShiftedControlledPhase)
    } else if name == "CNOT"@ {
        Some(TwoQubitGate::CNOT)
    } else {
        None
    }
}

/// Parses a two-qubit gate name against the native whitelist.
pub fn two_gate_of(name: &str) -> (r: Option<TwoQubitGate>)
    ensures
        r == spec_two_gate_of(name@),
{
    if str_eq(name, "PhaseShiftedControlledZ") {
        Some(TwoQubitGate::PhaseShiftedControlledZ)
    } else if str_eq(name, "PhaseShiftedControlledPhase") {
        Some(TwoQubitGate::PhaseShiftedControlledPhase)
    } else if str_eq(name, "CNOT") {
        Some(TwoQubitGate::CNOT)
    } else {
        None
    }
}

/// The name of each two-qubit gate.
pub open spec fn spec_two_gate_name(g: TwoQubitGate) -> Seq<char> {
    match g {
        TwoQubitGate::PhaseShiftedControlledZ => "PhaseShiftedControlledZ"@,
        TwoQubitGate::PhaseShiftedControlledPhase => "PhaseShiftedControlledPhase"@,
        TwoQubitGate::CNOT => "CNOT"@,
    }
}

/// Renders the name of a two-qubit gate.
pub fn two_gate_name(g: TwoQubitGate) -> (r: String)
    ensures
        r@ == spec_two_gate_name(g),
{
    match g {
        TwoQubitGate::PhaseShiftedControlledZ => "PhaseShiftedControlledZ".to_owned(),
        TwoQubitGate::PhaseShiftedControlledPhase => "PhaseShiftedControlledPhase".to_owned(),
        TwoQubitGate::CNOT => "CNOT".to_owned(),
    }
}

/// Which three-qubit gate a name denotes, if any.
pub open spec fn spec_three_gate_of(name: Seq<char>) -> Option<ThreeQubitGate> {
    if name == "ControlledControlledPauliZ"@ {
        Some(ThreeQubitGate::ControlledControlledPauliZ)
    } else if name == "ControlledControlledPhaseShift"@ {
        Some(ThreeQubitGate::ControlledControlledPhaseShift)
    } else {
        None
    }
}

/// Parses a three-qubit gate name against the native whitelist.
pub fn three_gate_of(name: &str) -> (r: Option<ThreeQubitGate>)
    ensures
        r == spec_three_gate_of(name@),
{
    if str_eq(name, "ControlledControlledPauliZ") {
        Some(ThreeQubitGate::ControlledControlledPauliZ)
    } else if str_eq(name, "ControlledControlledPhaseShift") {
        Some(ThreeQubitGate::ControlledControlledPhaseShift)
    } else {
        None
    }
}

/// The name of each three-qubit gate.
pub open spec fn spec_three_gate_name(g: ThreeQubitGate) -> Seq<char> {
    match g {
        ThreeQubitGate::ControlledControlledPauliZ => "ControlledControlledPauliZ"@,
        ThreeQubitGate::ControlledControlledPhaseShift => "ControlledControlledPhaseShift"@,
    }
}

/// Renders the name of a three-qubit gate.
pub fn three_gate_name(g: ThreeQubitGate) -> (r: String)
    ensures
        r@ == spec_three_gate_name(g),
{
    match g {
        ThreeQubitGate::ControlledControlledPauliZ => "ControlledControlledPauliZ".to_owned(),
        ThreeQubitGate::ControlledControlledPhaseShift => "ControlledControlledPhaseShift".to_owned(),
    }
}

/// Which multi-qubit gate a name denotes, if any.
pub open spec fn spec_multi_gate_of(name: Seq<char>) -> Option<MultiQubitGate> {
    if name == "MultiQubitZZ"@ {
        Some(MultiQubitGate::MultiQubitZZ)
    } else {
        None
    }
}

/// Parses a multi-qubit gate name against the native whitelist.
pub fn multi_gate_of(name: &str) -> (r: Option<MultiQubitGate>)
    ensures
        r == spec_multi_gate_of(name@),
{
    if str_eq(name, "MultiQubitZZ") {
        Some(MultiQubitGate::MultiQubitZZ)
    } else {
        None
    }
}

/// The name of each multi-qubit gate.
pub open spec fn spec_multi_gate_name(g: MultiQubitGate) -> Seq<char> {
    match g {
        MultiQubitGate::MultiQubitZZ => "MultiQubitZZ"@,
    }
}

/// Renders the name of a multi-qubit gate.
pub fn multi_gate_name(g: MultiQubitGate) -> (r: String)
    ensures
        r@ == spec_multi_gate_name(g),
{
    match g {
        MultiQubitGate::MultiQubitZZ => "MultiQubitZZ".to_owned(),
    }
}

} // verus!
