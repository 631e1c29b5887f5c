//! The grid-based device: a fixed lattice of rows and columns whose qubits
//! sit at (row, column) positions, with numbered layouts of per-site values.
//!
//! Values that the hardware model derives from positions with real-valued
//! arithmetic (two-qubit gate times from physical distances, and everything
//! built on them) live outside this crate; here the grid, the occupation and
//! the reconfiguration rules are modeled exactly. Distances, the row spacing
//! and the cutoff are carried as opaque 64-bit payloads.

use crate::error::QRydError;
use crate::gates::spec_multi_gate_of;
use crate::gates::spec_single_gate_of;
use crate::gates::multi_gate_of;
use crate::gates::single_gate_of;
use vstd::prelude::*;

verus! {

/// Duration reported for a native single-qubit gate, as the bit pattern
/// of a one-microsecond duration.
pub const FIRST_SINGLE_GATE_TIME: u64 = 0x3EB0C6F7A0B5ED8D;

/// Duration reported for the native multi-qubit gate, as the bit pattern
/// of a twenty-microsecond duration.
pub const FIRST_MULTI_GATE_TIME: u64 = 0x3EF4F8B588E368F1;

/// The initial distance cutoff for two-qubit gates, as the bit pattern of a
/// unit distance.
pub const FIRST_DEFAULT_CUTOFF: u64 = 0x3FF0000000000000;

/// One layout of the grid device: a value per lattice position, row-major.
#[derive(Clone, Debug)]
pub struct LayoutGrid {
    /// The number of rows.
    pub rows: usize,
    /// The number of columns.
    pub columns: usize,
    /// The per-position values, row-major; the length is rows times columns.
    pub values: Vec<u64>,
}

impl LayoutGrid {
    /// The length of the value table matches the grid dimensions.
    pub open spec fn wf(self) -> bool {
        self.values@.len() == self.rows * self.columns
    }
}

/// The position recorded for a qubit: last record wins.
pub open spec fn spec_pos_get(s: Seq<(usize, (usize, usize))>, q: usize) -> Option<(usize, usize)>
    decreases s.len(),
{
    if s.len() == 0 {
        None
    } else if s.last().0 == q {
        Some(s.last().1)
    } else {
        spec_pos_get(s.drop_last(), q)
    }
}

/// The grid registered under a number: last record wins.
pub open spec fn spec_grid_at(s: Seq<(usize, LayoutGrid)>, k: usize) -> Option<LayoutGrid>
    decreases s.len(),
{
    if s.len() == 0 {
        None
    } else if s.last().0 == k {
        Some(s.last().1)
    } else {
        spec_grid_at(s.drop_last(), k)
    }
}

/// The total number of qubits over all rows.
pub open spec fn spec_sum(counts: Seq<usize>) -> int
    decreases counts.len(),
{
    if counts.len() == 0 {
        0
    } else {
        spec_sum(counts.drop_last()) + counts.last()
    }
}

/// The initial occupation: the first `counts[r]` positions of each row `r`
/// hold consecutively numbered qubits, rows first.
pub open spec fn spec_positions(counts: Seq<usize>) -> Seq<(usize, (usize, usize))>
    decreases counts.len(),
{
    if counts.len() == 0 {
        Seq::empty()
    } else {
        let pre = spec_positions(counts.drop_last());
        let base = spec_sum(counts.drop_last());
        let row = counts.len() - 1;
        pre + Seq::new(
            counts.last() as nat,
            |i: int| (((base + i) as usize, ((row) as usize, i as usize))),
        )
    }
}

/// Looks up the position recorded for a qubit.
pub fn pos_get(v: &Vec<(usize, (usize, usize))>, q: usize) -> (r: Option<(usize, usize)>)
    ensures
        r == spec_pos_get(v@, q),
{
    let mut i: usize = v.len();
    proof {
        assert(v@.take(i as int) =~= v@);
    }
    while i > 0
        invariant
            i <= v@.len(),
            spec_pos_get(v@, q) == spec_pos_get(v@.take(i as int), q),
        decreases i,
    {
        proof {
            assert(v@.take(i as int).last() == v@[i - 1]);
            assert(v@.take(i as int).drop_last() =~= v@.take(i as int - 1));
        }
        let e = v[i - 1];
        if e.0 == q {
            return Some(e.1);
        }
        i -= 1;
    }
    proof {
        assert(v@.take(0) =~= Seq::<(usize, (usize, usize))>::empty());
    }
    None
}

/// A prototype device on a two-dimensional grid of optical tweezers.
#[derive(Clone, Debug)]
pub struct FirstDevice {
    /// The fixed number of rows.
    pub number_rows: usize,
    /// The fixed number of tweezer positions per row.
    pub number_columns: usize,
    /// The (row, column) position of each qubit.
    pub qubit_positions: Vec<(usize, (usize, usize))>,
    /// The distance between rows, as an opaque 64-bit payload.
    pub row_distance: u64,
    /// The numbered layouts; each holds a value per lattice position.
    pub layout_register: Vec<(usize, LayoutGrid)>,
    /// The number of the layout in force.
    pub current_layout: usize,
    /// The distance cutoff for two-qubit gates, as an opaque 64-bit payload.
    pub cutoff: u64,
    /// The phase relation of the controlled-Z gate.
    pub controlled_z_phase_relation: String,
    /// The phase relation of the controlled-phase gate.
    pub controlled_phase_phase_relation: String,
    /// Whether the device allows the doubly-controlled Z gate.
    pub allow_ccz_gate: bool,
    /// Whether the device allows the doubly-controlled phase-shift gate.
    pub allow_ccp_gate: bool,
}

impl FirstDevice {
    /// The registered grids have pairwise distinct numbers and the right
    /// dimensions, the current layout is registered, and every qubit sits
    /// inside the grid with pairwise distinct qubit numbers.
    pub open spec fn wf(self) -> bool {
        &&& (forall|i: int, j: int|
            0 <= i < j < self.layout_register@.len() ==> self.layout_register@[i].0
                != self.layout_register@[j].0)
        &&& (forall|i: int|
            0 <= i < self.layout_register@.len() ==> (#[trigger] self.layout_register@[i].1).wf()
                && self.layout_register@[i].1.rows == self.number_rows
                && self.layout_register@[i].1.columns == self.number_columns)
        &&& spec_grid_at(self.layout_register@, self.current_layout) is Some
        &&& (forall|i: int, j: int|
            0 <= i < j < self.qubit_positions@.len() ==> self.qubit_positions@[i].0
                != self.qubit_positions@[j].0)
    }

    /// Creates the device: the occupation list must name one count per row
    /// and no count may exceed the column number; the initial layout must
    /// match the grid dimensions. The first `counts[r]` positions of row `r`
    /// hold consecutively numbered qubits. Fails with `DimensionMismatch` on
    /// any violated constraint, and the phase relations default to the named
    /// relation "DefaultRelation".
    pub fn new(
        number_rows: usize,
        number_columns: usize,
        qubits_per_row: &[usize],
        row_distance: u64,
        initial_layout: LayoutGrid,
        controlled_z_phase_relation: Option<String>,
        controlled_phase_phase_relation: Option<String>,
        allow_ccz_gate: Option<bool>,
        allow_ccp_gate: Option<bool>,
    ) -> (r: Result<Self, QRydError>)
        requires
            spec_sum(qubits_per_row@) <= usize::MAX,
        ensures
            r is Ok <==> (qubits_per_row@.len() == number_rows && (forall|i: int|
                0 <= i < qubits_per_row@.len() ==> #[trigger] qubits_per_row@[i]
                    <= number_columns) && initial_layout.rows == number_rows
                && initial_layout.columns == number_columns && initial_layout.wf()),
            r is Err ==> r == Err::<FirstDevice, QRydError>(QRydError::DimensionMismatch),
            r matches Ok(d) ==> ({
                &&& d.wf()
                &&& d.number_rows == number_rows
                &&& d.number_columns == number_columns
                &&& d.qubit_positions@ == spec_positions(qubits_per_row@)
                &&& d.row_distance == row_distance
                &&& d.layout_register@.len() == 1
                &&& spec_grid_at(d.layout_register@, 0) == Some(initial_layout)
                &&& d.current_layout == 0
                &&& d.cutoff == FIRST_DEFAULT_CUTOFF
                &&& d.controlled_z_phase_relation@ == (match controlled_z_phase_relation {
                    Some(s) => s@,
                    None => "DefaultRelation"@,
                })
                &&& d.controlled_phase_phase_relation@ == (
                match controlled_phase_phase_relation {
                    Some(s) => s@,
                    None => "DefaultRelation"@,
                })
                &&& d.allow_ccz_gate == (match allow_ccz_gate {
                    Some(b) => b,
                    None => true,
                })
                &&& d.allow_ccp_gate == (match allow_ccp_gate {
                    Some(b) => b,
                    None => false,
                })
            }),
    {
        if qubits_per_row.len() != number_rows {
            return Err(QRydError::DimensionMismatch);
        }
        let mut r: usize = 0;
        while r < qubits_per_row.len()
            invariant
                r <= qubits_per_row@.len(),
                forall|i: int| 0 <= i < r ==> #[trigger] qubits_per_row@[i] <= number_columns,
            decreases qubits_per_row@.len() - r,
        {
            if qubits_per_row[r] > number_columns {
                proof {
                    assert(qubits_per_row@[r as int] > number_columns);
                }
                return Err(QRydError::DimensionMismatch);
            }
            r += 1;
        }
        if initial_layout.rows != number_rows || initial_layout.columns != number_columns {
            return Err(QRydError::DimensionMismatch);
        }
        let cell_count = initial_layout.values.len();
        match initial_layout.rows.checked_mul(initial_layout.columns) {
            Some(cells) => {
                if cell_count != cells {
                    return Err(QRydError::DimensionMismatch);
                }
            },
            None => {
                proof {
                    assert(cell_count <= usize::MAX);
                    assert(!initial_layout.wf());
                }
                return Err(QRydError::DimensionMismatch);
            },
        }
        let mut positions: Vec<(usize, (usize, usize))> = Vec::new();
        let mut base: usize = 0;
        let mut row: usize = 0;
        proof {
            assert(qubits_per_row@.take(0) =~= Seq::<usize>::empty());
            assert(positions@ =~= spec_positions(qubits_per_row@.take(0)));
        }
        while row < qubits_per_row.len()
            invariant
                row <= qubits_per_row@.len(),
                spec_sum(qubits_per_row@) <= usize::MAX,
                base == spec_sum(qubits_per_row@.take(row as int)),
                positions@ == spec_positions(qubits_per_row@.take(row as int)),
            decreases qubits_per_row@.len() - row,
        {
            let count = qubits_per_row[row];
            proof {
                assert(qubits_per_row@.take(row as int + 1).drop_last() =~= qubits_per_row@.take(
                    row as int,
                ));
                assert(qubits_per_row@.take(row as int + 1).last() == qubits_per_row@[row as int]);
                lemma_sum_take_bound(qubits_per_row@, row as int + 1);
            }
            let ghost prefix = positions@;
            let mut i: usize = 0;
            while i < count
                invariant
                    i <= count,
                    count == qubits_per_row@[row as int],
                    base + count <= usize::MAX,
                    positions@ == prefix + Seq::new(
                        i as nat,
                        |k: int| (((base + k) as usize, ((row) as usize, k as usize))),
                    ),
                decreases count - i,
            {
                positions.push((base + i, (row, i)));
                proof {
                    assert(positions@ =~= prefix + Seq::new(
                        (i + 1) as nat,
                        |k: int| (((base + k) as usize, ((row) as usize, k as usize))),
                    ));
                }
                i += 1;
            }
            base = base + count;
            row += 1;
        }
        proof {
            assert(qubits_per_row@.take(qubits_per_row@.len() as int) =~= qubits_per_row@);
            lemma_positions_keys(qubits_per_row@);
        }
        let cz = match controlled_z_phase_relation {
            Some(s) => s,
            None => "DefaultRelation".to_owned(),
        };
        let cp = match controlled_phase_phase_relation {
            Some(s) => s,
            None => "DefaultRelation".to_owned(),
        };
        let mut layout_register: Vec<(usize, LayoutGrid)> = Vec::new();
        layout_register.push((0, initial_layout));
        let d = FirstDevice {
            number_rows,
            number_columns,
            qubit_positions: positions,
            row_distance,
            layout_register,
            current_layout: 0,
            cutoff: FIRST_DEFAULT_CUTOFF,
            controlled_z_phase_relation: cz,
            controlled_phase_phase_relation: cp,
            allow_ccz_gate: match allow_ccz_gate {
                Some(b) => b,
                None => true,
            },
            allow_ccp_gate: match allow_ccp_gate {
                Some(b) => b,
                None => false,
            },
        };
        proof {
            assert(d.layout_register@.drop_last() =~= Seq::<(usize, LayoutGrid)>::empty());
        }
        Ok(d)
    }

    /// The number of rows of the grid.
    pub fn number_rows(&self) -> (r: usize)
        ensures
            r == self.number_rows,
    {
        self.number_rows
    }

    /// The number of tweezer positions per row.
    pub fn number_columns(&self) -> (r: usize)
        ensures
            r == self.number_columns,
    {
        self.number_columns
    }

    /// The position of each qubit in the grid.
    pub fn qubit_positions(&self) -> (r: &Vec<(usize, (usize, usize))>)
        ensures
            r == self.qubit_positions,
    {
        &self.qubit_positions
    }

    /// How many qubits sit in the grid.
    pub fn number_qubits(&self) -> (r: usize)
        ensures
            r == self.qubit_positions@.len(),
    {
        self.qubit_positions.len()
    }

    /// Records the distance cutoff for two-qubit gates.
    pub fn set_cutoff(&mut self, cutoff: u64)
        ensures
            *final(self) == (FirstDevice { cutoff, ..*old(self) }),
    {
        self.cutoff = cutoff;
    }

    /// An exact copy of the device.
    pub fn duplicate(&self) -> (r: Self)
        ensures
            r.number_rows == self.number_rows,
            r.number_columns == self.number_columns,
            r.qubit_positions@ == self.qubit_positions@,
            r.row_distance == self.row_distance,
            r.layout_register@.len() == self.layout_register@.len(),
            forall|i: int|
                0 <= i < self.layout_register@.len() ==> (#[trigger] r.layout_register@[i]).0
                    == self.layout_register@[i].0 && r.layout_register@[i].1.rows
                    == self.layout_register@[i].1.rows && r.layout_register@[i].1.columns
                    == self.layout_register@[i].1.columns && r.layout_register@[i].1.values@
                    == self.layout_register@[i].1.values@,
            r.current_layout == self.current_layout,
            r.cutoff == self.cutoff,
            r.controlled_z_phase_relation@ == self.controlled_z_phase_relation@,
            r.controlled_phase_phase_relation@ == self.controlled_phase_phase_relation@,
            r.allow_ccz_gate == self.allow_ccz_gate,
            r.allow_ccp_gate == self.allow_ccp_gate,
    {
        let mut reg: Vec<(usize, LayoutGrid)> = Vec::new();
        let mut i: usize = 0;
        while i < self.layout_register.len()
            invariant
                i <= self.layout_register@.len(),
                reg@.len() == i,
                forall|j: int|
                    0 <= j < i ==> (#[trigger] reg@[j]).0 == self.layout_register@[j].0
                        && reg@[j].1.rows == self.layout_register@[j].1.rows && reg@[j].1.columns
                        == self.layout_register@[j].1.columns && reg@[j].1.values@
                        == self.layout_register@[j].1.values@,
            decreases self.layout_register@.len() - i,
        {
            let entry = &self.layout_register[i];
            reg.push(
                (
                    entry.0,
                    LayoutGrid {
                        rows: entry.1.rows,
                        columns: entry.1.columns,
                        values: vstd::slice::slice_to_vec(entry.1.values.as_slice()),
                    },
                ),
            );
            i += 1;
        }
        FirstDevice {
            number_rows: self.number_rows,
            number_columns: self.number_columns,
            qubit_positions: vstd::slice::slice_to_vec(self.qubit_positions.as_slice()),
            row_distance: self.row_distance,
            layout_register: reg,
            current_layout: self.current_layout,
            cutoff: self.cutoff,
            controlled_z_phase_relation: self.controlled_z_phase_relation.clone(),
            controlled_phase_phase_relation: self.controlled_phase_phase_relation.clone(),
            allow_ccz_gate: self.allow_ccz_gate,
            allow_ccp_gate: self.allow_ccp_gate,
        }
    }

    /// A copy of the device with one more numbered layout. Fails with
    /// `DuplicateLayout` when the number is taken and with
    /// `DimensionMismatch` when the grid does not match the device's
    /// dimensions; the device itself is never changed.
    pub fn add_layout(&self, layout_number: usize, layout: LayoutGrid) -> (r: Result<
        Self,
        QRydError,
    >)
        requires
            self.wf(),
        ensures
            r is Ok <==> (spec_grid_at(self.layout_register@, layout_number) is None
                && layout.rows == self.number_rows && layout.columns == self.number_columns
                && layout.wf()),
            (spec_grid_at(self.layout_register@, layout_number) is Some) ==> r == Err::<
                FirstDevice,
                QRydError,
            >(QRydError::DuplicateLayout),
            (spec_grid_at(self.layout_register@, layout_number) is None && !(layout.rows
                == self.number_rows && layout.columns == self.number_columns && layout.wf())) ==> r
                == Err::<FirstDevice, QRydError>(QRydError::DimensionMismatch),
            r matches Ok(d) ==> ({
                &&& d.wf()
                &&& d.layout_register@.len() == self.layout_register@.len() + 1
                &&& spec_grid_at(d.layout_register@, layout_number) == Some(layout)
                &&& (forall|k: usize|
                    k != layout_number ==> ((spec_grid_at(d.layout_register@, k) is Some
                        <==> #[trigger] spec_grid_at(self.layout_register@, k) is Some) && (
                    spec_grid_at(d.layout_register@, k) is Some ==> ({
                        let ga = spec_grid_at(d.layout_register@, k)->Some_0;
                        let gb = spec_grid_at(self.layout_register@, k)->Some_0;
                        ga.rows == gb.rows && ga.columns == gb.columns && ga.values@ == gb.values@
                    }))))
                &&& d.qubit_positions@ == self.qubit_positions@
                &&& d.current_layout == self.current_layout
                &&& d.number_rows == self.number_rows
                &&& d.number_columns == self.number_columns
                &&& d.row_distance == self.row_distance
                &&& d.cutoff == self.cutoff
                &&& d.controlled_z_phase_relation@ == self.controlled_z_phase_relation@
                &&& d.controlled_phase_phase_relation@ == self.controlled_phase_phase_relation@
                &&& d.allow_ccz_gate == self.allow_ccz_gate
                &&& d.allow_ccp_gate == self.allow_ccp_gate
            }),
    {
        match self.grid_index(layout_number) {
            Some(_) => Err(QRydError::DuplicateLayout),
            None => {
                if layout.rows != self.number_rows || layout.columns != self.number_columns {
                    return Err(QRydError::DimensionMismatch);
                }
                let cell_count = layout.values.len();
                match layout.rows.checked_mul(layout.columns) {
                    Some(cells) => {
                        if cell_count != cells {
                            return Err(QRydError::DimensionMismatch);
                        }
                    },
                    None => {
                        proof {
                            assert(cell_count <= usize::MAX);
                            assert(!layout.wf());
                        }
                        return Err(QRydError::DimensionMismatch);
                    },
                }
                let mut d = self.duplicate();
                let ghost reg_old = d.layout_register@;
                d.layout_register.push((layout_number, layout));
                proof {
                    assert(d.layout_register@.drop_last() =~= reg_old);
                    assert forall|k: usize| k != layout_number implies ((spec_grid_at(
                        d.layout_register@,
                        k,
                    ) is Some <==> #[trigger] spec_grid_at(self.layout_register@, k) is Some) && (
                    spec_grid_at(d.layout_register@, k) is Some ==> ({
                        let ga = spec_grid_at(d.layout_register@, k)->Some_0;
                        let gb = spec_grid_at(self.layout_register@, k)->Some_0;
                        ga.rows == gb.rows && ga.columns == gb.columns && ga.values@ == gb.values@
                    }))) by {
                        lemma_grid_at_same(reg_old, self.layout_register@, k);
                        assert(spec_grid_at(d.layout_register@, k) == spec_grid_at(reg_old, k));
                    }
                    lemma_grid_at_same(reg_old, self.layout_register@, layout_number);
                    lemma_grid_at_same(reg_old, self.layout_register@, self.current_layout);
                    assert forall|i: int, j: int|
                        0 <= i < j < d.layout_register@.len() implies d.layout_register@[i].0
                        != d.layout_register@[j].0 by {
                        if j == d.layout_register@.len() - 1 {
                            if d.layout_register@[i].0 == layout_number {
                                lemma_grid_at_present(reg_old, i, layout_number);
                                lemma_grid_at_same(reg_old, self.layout_register@, layout_number);
                            }
                        }
                    }
                }
                Ok(d)
            },
        }
    }

    /// The position of the grid registered under a number, if any.
    fn grid_index(&self, k: usize) -> (r: Option<usize>)
        ensures
            match r {
                Some(i) => i < self.layout_register@.len() && self.layout_register@[i as int].0
                    == k && spec_grid_at(self.layout_register@, k) is Some,
                None => spec_grid_at(self.layout_register@, k) is None,
            },
    {
        let mut i: usize = self.layout_register.len();
        proof {
            assert(self.layout_register@.take(i as int) =~= self.layout_register@);
        }
        while i > 0
            invariant
                i <= self.layout_register@.len(),
                spec_grid_at(self.layout_register@, k) == spec_grid_at(
                    self.layout_register@.take(i as int),
                    k,
                ),
            decreases i,
        {
            proof {
                assert(self.layout_register@.take(i as int).last() == self.layout_register@[i
                    - 1]);
                assert(self.layout_register@.take(i as int).drop_last()
                    =~= self.layout_register@.take(i as int - 1));
            }
            if self.layout_register[i - 1].0 == k {
                return Some(i - 1);
            }
            i -= 1;
        }
        proof {
            assert(self.layout_register@.take(0) =~= Seq::<(usize, LayoutGrid)>::empty());
        }
        None
    }

    /// Makes a registered layout the one in force; fails with
    /// `UnknownLayout` for an unregistered number, leaving the device
    /// unchanged.
    pub fn switch_layout(&mut self, layout_number: &usize) -> (r: Result<(), QRydError>)
        requires
            old(self).wf(),
        ensures
            final(self).wf(),
            r is Ok <==> spec_grid_at(old(self).layout_register@, *layout_number) is Some,
            r is Err ==> *final(self) == *old(self) && r == Err::<(), QRydError>(
                QRydError::UnknownLayout,
            ),
            r is Ok ==> *final(self) == (FirstDevice {
                current_layout: *layout_number,
                ..*old(self)
            }),
    {
        match self.grid_index(*layout_number) {
            Some(_) => {
                self.current_layout = *layout_number;
                Ok(())
            },
            None => Err(QRydError::UnknownLayout),
        }
    }

    /// Moves the qubits to new positions: every qubit must keep its row, and
    /// the new table must name exactly the qubits of the device. Fails with
    /// `QubitNotFound` when a qubit is missing from, or foreign to, the new
    /// table, and with `DimensionMismatch` when a row changes; a failed call
    /// leaves the device unchanged.
    pub fn change_qubit_positions(&mut self, new_positions: &Vec<(usize, (usize, usize))>) -> (r:
        Result<(), QRydError>)
        requires
            old(self).wf(),
        ensures
            final(self).wf(),
            r is Err ==> *final(self) == *old(self) && (r == Err::<(), QRydError>(
                QRydError::QubitNotFound,
            ) || r == Err::<(), QRydError>(QRydError::DimensionMismatch)),
            r is Ok <==> ((forall|i: int|
                0 <= i < old(self).qubit_positions@.len() ==> (spec_pos_get(
                    new_positions@,
                    (#[trigger] old(self).qubit_positions@[i]).0,
                ) matches Some(p) && p.0 == old(self).qubit_positions@[i].1.0)) && (forall|i: int|
                0 <= i < new_positions@.len() ==> spec_pos_get(
                    old(self).qubit_positions@,
                    (#[trigger] new_positions@[i]).0,
                ) is Some) && (forall|a: int, b: int|
                0 <= a < b < new_positions@.len() ==> new_positions@[a].0
                    != new_positions@[b].0)),
            r is Ok ==> final(self).qubit_positions@ == new_positions@
                && final(self).layout_register == old(self).layout_register
                && final(self).current_layout == old(self).current_layout
                && final(self).number_rows == old(self).number_rows
                && final(self).number_columns == old(self).number_columns
                && final(self).cutoff == old(self).cutoff
                && final(self).row_distance == old(self).row_distance,
    {
        let mut i: usize = 0;
        while i < self.qubit_positions.len()
            invariant
                *self == *old(self),
                old(self).wf(),
                i <= self.qubit_positions@.len(),
                forall|j: int|
                    0 <= j < i ==> (spec_pos_get(
                        new_positions@,
                        (#[trigger] self.qubit_positions@[j]).0,
                    ) matches Some(p) && p.0 == self.qubit_positions@[j].1.0),
            decreases self.qubit_positions@.len() - i,
        {
            let (q, (old_row, _)) = self.qubit_positions[i];
            match pos_get(new_positions, q) {
                Some((new_row, _)) => {
                    if new_row != old_row {
                        return Err(QRydError::DimensionMismatch);
                    }
                },
                None => {
                    return Err(QRydError::QubitNotFound);
                },
            }
            proof {
                assert((spec_pos_get(new_positions@, self.qubit_positions@[i as int].0)
                    matches Some(p) && p.0 == self.qubit_positions@[i as int].1.0));
            }
            i += 1;
        }
        let mut i: usize = 0;
        while i < new_positions.len()
            invariant
                *self == *old(self),
                old(self).wf(),
                i <= new_positions@.len(),
                forall|j: int|
                    0 <= j < i ==> spec_pos_get(
                        self.qubit_positions@,
                        (#[trigger] new_positions@[j]).0,
                    ) is Some,
                forall|j: int|
                    0 <= j < old(self).qubit_positions@.len() ==> (spec_pos_get(
                        new_positions@,
                        (#[trigger] old(self).qubit_positions@[j]).0,
                    ) matches Some(p) && p.0 == old(self).qubit_positions@[j].1.0),
            decreases new_positions@.len() - i,
        {
            let (q, _) = new_positions[i];
            match pos_get(&self.qubit_positions, q) {
                Some(_) => {},
                None => {
                    return Err(QRydError::QubitNotFound);
                },
            }
            i += 1;
        }
        let mut i: usize = 0;
        while i < new_positions.len()
            invariant
                *self == *old(self),
                old(self).wf(),
                i <= new_positions@.len(),
                forall|a: int, b: int|
                    0 <= a < b < i ==> new_positions@[a].0 != new_positions@[b].0,
                forall|j: int|
                    0 <= j < new_positions@.len() ==> spec_pos_get(
                        self.qubit_positions@,
                        (#[trigger] new_positions@[j]).0,
                    ) is Some,
                forall|j: int|
                    0 <= j < old(self).qubit_positions@.len() ==> (spec_pos_get(
                        new_positions@,
                        (#[trigger] old(self).qubit_positions@[j]).0,
                    ) matches Some(p) && p.0 == old(self).qubit_positions@[j].1.0),
            decreases new_positions@.len() - i,
        {
            let q = new_positions[i].0;
            let mut j: usize = 0;
            while j < i
                invariant
                    *self == *old(self),
                    old(self).wf(),
                    j <= i,
                    i < new_positions@.len(),
                    q == new_positions@[i as int].0,
                    forall|a: int| 0 <= a < j ==> new_positions@[a].0 != q,
                decreases i - j,
            {
                if new_positions[j].0 == q {
                    proof {
                        assert(new_positions@[j as int].0 == q);
                    }
                    return Err(QRydError::DimensionMismatch);
                }
                j += 1;
            }
            i += 1;
        }
        let fresh = vstd::slice::slice_to_vec(new_positions.as_slice());
        self.qubit_positions = fresh;
        Ok(())
    }

    /// Duration of a native single-qubit gate on a qubit of the grid.
    pub fn single_qubit_gate_time(&self, hqslang: &str, qubit: &usize) -> (r: Option<u64>)
        ensures
            r == (if spec_single_gate_of(hqslang@) is Some && spec_pos_get(
                self.qubit_positions@,
                *qubit,
            ) is Some {
                Some(FIRST_SINGLE_GATE_TIME)
            } else {
                None::<u64>
            }),
    {
        if single_gate_of(hqslang).is_some() && pos_get(&self.qubit_positions, *qubit).is_some() {
            Some(FIRST_SINGLE_GATE_TIME)
        } else {
            None
        }
    }

    /// Duration of the native multi-qubit gate on a nonempty list of
    /// qubits that all sit in the grid on one common row.
    pub fn multi_qubit_gate_time(&self, hqslang: &str, qubits: &[usize]) -> (r: Option<u64>)
        ensures
            r == (if spec_multi_gate_of(hqslang@) is Some && qubits@.len() > 0 && (forall|i: int|
                0 <= i < qubits@.len() ==> spec_pos_get(
                    self.qubit_positions@,
                    #[trigger] qubits@[i],
                ) is Some) && (forall|i: int|
                0 <= i < qubits@.len() ==> (#[trigger] spec_pos_get(
                    self.qubit_positions@,
                    qubits@[i],
                ))->Some_0.0 == spec_pos_get(self.qubit_positions@, qubits@[0])->Some_0.0) {
                Some(FIRST_MULTI_GATE_TIME)
            } else {
                None::<u64>
            }),
    {
        if multi_gate_of(hqslang).is_none() {
            return None;
        }
        if qubits.len() == 0 {
            return None;
        }
        let first_row: usize = match pos_get(&self.qubit_positions, qubits[0]) {
            Some(p) => p.0,
            None => {
                return None;
            },
        };
        let mut i: usize = 0;
        while i < qubits.len()
            invariant
                i <= qubits@.len(),
                qubits@.len() > 0,
                spec_pos_get(self.qubit_positions@, qubits@[0]) is Some,
                first_row == spec_pos_get(self.qubit_positions@, qubits@[0])->Some_0.0,
                forall|j: int|
                    0 <= j < i ==> spec_pos_get(
                        self.qubit_positions@,
                        #[trigger] qubits@[j],
                    ) is Some && spec_pos_get(self.qubit_positions@, qubits@[j])->Some_0.0
                        == first_row,
            decreases qubits@.len() - i,
        {
            match pos_get(&self.qubit_positions, qubits[i]) {
                Some(p) => {
                    if p.0 != first_row {
                        proof {
                            assert(spec_pos_get(
                                self.qubit_positions@,
                                qubits@[i as int],
                            )->Some_0.0 != first_row);
                        }
                        return None;
                    }
                },
                None => {
                    proof {
                        assert(spec_pos_get(self.qubit_positions@, qubits@[i as int]) is None);
                    }
                    return None;
                },
            }
            i += 1;
        }
        Some(FIRST_MULTI_GATE_TIME)
    }

    /// Applies a named reconfiguration operation with a byte-encoded payload:
    /// a layout change by number, or new grid positions for the qubits. A
    /// failed call of any kind leaves the device exactly as it was.
    pub fn change_device(&mut self, hqslang: &str, operation: &[u8]) -> (r: Result<(), QRydError>)
        requires
            old(self).wf(),
        ensures
            final(self).wf(),
            r is Err ==> *final(self) == *old(self),
            (hqslang@ != "PragmaChangeQRydLayout"@ && hqslang@ != "PragmaShiftQRydQubit"@) ==> r
                == Err::<(), QRydError>(QRydError::UnsupportedOperation),
            hqslang@ == "PragmaChangeQRydLayout"@ ==> (match crate::pragmas::spec_dec_usize(
                operation@,
                0,
            ) {
                None => r == Err::<(), QRydError>(QRydError::SerializationError),
                Some((idx, p)) => {
                    &&& (r is Ok <==> spec_grid_at(old(self).layout_register@, idx) is Some)
                    &&& (spec_grid_at(old(self).layout_register@, idx) is None ==> r == Err::<
                        (),
                        QRydError,
                    >(QRydError::UnknownLayout))
                    &&& (r is Ok ==> *final(self) == (FirstDevice {
                        current_layout: idx,
                        ..*old(self)
                    }))
                },
            }),
            hqslang@ == "PragmaShiftQRydQubit"@ ==> (match crate::pragmas::spec_dec_usize(
                operation@,
                0,
            ) {
                None => r == Err::<(), QRydError>(QRydError::SerializationError),
                Some((n, p)) => match crate::pragmas::spec_dec_positions(operation@, p, n as int) {
                    None => r == Err::<(), QRydError>(QRydError::SerializationError),
                    Some((es, pe)) => {
                        &&& (r is Ok <==> ((forall|i: int|
                            0 <= i < old(self).qubit_positions@.len() ==> (spec_pos_get(
                                es,
                                (#[trigger] old(self).qubit_positions@[i]).0,
                            ) matches Some(pp) && pp.0 == old(self).qubit_positions@[i].1.0)) && (
                        forall|i: int|
                            0 <= i < es.len() ==> spec_pos_get(
                                old(self).qubit_positions@,
                                (#[trigger] es[i]).0,
                            ) is Some) && (forall|a: int, b: int|
                            0 <= a < b < es.len() ==> es[a].0 != es[b].0)))
                        &&& (r is Err ==> r == Err::<(), QRydError>(QRydError::QubitNotFound) || r
                            == Err::<(), QRydError>(QRydError::DimensionMismatch))
                        &&& (r is Ok ==> final(self).qubit_positions@ == es
                            && final(self).layout_register == old(self).layout_register
                            && final(self).current_layout == old(self).current_layout
                            && final(self).number_rows == old(self).number_rows
                            && final(self).number_columns == old(self).number_columns
                            && final(self).cutoff == old(self).cutoff
                            && final(self).row_distance == old(self).row_distance)
                    },
                },
            }),
    {
        proof {
            reveal_strlit("PragmaChangeQRydLayout");
            reveal_strlit("PragmaShiftQRydQubit");
            assert("PragmaChangeQRydLayout"@.len() == 22);
            assert("PragmaShiftQRydQubit"@.len() == 20);
        }
        if crate::strutil::str_eq(hqslang, "PragmaChangeQRydLayout") {
            let pragma = match crate::pragmas::PragmaChangeQRydLayout::from_bytes(operation) {
                Some(p) => p,
                None => {
                    return Err(QRydError::SerializationError);
                },
            };
            self.switch_layout(&pragma.new_layout())
        } else if crate::strutil::str_eq(hqslang, "PragmaShiftQRydQubit") {
            let pragma = match crate::pragmas::PragmaShiftQRydQubit::from_bytes(operation) {
                Some(p) => p,
                None => {
                    return Err(QRydError::SerializationError);
                },
            };
            self.change_qubit_positions(pragma.new_positions())
        } else {
            Err(QRydError::UnsupportedOperation)
        }
    }
}

/// The sum over any prefix stays within the total.
pub proof fn lemma_sum_take_bound(counts: Seq<usize>, n: int)
    requires
        0 <= n <= counts.len(),
    ensures
        spec_sum(counts.take(n)) <= spec_sum(counts),
        spec_sum(counts.take(n)) >= 0,
    decreases counts.len() - n,
{
    lemma_sum_nonneg(counts.take(n));
    if n < counts.len() {
        assert(counts.take(n + 1).drop_last() =~= counts.take(n));
        lemma_sum_take_bound(counts, n + 1);
    } else {
        assert(counts.take(n) =~= counts);
    }
}

/// A sum of counts is never negative.
pub proof fn lemma_sum_nonneg(counts: Seq<usize>)
    ensures
        spec_sum(counts) >= 0,
    decreases counts.len(),
{
    if counts.len() > 0 {
        lemma_sum_nonneg(counts.drop_last());
    }
}

/// The initial occupation numbers its qubits consecutively from zero, so the
/// qubit numbers are pairwise distinct.
pub proof fn lemma_positions_keys(counts: Seq<usize>)
    requires
        spec_sum(counts) <= usize::MAX,
    ensures
        spec_positions(counts).len() == spec_sum(counts),
        forall|i: int|
            0 <= i < spec_positions(counts).len() ==> (#[trigger] spec_positions(counts)[i]).0
                == i,
    decreases counts.len(),
{
    if counts.len() > 0 {
        lemma_sum_nonneg(counts.drop_last());
        lemma_positions_keys(counts.drop_last());
        let pre = spec_positions(counts.drop_last());
        let base = spec_sum(counts.drop_last());
        assert forall|i: int|
            0 <= i < spec_positions(counts).len() implies (#[trigger] spec_positions(
            counts,
        )[i]).0 == i by {
            if i >= pre.len() {
                assert(spec_positions(counts)[i] == (((base + (i - pre.len())) as usize, ((
                counts.len() - 1) as usize, (i - pre.len()) as usize))));
                assert(base + (i - pre.len()) <= spec_sum(counts));
            }
        }
    }
}

/// Two grid registries that are equal entrywise resolve every number alike.
pub proof fn lemma_grid_at_same(a: Seq<(usize, LayoutGrid)>, b: Seq<(usize, LayoutGrid)>, k: usize)
    requires
        a.len() == b.len(),
        forall|i: int|
            0 <= i < a.len() ==> (#[trigger] a[i]).0 == b[i].0 && a[i].1.rows == b[i].1.rows
                && a[i].1.columns == b[i].1.columns && a[i].1.values@ == b[i].1.values@,
    ensures
        spec_grid_at(a, k) is Some <==> spec_grid_at(b, k) is Some,
        spec_grid_at(a, k) is Some ==> ({
            let ga = spec_grid_at(a, k)->Some_0;
            let gb = spec_grid_at(b, k)->Some_0;
            ga.rows == gb.rows && ga.columns == gb.columns && ga.values@ == gb.values@
        }),
    decreases a.len(),
{
    if a.len() > 0 {
        assert(a[a.len() - 1] == a.last());
        if a.last().0 != k {
            assert(forall|i: int| 0 <= i < a.len() - 1 ==> a.drop_last()[i] == a[i]);
            assert(forall|i: int| 0 <= i < b.len() - 1 ==> b.drop_last()[i] == b[i]);
            lemma_grid_at_same(a.drop_last(), b.drop_last(), k);
        }
    }
}

/// An entry whose number a lookup resolves proves the number is registered.
pub proof fn lemma_grid_at_present(s: Seq<(usize, LayoutGrid)>, i: int, k: usize)
    requires
        0 <= i < s.len(),
        s[i].0 == k,
    ensures
        spec_grid_at(s, k) is Some,
    decreases s.len(),
{
    if s.last().0 != k {
        assert(forall|a: int| 0 <= a < s.len() - 1 ==> s.drop_last()[a] == s[a]);
        lemma_grid_at_present(s.drop_last(), i, k);
    }
}

/// The grid devices, as one closed set of variants behind a shared surface.
#[derive(Clone, Debug)]
pub enum QRydDevice {
    /// The prototype grid device.
    FirstDevice(FirstDevice),
}

impl QRydDevice {
    /// The wrapped grid device.
    pub open spec fn spec_first(self) -> FirstDevice {
        match self {
            QRydDevice::FirstDevice(d) => d,
        }
    }

    /// The position of each qubit in the grid.
    pub fn qubit_positions(&self) -> (r: &Vec<(usize, (usize, usize))>)
        ensures
            r == self.spec_first().qubit_positions,
    {
        match self {
            QRydDevice::FirstDevice(d) => d.qubit_positions(),
        }
    }

    /// The number of rows of the grid.
    pub fn number_rows(&self) -> (r: usize)
        ensures
            r == self.spec_first().number_rows,
    {
        match self {
            QRydDevice::FirstDevice(d) => d.number_rows(),
        }
    }

    /// The number of tweezer positions per row.
    pub fn number_columns(&self) -> (r: usize)
        ensures
            r == self.spec_first().number_columns,
    {
        match self {
            QRydDevice::FirstDevice(d) => d.number_columns(),
        }
    }

    /// Moves the qubits to new positions, exactly as
    /// [`FirstDevice::change_qubit_positions`] does on the wrapped device.
    pub fn change_qubit_positions(&mut self, new_positions: &Vec<(usize, (usize, usize))>) -> (r:
        Result<(), QRydError>)
        requires
            old(self).spec_first().wf(),
        ensures
            final(self).spec_first().wf(),
            r is Err ==> *final(self) == *old(self) && (r == Err::<(), QRydError>(
                QRydError::QubitNotFound,
            ) || r == Err::<(), QRydError>(QRydError::DimensionMismatch)),
            r is Ok <==> ((forall|i: int|
                0 <= i < old(self).spec_first().qubit_positions@.len() ==> (spec_pos_get(
                    new_positions@,
                    (#[trigger] old(self).spec_first().qubit_positions@[i]).0,
                ) matches Some(p) && p.0 == old(self).spec_first().qubit_positions@[i].1.0)) && (
            forall|i: int|
                0 <= i < new_positions@.len() ==> spec_pos_get(
                    old(self).spec_first().qubit_positions@,
                    (#[trigger] new_positions@[i]).0,
                ) is Some) && (forall|a: int, b: int|
                0 <= a < b < new_positions@.len() ==> new_positions@[a].0
                    != new_positions@[b].0)),
            r is Ok ==> final(self).spec_first().qubit_positions@ == new_positions@
                && final(self).spec_first().layout_register == old(
                self,
            ).spec_first().layout_register && final(self).spec_first().current_layout == old(
                self,
            ).spec_first().current_layout && final(self).spec_first().number_rows == old(
                self,
            ).spec_first().number_rows && final(self).spec_first().number_columns == old(
                self,
            ).spec_first().number_columns && final(self).spec_first().cutoff == old(
                self,
            ).spec_first().cutoff && final(self).spec_first().row_distance == old(
                self,
            ).spec_first().row_distance,
    {
        match self {
            QRydDevice::FirstDevice(d) => d.change_qubit_positions(new_positions),
        }
    }

    /// Makes a registered layout the one in force, exactly as
    /// [`FirstDevice::switch_layout`] does on the wrapped device.
    pub fn switch_layout(&mut self, layout_number: &usize) -> (r: Result<(), QRydError>)
        requires
            old(self).spec_first().wf(),
        ensures
            final(self).spec_first().wf(),
            r is Ok <==> spec_grid_at(
                old(self).spec_first().layout_register@,
                *layout_number,
            ) is Some,
            r is Err ==> *final(self) == *old(self) && r == Err::<(), QRydError>(
                QRydError::UnknownLayout,
            ),
            r is Ok ==> final(self).spec_first() == (FirstDevice {
                current_layout: *layout_number,
                ..old(self).spec_first()
            }),
    {
        match self {
            QRydDevice::FirstDevice(d) => d.switch_layout(layout_number),
        }
    }

    /// A copy of the device with one more numbered layout, exactly as
    /// [`FirstDevice::add_layout`] produces from the wrapped device.
    pub fn add_layout(&self, layout_number: usize, layout: LayoutGrid) -> (r: Result<
        Self,
        QRydError,
    >)
        requires
            self.spec_first().wf(),
        ensures
            r is Ok <==> (spec_grid_at(self.spec_first().layout_register@, layout_number) is None
                && layout.rows == self.spec_first().number_rows && layout.columns
                == self.spec_first().number_columns && layout.wf()),
            (spec_grid_at(self.spec_first().layout_register@, layout_number) is Some) ==> r
                == Err::<QRydDevice, QRydError>(QRydError::DuplicateLayout),
            (spec_grid_at(self.spec_first().layout_register@, layout_number) is None && !(
            layout.rows == self.spec_first().number_rows && layout.columns
                == self.spec_first().number_columns && layout.wf())) ==> r == Err::<
                QRydDevice,
                QRydError,
            >(QRydError::DimensionMismatch),
            r matches Ok(d2) ==> ({
                let d = d2.spec_first();
                let d0 = self.spec_first();
                &&& d.wf()
                &&& d.layout_register@.len() == d0.layout_register@.len() + 1
                &&& spec_grid_at(d.layout_register@, layout_number) == Some(layout)
                &&& (forall|k: usize|
                    k != layout_number ==> ((spec_grid_at(d.layout_register@, k) is Some
                        <==> #[trigger] spec_grid_at(d0.layout_register@, k) is Some) && (
                    spec_grid_at(d.layout_register@, k) is Some ==> ({
                        let ga = spec_grid_at(d.layout_register@, k)->Some_0;
                        let gb = spec_grid_at(d0.layout_register@, k)->Some_0;
                        ga.rows == gb.rows && ga.columns == gb.columns && ga.values@ == gb.values@
                    }))))
                &&& d.qubit_positions@ == d0.qubit_positions@
                &&& d.current_layout == d0.current_layout
                &&& d.number_rows == d0.number_rows
                &&& d.number_columns == d0.number_columns
                &&& d.row_distance == d0.row_distance
                &&& d.cutoff == d0.cutoff
                &&& d.controlled_z_phase_relation@ == d0.controlled_z_phase_relation@
                &&& d.controlled_phase_phase_relation@ == d0.controlled_phase_phase_relation@
                &&& d.allow_ccz_gate == d0.allow_ccz_gate
                &&& d.allow_ccp_gate == d0.allow_ccp_gate
            }),
    {
        match self {
            QRydDevice::FirstDevice(d) => {
                match d.add_layout(layout_number, layout) {
                    Ok(d2) => Ok(QRydDevice::FirstDevice(d2)),
                    Err(e) => Err(e),
                }
            },
        }
    }

    /// Duration of a native single-qubit gate on a qubit.
    pub fn single_qubit_gate_time(&self, hqslang: &str, qubit: &usize) -> (r: Option<u64>)
        ensures
            r == (if spec_single_gate_of(hqslang@) is Some && spec_pos_get(
                self.spec_first().qubit_positions@,
                *qubit,
            ) is Some {
                Some(FIRST_SINGLE_GATE_TIME)
            } else {
                None::<u64>
            }),
    {
        match self {
            QRydDevice::FirstDevice(d) => d.single_qubit_gate_time(hqslang, qubit),
        }
    }

    /// Duration of the native multi-qubit gate on a nonempty list of qubits
    /// that all sit in the grid on one common row.
    pub fn multi_qubit_gate_time(&self, hqslang: &str, qubits: &[usize]) -> (r: Option<u64>)
        ensures
            r == (if spec_multi_gate_of(hqslang@) is Some && qubits@.len() > 0 && (forall|i: int|
                0 <= i < qubits@.len() ==> spec_pos_get(
                    self.spec_first().qubit_positions@,
                    #[trigger] qubits@[i],
                ) is Some) && (forall|i: int|
                0 <= i < qubits@.len() ==> (#[trigger] spec_pos_get(
                    self.spec_first().qubit_positions@,
                    qubits@[i],
                ))->Some_0.0 == spec_pos_get(
                    self.spec_first().qubit_positions@,
                    qubits@[0],
                )->Some_0.0) {
                Some(FIRST_MULTI_GATE_TIME)
            } else {
                None::<u64>
            }),
    {
        match self {
            QRydDevice::FirstDevice(d) => d.multi_qubit_gate_time(hqslang, qubits),
        }
    }

    /// How many qubits sit in the grid.
    pub fn number_qubits(&self) -> (r: usize)
        ensures
            r == self.spec_first().qubit_positions@.len(),
    {
        match self {
            QRydDevice::FirstDevice(d) => d.number_qubits(),
        }
    }

    /// Applies a named reconfiguration operation, exactly as
    /// [`FirstDevice::change_device`] does on the wrapped device.
    pub fn change_device(&mut self, hqslang: &str, operation: &[u8]) -> (r: Result<(), QRydError>)
        requires
            old(self).spec_first().wf(),
        ensures
            final(self).spec_first().wf(),
            r is Err ==> *final(self) == *old(self),
            (hqslang@ != "PragmaChangeQRydLayout"@ && hqslang@ != "PragmaShiftQRydQubit"@) ==> r
                == Err::<(), QRydError>(QRydError::UnsupportedOperation),
            hqslang@ == "PragmaChangeQRydLayout"@ ==> (match crate::pragmas::spec_dec_usize(
                operation@,
                0,
            ) {
                None => r == Err::<(), QRydError>(QRydError::SerializationError),
                Some((idx, p)) => {
                    &&& (r is Ok <==> spec_grid_at(
                        old(self).spec_first().layout_register@,
                        idx,
                    ) is Some)
                    &&& (spec_grid_at(old(self).spec_first().layout_register@, idx) is None ==> r
                        == Err::<(), QRydError>(QRydError::UnknownLayout))
                    &&& (r is Ok ==> final(self).spec_first() == (FirstDevice {
                        current_layout: idx,
                        ..old(self).spec_first()
                    }))
                },
            }),
            hqslang@ == "PragmaShiftQRydQubit"@ ==> (match crate::pragmas::spec_dec_usize(
                operation@,
                0,
            ) {
                None => r == Err::<(), QRydError>(QRydError::SerializationError),
                Some((n, p)) => match crate::pragmas::spec_dec_positions(operation@, p, n as int) {
                    None => r == Err::<(), QRydError>(QRydError::SerializationError),
                    Some((es, pe)) => {
                        &&& (r is Ok <==> ((forall|i: int|
                            0 <= i < old(self).spec_first().qubit_positions@.len() ==> (
                            spec_pos_get(
                                es,
                                (#[trigger] old(self).spec_first().qubit_positions@[i]).0,
                            ) matches Some(pp) && pp.0 == old(
                                self,
                            ).spec_first().qubit_positions@[i].1.0)) && (forall|i: int|
                            0 <= i < es.len() ==> spec_pos_get(
                                old(self).spec_first().qubit_positions@,
                                (#[trigger] es[i]).0,
                            ) is Some) && (forall|a: int, b: int|
                            0 <= a < b < es.len() ==> es[a].0 != es[b].0)))
                        &&& (r is Err ==> r == Err::<(), QRydError>(QRydError::QubitNotFound) || r
                            == Err::<(), QRydError>(QRydError::DimensionMismatch))
                        &&& (r is Ok ==> final(self).spec_first().qubit_positions@ == es
                            && final(self).spec_first().layout_register == old(
                            self,
                        ).spec_first().layout_register && final(self).spec_first().current_layout
                            == old(self).spec_first().current_layout
                            && final(self).spec_first().number_rows == old(
                            self,
                        ).spec_first().number_rows && final(self).spec_first().number_columns
                            == old(self).spec_first().number_columns
                            && final(self).spec_first().cutoff == old(self).spec_first().cutoff
                            && final(self).spec_first().row_distance == old(
                            self,
                        ).spec_first().row_distance)
                    },
                },
            }),
    {
        match self {
            QRydDevice::FirstDevice(d) => d.change_device(hqslang, operation),
        }
    }
}

} // verus!
