//! The layout engine: an append-only record of what a synthesis pass puts
//! into the cells of the grid and of the cells it ties together.

use crate::errors::ModuleError;
use crate::field::FieldElement;
use crate::system::{ColumnCount, ConstraintSystem};
use crate::tensor::{CellHandle, Column, ColumnKind};
use vstd::prelude::*;

verus! {

/// One value placed in one cell.
#[derive(Clone, Copy, Debug, PartialEq, Eq)]
pub struct Write {
    /// The cell written to.
    pub cell: CellHandle,
    /// The value placed there.
    pub value: FieldElement,
}

/// Two cells constrained to hold the same value.
#[derive(Clone, Copy, Debug, PartialEq, Eq, Structural)]
pub struct Link {
    /// One of the two cells.
    pub left: CellHandle,
    /// The other one.
    pub right: CellHandle,
}

/// The grid of one pass. Its columns and its height are fixed when it is
/// created. Cells are written at most one value each; nothing recorded is
/// ever taken back.
pub struct LayoutEngine {
    columns: ColumnCount,
    constants: Option<Column>,
    public_inputs: Option<Column>,
    rows: usize,
    writes: Vec<Write>,
    links: Vec<Link>,
    next_constant: usize,
    next_instance: usize,
}

impl LayoutEngine {
    /// The columns of the grid.
    pub closed spec fn columns(&self) -> ColumnCount {
        self.columns
    }

    /// The fixed column of shared constants, if the circuit has one.
    pub closed spec fn constants(&self) -> Option<Column> {
        self.constants
    }

    /// The instance column of public inputs, if the circuit has one.
    pub closed spec fn public_inputs(&self) -> Option<Column> {
        self.public_inputs
    }

    /// The height of the grid.
    pub closed spec fn rows(&self) -> usize {
        self.rows
    }

    /// Every write so far, oldest first.
    pub closed spec fn writes(&self) -> Seq<Write> {
        self.writes@
    }

    /// Every equality constraint so far, oldest first.
    pub closed spec fn links(&self) -> Seq<Link> {
        self.links@
    }

    /// How many rows of the constants column are taken.
    pub closed spec fn constants_used(&self) -> usize {
        self.next_constant
    }

    /// How many public-input slots are taken.
    pub closed spec fn instance_used(&self) -> usize {
        self.next_instance
    }

    /// The cell that the next shared constant goes to.
    pub open spec fn next_constant_cell(&self) -> CellHandle {
        CellHandle { column: self.constants().unwrap(), row: self.constants_used() }
    }

    /// Whether the grid has the cell.
    pub open spec fn in_range(&self, cell: CellHandle) -> bool {
        cell.column.index < self.columns().of(cell.column.kind) && cell.row < self.rows()
    }

    /// Whether some write went to the cell.
    pub open spec fn written(&self, cell: CellHandle) -> bool {
        exists|i: int| 0 <= i < self.writes().len() && (#[trigger] self.writes()[i]).cell == cell
    }

    /// The value that the cell holds, if it was written.
    pub open spec fn value_at(&self, cell: CellHandle) -> Option<FieldElement> {
        if self.written(cell) {
            let i = choose|i: int|
                0 <= i < self.writes().len() && (#[trigger] self.writes()[i]).cell == cell;
            Some(self.writes()[i].value)
        } else {
            None
        }
    }

    /// The record is consistent: every written cell exists, is no instance
    /// cell and holds one value; the constants column is filled from the top
    /// without gaps; every linked cell exists.
    pub open spec fn wf(&self) -> bool {
        &&& forall|i: int|
            0 <= i < self.writes().len() ==> self.in_range((#[trigger] self.writes()[i]).cell)
                && self.writes()[i].cell.column.kind != ColumnKind::Instance
        &&& forall|i: int, j: int|
            0 <= i < self.writes().len() && 0 <= j < self.writes().len() && (
            #[trigger] self.writes()[i]).cell == (#[trigger] self.writes()[j]).cell
                ==> self.writes()[i].value == self.writes()[j].value
        &&& forall|i: int|
            0 <= i < self.writes().len() && Some((#[trigger] self.writes()[i]).cell.column)
                == self.constants() ==> self.writes()[i].cell.row < self.constants_used()
        &&& forall|i: int|
            0 <= i < self.links().len() ==> self.in_range((#[trigger] self.links()[i]).left)
                && self.in_range(self.links()[i].right)
        &&& self.constants_used() <= self.rows()
        &&& self.instance_used() <= self.rows()
        &&& self.constants() matches Some(c) ==> c.kind == ColumnKind::Fixed && c.index
            < self.columns().fixed
        &&& self.public_inputs() matches Some(c) ==> c.kind == ColumnKind::Instance && c.index
            < self.columns().instance
    }

    /// The grid is that of `earlier`, and everything recorded in `earlier`
    /// is still there, in the same place.
    pub open spec fn extends(&self, earlier: LayoutEngine) -> bool {
        &&& self.columns() == earlier.columns()
        &&& self.constants() == earlier.constants()
        &&& self.public_inputs() == earlier.public_inputs()
        &&& self.rows() == earlier.rows()
        &&& earlier.writes().is_prefix_of(self.writes())
        &&& earlier.links().is_prefix_of(self.links())
        &&& earlier.constants_used() <= self.constants_used()
        &&& earlier.instance_used() <= self.instance_used()
    }

    /// Whether a write of `value` to `cell` is acceptable: the cell exists,
    /// belongs to an advice column or to a fixed column other than that of
    /// the shared constants, and holds no other value.
    pub open spec fn accepts(&self, cell: CellHandle, value: FieldElement) -> bool {
        &&& self.in_range(cell)
        &&& cell.column.kind != ColumnKind::Instance
        &&& Some(cell.column) != self.constants()
        &&& self.value_at(cell) is None || self.value_at(cell) == Some(value)
    }

    /// Whether the grid takes every write of `plan`: each is acceptable to
    /// the grid as it stands, and no two of them put different values in
    /// one cell.
    pub open spec fn plan_fits(&self, plan: Seq<Write>) -> bool {
        &&& forall|k: int|
            0 <= k < plan.len() ==> self.accepts((#[trigger] plan[k]).cell, plan[k].value)
        &&& forall|i: int, j: int|
            0 <= i < j < plan.len() && (#[trigger] plan[i]).cell == (#[trigger] plan[j]).cell
                ==> plan[i].value == plan[j].value
    }

    /// Whether the grid takes every constraint of `links`: all their cells
    /// exist and none is an instance cell.
    pub open spec fn links_fit(&self, links: Seq<Link>) -> bool {
        forall|k: int|
            0 <= k < links.len() ==> self.in_range((#[trigger] links[k]).left) && self.in_range(
                links[k].right,
            ) && links[k].left.column.kind != ColumnKind::Instance && links[k].right.column.kind
                != ColumnKind::Instance
    }

    /// Whether the grid can tie every cell of `cells` to a public-input
    /// slot of its own: there is a public-input column with that many free
    /// slots, and all are advice cells of the grid.
    pub open spec fn slots_fit(&self, cells: Seq<CellHandle>) -> bool {
        cells.len() == 0 || {
            &&& self.public_inputs() is Some
            &&& self.instance_used() + cells.len() <= self.rows()
            &&& forall|k: int|
                0 <= k < cells.len() ==> self.in_range(#[trigger] cells[k]) && cells[k].column.kind
                    == ColumnKind::Advice
        }
    }

    /// The constraints that tie `cells`, in order, to the public-input
    /// slots from `first` on.
    pub open spec fn slot_links(&self, cells: Seq<CellHandle>, first: int) -> Seq<Link> {
        Seq::new(
            cells.len(),
            |k: int|
                Link {
                    left: cells[k],
                    right: CellHandle {
                        column: self.public_inputs().unwrap(),
                        row: (first + k) as usize,
                    },
                },
        )
    }

    /// An empty grid with the columns of `cs` and `rows` rows.
    pub fn new(cs: &ConstraintSystem, rows: usize) -> (e: LayoutEngine)
        requires
            cs.wf(),
        ensures
            e.wf(),
            e.columns() == cs.used(),
            e.constants() == cs.constants(),
            e.public_inputs() == cs.public_inputs(),
            e.rows() == rows,
            e.writes() == Seq::<Write>::empty(),
            e.links() == Seq::<Link>::empty(),
            e.constants_used() == 0,
            e.instance_used() == 0,
    {
        LayoutEngine {
            columns: cs.columns(),
            constants: cs.constants_column(),
            public_inputs: cs.public_inputs_column(),
            rows,
            writes: Vec::new(),
            links: Vec::new(),
            next_constant: 0,
            next_instance: 0,
        }
    }

    /// The height of the grid.
    pub fn height(&self) -> (n: usize)
        ensures
            n == self.rows(),
    {
        self.rows
    }

    /// The number of public-input slots taken so far.
    pub fn instance_count(&self) -> (n: usize)
        ensures
            n == self.instance_used(),
    {
        self.next_instance
    }

    /// The number of shared constants placed so far.
    pub fn constant_count(&self) -> (n: usize)
        ensures
            n == self.constants_used(),
    {
        self.next_constant
    }

    /// Every write so far, oldest first.
    pub fn assignments(&self) -> (w: &Vec<Write>)
        ensures
            w@ == self.writes(),
    {
        &self.writes
    }

    /// Every equality constraint so far, oldest first.
    pub fn constraints(&self) -> (l: &Vec<Link>)
        ensures
            l@ == self.links(),
    {
        &self.links
    }

    /// Whether the grid has the cell.
    pub fn contains(&self, cell: CellHandle) -> (b: bool)
        ensures
            b == self.in_range(cell),
    {
        cell.column.index < self.columns.get(cell.column.kind) && cell.row < self.rows
    }

    /// The value that the cell holds, if it was written.
    pub fn find(&self, cell: CellHandle) -> (v: Option<FieldElement>)
        requires
            self.wf(),
        ensures
            v == self.value_at(cell),
    {
        let mut i: usize = 0;
        while i < self.writes.len()
            invariant
                self.wf(),
                i <= self.writes@.len(),
                forall|j: int| 0 <= j < i ==> (#[trigger] self.writes@[j]).cell != cell,
            decreases self.writes.len() - i,
        {
            if self.writes[i].cell == cell {
                assert(self.writes()[i as int].cell == cell);
                return Some(self.writes[i].value);
            }
            i += 1;
        }
        None
    }

    /// Places `value` in `cell`. Fails, and records nothing, when the write
    /// is not acceptable.
    pub fn assign(&mut self, cell: CellHandle, value: FieldElement) -> (r: Result<(), ModuleError>)
        requires
            old(self).wf(),
        ensures
            final(self).wf(),
            r is Ok <==> old(self).accepts(cell, value),
            r is Ok ==> final(self).writes() == old(self).writes().push(Write { cell, value })
                && final(self).links() == old(self).links() && final(self).extends(*old(self))
                && final(self).constants_used() == old(self).constants_used() && final(
                self).instance_used() == old(self).instance_used(),
            r matches Err(e) ==> e == ModuleError::LayoutFailed && *final(self) == *old(self),
    {
        if !self.contains(cell) {
            return Err(ModuleError::LayoutFailed);
        }
        if cell.column.kind == ColumnKind::Instance {
            return Err(ModuleError::LayoutFailed);
        }
        match self.constants {
            Some(c) => {
                if c == cell.column {
                    return Err(ModuleError::LayoutFailed);
                }
            },
            None => {},
        }
        match self.find(cell) {
            Some(v) => {
                if !v.equals(&value) {
                    return Err(ModuleError::LayoutFailed);
                }
            },
            None => {},
        }
        self.writes.push(Write { cell, value });
        Ok(())
    }

    /// Places a shared constant in the next free row of the constants
    /// column and hands back its cell. Fails, and records nothing, when the
    /// circuit has no constants column or the column is full.
    pub fn assign_constant(&mut self, value: FieldElement) -> (r: Result<CellHandle, ModuleError>)
        requires
            old(self).wf(),
        ensures
            final(self).wf(),
            r is Ok <==> old(self).constants() is Some && old(self).constants_used() < old(
                self).rows(),
            r matches Ok(cell) ==> Some(cell.column) == old(self).constants() && cell.row == old(
                self).constants_used() && final(self).writes() == old(self).writes().push(
                Write { cell, value }) && final(self).links() == old(self).links() && final(
                self).extends(*old(self)) && final(self).constants_used() == old(
                self).constants_used() + 1 && final(self).instance_used() == old(
                self).instance_used() && final(self).value_at(cell) == Some(value),
            r matches Err(e) ==> e == ModuleError::LayoutFailed && *final(self) == *old(self),
    {
        let column = match self.constants {
            Some(c) => c,
            None => {
                return Err(ModuleError::LayoutFailed);
            },
        };
        if self.next_constant >= self.rows {
            return Err(ModuleError::LayoutFailed);
        }
        let cell = CellHandle { column, row: self.next_constant };
        self.writes.push(Write { cell, value });
        self.next_constant = self.next_constant + 1;
        proof {
            let last = self.writes().len() - 1;
            assert(self.writes()[last].cell == cell);
        }
        Ok(cell)
    }

    /// Constrains two cells to hold the same value. Fails, and records
    /// nothing, unless both cells exist and neither is an instance cell.
    pub fn constrain_equal(&mut self, left: CellHandle, right: CellHandle) -> (r: Result<
        (),
        ModuleError,
    >)
        requires
            old(self).wf(),
        ensures
            final(self).wf(),
            r is Ok <==> old(self).in_range(left) && old(self).in_range(right) && left.column.kind
                != ColumnKind::Instance && right.column.kind != ColumnKind::Instance,
            r is Ok ==> final(self).links() == old(self).links().push(Link { left, right })
                && final(self).writes() == old(self).writes() && final(self).extends(*old(self))
                && final(self).constants_used() == old(self).constants_used() && final(
                self).instance_used() == old(self).instance_used(),
            r matches Err(e) ==> e == ModuleError::LayoutFailed && *final(self) == *old(self),
    {
        if !self.contains(left) || !self.contains(right) {
            return Err(ModuleError::LayoutFailed);
        }
        if left.column.kind == ColumnKind::Instance || right.column.kind == ColumnKind::Instance {
            return Err(ModuleError::LayoutFailed);
        }
        self.links.push(Link { left, right });
        Ok(())
    }

    /// Ties an advice cell to the next free public-input slot and hands
    /// back the slot's number. Fails, and records nothing, when the circuit
    /// has no public-input column, the column is full, or `cell` is not an
    /// advice cell of the grid.
    pub fn bind_instance(&mut self, cell: CellHandle) -> (r: Result<usize, ModuleError>)
        requires
            old(self).wf(),
        ensures
            final(self).wf(),
            r is Ok <==> old(self).public_inputs() is Some && old(self).instance_used() < old(
                self).rows() && old(self).in_range(cell) && cell.column.kind
                == ColumnKind::Advice,
            r matches Ok(slot) ==> slot == old(self).instance_used() && final(self).links() == old(
                self).links().push(
                Link {
                    left: cell,
                    right: CellHandle { column: old(self).public_inputs().unwrap(), row: slot },
                },
            ) && final(self).writes() == old(self).writes() && final(self).extends(*old(self))
                && final(self).constants_used() == old(self).constants_used() && final(
                self).instance_used() == old(self).instance_used() + 1,
            r matches Err(e) ==> e == ModuleError::LayoutFailed && *final(self) == *old(self),
    {
        let column = match self.public_inputs {
            Some(c) => c,
            None => {
                return Err(ModuleError::LayoutFailed);
            },
        };
        if self.next_instance >= self.rows {
            return Err(ModuleError::LayoutFailed);
        }
        if !self.contains(cell) {
            return Err(ModuleError::LayoutFailed);
        }
        if cell.column.kind != ColumnKind::Advice {
            return Err(ModuleError::LayoutFailed);
        }
        let slot: usize = self.next_instance;
        self.links.push(Link { left: cell, right: CellHandle { column, row: slot } });
        self.next_instance = slot + 1;
        Ok(slot)
    }

    /// Places the writes of `plan` one after the other and stops at the
    /// first that the grid does not accept. The writes before that one stay
    /// recorded.
    pub fn assign_all(&mut self, plan: &Vec<Write>) -> (r: Result<(), ModuleError>)
        requires
            old(self).wf(),
        ensures
            final(self).wf(),
            final(self).extends(*old(self)),
            final(self).links() == old(self).links(),
            final(self).constants_used() == old(self).constants_used(),
            final(self).instance_used() == old(self).instance_used(),
            r is Ok <==> old(self).plan_fits(plan@),
            r is Ok ==> final(self).writes() == old(self).writes() + plan@,
            r matches Err(e) ==> e == ModuleError::LayoutFailed,
            exists|k: int|
                0 <= k <= plan@.len() && final(self).writes() == old(self).writes()
                    + #[trigger] plan@.take(k),
            r is Err ==> exists|k: int|
                0 <= k < plan@.len() && final(self).writes() == old(self).writes()
                    + #[trigger] plan@.take(k) && old(self).plan_fits(plan@.take(k)) && !old(
                    self).plan_fits(plan@.take(k + 1)),
    {
        let mut k: usize = 0;
        proof {
            assert(self.writes() =~= old(self).writes() + plan@.take(0));
        }
        while k < plan.len()
            invariant
                old(self).wf(),
                self.wf(),
                self.extends(*old(self)),
                self.links() == old(self).links(),
                self.constants_used() == old(self).constants_used(),
                self.instance_used() == old(self).instance_used(),
                k <= plan@.len(),
                self.writes() == old(self).writes() + plan@.take(k as int),
                old(self).plan_fits(plan@.take(k as int)),
            decreases plan.len() - k,
        {
            let w = plan[k];
            let ghost before = *self;
            match self.assign(w.cell, w.value) {
                Ok(()) => {
                    proof {
                        assert(plan@.take(k + 1) =~= plan@.take(k as int).push(w));
                        assert(self.writes() =~= old(self).writes() + plan@.take(k + 1));
                        lemma_accepts_prefix(*old(self), before, plan@, k as int);
                    }
                },
                Err(e) => {
                    proof {
                        lemma_rejects_prefix(*old(self), before, plan@, k as int);
                        assert(plan@.take(k + 1).take(k as int) =~= plan@.take(k as int));
                        lemma_rejects_prefix(*old(self), before, plan@.take(k + 1), k as int);
                    }
                    return Err(e);
                },
            }
            k += 1;
        }
        proof {
            assert(plan@.take(k as int) =~= plan@);
        }
        Ok(())
    }

    /// Records the constraints of `links` one after the other and stops at
    /// the first that the grid does not accept. The constraints before that
    /// one stay recorded.
    pub fn link_all(&mut self, links: &Vec<Link>) -> (r: Result<(), ModuleError>)
        requires
            old(self).wf(),
        ensures
            final(self).wf(),
            final(self).extends(*old(self)),
            final(self).writes() == old(self).writes(),
            final(self).constants_used() == old(self).constants_used(),
            final(self).instance_used() == old(self).instance_used(),
            r is Ok <==> old(self).links_fit(links@),
            r is Ok ==> final(self).links() == old(self).links() + links@,
            r matches Err(e) ==> e == ModuleError::LayoutFailed,
            r is Err ==> exists|k: int|
                0 <= k < links@.len() && final(self).links() == old(self).links()
                    + #[trigger] links@.take(k) && old(self).links_fit(links@.take(k)) && !old(
                    self).links_fit(links@.take(k + 1)),
    {
        let mut k: usize = 0;
        proof {
            assert(self.links() =~= old(self).links() + links@.take(0));
        }
        while k < links.len()
            invariant
                self.wf(),
                self.extends(*old(self)),
                self.writes() == old(self).writes(),
                self.constants_used() == old(self).constants_used(),
                self.instance_used() == old(self).instance_used(),
                k <= links@.len(),
                self.links() == old(self).links() + links@.take(k as int),
                old(self).links_fit(links@.take(k as int)),
            decreases links.len() - k,
        {
            let l = links[k];
            match self.constrain_equal(l.left, l.right) {
                Ok(()) => {
                    proof {
                        assert(links@.take(k + 1) =~= links@.take(k as int).push(l));
                        assert(self.links() =~= old(self).links() + links@.take(k + 1));
                    }
                },
                Err(e) => {
                    proof {
                        assert(links@.take(k + 1)[k as int] == l);
                    }
                    return Err(e);
                },
            }
            k += 1;
        }
        proof {
            assert(links@.take(k as int) =~= links@);
        }
        Ok(())
    }

    /// Ties the cells of `cells`, in order, to the next free public-input
    /// slots: all of them, or, where the grid cannot take every one, none.
    pub fn bind_all(&mut self, cells: &Vec<CellHandle>) -> (r: Result<(), ModuleError>)
        requires
            old(self).wf(),
        ensures
            final(self).wf(),
            final(self).extends(*old(self)),
            final(self).writes() == old(self).writes(),
            final(self).constants_used() == old(self).constants_used(),
            r is Ok <==> old(self).slots_fit(cells@),
            r is Ok ==> final(self).instance_used() == old(self).instance_used() + cells@.len()
                && final(self).links() == old(self).links() + old(self).slot_links(
                cells@,
                old(self).instance_used() as int,
            ),
            r matches Err(e) ==> e == ModuleError::LayoutFailed && *final(self) == *old(self),
    {
        if cells.len() == 0 {
            proof {
                assert(self.links() =~= self.links() + self.slot_links(
                    cells@,
                    self.instance_used() as int,
                ));
            }
            return Ok(());
        }
        if self.public_inputs.is_none() || cells.len() > self.rows - self.next_instance {
            return Err(ModuleError::LayoutFailed);
        }
        let mut i: usize = 0;
        while i < cells.len()
            invariant
                self.wf(),
                *self == *old(self),
                i <= cells@.len(),
                forall|k: int|
                    0 <= k < i ==> self.in_range(#[trigger] cells@[k]) && cells@[k].column.kind
                        == ColumnKind::Advice,
            decreases cells.len() - i,
        {
            if !self.contains(cells[i]) || cells[i].column.kind != ColumnKind::Advice {
                return Err(ModuleError::LayoutFailed);
            }
            i += 1;
        }
        let mut k: usize = 0;
        proof {
            assert(self.links() =~= old(self).links() + old(self).slot_links(
                cells@.take(0),
                old(self).instance_used() as int,
            ));
        }
        while k < cells.len()
            invariant
                self.wf(),
                self.extends(*old(self)),
                old(self).slots_fit(cells@),
                self.writes() == old(self).writes(),
                self.constants_used() == old(self).constants_used(),
                self.instance_used() == old(self).instance_used() + k,
                k <= cells@.len(),
                self.links() == old(self).links() + old(self).slot_links(
                    cells@.take(k as int),
                    old(self).instance_used() as int,
                ),
            decreases cells.len() - k,
        {
            match self.bind_instance(cells[k]) {
                Ok(_) => {
                    proof {
                        assert(cells@.take(k + 1) =~= cells@.take(k as int).push(cells@[k as int]));
                        assert(self.links() =~= old(self).links() + old(self).slot_links(
                            cells@.take(k + 1),
                            old(self).instance_used() as int,
                        ));
                    }
                },
                Err(e) => {
                    proof {
                        assert(old(self).in_range(cells@[k as int]));
                    }
                    return Err(e);
                },
            }
            k += 1;
        }
        proof {
            assert(cells@.take(k as int) =~= cells@);
        }
        Ok(())
    }
}

/// A cell written in an earlier state of a grid holds the same value in
/// every later state.
pub proof fn lemma_extends_keeps_values(later: LayoutEngine, earlier: LayoutEngine, cell: CellHandle)
    requires
        later.wf(),
        later.extends(earlier),
        earlier.written(cell),
    ensures
        later.written(cell),
        later.value_at(cell) == earlier.value_at(cell),
{
    let i = choose|i: int|
        0 <= i < earlier.writes().len() && (#[trigger] earlier.writes()[i]).cell == cell;
    assert(later.writes()[i] == earlier.writes()[i]);
    assert(later.written(cell));
}

/// The cell of every recorded write holds the value of that write.
pub proof fn lemma_written_value(engine: LayoutEngine, i: int)
    requires
        engine.wf(),
        0 <= i < engine.writes().len(),
    ensures
        engine.written(engine.writes()[i].cell),
        engine.value_at(engine.writes()[i].cell) == Some(engine.writes()[i].value),
{
}

/// A write that the grid accepts after it has taken the first `k` writes
/// of a plan fits the plan: with it, the grid as it was takes the first
/// `k + 1` writes.
pub proof fn lemma_accepts_prefix(start: LayoutEngine, now: LayoutEngine, plan: Seq<Write>, k: int)
    requires
        start.wf(),
        now.wf(),
        now.extends(start),
        0 <= k < plan.len(),
        now.writes() == start.writes() + plan.take(k),
        start.plan_fits(plan.take(k)),
        now.accepts(plan[k].cell, plan[k].value),
    ensures
        start.plan_fits(plan.take(k + 1)),
{
    let next = plan.take(k + 1);
    let cell = plan[k].cell;
    assert forall|i: int| 0 <= i < next.len() implies start.accepts(
        (#[trigger] next[i]).cell,
        next[i].value,
    ) by {
        if i < k {
            assert(plan.take(k)[i] == next[i]);
        } else {
            if start.written(cell) {
                lemma_extends_keeps_values(now, start, cell);
            }
        }
    }
    assert forall|i: int, j: int|
        0 <= i < j < next.len() && (#[trigger] next[i]).cell == (#[trigger] next[j]).cell implies next[i].value
        == next[j].value by {
        if j < k {
            assert(plan.take(k)[i] == next[i]);
            assert(plan.take(k)[j] == next[j]);
        } else {
            let at = start.writes().len() + i;
            assert(now.writes()[at] == plan[i]);
            assert(now.written(cell));
        }
    }
}

/// A write that the grid rejects after it has taken the first `k` writes
/// of a plan does not fit the plan: the grid as it was does not take the
/// plan.
pub proof fn lemma_rejects_prefix(start: LayoutEngine, now: LayoutEngine, plan: Seq<Write>, k: int)
    requires
        start.wf(),
        now.wf(),
        now.extends(start),
        0 <= k < plan.len(),
        now.writes() == start.writes() + plan.take(k),
        !now.accepts(plan[k].cell, plan[k].value),
    ensures
        !start.plan_fits(plan),
{
    let cell = plan[k].cell;
    if start.plan_fits(plan) {
        assert(start.accepts(plan[k].cell, plan[k].value));
        assert(now.written(cell));
        let at = choose|i: int|
            0 <= i < now.writes().len() && (#[trigger] now.writes()[i]).cell == cell;
        if at < start.writes().len() {
            assert(start.writes()[at] == now.writes()[at]);
            assert(start.written(cell));
            lemma_extends_keeps_values(now, start, cell);
        } else {
            let i = at - start.writes().len();
            assert(now.writes()[at] == plan.take(k)[i]);
            assert(plan[i].cell == plan[k].cell);
        }
    }
}

} // verus!
