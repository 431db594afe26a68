//! Cells of the circuit grid and tensors of cell values.

use crate::field::FieldElement;
use vstd::prelude::*;

verus! {

/// The three kinds of column in a constraint system.
#[derive(Clone, Copy, Debug, PartialEq, Eq, Hash, Structural)]
pub enum ColumnKind {
    /// Witness values, filled in by the prover.
    Advice,
    /// Values fixed when the circuit is defined.
    Fixed,
    /// Public inputs.
    Instance,
}

/// One column of the grid.
#[derive(Clone, Copy, Debug, PartialEq, Eq, Hash, Structural)]
pub struct Column {
    /// The kind of the column.
    pub kind: ColumnKind,
    /// Its position among the columns of that kind.
    pub index: usize,
}

/// The location of one cell: a column and an absolute row.
#[derive(Clone, Copy, Debug, PartialEq, Eq, Hash, Structural)]
pub struct CellHandle {
    /// The column of the cell.
    pub column: Column,
    /// The row of the cell.
    pub row: usize,
}

/// One entry of a tensor.
#[derive(Clone, Copy, Debug, PartialEq, Eq)]
pub enum CellValue {
    /// A concrete value that no cell holds yet.
    Known(FieldElement),
    /// A placeholder without a value.
    Unassigned,
    /// A value that already sits in a cell of the grid.
    Assigned {
        /// The value in the cell.
        value: FieldElement,
        /// Where the value sits.
        cell: CellHandle,
    },
}

impl CellValue {
    /// The field value of the entry, where it has one.
    pub open spec fn value_spec(self) -> Option<FieldElement> {
        match self {
            CellValue::Known(v) => Some(v),
            CellValue::Unassigned => None,
            CellValue::Assigned { value, .. } => Some(value),
        }
    }

    /// The cell of the entry, where it sits in one.
    pub open spec fn cell_spec(self) -> Option<CellHandle> {
        match self {
            CellValue::Assigned { cell, .. } => Some(cell),
            _ => None,
        }
    }

    /// The field value of the entry, where it has one.
    pub fn value(&self) -> (v: Option<FieldElement>)
        ensures
            v == self.value_spec(),
    {
        match self {
            CellValue::Known(v) => Some(*v),
            CellValue::Unassigned => None,
            CellValue::Assigned { value, .. } => Some(*value),
        }
    }

    /// The cell of the entry, where it sits in one.
    pub fn cell(&self) -> (c: Option<CellHandle>)
        ensures
            c == self.cell_spec(),
    {
        match self {
            CellValue::Assigned { cell, .. } => Some(*cell),
            _ => None,
        }
    }
}

/// The number of entries of a tensor with the given extents: their product.
pub open spec fn volume(dims: Seq<usize>) -> nat
    decreases dims.len(),
{
    if dims.len() == 0 {
        1
    } else {
        volume(dims.drop_last()) * (dims.last() as nat)
    }
}

/// The values of a sequence of entries, where every entry has one.
pub open spec fn values_of(cells: Seq<CellValue>) -> Option<Seq<FieldElement>> {
    if forall|i: int| 0 <= i < cells.len() ==> (#[trigger] cells[i]).value_spec() is Some {
        Some(Seq::new(cells.len(), |i: int| cells[i].value_spec().unwrap()))
    } else {
        None
    }
}

/// A multi-dimensional array of entries in row-major order.
#[derive(Clone, Debug, PartialEq, Eq)]
pub struct ValueTensor {
    cells: Vec<CellValue>,
    dims: Vec<usize>,
}

impl ValueTensor {
    /// The entries in row-major order.
    pub closed spec fn cells(&self) -> Seq<CellValue> {
        self.cells@
    }

    /// The extent of each dimension.
    pub closed spec fn dims(&self) -> Seq<usize> {
        self.dims@
    }

    /// The extents account for every entry.
    pub open spec fn wf(&self) -> bool {
        volume(self.dims()) == self.cells().len()
    }

    /// Builds a tensor, provided that the extents multiply to the number of
    /// entries.
    pub fn new(cells: Vec<CellValue>, dims: Vec<usize>) -> (t: Option<ValueTensor>)
        ensures
            t is Some <==> volume(dims@) == cells@.len(),
            t matches Some(t) ==> t.wf() && t.cells() == cells@ && t.dims() == dims@,
    {
        let mut zero: bool = false;
        let mut i: usize = 0;
        while i < dims.len()
            invariant
                i <= dims.len(),
                zero <==> exists|j: int| 0 <= j < i && dims@[j] == 0,
            decreases dims.len() - i,
        {
            if dims[i] == 0 {
                zero = true;
            }
            i += 1;
        }
        if zero {
            proof {
                let j = choose|j: int| 0 <= j < dims@.len() && dims@[j] == 0;
                lemma_volume_zero(dims@, j);
            }
            if cells.len() == 0 {
                return Some(ValueTensor { cells, dims });
            }
            return None;
        }
        let total: usize = cells.len();
        let mut acc: usize = 1;
        let mut k: usize = 0;
        while k < dims.len()
            invariant
                k <= dims.len(),
                total == cells@.len(),
                forall|j: int| 0 <= j < dims@.len() ==> dims@[j] != 0,
                acc == volume(dims@.take(k as int)),
                acc >= 1,
            decreases dims.len() - k,
        {
            proof {
                assert(dims@.take(k + 1).drop_last() =~= dims@.take(k as int));
                assert(dims@.take(k + 1).last() == dims@[k as int]);
                assert(volume(dims@.take(k + 1)) == acc * dims@[k as int]);
                lemma_volume_prefix(dims@, k + 1);
            }
            match acc.checked_mul(dims[k]) {
                Some(next) => {
                    assert(next >= 1) by (nonlinear_arith)
                        requires
                            next == acc * dims@[k as int],
                            acc >= 1,
                            dims@[k as int] >= 1,
                    ;
                    acc = next;
                },
                None => {
                    return None;
                },
            }
            k += 1;
        }
        assert(dims@.take(dims@.len() as int) =~= dims@);
        if acc == total {
            Some(ValueTensor { cells, dims })
        } else {
            None
        }
    }

    /// Builds a tensor from entries and extents that are known to match.
    pub(crate) fn from_parts(cells: Vec<CellValue>, dims: Vec<usize>) -> (t: ValueTensor)
        requires
            volume(dims@) == cells@.len(),
        ensures
            t.wf(),
            t.cells() == cells@,
            t.dims() == dims@,
    {
        ValueTensor { cells, dims }
    }

    /// A one-dimensional tensor of concrete values.
    pub fn from_values(values: &Vec<FieldElement>) -> (t: ValueTensor)
        ensures
            t.wf(),
            t.dims() == seq![values@.len() as usize],
            t.cells() == Seq::new(values@.len(), |i: int| CellValue::Known(values@[i])),
    {
        let mut cells: Vec<CellValue> = Vec::new();
        let mut i: usize = 0;
        while i < values.len()
            invariant
                i <= values.len(),
                cells@ == Seq::new(i as nat, |j: int| CellValue::Known(values@[j])),
            decreases values.len() - i,
        {
            cells.push(CellValue::Known(values[i]));
            i += 1;
        }
        let mut dims: Vec<usize> = Vec::new();
        dims.push(values.len());
        proof {
            assert(dims@.drop_last() =~= Seq::<usize>::empty());
            assert(volume(dims@.drop_last()) == 1);
            assert(volume(dims@) == 1 * (dims@.last() as nat));
            assert(dims@ =~= seq![values@.len() as usize]);
        }
        ValueTensor { cells, dims }
    }

    /// The number of entries.
    pub fn len(&self) -> (n: usize)
        ensures
            n == self.cells().len(),
    {
        self.cells.len()
    }

    /// The extents, one for each dimension.
    pub fn shape(&self) -> (d: Vec<usize>)
        ensures
            d@ == self.dims(),
    {
        let mut d: Vec<usize> = Vec::new();
        let mut i: usize = 0;
        while i < self.dims.len()
            invariant
                i <= self.dims@.len(),
                d@ == self.dims@.take(i as int),
            decreases self.dims.len() - i,
        {
            d.push(self.dims[i]);
            proof {
                assert(self.dims@.take(i + 1) =~= self.dims@.take(i as int).push(self.dims@[i as int]));
            }
            i += 1;
        }
        proof {
            assert(self.dims@.take(i as int) =~= self.dims@);
        }
        d
    }

    /// The number of dimensions.
    pub fn rank(&self) -> (n: usize)
        ensures
            n == self.dims().len(),
    {
        self.dims.len()
    }

    /// The extent of dimension `axis`, if there is such a dimension.
    pub fn extent(&self, axis: usize) -> (d: Option<usize>)
        ensures
            d == (if axis < self.dims().len() {
                Some(self.dims()[axis as int])
            } else {
                None
            }),
    {
        if axis < self.dims.len() {
            Some(self.dims[axis])
        } else {
            None
        }
    }

    /// The entry at position `i` in row-major order, if there is one.
    pub fn get(&self, i: usize) -> (c: Option<CellValue>)
        ensures
            c == (if i < self.cells().len() {
                Some(self.cells()[i as int])
            } else {
                None
            }),
    {
        if i < self.cells.len() {
            Some(self.cells[i])
        } else {
            None
        }
    }

    /// The values of all entries in row-major order, provided that every
    /// entry has one.
    pub fn values(&self) -> (v: Option<Vec<FieldElement>>)
        ensures
            v is Some <==> values_of(self.cells()) is Some,
            v matches Some(v) ==> Some(v@) == values_of(self.cells()),
    {
        let mut out: Vec<FieldElement> = Vec::new();
        let mut i: usize = 0;
        while i < self.cells.len()
            invariant
                i <= self.cells@.len(),
                out@.len() == i,
                forall|j: int| 0 <= j < i ==> (#[trigger] self.cells@[j]).value_spec() == Some(out@[j]),
            decreases self.cells.len() - i,
        {
            match self.cells[i].value() {
                Some(v) => {
                    out.push(v);
                },
                None => {
                    return None;
                },
            }
            i += 1;
        }
        proof {
            assert(out@ =~= Seq::new(
                self.cells@.len(),
                |i: int| self.cells@[i].value_spec().unwrap(),
            ));
        }
        Some(out)
    }
}

/// A tensor with an extent of zero has no entries.
pub proof fn lemma_volume_zero(dims: Seq<usize>, j: int)
    requires
        0 <= j < dims.len(),
        dims[j] == 0,
    ensures
        volume(dims) == 0,
    decreases dims.len(),
{
    if j < dims.len() - 1 {
        lemma_volume_zero(dims.drop_last(), j);
    }
    assert(volume(dims.drop_last()) * (dims.last() as nat) == 0) by (nonlinear_arith)
        requires
            volume(dims.drop_last()) == 0 || dims.last() == 0,
    ;
}

/// Where no extent is zero, the volume of a prefix of the extents is at most
/// the volume of all of them.
pub proof fn lemma_volume_prefix(dims: Seq<usize>, k: int)
    requires
        0 <= k <= dims.len(),
        forall|j: int| 0 <= j < dims.len() ==> dims[j] != 0,
    ensures
        1 <= volume(dims.take(k)) <= volume(dims),
    decreases dims.len() - k,
{
    if k == dims.len() {
        assert(dims.take(k) =~= dims);
        lemma_volume_positive(dims);
    } else {
        lemma_volume_prefix(dims, k + 1);
        assert(dims.take(k + 1).drop_last() =~= dims.take(k));
        lemma_volume_positive(dims.take(k));
        assert(volume(dims.take(k)) <= volume(dims.take(k)) * (dims[k] as nat))
            by (nonlinear_arith)
            requires
                dims[k] >= 1,
        ;
    }
}

/// Where no extent is zero, the volume is positive.
pub proof fn lemma_volume_positive(dims: Seq<usize>)
    requires
        forall|j: int| 0 <= j < dims.len() ==> dims[j] != 0,
    ensures
        volume(dims) >= 1,
    decreases dims.len(),
{
    if dims.len() > 0 {
        lemma_volume_positive(dims.drop_last());
        assert(volume(dims.drop_last()) * (dims.last() as nat) >= 1) by (nonlinear_arith)
            requires
                volume(dims.drop_last()) >= 1,
                dims.last() >= 1,
        ;
    }
}

} // verus!
