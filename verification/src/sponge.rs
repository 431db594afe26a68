//! A hash module of fixed arity: a sponge over the scalar field of BN254
//! that absorbs one input per row through the power map.
//!
//! The module shows how a module keeps the contract and how the planner
//! drives one. Its step function is a single power map, far short of a
//! permutation fit for cryptographic use.

use crate::constants::{ConstantsCache, lemma_cache_survives};
use crate::engine::{LayoutEngine, Link, Write, lemma_extends_keeps_values, lemma_written_value};
use crate::errors::ModuleError;
use crate::field::{FieldElement, element_of, lemma_value_injective};
use crate::module::{Module, cache_grows, holds_matrix, seq_sum, total_len, writes_within};
use crate::scalar::{canonical, is_canonical, power, power_spec, sum, sum_spec};
use crate::system::ConstraintSystem;
use crate::tensor::{CellHandle, CellValue, Column, ColumnKind, ValueTensor, values_of, volume};
use vstd::prelude::*;

verus! {

/// The exponent of the power map.
pub const EXPONENT: u64 = 5;

/// The state of the sponge after it has absorbed `x` in state `state`:
/// the sum of the two, raised to `EXPONENT`.
pub open spec fn absorb_spec(state: FieldElement, x: FieldElement) -> FieldElement {
    element_of(power_spec(sum_spec(state.value(), x.value()), EXPONENT as nat))
}

/// The state of the sponge after it has absorbed `xs` in order, starting
/// from zero.
pub open spec fn digest_spec(xs: Seq<FieldElement>) -> FieldElement
    decreases xs.len(),
{
    if xs.len() == 0 {
        element_of(0)
    } else {
        absorb_spec(digest_spec(xs.drop_last()), xs.last())
    }
}

/// The states that the sponge goes through while it absorbs `xs`: the
/// state before the first input, then the state after each.
pub open spec fn states_spec(xs: Seq<FieldElement>) -> Seq<FieldElement> {
    Seq::new(xs.len() + 1, |j: int| digest_spec(xs.take(j)))
}

/// Whether every element is canonical.
pub open spec fn all_canonical(xs: Seq<FieldElement>) -> bool {
    forall|i: int| 0 <= i < xs.len() ==> canonical(#[trigger] xs[i])
}

/// The cells of `column` in the `count` rows from `first` on.
pub open spec fn column_cells(column: Column, first: nat, count: nat) -> Seq<CellHandle> {
    Seq::new(count, |j: int| CellHandle { column, row: (first + j) as usize })
}

/// The writes that put `values`, in order, in the rows of `column` from
/// `first` on.
pub open spec fn column_writes(column: Column, first: nat, values: Seq<FieldElement>) -> Seq<
    Write,
> {
    Seq::new(
        values.len(),
        |j: int| Write { cell: CellHandle { column, row: (first + j) as usize }, value: values[j] },
    )
}

/// The constraints that tie each entry that already sits in a cell to the
/// target cell at the same position.
pub open spec fn copy_links(entries: Seq<CellValue>, targets: Seq<CellHandle>) -> Seq<Link>
    decreases entries.len(),
{
    if entries.len() == 0 {
        Seq::empty()
    } else {
        let rest = copy_links(entries.drop_last(), targets.drop_last());
        match entries.last().cell_spec() {
            Some(cell) => rest.push(Link { left: cell, right: targets.last() }),
            None => rest,
        }
    }
}

/// The entries that hold `values`, in order, in `cells`.
pub open spec fn assigned_entries(values: Seq<FieldElement>, cells: Seq<CellHandle>) -> Seq<
    CellValue,
> {
    Seq::new(values.len(), |j: int| CellValue::Assigned { value: values[j], cell: cells[j] })
}

/// The columns of a sponge and the largest chunk its wiring supports.
#[derive(Clone, Copy, Debug, PartialEq, Eq, Structural)]
pub struct SpongeConfig {
    /// The advice column in which inputs are staged and tied to public
    /// inputs.
    pub staged: Column,
    /// The advice column of the inputs as they are absorbed.
    pub absorbed: Column,
    /// The advice column of the sponge's states.
    pub state: Column,
    /// The largest chunk that `optimize` may set.
    pub max_chunk: usize,
}

/// The tuning of a sponge.
#[derive(Clone, Copy, Debug, PartialEq, Eq, Structural)]
pub struct SpongeParams {
    /// How many rows the prover fills at a time.
    pub chunk: usize,
}

/// A sponge hash that takes exactly `L` inputs.
pub struct SpongeHash<const L: usize> {
    config: SpongeConfig,
    chunk: usize,
}

/// The writes of one laid-out invocation: the inputs in the absorbed
/// column, then the states in the state column, both from row `first` on.
pub open spec fn layout_plan(config: SpongeConfig, first: nat, xs: Seq<FieldElement>) -> Seq<
    Write,
> {
    column_writes(config.absorbed, first, xs) + column_writes(config.state, first, states_spec(xs))
}

/// Whether the grid can stage the inputs carried by `entries`: it takes
/// the writes to the staging column in the rows numbered like the next free
/// public-input slots, has those slots free, and takes the constraints that
/// tie inputs already in cells to their staged copies.
pub open spec fn staging_fits(config: SpongeConfig, engine: LayoutEngine, entries: Seq<CellValue>)
    -> bool {
    let first = engine.instance_used() as nat;
    let cells = column_cells(config.staged, first, entries.len());
    &&& values_of(entries) matches Some(xs) && engine.plan_fits(
        column_writes(config.staged, first, xs),
    )
    &&& engine.slots_fit(cells)
    &&& engine.links_fit(copy_links(entries, cells))
}

/// Whether the grid can hold one invocation from row `first` on: the rows
/// exist, the grid takes the writes of the invocation, the zero constant is
/// cached or can be placed, and the grid takes the constraints that tie
/// inputs already in cells to their absorbed copies.
pub open spec fn layout_fits(
    config: SpongeConfig,
    engine: LayoutEngine,
    cache: ConstantsCache,
    first: nat,
    entries: Seq<CellValue>,
) -> bool {
    &&& first + entries.len() < engine.rows()
    &&& values_of(entries) matches Some(xs) && engine.plan_fits(layout_plan(config, first, xs))
    &&& cache@.contains_key(element_of(0)) || (engine.constants() is Some
        && engine.constants_used() < engine.rows())
    &&& engine.links_fit(copy_links(entries, column_cells(config.absorbed, first, entries.len())))
}

/// Absorbs one input.
fn absorb(state: &FieldElement, x: &FieldElement) -> (next: FieldElement)
    requires
        canonical(*state),
        canonical(*x),
    ensures
        next == absorb_spec(*state, *x),
        canonical(next),
{
    let t = sum(state, x);
    let next = power(&t, EXPONENT);
    proof {
        lemma_value_injective(next, next);
    }
    next
}

/// The states of the sponge over `xs`, unless some input is not canonical.
fn sponge_states(xs: &Vec<FieldElement>) -> (r: Option<Vec<FieldElement>>)
    ensures
        r is Some <==> all_canonical(xs@),
        r matches Some(states) ==> states@ == states_spec(xs@),
{
    let mut states: Vec<FieldElement> = Vec::new();
    let mut state = FieldElement::zero();
    states.push(state);
    let mut j: usize = 0;
    proof {
        assert(xs@.take(0).take(0) =~= xs@.take(0));
        assert(states@ =~= states_spec(xs@.take(0)));
    }
    while j < xs.len()
        invariant
            j <= xs@.len(),
            all_canonical(xs@.take(j as int)),
            canonical(state),
            state == digest_spec(xs@.take(j as int)),
            states@ == states_spec(xs@.take(j as int)),
        decreases xs.len() - j,
    {
        if !is_canonical(&xs[j]) {
            return None;
        }
        state = absorb(&state, &xs[j]);
        states.push(state);
        proof {
            let shorter = xs@.take(j as int);
            let longer = xs@.take(j + 1);
            assert(longer.drop_last() =~= shorter);
            assert(longer.take(j + 1) =~= longer);
            assert forall|i: int| 0 <= i <= j implies longer.take(i) == shorter.take(i) by {
                assert(longer.take(i) =~= shorter.take(i));
            }
            assert(states@ =~= states_spec(longer));
        }
        j += 1;
    }
    proof {
        assert(xs@.take(j as int) =~= xs@);
    }
    Some(states)
}

/// The writes of `values` to the rows of `column` from `first` on,
/// appended to `plan`.
fn push_column(plan: &mut Vec<Write>, column: Column, first: usize, values: &Vec<FieldElement>)
    requires
        first + values@.len() <= usize::MAX,
    ensures
        final(plan)@ == old(plan)@ + column_writes(column, first as nat, values@),
{
    let mut j: usize = 0;
    proof {
        assert(plan@ =~= old(plan)@ + column_writes(column, first as nat, values@.take(0)));
    }
    while j < values.len()
        invariant
            j <= values@.len(),
            first + values@.len() <= usize::MAX,
            plan@ == old(plan)@ + column_writes(column, first as nat, values@.take(j as int)),
        decreases values.len() - j,
    {
        plan.push(Write { cell: CellHandle { column, row: first + j }, value: values[j] });
        proof {
            assert(plan@ =~= old(plan)@ + column_writes(column, first as nat, values@.take(j + 1)));
        }
        j += 1;
    }
    proof {
        assert(values@.take(j as int) =~= values@);
    }
}

/// The cells of `column` in the `count` rows from `first` on.
fn cells_of_column(column: Column, first: usize, count: usize) -> (cells: Vec<CellHandle>)
    requires
        first + count <= usize::MAX,
    ensures
        cells@ == column_cells(column, first as nat, count as nat),
{
    let mut cells: Vec<CellHandle> = Vec::new();
    let mut j: usize = 0;
    while j < count
        invariant
            j <= count,
            first + count <= usize::MAX,
            cells@ == column_cells(column, first as nat, j as nat),
        decreases count - j,
    {
        cells.push(CellHandle { column, row: first + j });
        proof {
            assert(cells@ =~= column_cells(column, first as nat, (j + 1) as nat));
        }
        j += 1;
    }
    cells
}

/// The copy constraints between the entries of `tensor` and `targets`.
fn links_of(tensor: &ValueTensor, targets: &Vec<CellHandle>) -> (links: Vec<Link>)
    requires
        tensor.cells().len() == targets@.len(),
    ensures
        links@ == copy_links(tensor.cells(), targets@),
{
    let mut links: Vec<Link> = Vec::new();
    let mut j: usize = 0;
    proof {
        assert(links@ =~= copy_links(tensor.cells().take(0), targets@.take(0)));
    }
    while j < targets.len()
        invariant
            j <= targets@.len(),
            tensor.cells().len() == targets@.len(),
            links@ == copy_links(tensor.cells().take(j as int), targets@.take(j as int)),
        decreases targets.len() - j,
    {
        let entry = tensor.get(j);
        proof {
            assert(tensor.cells().take(j + 1).drop_last() =~= tensor.cells().take(j as int));
            assert(targets@.take(j + 1).drop_last() =~= targets@.take(j as int));
        }
        match entry {
            Some(CellValue::Assigned { cell, .. }) => {
                links.push(Link { left: cell, right: targets[j] });
            },
            _ => {},
        }
        j += 1;
    }
    proof {
        assert(tensor.cells().take(j as int) =~= tensor.cells());
        assert(targets@.take(j as int) =~= targets@);
    }
    links
}

/// The entries that hold `values` in `cells`.
fn entries_of(values: &Vec<FieldElement>, cells: &Vec<CellHandle>) -> (entries: Vec<CellValue>)
    requires
        values@.len() == cells@.len(),
    ensures
        entries@ == assigned_entries(values@, cells@),
{
    let mut entries: Vec<CellValue> = Vec::new();
    let mut j: usize = 0;
    while j < values.len()
        invariant
            j <= values@.len(),
            values@.len() == cells@.len(),
            entries@ == assigned_entries(values@.take(j as int), cells@),
        decreases values.len() - j,
    {
        entries.push(CellValue::Assigned { value: values[j], cell: cells[j] });
        proof {
            assert(entries@ =~= assigned_entries(values@.take(j + 1), cells@));
        }
        j += 1;
    }
    proof {
        assert(values@.take(j as int) =~= values@);
    }
    entries
}

/// Places the inputs and the states of one invocation in the rows from
/// `first` on.
fn lay_rows(
    config: SpongeConfig,
    engine: &mut LayoutEngine,
    first: usize,
    xs: &Vec<FieldElement>,
    states: &Vec<FieldElement>,
) -> (r: Result<(), ModuleError>)
    requires
        old(engine).wf(),
        states@ == states_spec(xs@),
    ensures
        final(engine).wf(),
        final(engine).extends(*old(engine)),
        final(engine).links() == old(engine).links(),
        final(engine).constants_used() == old(engine).constants_used(),
        final(engine).instance_used() == old(engine).instance_used(),
        writes_within(
            *final(engine),
            *old(engine),
            first as nat,
            (xs@.len() + 1) as nat,
        ),
        r is Ok <==> first + xs@.len() < old(engine).rows() && old(engine).plan_fits(
            layout_plan(config, first as nat, xs@),
        ),
        r is Ok ==> {
            let state_cell = CellHandle { column: config.state, row: first };
            let digest_cell = CellHandle { column: config.state, row: (first + xs@.len()) as usize };
            &&& final(engine).writes() == old(engine).writes() + layout_plan(
                config,
                first as nat,
                xs@,
            )
            &&& final(engine).in_range(state_cell)
            &&& state_cell.column.kind != ColumnKind::Instance
            &&& final(engine).written(digest_cell)
            &&& final(engine).value_at(digest_cell) == Some(states@[xs@.len() as int])
        },
        r matches Err(e) ==> e == ModuleError::LayoutFailed,
{
    if xs.len() >= usize::MAX - first {
        return Err(ModuleError::LayoutFailed);
    }
    if first + xs.len() >= engine.height() {
        return Err(ModuleError::LayoutFailed);
    }
    let mut plan: Vec<Write> = Vec::new();
    push_column(&mut plan, config.absorbed, first, xs);
    push_column(&mut plan, config.state, first, states);
    proof {
        assert(plan@ =~= layout_plan(config, first as nat, xs@));
    }
    let ghost start = *engine;
    let r = engine.assign_all(&plan);
    proof {
        lemma_plan_rows(config, *engine, start, first as nat, xs@);
        if r is Ok {
            let n = xs@.len() as int;
            let at = start.writes().len() + n;
            assert(engine.writes()[at] == plan@[n]);
            assert(start.accepts(plan@[n].cell, plan@[n].value));
            let end = start.writes().len() + n + n;
            assert(engine.writes()[end] == plan@[n + n]);
            lemma_written_value(*engine, end);
        }
    }
    r
}

/// Makes sure that the zero constant sits in a fixed cell and ties the
/// cell `target` to it.
fn tie_zero(engine: &mut LayoutEngine, constants: &mut ConstantsCache, target: CellHandle) -> (r:
    Result<CellHandle, ModuleError>)
    requires
        old(engine).wf(),
        old(constants).wf(),
        old(constants).agrees_with(*old(engine)),
        old(engine).in_range(target),
        target.column.kind != ColumnKind::Instance,
    ensures
        final(engine).wf(),
        final(constants).wf(),
        final(constants).agrees_with(*final(engine)),
        final(engine).extends(*old(engine)),
        final(engine).instance_used() == old(engine).instance_used(),
        cache_grows(*final(constants), *old(constants)),
        r is Ok <==> old(constants)@.contains_key(element_of(0)) || (old(engine).constants() is Some
            && old(engine).constants_used() < old(engine).rows()),
        r matches Ok(cell) ==> {
            let zero = element_of(0);
            let cached = old(constants)@.contains_key(zero);
            &&& final(constants)@.contains_key(zero)
            &&& final(constants)@[zero] == cell
            &&& Some(cell.column) == final(engine).constants()
            &&& cached ==> *final(constants) == *old(constants) && final(engine).writes() == old(
                engine).writes()
            &&& !cached ==> final(constants)@ == old(constants)@.insert(zero, cell) && final(
                engine).writes() == old(engine).writes().push(Write { cell, value: zero })
            &&& final(engine).links() == old(engine).links().push(Link { left: cell, right: target })
        },
        r matches Err(e) ==> e == ModuleError::LayoutFailed && *final(engine) == *old(engine)
            && *final(constants) == *old(constants),
{
    let zero = FieldElement::zero();
    let cell = match constants.get_or_assign(zero, engine) {
        Ok(cell) => cell,
        Err(e) => {
            return Err(e);
        },
    };
    proof {
        let i = choose|i: int|
            0 <= i < constants.entries().len() && (#[trigger] constants.entries()[i]).value == zero;
        assert(constants.entries()[i].cell == cell);
        assert(engine.written(cell));
    }
    let ghost placed = *engine;
    match engine.constrain_equal(cell, target) {
        Ok(()) => {},
        Err(e) => {
            return Err(e);
        },
    }
    proof {
        lemma_cache_survives(*constants, *engine, placed);
    }
    Ok(cell)
}

/// The one-by-one tensor whose entry holds `value` in `cell`.
fn digest_tensor(value: FieldElement, cell: CellHandle) -> (out: ValueTensor)
    ensures
        out.wf(),
        out.dims() == seq![1usize, 1usize],
        out.cells() == seq![CellValue::Assigned { value, cell }],
        holds_matrix(out, seq![seq![value]]),
{
    let mut entries: Vec<CellValue> = Vec::new();
    entries.push(CellValue::Assigned { value, cell });
    let mut dims: Vec<usize> = Vec::new();
    dims.push(1);
    dims.push(1);
    proof {
        let inner = dims@.drop_last();
        assert(inner.drop_last() =~= Seq::<usize>::empty());
        assert(volume(inner.drop_last()) == 1);
        assert(inner.last() == 1);
        assert(volume(inner) == 1);
        assert(dims@.last() == 1);
        assert(volume(dims@) == 1);
        assert(dims@ =~= seq![1usize, 1usize]);
        assert(entries@ =~= seq![CellValue::Assigned { value, cell }]);
    }
    let out = ValueTensor::from_parts(entries, dims);
    proof {
        let matrix = seq![seq![value]];
        matrix.lemma_flatten_one_element();
        assert(out.cells()[0].value_spec() == Some(value));
        assert(values_of(out.cells()).unwrap() =~= matrix.flatten());
    }
    out
}

impl<const L: usize> SpongeHash<L> {
    /// The chunk that the instance is tuned to.
    pub closed spec fn chunk_spec(&self) -> usize {
        self.chunk
    }

    /// Tuning sets the chunk and keeps the configuration.
    pub proof fn lemma_tuned(self, params: SpongeParams)
        ensures
            self.tuned(params).chunk_spec() == params.chunk,
            self.tuned(params).config() == self.config(),
    {
    }

    /// The configuration of the instance.
    pub fn configuration(&self) -> (c: SpongeConfig)
        ensures
            c == self.config(),
    {
        self.config
    }

    /// The chunk that the instance is tuned to.
    pub fn chunk(&self) -> (c: usize)
        ensures
            c == self.chunk_spec(),
    {
        self.chunk
    }

    /// The inputs that the tensors carry, if a run on them succeeds.
    fn read_inputs(input: &[ValueTensor]) -> (r: Option<Vec<FieldElement>>)
        ensures
            r is Some <==> Self::runnable(input@),
            r matches Some(xs) ==> Self::carried(input@) == Some(xs@) && xs@.len() == L
                && all_canonical(xs@) && input@.len() == 1,
    {
        if input.len() != 1 {
            return None;
        }
        let xs = match input[0].values() {
            Some(xs) => xs,
            None => {
                return None;
            },
        };
        if xs.len() != L {
            return None;
        }
        let mut j: usize = 0;
        while j < xs.len()
            invariant
                j <= xs@.len(),
                xs@.len() == L,
                input@.len() == 1,
                Self::carried(input@) == Some(xs@),
                all_canonical(xs@.take(j as int)),
            decreases xs.len() - j,
        {
            if !is_canonical(&xs[j]) {
                assert(!canonical(xs@[j as int]));
                return None;
            }
            proof {
                assert forall|i: int| 0 <= i < j + 1 implies canonical(
                    #[trigger] xs@.take(j + 1)[i],
                ) by {
                    if i < j {
                        assert(xs@.take(j as int)[i] == xs@.take(j + 1)[i]);
                    }
                }
            }
            j += 1;
        }
        proof {
            assert(xs@.take(j as int) =~= xs@);
        }
        Some(xs)
    }
}

impl<const L: usize> Module for SpongeHash<L> {
    type Config = SpongeConfig;

    type InputAssignments = ValueTensor;

    type RunInputs = Vec<FieldElement>;

    type Params = SpongeParams;

    open spec fn wf(&self) -> bool {
        self.chunk_spec() <= self.config().max_chunk
    }

    closed spec fn config(&self) -> SpongeConfig {
        self.config
    }

    open spec fn name_spec() -> Seq<char> {
        "sponge"@
    }

    open spec fn can_configure(meta: ConstraintSystem, params: SpongeParams) -> bool {
        &&& params.chunk >= 1
        &&& meta.used().advice + 3 <= meta.limit().advice
        &&& meta.constants() is Some || meta.has_room(ColumnKind::Fixed)
        &&& meta.public_inputs() is Some || meta.has_room(ColumnKind::Instance)
    }

    open spec fn configured(meta: ConstraintSystem, params: SpongeParams) -> (
        SpongeConfig,
        ConstraintSystem,
    ) {
        let shared = meta.with_constants().with_public_inputs();
        let first = shared.used().advice;
        (
            SpongeConfig {
                staged: Column { kind: ColumnKind::Advice, index: first },
                absorbed: Column { kind: ColumnKind::Advice, index: (first + 1) as usize },
                state: Column { kind: ColumnKind::Advice, index: (first + 2) as usize },
                max_chunk: params.chunk,
            },
            shared.with_column(ColumnKind::Advice).with_column(ColumnKind::Advice).with_column(
                ColumnKind::Advice,
            ),
        )
    }

    open spec fn run_spec(input: Seq<FieldElement>) -> Result<Seq<Seq<FieldElement>>, ModuleError> {
        if input.len() == L && all_canonical(input) {
            Ok(seq![seq![digest_spec(input)]])
        } else {
            Err(ModuleError::RunFailed)
        }
    }

    open spec fn carried(tensors: Seq<ValueTensor>) -> Option<Seq<FieldElement>> {
        if tensors.len() == 1 {
            values_of(tensors[0].cells())
        } else {
            None
        }
    }

    open spec fn rows_spec(input_len: nat) -> nat {
        if input_len + 1 <= usize::MAX {
            input_len + 1
        } else {
            usize::MAX as nat
        }
    }

    open spec fn increments(&self) -> Seq<usize> {
        seq![L]
    }

    open spec fn can_stage(
        &self,
        engine: LayoutEngine,
        tensors: Seq<ValueTensor>,
        constants: ConstantsCache,
    ) -> bool {
        staging_fits(self.config(), engine, tensors[0].cells())
    }

    open spec fn can_lay_out(
        &self,
        engine: LayoutEngine,
        tensors: Seq<ValueTensor>,
        row_offset: nat,
        constants: ConstantsCache,
    ) -> bool {
        layout_fits(self.config(), engine, constants, row_offset, tensors[0].cells())
    }

    open spec fn stages(
        &self,
        before: (LayoutEngine, ConstantsCache),
        after: (LayoutEngine, ConstantsCache),
        tensors: Seq<ValueTensor>,
        assigned: ValueTensor,
    ) -> bool {
        let first = before.0.instance_used() as nat;
        let xs = Self::carried(tensors).unwrap();
        let cells = column_cells(self.config().staged, first, L as nat);
        &&& assigned.wf()
        &&& assigned.dims() == tensors[0].dims()
        &&& assigned.cells() == assigned_entries(xs, cells)
        &&& after.1 == before.1
        &&& after.0.writes() == before.0.writes() + column_writes(self.config().staged, first, xs)
        &&& after.0.links() == before.0.links() + copy_links(tensors[0].cells(), cells)
            + before.0.slot_links(cells, first as int)
    }

    open spec fn lays_out(
        &self,
        before: (LayoutEngine, ConstantsCache),
        after: (LayoutEngine, ConstantsCache),
        tensors: Seq<ValueTensor>,
        row_offset: nat,
        out: ValueTensor,
    ) -> bool {
        let xs = Self::carried(tensors).unwrap();
        let zero = element_of(0);
        let cached = before.1@.contains_key(zero);
        let zero_cell = after.1@[zero];
        let plan = layout_plan(self.config(), row_offset, xs);
        &&& out.dims() == seq![1usize, 1usize]
        &&& out.cells() == seq![
            CellValue::Assigned {
                value: digest_spec(xs),
                cell: CellHandle { column: self.config().state, row: (row_offset + L) as usize },
            },
        ]
        &&& after.1@.contains_key(zero)
        &&& cached ==> after.1 == before.1 && after.0.writes() == before.0.writes() + plan
        &&& !cached ==> after.1@ == before.1@.insert(zero, zero_cell) && after.0.writes() == (
        before.0.writes() + plan).push(Write { cell: zero_cell, value: zero })
        &&& after.0.links() == before.0.links().push(
            Link {
                left: zero_cell,
                right: CellHandle { column: self.config().state, row: row_offset as usize },
            },
        ) + copy_links(
            tensors[0].cells(),
            column_cells(self.config().absorbed, row_offset, L as nat),
        )
    }

    open spec fn accepts(&self, params: SpongeParams) -> bool {
        1 <= params.chunk <= self.config().max_chunk
    }

    closed spec fn tuned(self, params: SpongeParams) -> Self {
        SpongeHash { config: self.config, chunk: params.chunk }
    }

    proof fn lemma_rows_monotone(shorter: nat, longer: nat) {
    }

    proof fn lemma_tuned_keeps(self, params: SpongeParams) {
    }

    fn new(config: SpongeConfig) -> (m: Self)
        ensures
            m.chunk_spec() == config.max_chunk,
    {
        SpongeHash { config, chunk: config.max_chunk }
    }

    fn configure(meta: &mut ConstraintSystem, params: SpongeParams) -> (r: Result<
        SpongeConfig,
        ModuleError,
    >)
        ensures
            r matches Ok(c) ==> c == (SpongeConfig {
                staged: Column { kind: ColumnKind::Advice, index: old(meta).used().advice },
                absorbed: Column {
                    kind: ColumnKind::Advice,
                    index: (old(meta).used().advice + 1) as usize,
                },
                state: Column {
                    kind: ColumnKind::Advice,
                    index: (old(meta).used().advice + 2) as usize,
                },
                max_chunk: params.chunk,
            }) && final(meta).used().advice == old(meta).used().advice + 3 && final(
                meta).constants() is Some && final(meta).public_inputs() is Some && final(
                meta).used().fixed == old(meta).used().fixed + (if old(meta).constants() is Some {
                0int
            } else {
                1int
            }) && final(meta).used().instance == old(meta).used().instance + (if old(
                meta).public_inputs() is Some {
                0int
            } else {
                1int
            }),
    {
        proof {
            let shared = meta.with_constants().with_public_inputs();
            meta.lemma_with_constants();
            meta.with_constants().lemma_with_public_inputs();
            shared.lemma_with_column(ColumnKind::Advice);
            shared.with_column(ColumnKind::Advice).lemma_with_column(ColumnKind::Advice);
        }
        if params.chunk == 0 {
            return Err(ModuleError::ConfigurationError);
        }
        if meta.room(ColumnKind::Advice) < 3 {
            return Err(ModuleError::ConfigurationError);
        }
        if meta.constants_column().is_none() && meta.room(ColumnKind::Fixed) == 0 {
            return Err(ModuleError::ConfigurationError);
        }
        if meta.public_inputs_column().is_none() && meta.room(ColumnKind::Instance) == 0 {
            return Err(ModuleError::ConfigurationError);
        }
        match meta.enable_constants() {
            Ok(_) => {},
            Err(e) => {
                return Err(e);
            },
        }
        match meta.enable_public_inputs() {
            Ok(_) => {},
            Err(e) => {
                return Err(e);
            },
        }
        let staged = match meta.allocate(ColumnKind::Advice) {
            Ok(c) => c,
            Err(e) => {
                return Err(e);
            },
        };
        let absorbed = match meta.allocate(ColumnKind::Advice) {
            Ok(c) => c,
            Err(e) => {
                return Err(e);
            },
        };
        let state = match meta.allocate(ColumnKind::Advice) {
            Ok(c) => c,
            Err(e) => {
                return Err(e);
            },
        };
        Ok(SpongeConfig { staged, absorbed, state, max_chunk: params.chunk })
    }

    fn name(&self) -> (n: &'static str) {
        "sponge"
    }

    fn run(input: Vec<FieldElement>) -> (r: Result<Vec<Vec<FieldElement>>, ModuleError>)
        ensures
            r matches Ok(rows) ==> rows@.len() == 1 && rows@[0]@ == seq![digest_spec(input@)],
            r matches Err(e) ==> e == ModuleError::RunFailed,
    {
        if input.len() != L {
            return Err(ModuleError::RunFailed);
        }
        let states = match sponge_states(&input) {
            Some(states) => states,
            None => {
                return Err(ModuleError::RunFailed);
            },
        };
        let mut row: Vec<FieldElement> = Vec::new();
        row.push(states[L]);
        let mut rows: Vec<Vec<FieldElement>> = Vec::new();
        rows.push(row);
        proof {
            assert(input@.take(L as int) =~= input@);
            assert(Seq::new(rows@.len(), |i: int| rows@[i]@) =~= seq![seq![digest_spec(input@)]]);
        }
        Ok(rows)
    }

    fn layout_inputs(
        &self,
        engine: &mut LayoutEngine,
        input: &[ValueTensor],
        constants: &mut ConstantsCache,
    ) -> (r: Result<ValueTensor, ModuleError>)
        ensures
            *final(constants) == *old(constants),
    {
        let xs = match Self::read_inputs(input) {
            Some(xs) => xs,
            None => {
                return Err(ModuleError::RunFailed);
            },
        };
        proof {
            lemma_seq_sum_one(L);
        }
        let first: usize = engine.instance_count();
        if L > usize::MAX - first {
            return Err(ModuleError::LayoutFailed);
        }
        let cells = cells_of_column(self.config.staged, first, L);
        let mut plan: Vec<Write> = Vec::new();
        push_column(&mut plan, self.config.staged, first, &xs);
        let links = links_of(&input[0], &cells);
        let entries = entries_of(&xs, &cells);
        proof {
            assert(plan@ =~= column_writes(self.config.staged, first as nat, xs@));
        }
        let ghost start = *engine;
        match engine.assign_all(&plan) {
            Ok(()) => {},
            Err(e) => {
                proof {
                    lemma_cache_survives(*constants, *engine, start);
                }
                return Err(e);
            },
        }
        let ghost written = *engine;
        match engine.link_all(&links) {
            Ok(()) => {},
            Err(e) => {
                proof {
                    lemma_cache_survives(*constants, *engine, start);
                }
                return Err(e);
            },
        }
        let ghost linked = *engine;
        match engine.bind_all(&cells) {
            Ok(()) => {},
            Err(e) => {
                proof {
                    lemma_cache_survives(*constants, *engine, start);
                }
                return Err(e);
            },
        }
        proof {
            lemma_cache_survives(*constants, *engine, start);
            assert(start.slot_links(cells@, first as int) =~= linked.slot_links(
                cells@,
                first as int,
            ));
        }
        Ok(ValueTensor::from_parts(entries, input[0].shape()))
    }

    fn layout(
        &self,
        engine: &mut LayoutEngine,
        input: &[ValueTensor],
        row_offset: usize,
        constants: &mut ConstantsCache,
    ) -> (r: Result<ValueTensor, ModuleError>)
    {
        let xs = match Self::read_inputs(input) {
            Some(xs) => xs,
            None => {
                return Err(ModuleError::RunFailed);
            },
        };
        let states = match sponge_states(&xs) {
            Some(states) => states,
            None => {
                return Err(ModuleError::RunFailed);
            },
        };
        proof {
            lemma_total_len_one(input@);
            assert(xs@.take(L as int) =~= xs@);
        }
        let ghost start = *engine;
        match lay_rows(self.config, engine, row_offset, &xs, &states) {
            Ok(()) => {},
            Err(e) => {
                proof {
                    lemma_cache_survives(*constants, *engine, start);
                }
                return Err(e);
            },
        }
        let ghost written = *engine;
        let state_cell = CellHandle { column: self.config.state, row: row_offset };
        let digest_cell = CellHandle { column: self.config.state, row: row_offset + L };
        proof {
            lemma_cache_survives(*constants, *engine, start);
        }
        match tie_zero(engine, constants, state_cell) {
            Ok(_) => {},
            Err(e) => {
                return Err(e);
            },
        }
        let ghost tied = *engine;
        proof {
            lemma_within_grows(tied, written, start, row_offset as nat, (L + 1) as nat);
        }
        let targets = cells_of_column(self.config.absorbed, row_offset, L);
        let links = links_of(&input[0], &targets);
        match engine.link_all(&links) {
            Ok(()) => {},
            Err(e) => {
                proof {
                    lemma_cache_survives(*constants, *engine, tied);
                }
                return Err(e);
            },
        }
        proof {
            lemma_cache_survives(*constants, *engine, tied);
            lemma_extends_keeps_values(*engine, written, digest_cell);
        }
        Ok(digest_tensor(states[L], digest_cell))
    }

    fn instance_increment_input(&self) -> (v: Vec<usize>) {
        let mut v: Vec<usize> = Vec::new();
        v.push(L);
        v
    }

    fn num_rows(input_len: usize) -> (rows: usize) {
        if input_len == usize::MAX {
            usize::MAX
        } else {
            input_len + 1
        }
    }

    fn optimize(&mut self, params: SpongeParams) -> (r: Result<(), ModuleError>)
        ensures
            r is Ok ==> final(self).chunk_spec() == params.chunk,
    {
        if params.chunk == 0 || params.chunk > self.config.max_chunk {
            return Err(ModuleError::OptimizeFailed);
        }
        self.chunk = params.chunk;
        Ok(())
    }
}

/// Whether `column` is an advice column of the grid.
pub open spec fn is_advice_of(column: Column, engine: LayoutEngine) -> bool {
    column.kind == ColumnKind::Advice && column.index < engine.columns().advice
}

/// Whether no write to `column` so far lies in the `count` rows from
/// `first` on.
pub open spec fn rows_clear(engine: LayoutEngine, column: Column, first: nat, count: nat) -> bool {
    forall|i: int|
        0 <= i < engine.writes().len() && (#[trigger] engine.writes()[i]).cell.column == column
            ==> !(first <= engine.writes()[i].cell.row < first + count)
}

/// Whether every entry that sits in a cell sits in a cell of the grid
/// that is no instance cell.
pub open spec fn sources_fit(engine: LayoutEngine, entries: Seq<CellValue>) -> bool {
    forall|j: int|
        0 <= j < entries.len() ==> ((#[trigger] entries[j]).cell_spec() matches Some(cell)
            ==> engine.in_range(cell) && cell.column.kind != ColumnKind::Instance)
}

/// The grid takes the copy constraints between entries whose cells it has
/// and targets that it has.
pub proof fn lemma_copy_links_fit(
    engine: LayoutEngine,
    entries: Seq<CellValue>,
    targets: Seq<CellHandle>,
)
    requires
        entries.len() == targets.len(),
        sources_fit(engine, entries),
        forall|j: int|
            0 <= j < targets.len() ==> engine.in_range(#[trigger] targets[j]) && targets[j].column.kind
                != ColumnKind::Instance,
    ensures
        engine.links_fit(copy_links(entries, targets)),
    decreases entries.len(),
{
    if entries.len() > 0 {
        let shorter = entries.drop_last();
        assert forall|j: int| 0 <= j < shorter.len() implies ((#[trigger] shorter[j]).cell_spec() matches Some(
            cell,
        ) ==> engine.in_range(cell) && cell.column.kind != ColumnKind::Instance) by {
            assert(shorter[j] == entries[j]);
        }
        assert forall|j: int| 0 <= j < targets.drop_last().len() implies engine.in_range(
            #[trigger] targets.drop_last()[j],
        ) && targets.drop_last()[j].column.kind != ColumnKind::Instance by {
            assert(targets.drop_last()[j] == targets[j]);
        }
        lemma_copy_links_fit(engine, shorter, targets.drop_last());
        let last = entries.len() - 1;
        assert(entries.last() == entries[last]);
        assert(targets.last() == targets[last]);
    }
}

/// Success is owed where the rows are clear: a grid takes one invocation
/// from row `first` on if it has the rows, if the absorbed and the state
/// column are two different advice columns of it in which those rows are
/// unwritten, if the inputs that sit in cells sit in cells that can be
/// constrained, and if the zero constant is cached or can be placed.
pub proof fn lemma_clear_rows_fit(
    config: SpongeConfig,
    engine: LayoutEngine,
    cache: ConstantsCache,
    first: nat,
    entries: Seq<CellValue>,
)
    requires
        engine.wf(),
        values_of(entries) is Some,
        first + entries.len() < engine.rows(),
        is_advice_of(config.absorbed, engine),
        is_advice_of(config.state, engine),
        config.absorbed != config.state,
        rows_clear(engine, config.absorbed, first, entries.len() + 1),
        rows_clear(engine, config.state, first, entries.len() + 1),
        sources_fit(engine, entries),
        cache@.contains_key(element_of(0)) || (engine.constants() is Some
            && engine.constants_used() < engine.rows()),
    ensures
        layout_fits(config, engine, cache, first, entries),
{
    let xs = values_of(entries).unwrap();
    let n = xs.len() as int;
    let plan = layout_plan(config, first, xs);
    assert forall|k: int| 0 <= k < plan.len() implies engine.accepts(
        (#[trigger] plan[k]).cell,
        plan[k].value,
    ) by {
        let cell = plan[k].cell;
        if engine.written(cell) {
            let i = choose|i: int|
                0 <= i < engine.writes().len() && (#[trigger] engine.writes()[i]).cell == cell;
            assert(engine.writes()[i].cell.column == cell.column);
        }
    }
    assert forall|i: int, j: int|
        0 <= i < j < plan.len() && (#[trigger] plan[i]).cell == (#[trigger] plan[j]).cell implies plan[i].value
        == plan[j].value by {
        assert(false);
    }
    let targets = column_cells(config.absorbed, first, entries.len());
    assert forall|j: int| 0 <= j < targets.len() implies engine.in_range(#[trigger] targets[j])
        && targets[j].column.kind != ColumnKind::Instance by {
    }
    lemma_copy_links_fit(engine, entries, targets);
}

/// Success is owed where the slots are free: a grid stages the inputs of
/// one invocation if it has a public-input column with a free slot for
/// each, if the staging column is an advice column of it in which the rows
/// numbered like those slots are unwritten, and if the inputs that sit in
/// cells sit in cells that can be constrained.
pub proof fn lemma_clear_slots_fit(
    config: SpongeConfig,
    engine: LayoutEngine,
    entries: Seq<CellValue>,
)
    requires
        engine.wf(),
        values_of(entries) is Some,
        engine.public_inputs() is Some,
        engine.instance_used() + entries.len() <= engine.rows(),
        is_advice_of(config.staged, engine),
        rows_clear(engine, config.staged, engine.instance_used() as nat, entries.len()),
        sources_fit(engine, entries),
    ensures
        staging_fits(config, engine, entries),
{
    let first = engine.instance_used() as nat;
    let xs = values_of(entries).unwrap();
    let plan = column_writes(config.staged, first, xs);
    assert forall|k: int| 0 <= k < plan.len() implies engine.accepts(
        (#[trigger] plan[k]).cell,
        plan[k].value,
    ) by {
        let cell = plan[k].cell;
        if engine.written(cell) {
            let i = choose|i: int|
                0 <= i < engine.writes().len() && (#[trigger] engine.writes()[i]).cell == cell;
            assert(engine.writes()[i].cell.column == cell.column);
        }
    }
    assert forall|i: int, j: int|
        0 <= i < j < plan.len() && (#[trigger] plan[i]).cell == (#[trigger] plan[j]).cell implies plan[i].value
        == plan[j].value by {
        assert(false);
    }
    let cells = column_cells(config.staged, first, entries.len());
    assert forall|j: int| 0 <= j < cells.len() implies engine.in_range(#[trigger] cells[j])
        && cells[j].column.kind != ColumnKind::Instance by {
    }
    lemma_copy_links_fit(engine, entries, cells);
}

/// The sum of a single count is that count.
pub proof fn lemma_seq_sum_one(count: usize)
    ensures
        seq_sum(seq![count]) == count,
{
    assert(seq![count].drop_last() =~= Seq::<usize>::empty());
    assert(seq_sum(Seq::<usize>::empty()) == 0);
    assert(seq![count].last() == count);
}

/// A single tensor has as many entries as the list that holds it.
pub proof fn lemma_total_len_one(tensors: Seq<ValueTensor>)
    requires
        tensors.len() == 1,
    ensures
        total_len(tensors) == tensors[0].cells().len(),
{
    assert(tensors.drop_last() =~= Seq::<ValueTensor>::empty());
    assert(total_len(Seq::<ValueTensor>::empty()) == 0);
    assert(tensors.last() == tensors[0]);
}

/// Writes that lie in a range of rows still do after the grid has taken
/// at most one more write, to the constants column.
pub proof fn lemma_within_grows(
    last: LayoutEngine,
    middle: LayoutEngine,
    start: LayoutEngine,
    first: nat,
    rows: nat,
)
    requires
        writes_within(middle, start, first, rows),
        last.extends(middle),
        middle.extends(start),
        last.writes() == middle.writes() || (last.writes().len() == middle.writes().len() + 1
            && Some(last.writes().last().cell.column) == last.constants()),
    ensures
        writes_within(last, start, first, rows),
{
    assert forall|i: int| start.writes().len() <= i < last.writes().len() implies Some(
        (#[trigger] last.writes()[i]).cell.column,
    ) == last.constants() || first <= last.writes()[i].cell.row < first + rows by {
        if i < middle.writes().len() {
            assert(last.writes()[i] == middle.writes()[i]);
        }
    }
}

/// Every write of a laid-out invocation lies in the rows of the
/// invocation, however many of them a grid has taken.
pub proof fn lemma_plan_rows(
    config: SpongeConfig,
    now: LayoutEngine,
    start: LayoutEngine,
    first: nat,
    xs: Seq<FieldElement>,
)
    requires
        first + xs.len() + 1 <= usize::MAX,
        now.constants() == start.constants(),
        exists|k: int|
            0 <= k <= layout_plan(config, first, xs).len() && now.writes() == start.writes()
                + #[trigger] layout_plan(config, first, xs).take(k),
    ensures
        writes_within(now, start, first, xs.len() + 1),
{
    let plan = layout_plan(config, first, xs);
    let k = choose|k: int|
        0 <= k <= plan.len() && now.writes() == start.writes() + #[trigger] plan.take(k);
    assert forall|i: int| start.writes().len() <= i < now.writes().len() implies first <= (
    #[trigger] now.writes()[i]).cell.row < first + xs.len() + 1 by {
        let j = i - start.writes().len();
        assert(now.writes()[i] == plan[j]);
    }
}

} // verus!
