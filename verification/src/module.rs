//! The contract that every module keeps, and what the planner may rely on
//! without knowing which module it drives.

use crate::constants::ConstantsCache;
use crate::engine::LayoutEngine;
use crate::errors::ModuleError;
use crate::field::FieldElement;
use crate::system::ConstraintSystem;
use crate::tensor::{CellValue, ValueTensor, values_of};
use vstd::prelude::*;

verus! {

/// The sum of a sequence of counts.
pub open spec fn seq_sum(counts: Seq<usize>) -> nat
    decreases counts.len(),
{
    if counts.len() == 0 {
        0
    } else {
        seq_sum(counts.drop_last()) + counts.last() as nat
    }
}

/// The number of entries of all the tensors together.
pub open spec fn total_len(tensors: Seq<ValueTensor>) -> nat
    decreases tensors.len(),
{
    if tensors.len() == 0 {
        0
    } else {
        total_len(tensors.drop_last()) + tensors.last().cells().len()
    }
}

/// Whether every tensor's extents account for its entries.
pub open spec fn all_wf(tensors: Seq<ValueTensor>) -> bool {
    forall|i: int| 0 <= i < tensors.len() ==> (#[trigger] tensors[i]).wf()
}

/// Whether a tensor of assigned cells is the given matrix: it has the
/// matrix's two extents, and its entries hold the matrix's values row by
/// row.
pub open spec fn holds_matrix(tensor: ValueTensor, matrix: Seq<Seq<FieldElement>>) -> bool {
    &&& tensor.dims().len() == 2
    &&& tensor.dims()[0] == matrix.len()
    &&& forall|i: int| 0 <= i < matrix.len() ==> (#[trigger] matrix[i]).len() == tensor.dims()[1]
    &&& values_of(tensor.cells()) == Some(matrix.flatten())
}

/// Whether the entry is a value that sits in a cell of the grid.
pub open spec fn sits_in(entry: CellValue, engine: LayoutEngine) -> bool {
    entry matches CellValue::Assigned { value, cell } && engine.value_at(cell) == Some(value)
}

/// Whether every constant cached in `earlier` is cached in `later` with
/// the same cell.
pub open spec fn cache_grows(later: ConstantsCache, earlier: ConstantsCache) -> bool {
    forall|v: FieldElement| #[trigger]
        earlier@.contains_key(v) ==> later@.contains_key(v) && later@[v] == earlier@[v]
}

/// Whether every write recorded in `later` after those of `earlier` went
/// either to the constants column or to a row of the range that starts at
/// `start` and has `rows` rows.
pub open spec fn writes_within(later: LayoutEngine, earlier: LayoutEngine, start: nat, rows: nat)
    -> bool {
    forall|i: int|
        earlier.writes().len() <= i < later.writes().len() ==> Some(
            (#[trigger] later.writes()[i]).cell.column,
        ) == later.constants() || start <= later.writes()[i].cell.row < start + rows
}

/// A sub-circuit that can be configured once against a constraint system,
/// evaluated off-circuit, and laid out on the grid any number of times.
pub trait Module: Sized {
    /// The columns and other wiring fixed when the module is configured.
    type Config;

    /// What `layout_inputs` hands back.
    type InputAssignments;

    /// The inputs of an off-circuit run.
    type RunInputs: View;

    /// The parameters of `configure` and `optimize`.
    type Params;

    /// The invariant of a module instance.
    spec fn wf(&self) -> bool;

    /// The configuration that the instance was made from.
    spec fn config(&self) -> Self::Config;

    /// The module's name.
    spec fn name_spec() -> Seq<char>;

    /// Whether the constraint system can supply what the module needs
    /// under `params`.
    spec fn can_configure(meta: ConstraintSystem, params: Self::Params) -> bool;

    /// The configuration that `configure` hands back where it succeeds,
    /// and the constraint system as it then stands.
    spec fn configured(meta: ConstraintSystem, params: Self::Params) -> (
        Self::Config,
        ConstraintSystem,
    );

    /// What an off-circuit run returns.
    spec fn run_spec(input: <Self::RunInputs as View>::V) -> Result<
        Seq<Seq<FieldElement>>,
        ModuleError,
    >;

    /// The run inputs that the tensors of a layout call carry, if they
    /// carry any.
    spec fn carried(tensors: Seq<ValueTensor>) -> Option<<Self::RunInputs as View>::V>;

    /// The number of rows that laying out `input_len` entries takes.
    spec fn rows_spec(input_len: nat) -> nat;

    /// The number of public-input slots that one invocation takes for each
    /// of its input tensors.
    spec fn increments(&self) -> Seq<usize>;

    /// Whether the tuning `params` fits the configuration of the instance.
    spec fn accepts(&self, params: Self::Params) -> bool;

    /// The instance after it has taken up the tuning `params`.
    spec fn tuned(self, params: Self::Params) -> Self;

    /// Whether the grid, as it stands, can take the staged inputs of one
    /// invocation on runnable `tensors`.
    spec fn can_stage(
        &self,
        engine: LayoutEngine,
        tensors: Seq<ValueTensor>,
        constants: ConstantsCache,
    ) -> bool;

    /// Whether the grid, as it stands, can take one invocation on runnable
    /// `tensors` in the rows from `row_offset` on.
    spec fn can_lay_out(
        &self,
        engine: LayoutEngine,
        tensors: Seq<ValueTensor>,
        row_offset: nat,
        constants: ConstantsCache,
    ) -> bool;

    /// Whether a successful `layout_inputs` on `tensors` that found the grid
    /// and the cache as in `before` may leave them as in `after` and hand
    /// back `assigned`.
    spec fn stages(
        &self,
        before: (LayoutEngine, ConstantsCache),
        after: (LayoutEngine, ConstantsCache),
        tensors: Seq<ValueTensor>,
        assigned: Self::InputAssignments,
    ) -> bool;

    /// Whether a successful `layout` on `tensors` from `row_offset` on that
    /// found the grid and the cache as in `before` may leave them as in
    /// `after` and hand back `out`.
    spec fn lays_out(
        &self,
        before: (LayoutEngine, ConstantsCache),
        after: (LayoutEngine, ConstantsCache),
        tensors: Seq<ValueTensor>,
        row_offset: nat,
        out: ValueTensor,
    ) -> bool;

    /// Whether the tensors of a layout call carry inputs on which an
    /// off-circuit run succeeds.
    open spec fn runnable(tensors: Seq<ValueTensor>) -> bool {
        Self::carried(tensors) matches Some(input) && Self::run_spec(input) is Ok
    }

    /// More entries never take fewer rows.
    proof fn lemma_rows_monotone(shorter: nat, longer: nat)
        requires
            shorter <= longer,
        ensures
            Self::rows_spec(shorter) <= Self::rows_spec(longer),
    ;

    /// Tuning changes neither the configuration nor the public-input slots
    /// that an invocation takes.
    proof fn lemma_tuned_keeps(self, params: Self::Params)
        requires
            self.wf(),
            self.accepts(params),
        ensures
            self.tuned(params).wf(),
            self.tuned(params).config() == self.config(),
            self.tuned(params).increments() == self.increments(),
    ;

    /// An instance over a configuration.
    fn new(config: Self::Config) -> (m: Self)
        ensures
            m.wf(),
            m.config() == config,
    ;

    /// Takes from the constraint system the columns that the module needs.
    /// Fails, and takes nothing, when the constraint system cannot supply
    /// them.
    fn configure(meta: &mut ConstraintSystem, params: Self::Params) -> (r: Result<
        Self::Config,
        ModuleError,
    >)
        requires
            old(meta).wf(),
        ensures
            final(meta).wf(),
            final(meta).limit() == old(meta).limit(),
            r is Ok <==> Self::can_configure(*old(meta), params),
            r matches Ok(config) ==> (config, *final(meta)) == Self::configured(*old(meta), params),
            r is Ok ==> old(meta).used().advice <= final(meta).used().advice && old(
                meta).used().fixed <= final(meta).used().fixed && old(meta).used().instance
                <= final(meta).used().instance && (old(meta).constants() is Some ==> final(
                meta).constants() == old(meta).constants()) && (old(meta).public_inputs() is Some
                ==> final(meta).public_inputs() == old(meta).public_inputs()),
            r matches Err(e) ==> e == ModuleError::ConfigurationError && *final(meta) == *old(meta),
    ;

    /// The module's name, the same for every instance.
    fn name(&self) -> (n: &'static str)
        ensures
            n@ == Self::name_spec(),
    ;

    /// The module's computation, off-circuit.
    fn run(input: Self::RunInputs) -> (r: Result<Vec<Vec<FieldElement>>, ModuleError>)
        ensures
            r is Ok <==> Self::run_spec(input@) is Ok,
            r matches Ok(rows) ==> Self::run_spec(input@) == Ok::<
                Seq<Seq<FieldElement>>,
                ModuleError,
            >(Seq::new(rows@.len(), |i: int| rows@[i]@)),
            r matches Err(e) ==> Self::run_spec(input@) == Err::<
                Seq<Seq<FieldElement>>,
                ModuleError,
            >(e),
    ;

    /// Places the inputs of one invocation in cells and ties them to
    /// public-input slots, as many as `instance_increment_input` declares.
    /// Inputs on which an off-circuit run fails are refused with `RunFailed`
    /// before anything is recorded; what the grid cannot take fails with
    /// `LayoutFailed`. A call that fails takes no slot.
    fn layout_inputs(
        &self,
        engine: &mut LayoutEngine,
        input: &[ValueTensor],
        constants: &mut ConstantsCache,
    ) -> (r: Result<Self::InputAssignments, ModuleError>)
        requires
            self.wf(),
            old(engine).wf(),
            old(constants).wf(),
            old(constants).agrees_with(*old(engine)),
            all_wf(input@),
        ensures
            final(engine).wf(),
            final(constants).wf(),
            final(constants).agrees_with(*final(engine)),
            final(engine).extends(*old(engine)),
            cache_grows(*final(constants), *old(constants)),
            r is Ok <==> Self::runnable(input@) && self.can_stage(
                *old(engine),
                input@,
                *old(constants),
            ),
            r is Ok ==> final(engine).instance_used() == old(engine).instance_used() + seq_sum(
                self.increments(),
            ),
            r is Err ==> final(engine).instance_used() == old(engine).instance_used(),
            r matches Ok(assigned) ==> self.stages(
                (*old(engine), *old(constants)),
                (*final(engine), *final(constants)),
                input@,
                assigned,
            ),
            r matches Err(e) ==> e == ModuleError::RunFailed || e == ModuleError::LayoutFailed,
            !Self::runnable(input@) <==> r == Err::<Self::InputAssignments, ModuleError>(
                ModuleError::RunFailed,
            ),
            !Self::runnable(input@) ==> *final(engine) == *old(engine) && *final(constants) == *old(
                constants),
    ;

    /// Lays out one invocation in the rows that start at `row_offset`. The
    /// cells of the tensor handed back hold what an off-circuit run on the
    /// same inputs returns. Inputs on which such a run fails are refused with
    /// `RunFailed` before anything is recorded; what the grid cannot take
    /// fails with `LayoutFailed`.
    fn layout(
        &self,
        engine: &mut LayoutEngine,
        input: &[ValueTensor],
        row_offset: usize,
        constants: &mut ConstantsCache,
    ) -> (r: Result<ValueTensor, ModuleError>)
        requires
            self.wf(),
            old(engine).wf(),
            old(constants).wf(),
            old(constants).agrees_with(*old(engine)),
            all_wf(input@),
        ensures
            final(engine).wf(),
            final(constants).wf(),
            final(constants).agrees_with(*final(engine)),
            final(engine).extends(*old(engine)),
            final(engine).instance_used() == old(engine).instance_used(),
            cache_grows(*final(constants), *old(constants)),
            writes_within(
                *final(engine),
                *old(engine),
                row_offset as nat,
                Self::rows_spec(total_len(input@)),
            ),
            r is Ok <==> Self::runnable(input@) && self.can_lay_out(
                *old(engine),
                input@,
                row_offset as nat,
                *old(constants),
            ),
            r matches Ok(out) ==> self.lays_out(
                (*old(engine), *old(constants)),
                (*final(engine), *final(constants)),
                input@,
                row_offset as nat,
                out,
            ),
            r matches Ok(out) ==> out.wf() && holds_matrix(
                out,
                Self::run_spec(Self::carried(input@).unwrap()).unwrap(),
            ) && forall|i: int|
                0 <= i < out.cells().len() ==> sits_in(#[trigger] out.cells()[i], *final(engine)),
            r matches Err(e) ==> e == ModuleError::RunFailed || e == ModuleError::LayoutFailed,
            !Self::runnable(input@) <==> r == Err::<ValueTensor, ModuleError>(
                ModuleError::RunFailed,
            ),
            !Self::runnable(input@) ==> *final(engine) == *old(engine) && *final(constants) == *old(
                constants),
    ;

    /// The number of public-input slots that one invocation takes for each
    /// of its input tensors.
    fn instance_increment_input(&self) -> (v: Vec<usize>)
        requires
            self.wf(),
        ensures
            v@ == self.increments(),
    ;

    /// The number of rows that laying out `input_len` entries takes.
    fn num_rows(input_len: usize) -> (rows: usize)
        ensures
            rows == Self::rows_spec(input_len as nat),
    ;

    /// Takes up the tuning `params` if it fits the configuration of the
    /// instance, and fails without any change if it does not.
    fn optimize(&mut self, params: Self::Params) -> (r: Result<(), ModuleError>)
        requires
            old(self).wf(),
        ensures
            final(self).wf(),
            r is Ok <==> old(self).accepts(params),
            r is Ok ==> *final(self) == old(self).tuned(params),
            r matches Err(e) ==> e == ModuleError::OptimizeFailed && *final(self) == *old(self),
    ;
}

/// Tunes a module for proving time or memory: hands `params` on to the
/// module's `optimize` and its answer back.
pub fn optimize_proof_system<M: Module>(module: &mut M, params: M::Params) -> (r: Result<
    (),
    ModuleError,
>)
    requires
        old(module).wf(),
    ensures
        final(module).wf(),
        r is Ok <==> old(module).accepts(params),
        r is Ok ==> *final(module) == old(module).tuned(params) && final(module).config() == old(
            module).config() && final(module).increments() == old(module).increments(),
        r matches Err(e) ==> e == ModuleError::OptimizeFailed && *final(module) == *old(module),
{
    proof {
        if module.accepts(params) {
            module.lemma_tuned_keeps(params);
        }
    }
    module.optimize(params)
}

} // verus!
