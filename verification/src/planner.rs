//! The planner: one synthesis pass over one constraint system. It fixes
//! the columns, sizes the grid from the rows that the planned invocations
//! need, hands each invocation a range of rows of its own, and threads one
//! constants cache through all of them.

use crate::constants::ConstantsCache;
use crate::engine::LayoutEngine;
use crate::errors::ModuleError;
use crate::module::{Module, all_wf, cache_grows, holds_matrix, seq_sum, total_len};
use crate::system::{ColumnCount, ConstraintSystem};
use crate::tensor::ValueTensor;
use vstd::prelude::*;

verus! {

/// Where a pass stands.
#[derive(Clone, Copy, Debug, PartialEq, Eq, Structural)]
pub enum PassState {
    /// No module has been configured.
    Unconfigured,
    /// Columns are being handed out; nothing has been laid out.
    Configured,
    /// The columns and the height of the grid are fixed; invocations are
    /// being laid out.
    Running,
    /// The pass is over: nothing more is laid out.
    Finalized,
}

/// The rows of one laid-out invocation.
#[derive(Clone, Copy, Debug, PartialEq, Eq, Structural)]
pub struct RowRange {
    /// The first row.
    pub start: usize,
    /// The number of rows.
    pub rows: usize,
}

/// Whether the ranges lie end to end: the first starts at row zero, each
/// next one starts where the one before ends, and the last ends at `end`.
pub open spec fn chained(ranges: Seq<RowRange>, end: nat) -> bool {
    &&& ranges.len() == 0 ==> end == 0
    &&& ranges.len() > 0 ==> ranges[0].start == 0 && ranges.last().start + ranges.last().rows
        == end
    &&& forall|i: int, j: int|
        0 <= i && j == i + 1 && j < ranges.len() ==> (#[trigger] ranges[i]).start + ranges[i].rows
            == (#[trigger] ranges[j]).start
}

/// One synthesis pass.
pub struct Planner {
    state: PassState,
    meta: ConstraintSystem,
    engine: LayoutEngine,
    constants: ConstantsCache,
    budget: usize,
    next_row: usize,
    instance_slots: usize,
    ranges: Vec<RowRange>,
}

impl Planner {
    /// Where the pass stands.
    pub closed spec fn phase(&self) -> PassState {
        self.state
    }

    /// The constraint system of the pass.
    pub closed spec fn system(&self) -> ConstraintSystem {
        self.meta
    }

    /// The grid of the pass.
    pub closed spec fn grid(&self) -> LayoutEngine {
        self.engine
    }

    /// The constants cache of the pass.
    pub closed spec fn cache(&self) -> ConstantsCache {
        self.constants
    }

    /// The rows reserved for the planned invocations: the height of the
    /// grid.
    pub closed spec fn reserved(&self) -> usize {
        self.budget
    }

    /// The first row that no invocation has been given.
    pub closed spec fn offset(&self) -> usize {
        self.next_row
    }

    /// The public-input slots that the invocations so far have declared.
    pub closed spec fn slots(&self) -> usize {
        self.instance_slots
    }

    /// The rows given to each laid-out invocation, in order.
    pub closed spec fn allocated(&self) -> Seq<RowRange> {
        self.ranges@
    }

    /// Whether invocations can be laid out: a module has been configured
    /// and the pass is not over.
    pub open spec fn open_for_layout(&self) -> bool {
        self.phase() == PassState::Configured || self.phase() == PassState::Running
    }

    /// Whether the geometry of the circuit can still change.
    pub open spec fn open_for_setup(&self) -> bool {
        self.phase() == PassState::Unconfigured || self.phase() == PassState::Configured
    }

    /// Whether the rows reserved hold one more invocation of `M` on
    /// `input`: the number of entries fits a machine word, and the rows that
    /// `M` takes for it lie below the height of the grid.
    pub open spec fn has_rows<M: Module>(&self, input: Seq<ValueTensor>) -> bool {
        total_len(input) <= usize::MAX && self.offset() + M::rows_spec(total_len(input))
            <= self.reserved()
    }

    /// Nothing has been laid out.
    pub open spec fn pristine(&self) -> bool {
        &&& self.allocated().len() == 0
        &&& self.offset() == 0
        &&& self.slots() == 0
        &&& self.grid().writes().len() == 0
        &&& self.grid().links().len() == 0
        &&& self.grid().constants_used() == 0
        &&& self.cache().entries().len() == 0
    }

    /// The grid has the columns of the constraint system and as many rows
    /// as were reserved.
    pub open spec fn sized(&self) -> bool {
        &&& self.grid().columns() == self.system().used()
        &&& self.grid().constants() == self.system().constants()
        &&& self.grid().public_inputs() == self.system().public_inputs()
        &&& self.grid().rows() == self.reserved()
    }

    /// The parts of a pass fit together: the grid has the columns and the
    /// height planned so far; the cache agrees with the grid; the ranges of
    /// rows given out lie end to end below the height of the grid; and until
    /// the first invocation nothing is laid out.
    pub open spec fn consistent(&self) -> bool {
        &&& self.system().wf()
        &&& self.grid().wf()
        &&& self.cache().wf()
        &&& self.cache().agrees_with(self.grid())
        &&& chained(self.allocated(), self.offset() as nat)
        &&& self.offset() <= self.reserved()
        &&& self.open_for_setup() ==> self.pristine()
        &&& self.sized()
    }

    /// The invariant of a pass: its parts fit together, and the
    /// public-input slots that the invocations declared are the slots that
    /// the grid has given out.
    pub open spec fn wf(&self) -> bool {
        &&& self.consistent()
        &&& self.slots() == self.grid().instance_used()
    }

    /// A pass that has not begun: the constraint system has no columns
    /// yet, and no rows are reserved.
    pub fn new(limit: ColumnCount) -> (p: Planner)
        ensures
            p.wf(),
            p.phase() == PassState::Unconfigured,
            p.system().limit() == limit,
            p.system().used() == (ColumnCount { advice: 0, fixed: 0, instance: 0 }),
            p.system().constants() is None,
            p.system().public_inputs() is None,
            p.reserved() == 0,
            p.pristine(),
    {
        let meta = ConstraintSystem::new(limit);
        let engine = LayoutEngine::new(&meta, 0);
        Planner {
            state: PassState::Unconfigured,
            meta,
            engine,
            constants: ConstantsCache::new(),
            budget: 0,
            next_row: 0,
            instance_slots: 0,
            ranges: Vec::new(),
        }
    }

    /// Where the pass stands.
    pub fn state(&self) -> (s: PassState)
        ensures
            s == self.phase(),
    {
        self.state
    }

    /// The first row that no invocation has been given.
    pub fn next_row(&self) -> (row: usize)
        ensures
            row == self.offset(),
    {
        self.next_row
    }

    /// The rows reserved for the planned invocations.
    pub fn row_budget(&self) -> (rows: usize)
        ensures
            rows == self.reserved(),
    {
        self.budget
    }

    /// The public-input slots that the invocations so far have declared.
    pub fn instance_slots(&self) -> (n: usize)
        ensures
            n == self.slots(),
    {
        self.instance_slots
    }

    /// The rows given to each laid-out invocation, in order.
    pub fn ranges(&self) -> (r: &Vec<RowRange>)
        ensures
            r@ == self.allocated(),
    {
        &self.ranges
    }

    /// The grid of the pass.
    pub fn engine(&self) -> (e: &LayoutEngine)
        ensures
            *e == self.grid(),
    {
        &self.engine
    }

    /// The constants cache of the pass.
    pub fn constants(&self) -> (c: &ConstantsCache)
        ensures
            *c == self.cache(),
    {
        &self.constants
    }

    /// The constraint system of the pass.
    pub fn constraint_system(&self) -> (cs: &ConstraintSystem)
        ensures
            *cs == self.system(),
    {
        &self.meta
    }

    /// Configures a module against the constraint system of the pass.
    /// Fails, and changes nothing, once the pass has begun to lay out, or
    /// when the constraint system cannot supply what the module needs.
    pub fn configure<M: Module>(&mut self, params: M::Params) -> (r: Result<M::Config, ModuleError>)
        requires
            old(self).wf(),
        ensures
            final(self).wf(),
            r is Ok <==> old(self).open_for_setup() && M::can_configure(old(self).system(), params),
            r matches Ok(config) ==> (config, final(self).system()) == M::configured(
                old(self).system(),
                params,
            ) && final(self).phase() == PassState::Configured && final(self).reserved() == old(
                self).reserved() && final(self).system().limit() == old(self).system().limit(),
            r matches Err(e) ==> e == ModuleError::ConfigurationError && *final(self) == *old(self),
    {
        match self.state {
            PassState::Unconfigured => {},
            PassState::Configured => {},
            _ => {
                return Err(ModuleError::ConfigurationError);
            },
        }
        match M::configure(&mut self.meta, params) {
            Ok(config) => {
                self.state = PassState::Configured;
                self.engine = LayoutEngine::new(&self.meta, self.budget);
                Ok(config)
            },
            Err(e) => Err(e),
        }
    }

    /// Reserves the rows of one planned invocation of `input_len` entries
    /// and hands back their number. Fails, and changes nothing, once the
    /// pass has begun to lay out, or when the rows reserved would no longer
    /// fit a machine word.
    pub fn reserve<M: Module>(&mut self, input_len: usize) -> (r: Result<usize, ModuleError>)
        requires
            old(self).wf(),
        ensures
            final(self).wf(),
            r is Ok <==> old(self).open_for_setup() && old(self).reserved() + M::rows_spec(
                input_len as nat,
            ) <= usize::MAX,
            r matches Ok(rows) ==> rows == M::rows_spec(input_len as nat) && final(self).reserved()
                == old(self).reserved() + rows && final(self).phase() == old(self).phase()
                && final(self).system() == old(self).system(),
            r matches Err(e) ==> e == ModuleError::ConfigurationError && *final(self) == *old(self),
    {
        match self.state {
            PassState::Unconfigured => {},
            PassState::Configured => {},
            _ => {
                return Err(ModuleError::ConfigurationError);
            },
        }
        let rows: usize = M::num_rows(input_len);
        match self.budget.checked_add(rows) {
            Some(total) => {
                self.budget = total;
                self.engine = LayoutEngine::new(&self.meta, self.budget);
                Ok(rows)
            },
            None => Err(ModuleError::ConfigurationError),
        }
    }

    /// Fixes the geometry of the circuit on the first layout call.
    fn start(&mut self)
        requires
            old(self).wf(),
            old(self).open_for_layout(),
        ensures
            final(self).wf(),
            final(self).phase() == PassState::Running,
            final(self).system() == old(self).system(),
            final(self).grid() == old(self).grid(),
            final(self).cache() == old(self).cache(),
            final(self).reserved() == old(self).reserved(),
            final(self).offset() == old(self).offset(),
            final(self).slots() == old(self).slots(),
            final(self).allocated() == old(self).allocated(),
    {
        self.state = PassState::Running;
    }

    /// Books the outcome of a module's `layout_inputs`, which has taken
    /// `declared` public-input slots from the grid if it succeeded: on
    /// success the slots count as declared; on failure the pass is over. The
    /// outcome is handed back as it came.
    fn settle_inputs<A>(&mut self, declared: usize, outcome: Result<A, ModuleError>) -> (r:
        Result<A, ModuleError>)
        requires
            old(self).consistent(),
            old(self).phase() == PassState::Running,
            outcome is Ok ==> old(self).slots() + declared == old(self).grid().instance_used(),
            outcome is Err ==> old(self).slots() == old(self).grid().instance_used(),
        ensures
            final(self).wf(),
            r == outcome,
            final(self).system() == old(self).system(),
            final(self).grid() == old(self).grid(),
            final(self).cache() == old(self).cache(),
            final(self).reserved() == old(self).reserved(),
            final(self).offset() == old(self).offset(),
            final(self).allocated() == old(self).allocated(),
            outcome is Ok ==> final(self).phase() == PassState::Running && final(self).slots()
                == old(self).slots() + declared,
            outcome is Err ==> final(self).phase() == PassState::Finalized && final(self).slots()
                == old(self).slots(),
    {
        match outcome {
            Ok(assigned) => {
                self.instance_slots = self.instance_slots + declared;
                Ok(assigned)
            },
            Err(e) => {
                self.state = PassState::Finalized;
                Err(e)
            },
        }
    }

    /// Books the outcome of a module's `layout` over `rows` rows from the
    /// next free row on: on success the rows count as given out; on failure
    /// the pass is over. The outcome is handed back as it came.
    fn settle_layout(&mut self, rows: usize, outcome: Result<ValueTensor, ModuleError>) -> (r:
        Result<ValueTensor, ModuleError>)
        requires
            old(self).wf(),
            old(self).phase() == PassState::Running,
            old(self).offset() + rows <= old(self).reserved(),
        ensures
            final(self).wf(),
            r == outcome,
            final(self).system() == old(self).system(),
            final(self).grid() == old(self).grid(),
            final(self).cache() == old(self).cache(),
            final(self).reserved() == old(self).reserved(),
            final(self).slots() == old(self).slots(),
            outcome is Ok ==> final(self).phase() == PassState::Running && final(self).offset()
                == old(self).offset() + rows && final(self).allocated() == old(
                self).allocated().push(RowRange { start: old(self).offset(), rows }),
            outcome is Err ==> final(self).phase() == PassState::Finalized && final(self).offset()
                == old(self).offset() && final(self).allocated() == old(self).allocated(),
    {
        match outcome {
            Ok(out) => {
                self.ranges.push(RowRange { start: self.next_row, rows });
                self.next_row = self.next_row + rows;
                Ok(out)
            },
            Err(e) => {
                self.state = PassState::Finalized;
                Err(e)
            },
        }
    }

    /// Has `module` place the inputs of one invocation and tie them to
    /// public inputs. Before a module is configured and after the pass is
    /// over the call fails and changes nothing. Otherwise the module
    /// decides; if it fails, the pass is over.
    pub fn layout_inputs<M: Module>(&mut self, module: &M, input: &[ValueTensor]) -> (r: Result<
        M::InputAssignments,
        ModuleError,
    >)
        requires
            old(self).wf(),
            module.wf(),
            all_wf(input@),
        ensures
            final(self).wf(),
            final(self).system() == old(self).system(),
            final(self).reserved() == old(self).reserved(),
            final(self).offset() == old(self).offset(),
            final(self).allocated() == old(self).allocated(),
            cache_grows(final(self).cache(), old(self).cache()),
            old(self).grid().writes().is_prefix_of(final(self).grid().writes()),
            old(self).grid().links().is_prefix_of(final(self).grid().links()),
            !old(self).open_for_layout() ==> r == Err::<M::InputAssignments, ModuleError>(
                ModuleError::LayoutFailed,
            ) && *final(self) == *old(self),
            r is Ok <==> old(self).open_for_layout() && M::runnable(input@) && module.can_stage(
                old(self).grid(),
                input@,
                old(self).cache(),
            ),
            r == Err::<M::InputAssignments, ModuleError>(ModuleError::RunFailed) <==> old(
                self).open_for_layout() && !M::runnable(input@),
            old(self).open_for_layout() && r is Err ==> final(self).phase() == PassState::Finalized,
            r matches Err(e) ==> e == ModuleError::RunFailed || e == ModuleError::LayoutFailed,
            r matches Ok(assigned) ==> module.stages(
                (old(self).grid(), old(self).cache()),
                (final(self).grid(), final(self).cache()),
                input@,
                assigned,
            ),
            r is Ok ==> final(self).phase() == PassState::Running
                && final(self).slots() == old(self).slots() + seq_sum(module.increments())
                && final(self).grid().instance_used() == old(self).grid().instance_used()
                + seq_sum(module.increments()),
            r is Err ==> final(self).slots() == old(self).slots(),
    {
        match self.state {
            PassState::Configured => {},
            PassState::Running => {},
            _ => {
                return Err(ModuleError::LayoutFailed);
            },
        }
        self.start();
        let increments = module.instance_increment_input();
        let declared = sum_of(&increments);
        let outcome = module.layout_inputs(&mut self.engine, input, &mut self.constants);
        match declared {
            Some(declared) => self.settle_inputs(declared, outcome),
            None => self.settle_inputs(0, outcome),
        }
    }

    /// Has `module` lay out one invocation in the rows from the next free
    /// row on, as many as the module's `num_rows` gives for the number of
    /// entries of `input`. Before a module is configured, after the pass is
    /// over, and when the rows reserved do not hold that many more, the call
    /// fails without a call of the module. Otherwise the module decides. On
    /// success the rows are given out; on failure the pass is over.
    pub fn layout<M: Module>(&mut self, module: &M, input: &[ValueTensor]) -> (r: Result<
        ValueTensor,
        ModuleError,
    >)
        requires
            old(self).wf(),
            module.wf(),
            all_wf(input@),
        ensures
            final(self).wf(),
            final(self).system() == old(self).system(),
            final(self).reserved() == old(self).reserved(),
            final(self).slots() == old(self).slots(),
            cache_grows(final(self).cache(), old(self).cache()),
            old(self).grid().writes().is_prefix_of(final(self).grid().writes()),
            old(self).grid().links().is_prefix_of(final(self).grid().links()),
            !old(self).open_for_layout() ==> r == Err::<ValueTensor, ModuleError>(
                ModuleError::LayoutFailed,
            ) && *final(self) == *old(self),
            old(self).open_for_layout() && r is Err ==> final(self).phase() == PassState::Finalized
                && final(self).offset() == old(self).offset() && final(self).allocated() == old(
                self).allocated(),
            old(self).open_for_layout() && !old(self).has_rows::<M>(input@) ==> r == Err::<
                ValueTensor,
                ModuleError,
            >(ModuleError::LayoutFailed) && final(self).grid().writes() == old(
                self).grid().writes() && final(self).cache() == old(self).cache(),
            r is Ok <==> old(self).open_for_layout() && old(self).has_rows::<M>(input@)
                && M::runnable(input@) && module.can_lay_out(
                old(self).grid(),
                input@,
                old(self).offset() as nat,
                old(self).cache(),
            ),
            r == Err::<ValueTensor, ModuleError>(ModuleError::RunFailed) <==> old(
                self).open_for_layout() && old(self).has_rows::<M>(input@) && !M::runnable(input@),
            r matches Err(e) ==> e == ModuleError::RunFailed || e == ModuleError::LayoutFailed,
            r matches Ok(out) ==> {
                let rows = M::rows_spec(total_len(input@));
                &&& final(self).phase() == PassState::Running
                &&& final(self).offset() == old(self).offset() + rows
                &&& final(self).allocated() == old(self).allocated().push(
                    RowRange { start: old(self).offset(), rows: rows as usize },
                )
                &&& out.wf()
                &&& holds_matrix(out, M::run_spec(M::carried(input@).unwrap()).unwrap())
                &&& module.lays_out(
                    (old(self).grid(), old(self).cache()),
                    (final(self).grid(), final(self).cache()),
                    input@,
                    old(self).offset() as nat,
                    out,
                )
                &&& forall|i: int|
                    old(self).grid().writes().len() <= i < final(self).grid().writes().len()
                        ==> Some((#[trigger] final(self).grid().writes()[i]).cell.column) == final(self).grid().constants() || old(self).offset() <= final(self).grid().writes()[i].cell.row < final(self).offset()
            },
    {
        match self.state {
            PassState::Configured => {},
            PassState::Running => {},
            _ => {
                return Err(ModuleError::LayoutFailed);
            },
        }
        self.start();
        let len: usize = match entries_of(input) {
            Some(len) => len,
            None => {
                self.state = PassState::Finalized;
                return Err(ModuleError::LayoutFailed);
            },
        };
        let rows: usize = M::num_rows(len);
        if rows > self.budget - self.next_row {
            self.state = PassState::Finalized;
            return Err(ModuleError::LayoutFailed);
        }
        let outcome = module.layout(&mut self.engine, input, self.next_row, &mut self.constants);
        self.settle_layout(rows, outcome)
    }

    /// Ends the pass: nothing more is laid out.
    pub fn finalize(&mut self)
        requires
            old(self).wf(),
        ensures
            final(self).wf(),
            final(self).phase() == PassState::Finalized,
            final(self).system() == old(self).system(),
            final(self).grid() == old(self).grid(),
            final(self).cache() == old(self).cache(),
            final(self).reserved() == old(self).reserved(),
            final(self).offset() == old(self).offset(),
            final(self).slots() == old(self).slots(),
            final(self).allocated() == old(self).allocated(),
    {
        self.state = PassState::Finalized;
    }
}

/// The sum of the counts, if it fits a machine word.
pub fn sum_of(counts: &Vec<usize>) -> (r: Option<usize>)
    ensures
        r == (if seq_sum(counts@) <= usize::MAX {
            Some(seq_sum(counts@) as usize)
        } else {
            None
        }),
{
    let mut total: usize = 0;
    let mut i: usize = 0;
    proof {
        assert(counts@.take(0) =~= Seq::<usize>::empty());
    }
    while i < counts.len()
        invariant
            i <= counts@.len(),
            total == seq_sum(counts@.take(i as int)),
        decreases counts.len() - i,
    {
        proof {
            assert(counts@.take(i + 1).drop_last() =~= counts@.take(i as int));
            lemma_seq_sum_prefix(counts@, i + 1);
        }
        match total.checked_add(counts[i]) {
            Some(next) => {
                total = next;
            },
            None => {
                return None;
            },
        }
        i += 1;
    }
    proof {
        assert(counts@.take(i as int) =~= counts@);
    }
    Some(total)
}

/// A prefix of a list of counts sums to no more than the list.
pub proof fn lemma_seq_sum_prefix(counts: Seq<usize>, k: int)
    requires
        0 <= k <= counts.len(),
    ensures
        seq_sum(counts.take(k)) <= seq_sum(counts),
    decreases counts.len() - k,
{
    if k == counts.len() {
        assert(counts.take(k) =~= counts);
    } else {
        lemma_seq_sum_prefix(counts, k + 1);
        assert(counts.take(k + 1).drop_last() =~= counts.take(k));
    }
}

/// The number of entries of all the tensors together, if it fits a machine
/// word.
pub fn entries_of(input: &[ValueTensor]) -> (r: Option<usize>)
    ensures
        r == (if total_len(input@) <= usize::MAX {
            Some(total_len(input@) as usize)
        } else {
            None
        }),
{
    let mut total: usize = 0;
    let mut i: usize = 0;
    proof {
        assert(input@.take(0) =~= Seq::<ValueTensor>::empty());
    }
    while i < input.len()
        invariant
            i <= input@.len(),
            total == total_len(input@.take(i as int)),
        decreases input.len() - i,
    {
        proof {
            assert(input@.take(i + 1).drop_last() =~= input@.take(i as int));
            lemma_total_len_prefix(input@, i + 1);
        }
        match total.checked_add(input[i].len()) {
            Some(next) => {
                total = next;
            },
            None => {
                return None;
            },
        }
        i += 1;
    }
    proof {
        assert(input@.take(i as int) =~= input@);
    }
    Some(total)
}

/// A prefix of a list of tensors has no more entries than the list.
pub proof fn lemma_total_len_prefix(tensors: Seq<ValueTensor>, k: int)
    requires
        0 <= k <= tensors.len(),
    ensures
        total_len(tensors.take(k)) <= total_len(tensors),
    decreases tensors.len() - k,
{
    if k == tensors.len() {
        assert(tensors.take(k) =~= tensors);
    } else {
        lemma_total_len_prefix(tensors, k + 1);
        assert(tensors.take(k + 1).drop_last() =~= tensors.take(k));
    }
}

/// In every state of a pass, the public-input slots that its invocations
/// have declared are exactly the slots that the grid has given out.
pub proof fn lemma_declared_slots_are_taken(planner: Planner)
    requires
        planner.wf(),
    ensures
        planner.slots() == planner.grid().instance_used(),
{
}

/// The ranges of rows given to two different invocations of a pass do not
/// overlap: the earlier one ends at or before the row where the later one
/// starts.
pub proof fn lemma_ranges_disjoint(planner: Planner, earlier: int, later: int)
    requires
        planner.wf(),
        0 <= earlier < later < planner.allocated().len(),
    ensures
        planner.allocated()[earlier].start + planner.allocated()[earlier].rows
            <= planner.allocated()[later].start,
        planner.allocated()[later].start + planner.allocated()[later].rows <= planner.offset(),
    decreases later - earlier,
{
    lemma_chain_ordered(planner.allocated(), planner.offset() as nat, earlier, later);
    lemma_chain_bounded(planner.allocated(), planner.offset() as nat, later);
}

/// In ranges that lie end to end, an earlier range ends at or before the
/// start of every later one.
pub proof fn lemma_chain_ordered(ranges: Seq<RowRange>, end: nat, earlier: int, later: int)
    requires
        chained(ranges, end),
        0 <= earlier < later < ranges.len(),
    ensures
        ranges[earlier].start + ranges[earlier].rows <= ranges[later].start,
    decreases later - earlier,
{
    if earlier + 1 < later {
        lemma_chain_ordered(ranges, end, earlier, later - 1);
        assert(ranges[later - 1].start + ranges[later - 1].rows == ranges[later].start);
    } else {
        assert(ranges[earlier].start + ranges[earlier].rows == ranges[later].start);
    }
}

/// In ranges that lie end to end, every range ends at or before the end of
/// the last.
pub proof fn lemma_chain_bounded(ranges: Seq<RowRange>, end: nat, at: int)
    requires
        chained(ranges, end),
        0 <= at < ranges.len(),
    ensures
        ranges[at].start + ranges[at].rows <= end,
    decreases ranges.len() - at,
{
    if at + 1 < ranges.len() {
        lemma_chain_bounded(ranges, end, at + 1);
        assert(ranges[at].start + ranges[at].rows == ranges[at + 1].start);
    }
}

} // verus!
