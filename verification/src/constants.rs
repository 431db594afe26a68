//! The constants cache: which fixed cell holds each constant that some
//! module of the pass has asked for.

use crate::engine::{LayoutEngine, Write, lemma_extends_keeps_values};
use crate::errors::ModuleError;
use crate::field::{FieldElement, lemma_value_injective};
use crate::tensor::CellHandle;
use vstd::prelude::*;

verus! {

/// The cell that a request for `value` is answered with, where `free` is
/// the cell that a new constant would go to: the cached cell if there is
/// one, else `free`.
pub open spec fn answer(cache: Map<FieldElement, CellHandle>, value: FieldElement, free: CellHandle)
    -> CellHandle {
    if cache.contains_key(value) {
        cache[value]
    } else {
        free
    }
}

/// The cache after a request for `value` has been answered.
pub open spec fn after_request(
    cache: Map<FieldElement, CellHandle>,
    value: FieldElement,
    free: CellHandle,
) -> Map<FieldElement, CellHandle> {
    if cache.contains_key(value) {
        cache
    } else {
        cache.insert(value, free)
    }
}

/// One cached constant and the cell that holds it.
#[derive(Clone, Copy, Debug, PartialEq, Eq)]
pub struct Entry {
    /// The constant.
    pub value: FieldElement,
    /// The fixed cell that holds it.
    pub cell: CellHandle,
}

/// A map from constants to their cells. An entry, once made, stays as it
/// is; no constant has two entries. The entries are kept in the order of
/// the numbers that their constants denote.
pub struct ConstantsCache {
    entries: Vec<Entry>,
}

impl View for ConstantsCache {
    type V = Map<FieldElement, CellHandle>;

    open spec fn view(&self) -> Map<FieldElement, CellHandle> {
        Map::new(|v: FieldElement| self.holds(v), |v: FieldElement| self.handle_of(v))
    }
}

impl ConstantsCache {
    /// The entries, smallest constant first.
    pub closed spec fn entries(&self) -> Seq<Entry> {
        self.entries@
    }

    /// Whether the constant has an entry.
    pub open spec fn holds(&self, value: FieldElement) -> bool {
        exists|i: int| 0 <= i < self.entries().len() && (#[trigger] self.entries()[i]).value == value
    }

    /// The cell of a constant that has an entry.
    pub open spec fn handle_of(&self, value: FieldElement) -> CellHandle {
        let i = choose|i: int|
            0 <= i < self.entries().len() && (#[trigger] self.entries()[i]).value == value;
        self.entries()[i].cell
    }

    /// The constants of the entries increase strictly, so no constant has
    /// two entries.
    pub open spec fn wf(&self) -> bool {
        forall|i: int, j: int|
            0 <= i < j < self.entries().len() ==> (#[trigger] self.entries()[i]).value.value() < (
            #[trigger] self.entries()[j]).value.value()
    }

    /// Every cached cell lies in the constants column of `engine` and holds
    /// there the constant it is cached for.
    pub open spec fn agrees_with(&self, engine: LayoutEngine) -> bool {
        forall|i: int|
            0 <= i < self.entries().len() ==> Some((#[trigger] self.entries()[i]).cell.column)
                == engine.constants() && engine.value_at(self.entries()[i].cell) == Some(
                self.entries()[i].value,
            )
    }

    /// An empty cache.
    pub fn new() -> (c: ConstantsCache)
        ensures
            c.wf(),
            c@ == Map::<FieldElement, CellHandle>::empty(),
            c.entries() == Seq::<Entry>::empty(),
    {
        let c = ConstantsCache { entries: Vec::new() };
        assert(c@ =~= Map::<FieldElement, CellHandle>::empty());
        c
    }

    /// The number of cached constants.
    pub fn len(&self) -> (n: usize)
        ensures
            n == self.entries().len(),
    {
        self.entries.len()
    }

    /// The place of `value` among the entries: the number of entries with a
    /// smaller constant.
    fn position(&self, value: &FieldElement) -> (at: usize)
        requires
            self.wf(),
        ensures
            at <= self.entries().len(),
            forall|j: int| 0 <= j < at ==> (#[trigger] self.entries()[j]).value.value() < value.value(),
            forall|j: int|
                at <= j < self.entries().len() ==> (#[trigger] self.entries()[j]).value.value()
                    >= value.value(),
    {
        let mut low: usize = 0;
        let mut high: usize = self.entries.len();
        while low < high
            invariant
                self.wf(),
                low <= high <= self.entries@.len(),
                forall|j: int|
                    0 <= j < low ==> (#[trigger] self.entries()[j]).value.value() < value.value(),
                forall|j: int|
                    high <= j < self.entries().len() ==> (#[trigger] self.entries()[j]).value.value()
                        >= value.value(),
            decreases high - low,
        {
            let middle: usize = low + (high - low) / 2;
            if self.entries[middle].value.less_than(value) {
                proof {
                    let pivot = self.entries()[middle as int];
                    assert forall|j: int| 0 <= j < middle + 1 implies (
                    #[trigger] self.entries()[j]).value.value() < value.value() by {
                        if j < middle {
                            assert(self.entries()[j].value.value() < pivot.value.value());
                        }
                    }
                }
                low = middle + 1;
            } else {
                proof {
                    let pivot = self.entries()[middle as int];
                    assert forall|j: int| middle <= j < self.entries().len() implies (
                    #[trigger] self.entries()[j]).value.value() >= value.value() by {
                        if j > middle {
                            assert(pivot.value.value() < self.entries()[j].value.value());
                        }
                    }
                }
                high = middle;
            }
        }
        low
    }

    /// Where `value` is cached: at `at`, its place among the entries, or
    /// nowhere.
    proof fn lemma_found_at(&self, value: FieldElement, at: int)
        requires
            self.wf(),
            0 <= at <= self.entries().len(),
            forall|j: int| 0 <= j < at ==> (#[trigger] self.entries()[j]).value.value() < value.value(),
            forall|j: int|
                at <= j < self.entries().len() ==> (#[trigger] self.entries()[j]).value.value()
                    >= value.value(),
        ensures
            self@.contains_key(value) <==> at < self.entries().len() && self.entries()[at].value
                == value,
            self@.contains_key(value) ==> self@[value] == self.entries()[at].cell,
    {
        if self.holds(value) {
            let k = choose|i: int|
                0 <= i < self.entries().len() && (#[trigger] self.entries()[i]).value == value;
            assert(self.entries()[k].value.value() == value.value());
            if k > at {
                assert(self.entries()[at].value.value() < self.entries()[k].value.value());
            }
            assert(k == at);
        }
    }

    /// The cell that holds `value`, if the constant is cached.
    pub fn get(&self, value: &FieldElement) -> (r: Option<CellHandle>)
        requires
            self.wf(),
        ensures
            r == (if self@.contains_key(*value) {
                Some(self@[*value])
            } else {
                None
            }),
    {
        let at = self.position(value);
        proof {
            self.lemma_found_at(*value, at as int);
        }
        if at < self.entries.len() && self.entries[at].value.equals(value) {
            Some(self.entries[at].cell)
        } else {
            None
        }
    }

    /// The cell that holds `value`. A constant that is cached keeps its
    /// cell, and neither the cache nor the grid changes. One that is not is
    /// placed in the next free cell of the constants column and cached; if
    /// the grid has no room for it, the call fails and changes nothing.
    pub fn get_or_assign(&mut self, value: FieldElement, engine: &mut LayoutEngine) -> (r: Result<
        CellHandle,
        ModuleError,
    >)
        requires
            old(self).wf(),
            old(engine).wf(),
            old(self).agrees_with(*old(engine)),
        ensures
            final(self).wf(),
            final(engine).wf(),
            final(self).agrees_with(*final(engine)),
            final(engine).extends(*old(engine)),
            final(engine).links() == old(engine).links(),
            final(engine).instance_used() == old(engine).instance_used(),
            r is Ok <==> old(self)@.contains_key(value) || (old(engine).constants() is Some && old(
                engine).constants_used() < old(engine).rows()),
            r matches Ok(cell) ==> cell == answer(
                old(self)@,
                value,
                old(engine).next_constant_cell(),
            ) && final(self)@ == after_request(
                old(self)@,
                value,
                old(engine).next_constant_cell(),
            ),
            old(self)@.contains_key(value) ==> *final(self) == *old(self) && *final(engine) == *old(
                engine),
            !old(self)@.contains_key(value) && r is Ok ==> final(engine).writes() == old(
                engine).writes().push(
                Write { cell: old(engine).next_constant_cell(), value },
            ) && final(engine).constants_used() == old(engine).constants_used() + 1,
            r matches Err(e) ==> e == ModuleError::LayoutFailed && *final(self) == *old(self)
                && *final(engine) == *old(engine),
            r matches Ok(cell) ==> final(self)@.contains_key(value) && final(self)@[value] == cell,
            forall|v: FieldElement| #[trigger]
                old(self)@.contains_key(v) ==> final(self)@.contains_key(v) && final(self)@[v]
                    == old(self)@[v],
    {
        let at = self.position(&value);
        proof {
            self.lemma_found_at(value, at as int);
        }
        if at < self.entries.len() && self.entries[at].value.equals(&value) {
            return Ok(self.entries[at].cell);
        }
        let cell = match engine.assign_constant(value) {
            Ok(cell) => cell,
            Err(e) => {
                return Err(e);
            },
        };
        let ghost before = *self;
        self.entries.insert(at, Entry { value, cell });
        proof {
            let n = before.entries().len() as int;
            let now = self.entries();
            assert(now.len() == n + 1);
            assert(now[at as int] == (Entry { value, cell }));
            assert forall|j: int| 0 <= j < at implies now[j] == before.entries()[j] by {}
            assert forall|j: int| at < j <= n implies now[j] == before.entries()[j - 1] by {}
            assert forall|i: int, j: int| 0 <= i < j < now.len() implies (#[trigger] now[i]).value.value()
                < (#[trigger] now[j]).value.value() by {
                if j == at {
                    assert(now[i] == before.entries()[i]);
                } else if i == at {
                    let next = before.entries()[j - 1];
                    assert(now[j] == next);
                    let first = before.entries()[at as int];
                    assert(first.value.value() >= value.value());
                    if first.value.value() == value.value() {
                        lemma_value_injective(first.value, value);
                    }
                    if j - 1 > at {
                        assert(first.value.value() < next.value.value());
                    }
                } else {
                    let low = if i < at { i } else { i - 1 };
                    let high = if j < at { j } else { j - 1 };
                    assert(now[i] == before.entries()[low]);
                    assert(now[j] == before.entries()[high]);
                }
            }
            assert forall|i: int| 0 <= i < now.len() implies Some((#[trigger] now[i]).cell.column)
                == engine.constants() && engine.value_at(now[i].cell) == Some(now[i].value) by {
                if i != at {
                    let k = if i < at { i } else { i - 1 };
                    assert(now[i] == before.entries()[k]);
                    lemma_extends_keeps_values(*engine, *old(engine), before.entries()[k].cell);
                }
            }
            assert forall|v: FieldElement| #[trigger] before@.contains_key(v) implies self@.contains_key(v)
                && self@[v] == before@[v] by {
                let k = choose|i: int|
                    0 <= i < before.entries().len() && (#[trigger] before.entries()[i]).value == v;
                let moved = if k < at { k } else { k + 1 };
                assert(now[moved] == before.entries()[k]);
                self.lemma_entry_is_cached(moved);
                before.lemma_entry_is_cached(k);
            }
            self.lemma_entry_is_cached(at as int);
            assert forall|v: FieldElement| #[trigger] self@.contains_key(v) implies v == value
                || before@.contains_key(v) by {
                let k = choose|i: int| 0 <= i < now.len() && (#[trigger] now[i]).value == v;
                if k != at {
                    let back = if k < at { k } else { k - 1 };
                    assert(now[k] == before.entries()[back]);
                }
            }
            assert(self@ =~= before@.insert(value, cell));
        }
        Ok(cell)
    }

    /// The entry at a position is cached with its cell.
    proof fn lemma_entry_is_cached(&self, at: int)
        requires
            self.wf(),
            0 <= at < self.entries().len(),
        ensures
            self@.contains_key(self.entries()[at].value),
            self@[self.entries()[at].value] == self.entries()[at].cell,
    {
        let value = self.entries()[at].value;
        let k = choose|i: int|
            0 <= i < self.entries().len() && (#[trigger] self.entries()[i]).value == value;
        if k < at {
            assert(self.entries()[k].value.value() < self.entries()[at].value.value());
        }
        if at < k {
            assert(self.entries()[at].value.value() < self.entries()[k].value.value());
        }
    }
}

/// Whoever asks for a constant a second time gets the cell of the first
/// request, whichever cell is free by then, and the cache stays as the
/// first request left it: no constant gets a second cell.
pub proof fn lemma_second_request_same_cell(
    cache: Map<FieldElement, CellHandle>,
    value: FieldElement,
    first_free: CellHandle,
    second_free: CellHandle,
)
    ensures
        answer(after_request(cache, value, first_free), value, second_free) == answer(
            cache,
            value,
            first_free,
        ),
        after_request(after_request(cache, value, first_free), value, second_free)
            == after_request(cache, value, first_free),
{
}

/// A request for one constant leaves the cell of every other constant as
/// it was.
pub proof fn lemma_request_keeps_others(
    cache: Map<FieldElement, CellHandle>,
    value: FieldElement,
    free: CellHandle,
    other: FieldElement,
)
    requires
        cache.contains_key(other),
    ensures
        after_request(cache, value, free).contains_key(other),
        after_request(cache, value, free)[other] == cache[other],
{
}

/// In a cache that agrees with a grid, different constants sit in
/// different cells.
pub proof fn lemma_distinct_constants_distinct_cells(
    cache: ConstantsCache,
    engine: LayoutEngine,
    one: FieldElement,
    other: FieldElement,
)
    requires
        engine.wf(),
        cache.agrees_with(engine),
        cache@.contains_key(one),
        cache@.contains_key(other),
        one != other,
    ensures
        cache@[one] != cache@[other],
{
    let i = choose|i: int|
        0 <= i < cache.entries().len() && (#[trigger] cache.entries()[i]).value == one;
    let j = choose|j: int|
        0 <= j < cache.entries().len() && (#[trigger] cache.entries()[j]).value == other;
    assert(engine.value_at(cache.entries()[i].cell) == Some(one));
    assert(engine.value_at(cache.entries()[j].cell) == Some(other));
}

/// A cache that agrees with a grid agrees with every later state of it.
pub proof fn lemma_cache_survives(cache: ConstantsCache, later: LayoutEngine, earlier: LayoutEngine)
    requires
        cache.agrees_with(earlier),
        later.wf(),
        later.extends(earlier),
    ensures
        cache.agrees_with(later),
{
    assert forall|i: int| 0 <= i < cache.entries().len() implies Some(
        (#[trigger] cache.entries()[i]).cell.column,
    ) == later.constants() && later.value_at(cache.entries()[i].cell) == Some(
        cache.entries()[i].value,
    ) by {
        lemma_extends_keeps_values(later, earlier, cache.entries()[i].cell);
    }
}

} // verus!
