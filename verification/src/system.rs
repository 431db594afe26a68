//! The column layout of one circuit: how many columns of each kind exist,
//! how many may exist, and which of them all modules share.

use crate::errors::ModuleError;
use crate::tensor::{Column, ColumnKind};
use vstd::prelude::*;

verus! {

/// A number of columns of each kind.
#[derive(Clone, Copy, Debug, PartialEq, Eq, Structural)]
pub struct ColumnCount {
    /// Advice columns.
    pub advice: usize,
    /// Fixed columns.
    pub fixed: usize,
    /// Instance columns.
    pub instance: usize,
}

impl ColumnCount {
    /// The number of columns of one kind.
    pub open spec fn of(self, kind: ColumnKind) -> usize {
        match kind {
            ColumnKind::Advice => self.advice,
            ColumnKind::Fixed => self.fixed,
            ColumnKind::Instance => self.instance,
        }
    }

    /// The count with one more column of `kind`.
    pub open spec fn grown(self, kind: ColumnKind) -> ColumnCount {
        match kind {
            ColumnKind::Advice => ColumnCount { advice: (self.advice + 1) as usize, ..self },
            ColumnKind::Fixed => ColumnCount { fixed: (self.fixed + 1) as usize, ..self },
            ColumnKind::Instance => ColumnCount { instance: (self.instance + 1) as usize, ..self },
        }
    }

    /// The number of columns of one kind.
    pub fn get(&self, kind: ColumnKind) -> (n: usize)
        ensures
            n == self.of(kind),
    {
        match kind {
            ColumnKind::Advice => self.advice,
            ColumnKind::Fixed => self.fixed,
            ColumnKind::Instance => self.instance,
        }
    }
}

/// The columns of a circuit under definition. Columns are handed out one by
/// one and never taken back; their number of each kind is capped.
pub struct ConstraintSystem {
    used: ColumnCount,
    limit: ColumnCount,
    constants: Option<Column>,
    public_inputs: Option<Column>,
}

impl ConstraintSystem {
    /// The columns handed out so far.
    pub closed spec fn used(&self) -> ColumnCount {
        self.used
    }

    /// The most columns of each kind that the circuit may have.
    pub closed spec fn limit(&self) -> ColumnCount {
        self.limit
    }

    /// The fixed column that holds the constants all modules share, once
    /// there is one.
    pub closed spec fn constants(&self) -> Option<Column> {
        self.constants
    }

    /// The instance column that holds the public inputs, once there is one.
    pub closed spec fn public_inputs(&self) -> Option<Column> {
        self.public_inputs
    }

    /// No cap is exceeded, and the shared columns are among those handed out.
    pub open spec fn wf(&self) -> bool {
        &&& self.used().advice <= self.limit().advice
        &&& self.used().fixed <= self.limit().fixed
        &&& self.used().instance <= self.limit().instance
        &&& self.constants() matches Some(c) ==> c.kind == ColumnKind::Fixed && c.index
            < self.used().fixed
        &&& self.public_inputs() matches Some(c) ==> c.kind == ColumnKind::Instance && c.index
            < self.used().instance
    }

    /// The constraint system after it has handed out one more column of
    /// `kind`.
    pub closed spec fn with_column(self, kind: ColumnKind) -> ConstraintSystem {
        ConstraintSystem { used: self.used.grown(kind), ..self }
    }

    /// The constraint system after it has set aside the column of shared
    /// constants: a new fixed column, unless it had one.
    pub closed spec fn with_constants(self) -> ConstraintSystem {
        if self.constants is Some {
            self
        } else {
            ConstraintSystem {
                used: self.used.grown(ColumnKind::Fixed),
                constants: Some(Column { kind: ColumnKind::Fixed, index: self.used.fixed }),
                ..self
            }
        }
    }

    /// The constraint system after it has set aside the column of public
    /// inputs: a new instance column, unless it had one.
    pub closed spec fn with_public_inputs(self) -> ConstraintSystem {
        if self.public_inputs is Some {
            self
        } else {
            ConstraintSystem {
                used: self.used.grown(ColumnKind::Instance),
                public_inputs: Some(
                    Column { kind: ColumnKind::Instance, index: self.used.instance },
                ),
                ..self
            }
        }
    }

    /// What `with_column` changes and what it keeps.
    pub proof fn lemma_with_column(self, kind: ColumnKind)
        ensures
            self.with_column(kind).used() == self.used().grown(kind),
            self.with_column(kind).limit() == self.limit(),
            self.with_column(kind).constants() == self.constants(),
            self.with_column(kind).public_inputs() == self.public_inputs(),
    {
    }

    /// What `with_constants` changes and what it keeps.
    pub proof fn lemma_with_constants(self)
        ensures
            self.with_constants().limit() == self.limit(),
            self.with_constants().public_inputs() == self.public_inputs(),
            self.constants() is Some ==> self.with_constants() == self,
            self.constants() is None ==> self.with_constants().used() == self.used().grown(
                ColumnKind::Fixed,
            ) && self.with_constants().constants() == Some(
                Column { kind: ColumnKind::Fixed, index: self.used().fixed },
            ),
    {
    }

    /// What `with_public_inputs` changes and what it keeps.
    pub proof fn lemma_with_public_inputs(self)
        ensures
            self.with_public_inputs().limit() == self.limit(),
            self.with_public_inputs().constants() == self.constants(),
            self.public_inputs() is Some ==> self.with_public_inputs() == self,
            self.public_inputs() is None ==> self.with_public_inputs().used()
                == self.used().grown(ColumnKind::Instance) && self.with_public_inputs().public_inputs()
                == Some(Column { kind: ColumnKind::Instance, index: self.used().instance }),
    {
    }

    /// Whether one more column of `kind` can be handed out.
    pub open spec fn has_room(&self, kind: ColumnKind) -> bool {
        self.used().of(kind) < self.limit().of(kind)
    }

    /// A constraint system without columns.
    pub fn new(limit: ColumnCount) -> (cs: ConstraintSystem)
        ensures
            cs.wf(),
            cs.limit() == limit,
            cs.used() == (ColumnCount { advice: 0, fixed: 0, instance: 0 }),
            cs.constants() is None,
            cs.public_inputs() is None,
    {
        ConstraintSystem {
            used: ColumnCount { advice: 0, fixed: 0, instance: 0 },
            limit,
            constants: None,
            public_inputs: None,
        }
    }

    /// The columns handed out so far.
    pub fn columns(&self) -> (c: ColumnCount)
        ensures
            c == self.used(),
    {
        self.used
    }

    /// How many more columns of `kind` can be handed out.
    pub fn room(&self, kind: ColumnKind) -> (n: usize)
        requires
            self.wf(),
        ensures
            n == self.limit().of(kind) - self.used().of(kind),
    {
        self.limit.get(kind) - self.used.get(kind)
    }

    /// The column of shared constants, once enabled.
    pub fn constants_column(&self) -> (c: Option<Column>)
        ensures
            c == self.constants(),
    {
        self.constants
    }

    /// The column of public inputs, once enabled.
    pub fn public_inputs_column(&self) -> (c: Option<Column>)
        ensures
            c == self.public_inputs(),
    {
        self.public_inputs
    }

    /// Hands out a new column of `kind`. Fails, and changes nothing, when
    /// the cap on that kind is reached.
    pub fn allocate(&mut self, kind: ColumnKind) -> (r: Result<Column, ModuleError>)
        requires
            old(self).wf(),
        ensures
            final(self).wf(),
            final(self).limit() == old(self).limit(),
            final(self).constants() == old(self).constants(),
            final(self).public_inputs() == old(self).public_inputs(),
            r is Ok <==> old(self).has_room(kind),
            r matches Ok(c) ==> c == (Column { kind, index: old(self).used().of(kind) })
                && final(self).used() == old(self).used().grown(kind) && *final(self) == old(
                self).with_column(kind),
            r matches Err(e) ==> e == ModuleError::ConfigurationError && final(self).used() == old(self).used(),
    {
        if self.used.get(kind) >= self.limit.get(kind) {
            return Err(ModuleError::ConfigurationError);
        }
        let index: usize = self.used.get(kind);
        match kind {
            ColumnKind::Advice => {
                self.used.advice = index + 1;
            },
            ColumnKind::Fixed => {
                self.used.fixed = index + 1;
            },
            ColumnKind::Instance => {
                self.used.instance = index + 1;
            },
        }
        Ok(Column { kind, index })
    }

    /// The fixed column of shared constants, set aside on the first call and
    /// handed back unchanged on every later one.
    pub fn enable_constants(&mut self) -> (r: Result<Column, ModuleError>)
        requires
            old(self).wf(),
        ensures
            final(self).wf(),
            final(self).limit() == old(self).limit(),
            final(self).public_inputs() == old(self).public_inputs(),
            r is Ok <==> old(self).constants() is Some || old(self).has_room(ColumnKind::Fixed),
            r matches Ok(c) ==> final(self).constants() == Some(c) && *final(self) == old(
                self).with_constants(),
            old(self).constants() matches Some(c) ==> r == Ok::<Column, ModuleError>(c) && final(self).used() == old(self).used(),
            old(self).constants() is None && r is Ok ==> final(self).used() == old(self).used().grown(ColumnKind::Fixed),
            r matches Err(e) ==> e == ModuleError::ConfigurationError && final(self).used() == old(self).used() && final(self).constants() is None,
    {
        match self.constants {
            Some(c) => Ok(c),
            None => {
                match self.allocate(ColumnKind::Fixed) {
                    Ok(c) => {
                        self.constants = Some(c);
                        Ok(c)
                    },
                    Err(e) => Err(e),
                }
            },
        }
    }

    /// The instance column of public inputs, set aside on the first call and
    /// handed back unchanged on every later one.
    pub fn enable_public_inputs(&mut self) -> (r: Result<Column, ModuleError>)
        requires
            old(self).wf(),
        ensures
            final(self).wf(),
            final(self).limit() == old(self).limit(),
            final(self).constants() == old(self).constants(),
            r is Ok <==> old(self).public_inputs() is Some || old(self).has_room(
                ColumnKind::Instance,
            ),
            r matches Ok(c) ==> final(self).public_inputs() == Some(c) && *final(self) == old(
                self).with_public_inputs(),
            old(self).public_inputs() matches Some(c) ==> r == Ok::<Column, ModuleError>(c)
                && final(self).used() == old(self).used(),
            old(self).public_inputs() is None && r is Ok ==> final(self).used() == old(self).used().grown(ColumnKind::Instance),
            r matches Err(e) ==> e == ModuleError::ConfigurationError && final(self).used() == old(self).used() && final(self).public_inputs() is None,
    {
        match self.public_inputs {
            Some(c) => Ok(c),
            None => {
                match self.allocate(ColumnKind::Instance) {
                    Ok(c) => {
                        self.public_inputs = Some(c);
                        Ok(c)
                    },
                    Err(e) => Err(e),
                }
            },
        }
    }
}

} // verus!
