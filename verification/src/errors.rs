//! Typed failures of module operations, and the split between failures a
//! caller can repair and failures that end a synthesis pass for good.

use vstd::prelude::*;

verus! {

/// Whether a failure stems from the data handed in or from the way the
/// circuit was put together.
#[derive(Clone, Copy, Debug, PartialEq, Eq, Structural)]
pub enum ErrorClass {
    /// The caller may retry with corrected inputs or parameters.
    Input,
    /// A wiring mistake: the circuit under construction is unusable.
    Integration,
}

/// Every way a module operation can fail.
#[derive(Clone, Copy, Debug, PartialEq, Eq, Structural)]
pub enum ModuleError {
    /// The constraint system cannot supply the columns a module asks for.
    ConfigurationError,
    /// The inputs of an off-circuit run lie outside the module's domain.
    RunFailed,
    /// The layout engine rejected a cell assignment.
    LayoutFailed,
    /// The requested tuning does not fit the configuration already fixed.
    OptimizeFailed,
}

impl ModuleError {
    /// The class of each failure.
    pub open spec fn class_spec(self) -> ErrorClass {
        match self {
            ModuleError::ConfigurationError => ErrorClass::Integration,
            ModuleError::RunFailed => ErrorClass::Input,
            ModuleError::LayoutFailed => ErrorClass::Integration,
            ModuleError::OptimizeFailed => ErrorClass::Input,
        }
    }

    /// Classifies the failure.
    pub fn class(&self) -> (c: ErrorClass)
        ensures
            c == self.class_spec(),
    {
        match self {
            ModuleError::ConfigurationError => ErrorClass::Integration,
            ModuleError::RunFailed => ErrorClass::Input,
            ModuleError::LayoutFailed => ErrorClass::Integration,
            ModuleError::OptimizeFailed => ErrorClass::Input,
        }
    }

    /// True for the failures that different inputs or parameters can cure.
    pub fn is_recoverable(&self) -> (b: bool)
        ensures
            b == (self.class_spec() == ErrorClass::Input),
            b == (*self == ModuleError::RunFailed || *self == ModuleError::OptimizeFailed),
    {
        match self {
            ModuleError::RunFailed => true,
            ModuleError::OptimizeFailed => true,
            _ => false,
        }
    }
}

} // verus!
