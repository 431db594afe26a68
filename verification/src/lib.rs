//! Pluggable sub-circuits ("modules") for an arithmetic circuit, and the
//! planner that lays them out on one shared grid of rows and columns.
//!
//! A pass begins with a [`planner::Planner`]. While the circuit is defined,
//! modules take their columns from the pass's
//! [`system::ConstraintSystem`] and the rows of the planned invocations are
//! reserved; their sum is the height of the grid. Then the invocations are
//! laid out one after the other: each gets the next range of rows, all share
//! one [`constants::ConstantsCache`], and everything they place is recorded
//! in the pass's [`engine::LayoutEngine`], from which a proving backend
//! assigns the cells.
//!
//! Every module keeps the contract of [`module::Module`]. The crate brings
//! one module, [`sponge::SpongeHash`], which computes in the scalar field of
//! BN254 through [`scalar`].

pub mod constants;
pub mod engine;
pub mod errors;
pub mod field;
pub mod module;
pub mod planner;
pub mod scalar;
pub mod sponge;
pub mod system;
pub mod tensor;
