//! An interpreter for modules of basic blocks whose values may own
//! resources.
//!
//! A resource is reached through handles only. Whoever owns one may move
//! it, which makes every older handle stale, or destroy it, once; whoever
//! merely observes one may read it. The interpreter holds to this
//! whatever module it is given: each move or destruction is checked as a
//! whole before any of it takes effect, and one that is refused is
//! reported and changes nothing.
//!
//! - [`program`], [`types`] and [`value`] are what is run and what it
//!   computes with; [`type_ops`] and [`value_ops`] work on them.
//! - [`table`] and [`table_ops`] are the resources and observation leases
//!   of one execution.
//! - [`layout`] and [`validate`] hold values against their declarations.
//! - [`ownership`], [`place`], [`structural`] and [`destroy`] move, reach
//!   into, take apart and destroy values.
//! - [`ops`], [`float`], [`float_arith`] and [`rounding`] are the
//!   operators on primitive values.
//! - [`eval`], [`frame`], [`execute`] and [`entry`] evaluate, call and
//!   run.
//! - [`laws`] states what holds of all of these together.

pub mod destroy;
pub mod entry;
pub mod eval;
pub mod execute;
pub mod float;
pub mod float_arith;
pub mod frame;
pub mod idmap;
pub mod ids;
pub mod interpreter;
pub mod laws;
pub mod layout;
pub mod ops;
pub mod ownership;
pub mod place;
pub mod program;
pub mod rounding;
pub mod structural;
pub mod symbol;
pub mod table;
pub mod table_ops;
pub mod text;
pub mod type_ops;
pub mod types;
pub mod validate;
pub mod value;
pub mod value_ops;
