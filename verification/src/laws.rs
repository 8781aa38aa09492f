//! What holds of the library as a whole: properties of every input that
//! relate several of its operations, stated over the mathematical
//! functions the operations' own contracts speak of.

pub mod accepting;
pub mod affinity;
pub mod boundary;
pub mod call;
pub mod construction;
pub mod destruction;
pub mod dispatch;
pub mod entering;
pub mod fitting;
pub mod flow;
pub mod graph;
pub mod handles;
pub mod history;
pub mod holding;
pub mod lease;
pub mod making;
pub mod number;
pub mod observation;
pub mod operators;
pub mod owed;
pub mod place;
pub mod refusal;
pub mod reading;
pub mod report;
pub mod step;
pub mod storage;
pub mod transfer;
pub mod typing;
pub mod wording;
