use crate::ids::{ItemId, ResourceId};
use crate::program::Module;
use crate::table::{LeaseView, RecordView, ResourceTable, TableView};
use vstd::prelude::*;

verus! {

/// Something an execution did, in the order it was done.
#[derive(Debug, Clone, Copy)]
pub enum Event {
    /// A function's frame was entered.
    Call(ItemId),
    /// A resource was destroyed.
    Drop(ResourceId),
}

/// An execution of one module: its resources, what it has done so far,
/// and how many call frames it is in.
pub struct Interpreter<'a> {
    pub module: &'a Module,
    pub resources: ResourceTable,
    pub events: Vec<Event>,
    pub call_depth: usize,
}

/// The mathematical state of an [`Interpreter`].
pub struct StateView {
    pub table: TableView,
    pub events: Seq<Event>,
}

impl<'a> View for Interpreter<'a> {
    type V = StateView;

    open spec fn view(&self) -> StateView {
        StateView { table: self.resources@, events: self.events@ }
    }
}

impl<'a> Interpreter<'a> {
    /// An execution of `module` that has not begun.
    pub fn new(module: &'a Module) -> (r: Interpreter<'a>)
        ensures
            r.module == module,
            r@.table.records == Seq::<RecordView>::empty(),
            r@.table.leases == Seq::<LeaseView>::empty(),
            r@.events == Seq::<Event>::empty(),
            r.call_depth == 0,
    {
        Interpreter {
            module,
            resources: ResourceTable::new(),
            events: Vec::new(),
            call_depth: 0,
        }
    }
}

} // verus!
