use crate::entry::{call_by_item, call_by_name, function_called};
use crate::eval::{find_function, CallView};
use crate::frame::{called, entered};
use crate::ids::{ItemId, ValueId};
use crate::interpreter::StateView;
use crate::laws::operators::Scene;
use crate::program::{Module, ValueKind};
use crate::table::TableView;
use crate::text::decimal;
use crate::value::{ErrorView, ResourceHandle, ValueView};
use vstd::prelude::*;

verus! {

/// Whether an error reports an invalid operation in these words.
pub open spec fn says(e: ErrorView, words: Seq<char>) -> bool {
    e == ErrorView::InvalidOperation(words)
}

/// A value that was not computed yet is refused by its number.
pub proof fn uncomputed_value_is_refused_by_number(at: Scene, id: ValueId)
    requires
        !at.values.contains_key(id.0),
    ensures
        at.outcome(ValueKind::Load(id)).1 matches Err(e) && says(
            e,
            "%"@ + decimal(id.0 as nat) + " was read before it was computed"@,
        ),
{
}

/// A call with another number of arguments than its function declares is
/// refused with both numbers.
pub proof fn miscounted_call_is_refused_with_both_numbers(
    module: Module,
    table: TableView,
    call: CallView,
)
    requires
        call.args.len() != call.callee.params@.len(),
    ensures
        entered(module, table, call) matches Err(e) && says(
            e,
            "function expects "@ + decimal(call.callee.params@.len()) + " argument(s), found "@
                + decimal(call.args.len()),
        ),
{
    reveal_strlit("");
    let words = "function expects "@ + decimal(call.callee.params@.len()) + " argument(s), found "@
        + decimal(call.args.len());
    assert(words + ""@ =~= words);
}

/// A frame beyond the last there may be is refused with how many there may
/// be.
pub proof fn frame_too_many_is_refused_with_their_number(
    module: Module,
    state: StateView,
    call: CallView,
    depth: nat,
)
    requires
        depth >= 256,
    ensures
        called(module, state, call, depth).1 matches Err(e) && says(
            e,
            "call depth exceeded "@ + decimal(256)
                + " frames: a recursion this execution never unwound"@,
        ),
{
}

/// A function that there is none of is refused by its name, and by its
/// declaration's number.
pub proof fn unknown_function_is_refused_by_name(
    module: Module,
    state: StateView,
    names: Seq<Seq<char>>,
    name: Seq<char>,
    item: ItemId,
    args: Seq<ValueView>,
    depth: nat,
)
    ensures
        function_called(module.functions@, names, name, 0) is None ==> (call_by_name(
            module,
            state,
            names,
            name,
            args,
            depth,
        ).1 matches Err(e) && says(e, "unknown function `"@ + name + "`"@)),
        find_function(module.functions@, item, 0) is None ==> (call_by_item(
            module,
            state,
            item,
            args,
            depth,
        ).1 matches Err(e) && says(
            e,
            "unknown function ItemId("@ + decimal(item.0 as nat) + ")"@,
        )),
{
}

/// A handle that does not work is refused with what is wrong with it.
pub proof fn idle_handle_is_refused_with_its_reason(table: TableView, handle: ResourceHandle)
    requires
        handle.lease matches Some(lease) ==> lease.0 < table.leases.len(),
    ensures
        ({
            let record = table.records[handle.id.0 as int];
            if handle.lease matches Some(lease) && table.leases[lease.0 as int].status is Ended {
                table.observe(handle) matches Err(e) && says(
                    e,
                    "use of an observation after its own `observe` block already ended"@,
                )
            } else if handle.id.0 >= table.records.len() {
                table.observe(handle) matches Err(e) && says(
                    e,
                    "resource handle does not refer to any known resource"@,
                )
            } else if record.generation != handle.generation {
                table.observe(handle) matches Err(e) && says(
                    e,
                    "stale resource handle: this resource's own ownership was already transferred elsewhere"@,
                )
            } else if record.status is Dropped {
                table.observe(handle) matches Err(e) && says(
                    e,
                    "use of a resource after it was already dropped"@,
                )
            } else {
                table.observe(handle) is Ok
            }
        }),
{
}

/// A division of integers by zero is reported as one, and a shift too far
/// as such.
pub proof fn operators_refuse_with_their_reason(
    at: Scene,
    a: ValueId,
    b: ValueId,
    x: i128,
    y: i128,
)
    requires
        at.holds(a, ValueView::Int(x)),
        at.holds(b, ValueView::Int(y)),
    ensures
        y == 0 ==> at.outcome(ValueKind::Div(a, b)).1 == Err::<ValueView, ErrorView>(
            ErrorView::DivisionByZero,
        ) && at.outcome(ValueKind::Rem(a, b)).1 == Err::<ValueView, ErrorView>(
            ErrorView::DivisionByZero,
        ),
        y < 0 || y >= 128 ==> (at.outcome(ValueKind::Shl(a, b)).1 matches Err(e) && says(
            e,
            "shift amount out of range"@,
        )) && (at.outcome(ValueKind::Shr(a, b)).1 matches Err(e) && says(
            e,
            "shift amount out of range"@,
        )),
{
}

} // verus!
