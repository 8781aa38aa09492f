use crate::idmap::IdSet;
use crate::interpreter::{Event, Interpreter, StateView};
use crate::program::{Module, MAX_GENERIC_DEPTH};
use crate::table::{RecordView, ResourceStatus, TableView};
use crate::text::framed;
use crate::types::{ty_views, Ty, TyView};
use crate::validate::owned_graph;
use crate::value::{
    checked, invalid, invalid_message, refusal, value_views, ErrorView, InterpreterError,
    ResourceHandle, RuntimeOwnershipRole, Value, ValueView,
};
use crate::value_ops::{is_tombstone, kind_name, kind_text, tombstone};
use vstd::prelude::*;

verus! {

broadcast use {crate::types::group_type_views, crate::value::group_value_views};

/// The refusal of destroying something that owns nothing.
pub open spec fn not_affine(value: ValueView) -> ErrorView {
    refusal("drop of a non-affine value ("@ + kind_text(value) + ")"@)
}

/// Everything destroying `value` destroys, added to `plan` in the order
/// of destruction: fields in reverse declaration order, each with all it
/// owns, and a resource after its fields. Only the active case of a
/// variant is looked at, and a tombstone owns nothing.
pub open spec fn drop_plan(
    module: Module,
    table: TableView,
    value: ValueView,
    seen: Set<u32>,
    plan: Seq<ResourceHandle>,
    depth: nat,
) -> (Set<u32>, Seq<ResourceHandle>, Result<(), ErrorView>)
    decreases MAX_GENERIC_DEPTH - depth, 0nat,
{
    if depth >= MAX_GENERIC_DEPTH {
        (
            seen,
            plan,
            Err(
                refusal(
                    "a destruction graph is nested more deeply than this milestone supports"@,
                ),
            ),
        )
    } else {
        match value {
            ValueView::Resource(handle) => if handle.role != RuntimeOwnershipRole::Owner {
                (
                    seen,
                    plan,
                    Err(
                        refusal(
                            "cannot drop a resource through a merely-observing resource handle"@,
                        ),
                    ),
                )
            } else if seen.contains(handle.id.0) {
                (
                    seen,
                    plan,
                    Err(
                        refusal("a destruction graph reaches the same resource identity twice"@),
                    ),
                )
            } else {
                match table.observe(handle) {
                    Err(e) => (seen.insert(handle.id.0), plan, Err(e)),
                    Ok(record) => match module.record_field_types(record.item, Seq::empty()) {
                        Err(e) => (seen.insert(handle.id.0), plan, Err(e)),
                        Ok(declared) => if declared.len() != record.fields.len() {
                            (
                                seen.insert(handle.id.0),
                                plan,
                                Err(
                                    refusal(
                                        "a runtime resource's own field count disagrees with its declaration"@,
                                    ),
                                ),
                            )
                        } else {
                            let (seen1, plan1, r) = drop_plan_below(
                                module,
                                table,
                                record.fields,
                                declared,
                                record.fields.len(),
                                seen.insert(handle.id.0),
                                plan,
                                depth + 1,
                            );
                            match r {
                                Err(e) => (seen1, plan1, Err(e)),
                                Ok(_) => (seen1, plan1.push(handle), Ok(())),
                            }
                        },
                    },
                }
            },
            ValueView::Record { item, type_args, fields } => match module.record_field_types(
                item,
                type_args,
            ) {
                Err(e) => (seen, plan, Err(e)),
                Ok(declared) => if declared.len() != fields.len() {
                    (
                        seen,
                        plan,
                        Err(
                            refusal(
                                "a runtime record value's own field count disagrees with its declaration"@,
                            ),
                        ),
                    )
                } else {
                    drop_plan_below(
                        module,
                        table,
                        fields,
                        declared,
                        fields.len(),
                        seen,
                        plan,
                        depth + 1,
                    )
                },
            },
            ValueView::Variant { item, type_args, case, payload } => match module.case_payload_types(
                item,
                type_args,
                case,
            ) {
                Err(e) => (seen, plan, Err(e)),
                Ok(declared) => if declared.len() != payload.len() {
                    (
                        seen,
                        plan,
                        Err(
                            refusal(
                                "a runtime variant value's own payload count disagrees with its active case's declaration"@,
                            ),
                        ),
                    )
                } else {
                    drop_plan_below(
                        module,
                        table,
                        payload,
                        declared,
                        payload.len(),
                        seen,
                        plan,
                        depth + 1,
                    )
                },
            },
            ValueView::Moved => (
                seen,
                plan,
                Err(refusal("drop of a field that was already moved"@)),
            ),
            ValueView::Dropped => (
                seen,
                plan,
                Err(refusal("double drop: this value was already destroyed"@)),
            ),
            other => (seen, plan, Err(not_affine(other))),
        }
    }
}

/// [`drop_plan`] of the values below position `n`, last first, of which
/// only live values of affine types count.
pub open spec fn drop_plan_below(
    module: Module,
    table: TableView,
    values: Seq<ValueView>,
    declared: Seq<TyView>,
    n: nat,
    seen: Set<u32>,
    plan: Seq<ResourceHandle>,
    depth: nat,
) -> (Set<u32>, Seq<ResourceHandle>, Result<(), ErrorView>)
    decreases MAX_GENERIC_DEPTH - depth, 1 + n,
{
    if n == 0 {
        (seen, plan, Ok(()))
    } else {
        let i = n - 1;
        if !module.affine(declared[i]) || tombstone(values[i]) {
            drop_plan_below(module, table, values, declared, i as nat, seen, plan, depth)
        } else {
            let (seen1, plan1, r) = drop_plan(module, table, values[i], seen, plan, depth);
            match r {
                Err(e) => (seen1, plan1, Err(e)),
                Ok(_) => drop_plan_below(
                    module,
                    table,
                    values,
                    declared,
                    i as nat,
                    seen1,
                    plan1,
                    depth,
                ),
            }
        }
    }
}

impl TableView {
    /// The table with the resources from position `i` of `plan` on
    /// destroyed.
    pub open spec fn destroyed(self, plan: Seq<ResourceHandle>, i: nat) -> TableView
        decreases plan.len() - i,
    {
        if i >= plan.len() {
            self
        } else {
            let id = plan[i as int].id;
            self.with_record(
                id,
                RecordView { status: ResourceStatus::Dropped, ..self.records[id.0 as int] },
            ).destroyed(plan, i + 1)
        }
    }
}

/// What a plan of destruction adds to the record of events.
pub open spec fn drop_events(plan: Seq<ResourceHandle>) -> Seq<Event> {
    Seq::new(plan.len(), |i: int| Event::Drop(plan[i].id))
}

/// Destroying `value` and everything it still owns. A refusal destroys
/// nothing.
pub open spec fn dropping(module: Module, state: StateView, value: ValueView) -> Result<
    StateView,
    ErrorView,
> {
    match owned_graph(module, state.table, value) {
        Err(e) => Err(e),
        Ok(_) => match state.table.lease_check_value(value, "dropped"@) {
            Err(e) => Err(e),
            Ok(_) => {
                let (_, plan, r) = drop_plan(
                    module,
                    state.table,
                    value,
                    Set::empty(),
                    Seq::empty(),
                    0,
                );
                match r {
                    Err(e) => Err(e),
                    Ok(_) => Ok(
                        StateView {
                            table: state.table.destroyed(plan, 0),
                            events: state.events + drop_events(plan),
                        },
                    ),
                }
            },
        },
    }
}

/// Whether every resource of `plan` can be destroyed in turn: each is
/// owned and live, was seen, and occurs once.
pub open spec fn droppable(
    table: TableView,
    plan: Seq<ResourceHandle>,
    seen: Set<u32>,
) -> bool {
    &&& forall|i: int|
        0 <= i < plan.len() ==> (#[trigger] plan[i]).role == RuntimeOwnershipRole::Owner
            && table.observe(plan[i]) is Ok && seen.contains(plan[i].id.0)
    &&& forall|i: int, j: int|
        0 <= i < j < plan.len() ==> (#[trigger] plan[i]).id != (#[trigger] plan[j]).id
}

/// Whether `longer` extends `plan` by resources that were not in `seen`.
pub open spec fn extends_fresh(
    plan: Seq<ResourceHandle>,
    longer: Seq<ResourceHandle>,
    seen: Set<u32>,
    seen1: Set<u32>,
) -> bool {
    &&& plan.len() <= longer.len()
    &&& seen.subset_of(seen1)
    &&& forall|i: int| 0 <= i < plan.len() ==> #[trigger] longer[i] == plan[i]
    &&& forall|i: int|
        plan.len() <= i < longer.len() ==> !seen.contains((#[trigger] longer[i]).id.0)
}

impl<'a> Interpreter<'a> {
    /// [`Self::plan_drop`] of each live value of an affine type, last
    /// first.
    fn plan_drop_all(
        &self,
        values: &Vec<Value>,
        declared: &Vec<Ty>,
        seen: &mut IdSet,
        plan: &mut Vec<ResourceHandle>,
        depth: usize,
    ) -> (r: Result<(), InterpreterError>)
        requires
            values@.len() == declared@.len(),
        ensures
            (final(seen)@, final(plan)@, checked(r)) == drop_plan_below(
                *self.module,
                self@.table,
                value_views(values@),
                ty_views(declared@),
                values@.len(),
                old(seen)@,
                old(plan)@,
                depth as nat,
            ),
            droppable(self@.table, old(plan)@, old(seen)@) ==> droppable(
                self@.table,
                final(plan)@,
                final(seen)@,
            ),
            extends_fresh(old(plan)@, final(plan)@, old(seen)@, final(seen)@),
        decreases MAX_GENERIC_DEPTH - depth, 1nat,
    {
        let mut n: usize = values.len();
        while n > 0
            invariant
                n <= values@.len(),
                values@.len() == declared@.len(),
                droppable(self@.table, old(plan)@, old(seen)@) ==> droppable(
                    self@.table,
                    plan@,
                    seen@,
                ),
                extends_fresh(old(plan)@, plan@, old(seen)@, seen@),
                drop_plan_below(
                    *self.module,
                    self@.table,
                    value_views(values@),
                    ty_views(declared@),
                    values@.len(),
                    old(seen)@,
                    old(plan)@,
                    depth as nat,
                ) == drop_plan_below(
                    *self.module,
                    self@.table,
                    value_views(values@),
                    ty_views(declared@),
                    n as nat,
                    seen@,
                    plan@,
                    depth as nat,
                ),
            decreases n,
        {
            n = n - 1;
            if self.is_affine(&declared[n]) && !is_tombstone(&values[n]) {
                match self.plan_drop(&values[n], seen, plan, depth) {
                    Err(e) => {
                        return Err(e);
                    },
                    Ok(_) => {},
                }
            }
        }
        Ok(())
    }

    /// Validates everything destroying `value` would destroy, and adds
    /// it to `plan` in the order of destruction, destroying nothing.
    pub fn plan_drop(
        &self,
        value: &Value,
        seen: &mut IdSet,
        plan: &mut Vec<ResourceHandle>,
        depth: usize,
    ) -> (r: Result<(), InterpreterError>)
        ensures
            (final(seen)@, final(plan)@, checked(r)) == drop_plan(
                *self.module,
                self@.table,
                value@,
                old(seen)@,
                old(plan)@,
                depth as nat,
            ),
            droppable(self@.table, old(plan)@, old(seen)@) ==> droppable(
                self@.table,
                final(plan)@,
                final(seen)@,
            ),
            extends_fresh(old(plan)@, final(plan)@, old(seen)@, final(seen)@),
        decreases MAX_GENERIC_DEPTH - depth, 0nat,
    {
        if depth >= MAX_GENERIC_DEPTH {
            return Err(
                invalid("a destruction graph is nested more deeply than this milestone supports"),
            );
        }
        match value {
            Value::Resource(handle) => {
                if handle.role != RuntimeOwnershipRole::Owner {
                    return Err(
                        invalid(
                            "cannot drop a resource through a merely-observing resource handle",
                        ),
                    );
                }
                if !seen.insert(handle.id.0) {
                    assert(seen@ =~= old(seen)@);
                    return Err(
                        invalid("a destruction graph reaches the same resource identity twice"),
                    );
                }
                let record = match self.resources.observe(*handle) {
                    Err(e) => {
                        return Err(e);
                    },
                    Ok(record) => record,
                };
                let none: Vec<Ty> = Vec::new();
                assert(ty_views(none@) =~= Seq::empty());
                let declared = match self.record_field_types(record.item, &none) {
                    Err(e) => {
                        return Err(e);
                    },
                    Ok(declared) => declared,
                };
                assert(ty_views(declared@).len() == declared@.len());
                if declared.len() != record.fields.len() {
                    return Err(
                        invalid(
                            "a runtime resource's own field count disagrees with its declaration",
                        ),
                    );
                }
                match self.plan_drop_all(&record.fields, &declared, seen, plan, depth + 1) {
                    Err(e) => Err(e),
                    Ok(_) => {
                        plan.push(*handle);
                        Ok(())
                    },
                }
            },
            Value::Record { item, type_args, fields } => {
                let declared = match self.record_field_types(*item, type_args) {
                    Err(e) => {
                        return Err(e);
                    },
                    Ok(declared) => declared,
                };
                assert(ty_views(declared@).len() == declared@.len());
                assert(value_views(fields@).len() == fields@.len());
                if declared.len() != fields.len() {
                    return Err(
                        invalid(
                            "a runtime record value's own field count disagrees with its declaration",
                        ),
                    );
                }
                self.plan_drop_all(fields, &declared, seen, plan, depth + 1)
            },
            Value::Variant { item, type_args, case, payload } => {
                let declared = match self.case_payload_types(*item, type_args, *case) {
                    Err(e) => {
                        return Err(e);
                    },
                    Ok(declared) => declared,
                };
                assert(ty_views(declared@).len() == declared@.len());
                assert(value_views(payload@).len() == payload@.len());
                if declared.len() != payload.len() {
                    return Err(
                        invalid(
                            "a runtime variant value's own payload count disagrees with its active case's declaration",
                        ),
                    );
                }
                self.plan_drop_all(payload, &declared, seen, plan, depth + 1)
            },
            Value::Moved => Err(invalid("drop of a field that was already moved")),
            Value::Dropped => Err(invalid("double drop: this value was already destroyed")),
            other => Err(
                invalid_message(framed("drop of a non-affine value (", kind_name(other), ")")),
            ),
        }
    }

    /// Destroys `value` and everything it still owns, as a transaction:
    /// the complete destruction is validated and ordered before any
    /// resource is destroyed or any event recorded.
    pub fn drop_value(&mut self, value: &Value) -> (r: Result<(), InterpreterError>)
        ensures
            match r {
                Ok(_) => dropping(*old(self).module, old(self)@, value@) == Ok::<
                    StateView,
                    ErrorView,
                >(final(self)@),
                Err(e) => dropping(*old(self).module, old(self)@, value@) == Err::<
                    StateView,
                    ErrorView,
                >(e@) && final(self)@ == old(self)@,
            },
            final(self).module == old(self).module,
            final(self).call_depth == old(self).call_depth,
    {
        match self.validate_owned_graph(value) {
            Err(e) => {
                return Err(e);
            },
            Ok(_) => {},
        }
        match self.reject_leased_value(value, "dropped") {
            Err(e) => {
                return Err(e);
            },
            Ok(_) => {},
        }
        let mut plan: Vec<ResourceHandle> = Vec::new();
        let mut seen = IdSet::new();
        match self.plan_drop(value, &mut seen, &mut plan, 0) {
            Err(e) => {
                return Err(e);
            },
            Ok(_) => {},
        }
        let ghost start = self@;
        let mut i: usize = 0;
        assert(self.events@ =~= start.events + drop_events(plan@).take(0));
        while i < plan.len()
            invariant
                i <= plan@.len(),
                self.module == old(self).module,
                self.call_depth == old(self).call_depth,
                self.events@ == start.events + drop_events(plan@).take(i as int),
                start.table.destroyed(plan@, 0) == self@.table.destroyed(plan@, i as nat),
                forall|j: int|
                    i <= j < plan@.len() ==> (#[trigger] plan@[j]).role
                        == RuntimeOwnershipRole::Owner && self@.table.observe(plan@[j]) is Ok,
                forall|j: int, k: int|
                    0 <= j < k < plan@.len() ==> (#[trigger] plan@[j]).id
                        != (#[trigger] plan@[k]).id,
            decreases plan@.len() - i,
        {
            let handle = plan[i];
            let ghost before = self@.table;
            assert(self@.table.observe(plan@[i as int]) is Ok);
            match self.resources.drop_resource(handle) {
                Err(e) => {
                    assert(false);
                    return Err(e);
                },
                Ok(_) => {},
            }
            self.events.push(Event::Drop(handle.id));
            assert(self.events@ =~= start.events + drop_events(plan@).take(i + 1));
            assert forall|j: int| i + 1 <= j < plan@.len() implies self@.table.observe(
                #[trigger] plan@[j],
            ) is Ok by {
                assert(before.observe(plan@[j]) is Ok);
                assert(plan@[i as int].id != plan@[j].id);
            }
            i = i + 1;
        }
        assert(drop_events(plan@).take(i as int) =~= drop_events(plan@));
        Ok(())
    }
}

} // verus!
