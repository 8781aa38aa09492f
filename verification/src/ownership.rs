use crate::idmap::{ascending, IdSet};
use crate::ids::{ResourceId, ValueId};
use crate::interpreter::Interpreter;
use crate::program::{Module, MAX_GENERIC_DEPTH};
use crate::table::{next_generation, owning_handle, RecordView, ResourceStatus, TableView};
use crate::table_ops::raised;
use crate::text::{decimal, framed, numbered};
use crate::type_ops::copy_types;
use crate::types::ty_views;
use crate::value::{
    checked, evaluated, invalid, invalid_message, refusal, value_views, ErrorView, InterpreterError,
    ResourceHandle, RuntimeOwnershipRole, Value, ValueView,
};
use crate::value_ops::{copy_value, Frame};
use vstd::prelude::*;
use vstd::string::StringExecFns;

verus! {

broadcast use {crate::types::group_type_views, crate::value::group_value_views};

/// The refusal of a graph nested beyond the supported depth.
pub open spec fn graph_too_deep() -> ErrorView {
    refusal("a runtime ownership graph is nested more deeply than this milestone supports"@)
}

/// The refusal of a value nested beyond the supported depth.
pub open spec fn value_too_deep() -> ErrorView {
    refusal("a runtime value is nested more deeply than this milestone supports"@)
}

impl TableView {
    /// Every resource `value` reaches, added to `seen` and, in discovery
    /// order, to `order`. A resource already seen is passed over, and
    /// nothing is reached through a handle that no longer works.
    pub open spec fn reach(
        self,
        value: ValueView,
        seen: Set<u32>,
        order: Seq<ResourceId>,
        depth: nat,
    ) -> (Set<u32>, Seq<ResourceId>, Result<(), ErrorView>)
        decreases MAX_GENERIC_DEPTH - depth, 0nat,
    {
        if depth >= MAX_GENERIC_DEPTH {
            (seen, order, Err(graph_too_deep()))
        } else {
            match value {
                ValueView::Resource(handle) => if seen.contains(handle.id.0) {
                    (seen, order, Ok(()))
                } else {
                    match self.record(handle) {
                        Err(_) => (seen.insert(handle.id.0), order.push(handle.id), Ok(())),
                        Ok(record) => self.reach_from(
                            record.fields,
                            0,
                            seen.insert(handle.id.0),
                            order.push(handle.id),
                            depth + 1,
                        ),
                    }
                },
                ValueView::Record { fields, .. } => self.reach_from(
                    fields,
                    0,
                    seen,
                    order,
                    depth + 1,
                ),
                ValueView::Variant { payload, .. } => self.reach_from(
                    payload,
                    0,
                    seen,
                    order,
                    depth + 1,
                ),
                _ => (seen, order, Ok(())),
            }
        }
    }

    /// [`Self::reach`] from each value at position `i` or later.
    pub open spec fn reach_from(
        self,
        values: Seq<ValueView>,
        i: nat,
        seen: Set<u32>,
        order: Seq<ResourceId>,
        depth: nat,
    ) -> (Set<u32>, Seq<ResourceId>, Result<(), ErrorView>)
        decreases MAX_GENERIC_DEPTH - depth, 1 + values.len() - i,
    {
        if i >= values.len() {
            (seen, order, Ok(()))
        } else {
            let (seen1, order1, r) = self.reach(values[i as int], seen, order, depth);
            match r {
                Err(e) => (seen1, order1, Err(e)),
                Ok(_) => self.reach_from(values, i + 1, seen1, order1, depth),
            }
        }
    }

    /// Every resource `value` owns, added to `owned`. A resource met
    /// twice is refused, and so is a handle that no longer works.
    pub open spec fn own(self, value: ValueView, owned: Set<u32>, depth: nat) -> (
        Set<u32>,
        Result<(), ErrorView>,
    )
        decreases MAX_GENERIC_DEPTH - depth, 0nat,
    {
        if depth >= MAX_GENERIC_DEPTH {
            (owned, Err(graph_too_deep()))
        } else {
            match value {
                ValueView::Resource(handle) => if owned.contains(handle.id.0) {
                    (
                        owned,
                        Err(
                            refusal(
                                "a runtime ownership graph reaches the same resource identity twice, either duplicated or through a cycle"@,
                            ),
                        ),
                    )
                } else {
                    match self.record(handle) {
                        Err(e) => (owned.insert(handle.id.0), Err(e)),
                        Ok(record) => self.own_from(
                            record.fields,
                            0,
                            owned.insert(handle.id.0),
                            depth + 1,
                        ),
                    }
                },
                ValueView::Record { fields, .. } => self.own_from(fields, 0, owned, depth + 1),
                ValueView::Variant { payload, .. } => self.own_from(payload, 0, owned, depth + 1),
                _ => (owned, Ok(())),
            }
        }
    }

    /// [`Self::own`] of each value at position `i` or later.
    pub open spec fn own_from(
        self,
        values: Seq<ValueView>,
        i: nat,
        owned: Set<u32>,
        depth: nat,
    ) -> (Set<u32>, Result<(), ErrorView>)
        decreases MAX_GENERIC_DEPTH - depth, 1 + values.len() - i,
    {
        if i >= values.len() {
            (owned, Ok(()))
        } else {
            let (owned1, r) = self.own(values[i as int], owned, depth);
            match r {
                Err(e) => (owned1, Err(e)),
                Ok(_) => self.own_from(values, i + 1, owned1, depth),
            }
        }
    }

    /// Every resource `value` owns, added to `owned`, as [`Self::own`]
    /// does. What is reached must also be there to be moved along: every
    /// handle the current owner's, and its resource alive.
    pub open spec fn own_alive(self, value: ValueView, owned: Set<u32>, depth: nat) -> (
        Set<u32>,
        Result<(), ErrorView>,
    )
        decreases MAX_GENERIC_DEPTH - depth, 0nat,
    {
        if depth >= MAX_GENERIC_DEPTH {
            (owned, Err(graph_too_deep()))
        } else {
            match value {
                ValueView::Resource(handle) => if owned.contains(handle.id.0) {
                    (
                        owned,
                        Err(
                            refusal(
                                "a runtime ownership graph reaches the same resource identity twice, either duplicated or through a cycle"@,
                            ),
                        ),
                    )
                } else {
                    let owned1 = owned.insert(handle.id.0);
                    if handle.role != RuntimeOwnershipRole::Owner {
                        (
                            owned1,
                            Err(
                                refusal(
                                    "cannot transfer ownership through a merely-observing resource handle"@,
                                ),
                            ),
                        )
                    } else {
                        match self.record(handle) {
                            Err(e) => (owned1, Err(e)),
                            Ok(record) => if record.status is Dropped {
                                (
                                    owned1,
                                    Err(
                                        refusal(
                                            "cannot transfer ownership of a resource that was already dropped"@,
                                        ),
                                    ),
                                )
                            } else {
                                self.own_alive_from(record.fields, 0, owned1, depth + 1)
                            },
                        }
                    }
                },
                ValueView::Record { fields, .. } => self.own_alive_from(
                    fields,
                    0,
                    owned,
                    depth + 1,
                ),
                ValueView::Variant { payload, .. } => self.own_alive_from(
                    payload,
                    0,
                    owned,
                    depth + 1,
                ),
                _ => (owned, Ok(())),
            }
        }
    }

    /// [`Self::own_alive`] of each value at position `i` or later.
    pub open spec fn own_alive_from(
        self,
        values: Seq<ValueView>,
        i: nat,
        owned: Set<u32>,
        depth: nat,
    ) -> (Set<u32>, Result<(), ErrorView>)
        decreases MAX_GENERIC_DEPTH - depth, 1 + values.len() - i,
    {
        if i >= values.len() {
            (owned, Ok(()))
        } else {
            let (owned1, r) = self.own_alive(values[i as int], owned, depth);
            match r {
                Err(e) => (owned1, Err(e)),
                Ok(_) => self.own_alive_from(values, i + 1, owned1, depth),
            }
        }
    }

    /// Whether an active lease holds the resource numbered `id`.
    pub open spec fn held(self, id: u32) -> bool {
        self.active_lease_holding(ResourceId(id)) is Some
    }

    /// Whether `id` is the lowest of `ids` that an active lease holds.
    pub open spec fn lowest_held(self, ids: Set<u32>, id: u32) -> bool {
        &&& ids.contains(id)
        &&& self.held(id)
        &&& forall|other: u32| ids.contains(other) && #[trigger] self.held(other) ==> id <= other
    }

    /// The refusal of an operation on resources of which an active lease
    /// holds one: it names the lowest lease of the lowest such resource.
    pub open spec fn lease_check(self, ids: Set<u32>, what: Seq<char>) -> Result<(), ErrorView> {
        if exists|id: u32| self.lowest_held(ids, id) {
            let id = choose|id: u32| self.lowest_held(ids, id);
            let lease = self.active_lease_holding(ResourceId(id))->0;
            Err(
                refusal(
                    "a resource cannot be "@ + what + " while observation "@ + decimal(
                        lease.0 as nat,
                    ) + " is still holding it"@,
                ),
            )
        } else {
            Ok(())
        }
    }

    /// [`Self::lease_check`] of everything `value` reaches.
    pub open spec fn lease_check_value(self, value: ValueView, what: Seq<char>) -> Result<
        (),
        ErrorView,
    > {
        let (seen, _, r) = self.reach(value, Set::empty(), Seq::empty(), 0);
        match r {
            Err(e) => Err(e),
            Ok(_) => self.lease_check(seen, what),
        }
    }

    /// Whether `value` still owns a live resource, apart from those in
    /// `exiting`; and the resources looked at.
    pub open spec fn owns_live(
        self,
        value: ValueView,
        seen: Set<u32>,
        depth: nat,
        exiting: Set<u32>,
    ) -> (Set<u32>, bool)
        decreases MAX_GENERIC_DEPTH - depth, 0nat,
    {
        if depth >= MAX_GENERIC_DEPTH {
            (seen, false)
        } else {
            match value {
                ValueView::Resource(handle) => if handle.role is Observer || exiting.contains(
                    handle.id.0,
                ) || seen.contains(handle.id.0) {
                    (seen, false)
                } else {
                    match self.record(handle) {
                        Err(_) => (seen.insert(handle.id.0), false),
                        Ok(record) => if record.status is Alive {
                            (seen.insert(handle.id.0), true)
                        } else {
                            self.owns_live_from(
                                record.fields,
                                0,
                                seen.insert(handle.id.0),
                                depth + 1,
                                exiting,
                            )
                        },
                    }
                },
                ValueView::Record { fields, .. } => self.owns_live_from(
                    fields,
                    0,
                    seen,
                    depth + 1,
                    exiting,
                ),
                ValueView::Variant { payload, .. } => self.owns_live_from(
                    payload,
                    0,
                    seen,
                    depth + 1,
                    exiting,
                ),
                _ => (seen, false),
            }
        }
    }

    /// [`Self::owns_live`] for some value at position `i` or later.
    pub open spec fn owns_live_from(
        self,
        values: Seq<ValueView>,
        i: nat,
        seen: Set<u32>,
        depth: nat,
        exiting: Set<u32>,
    ) -> (Set<u32>, bool)
        decreases MAX_GENERIC_DEPTH - depth, 1 + values.len() - i,
    {
        if i >= values.len() {
            (seen, false)
        } else {
            let (seen1, live) = self.owns_live(values[i as int], seen, depth, exiting);
            if live {
                (seen1, true)
            } else {
                self.owns_live_from(values, i + 1, seen1, depth, exiting)
            }
        }
    }

    /// Whether a frame that ends now would abandon a live resource
    /// through its value `id`.
    pub open spec fn leaks(
        self,
        frame: Map<u32, ValueView>,
        observing: Set<u32>,
        exiting: Set<u32>,
        id: u32,
    ) -> bool {
        &&& frame.contains_key(id)
        &&& !observing.contains(id)
        &&& self.owns_live(frame[id], Set::empty(), 0, exiting).1
    }

    /// Whether `id` is the lowest value through which a frame that ends
    /// now would abandon a live resource.
    pub open spec fn lowest_leak(
        self,
        frame: Map<u32, ValueView>,
        observing: Set<u32>,
        exiting: Set<u32>,
        id: u32,
    ) -> bool {
        &&& self.leaks(frame, observing, exiting, id)
        &&& forall|other: u32| #[trigger]
            self.leaks(frame, observing, exiting, other) ==> id <= other
    }

    /// The lowest value through which a frame that ends now would
    /// abandon a live resource, if there is one.
    pub open spec fn leaked(
        self,
        frame: Map<u32, ValueView>,
        observing: Set<u32>,
        exiting: Set<u32>,
    ) -> Option<ValueId> {
        if exists|id: u32| self.lowest_leak(frame, observing, exiting, id) {
            Some(ValueId(choose|id: u32| self.lowest_leak(frame, observing, exiting, id)))
        } else {
            None
        }
    }

    /// The table after the transitions from position `i` on: each moves
    /// one resource to a generation.
    pub open spec fn advanced(self, transitions: Seq<(ResourceId, u64)>, i: nat) -> TableView
        decreases transitions.len() - i,
    {
        if i >= transitions.len() {
            self
        } else {
            let (id, generation) = transitions[i as int];
            self.with_record(
                id,
                RecordView { generation, ..self.records[id.0 as int] },
            ).advanced(transitions, i + 1)
        }
    }
}

/// A complete, not yet applied plan for moving values to a new owner.
///
/// `reachable` is the whole ownership graph being moved, including what
/// resources hold in their own records. `transitions` names only the
/// resources whose handle crosses the boundary, with the generation each
/// moves to: what stays nested inside a moved resource keeps its owner,
/// and so its generation.
#[derive(Debug)]
pub struct StorePlan {
    pub reachable: IdSet,
    pub transitions: Vec<(ResourceId, u64)>,
}

/// The mathematical value of a [`StorePlan`].
pub struct PlanView {
    pub reachable: Set<u32>,
    pub transitions: Seq<(ResourceId, u64)>,
}

impl View for StorePlan {
    type V = PlanView;

    open spec fn view(&self) -> PlanView {
        PlanView { reachable: self.reachable@, transitions: self.transitions@ }
    }
}

impl PlanView {
    /// The plan that moves nothing.
    pub open spec fn empty() -> PlanView {
        PlanView { reachable: Set::empty(), transitions: Seq::empty() }
    }

    /// Whether every transition names a resource of `table`.
    pub open spec fn within(self, table: TableView) -> bool {
        forall|i: int|
            0 <= i < self.transitions.len() ==> (#[trigger] self.transitions[i]).0.0
                < table.records.len()
    }
}

/// Planning the move of `value`, on top of `plan`: the plan that
/// results, and the value as its new owner will hold it.
pub open spec fn plan_inner(
    module: Module,
    table: TableView,
    value: ValueView,
    plan: PlanView,
    depth: nat,
) -> (PlanView, Result<ValueView, ErrorView>)
    decreases MAX_GENERIC_DEPTH - depth, 0nat,
{
    if depth >= MAX_GENERIC_DEPTH {
        (plan, Err(value_too_deep()))
    } else {
        match value {
            ValueView::Resource(handle) => plan_resource(table, handle, plan),
            ValueView::Record { item, type_args, fields } => match module.record_field_types(
                item,
                type_args,
            ) {
                Err(e) => (plan, Err(e)),
                Ok(declared) => if declared.len() != fields.len() {
                    (
                        plan,
                        Err(
                            refusal(
                                "a structural store's own source record carries a field count its declaration does not declare"@,
                            ),
                        ),
                    )
                } else {
                    let (plan1, r) = plan_inner_from(
                        module,
                        table,
                        fields,
                        0,
                        Seq::empty(),
                        plan,
                        depth + 1,
                    );
                    match r {
                        Err(e) => (plan1, Err(e)),
                        Ok(rebuilt) => (
                            plan1,
                            Ok(ValueView::Record { item, type_args, fields: rebuilt }),
                        ),
                    }
                },
            },
            ValueView::Variant { item, type_args, case, payload } => match module.case_payload_types(
                item,
                type_args,
                case,
            ) {
                Err(e) => (plan, Err(e)),
                Ok(declared) => if declared.len() != payload.len() {
                    (
                        plan,
                        Err(
                            refusal(
                                "a structural store's own source variant carries a payload count its active case does not declare"@,
                            ),
                        ),
                    )
                } else {
                    let (plan1, r) = plan_inner_from(
                        module,
                        table,
                        payload,
                        0,
                        Seq::empty(),
                        plan,
                        depth + 1,
                    );
                    match r {
                        Err(e) => (plan1, Err(e)),
                        Ok(rebuilt) => (
                            plan1,
                            Ok(ValueView::Variant { item, type_args, case, payload: rebuilt }),
                        ),
                    }
                },
            },
            ValueView::Moved => (plan, Err(refusal("transfer of a value that was already moved"@))),
            ValueView::Dropped => (
                plan,
                Err(refusal("transfer of a value that was already destroyed"@)),
            ),
            other => (plan, Ok(other)),
        }
    }
}

/// [`plan_inner`] of each value at position `i` or later, after the
/// values `done` of the earlier ones.
pub open spec fn plan_inner_from(
    module: Module,
    table: TableView,
    values: Seq<ValueView>,
    i: nat,
    done: Seq<ValueView>,
    plan: PlanView,
    depth: nat,
) -> (PlanView, Result<Seq<ValueView>, ErrorView>)
    decreases MAX_GENERIC_DEPTH - depth, 1 + values.len() - i,
{
    if i >= values.len() {
        (plan, Ok(done))
    } else {
        let (plan1, r) = plan_inner(module, table, values[i as int], plan, depth);
        match r {
            Err(e) => (plan1, Err(e)),
            Ok(rebuilt) => plan_inner_from(
                module,
                table,
                values,
                i + 1,
                done.push(rebuilt),
                plan1,
                depth,
            ),
        }
    }
}

/// Planning the move of one resource: it and all it owns, however deeply,
/// must be owned, current and alive, and none of it may be part of the
/// plan yet.
pub open spec fn plan_resource(table: TableView, handle: ResourceHandle, plan: PlanView) -> (
    PlanView,
    Result<ValueView, ErrorView>,
) {
    if handle.role != RuntimeOwnershipRole::Owner {
        (
            plan,
            Err(
                refusal(
                    "cannot transfer ownership through a merely-observing resource handle"@,
                ),
            ),
        )
    } else {
        match table.record(handle) {
            Err(e) => (plan, Err(e)),
            Ok(record) => if record.status is Dropped {
                (
                    plan,
                    Err(
                        refusal("cannot transfer ownership of a resource that was already dropped"@),
                    ),
                )
            } else if plan.reachable.contains(handle.id.0) {
                (
                    plan,
                    Err(
                        refusal(
                            "a structural store's own source carries the same resource identity more than once"@,
                        ),
                    ),
                )
            } else {
                let generation = next_generation(record.generation);
                let (reachable, r) = table.own_alive_from(
                    record.fields,
                    0,
                    plan.reachable.insert(handle.id.0),
                    1,
                );
                let plan1 = PlanView {
                    reachable,
                    transitions: plan.transitions.push((handle.id, generation)),
                };
                match r {
                    Err(e) => (plan1, Err(e)),
                    Ok(_) => (
                        plan1,
                        Ok(ValueView::Resource(owning_handle(handle.id, generation))),
                    ),
                }
            },
        }
    }
}

/// [`plan_inner`], and at the top of an operation also the refusal of
/// anything an active observation holds.
pub open spec fn plan_transferring(
    module: Module,
    table: TableView,
    value: ValueView,
    plan: PlanView,
    depth: nat,
) -> (PlanView, Result<ValueView, ErrorView>) {
    let (plan1, r) = plan_inner(module, table, value, plan, depth);
    match r {
        Err(e) => (plan1, Err(e)),
        Ok(rebuilt) => if depth == 0 {
            match table.lease_check(plan1.reachable, "transferred"@) {
                Err(e) => (plan1, Err(e)),
                Ok(_) => (plan1, Ok(rebuilt)),
            }
        } else {
            (plan1, Ok(rebuilt))
        },
    }
}

/// Moving `value` to a new owner: the table afterwards, and the value as
/// that owner holds it. A refusal moves nothing.
pub open spec fn transferred(module: Module, table: TableView, value: ValueView) -> Result<
    (TableView, ValueView),
    ErrorView,
> {
    let (plan, r) = plan_transferring(module, table, value, PlanView::empty(), 0);
    match r {
        Err(e) => Err(e),
        Ok(rebuilt) => Ok((table.advanced(plan.transitions, 0), rebuilt)),
    }
}

impl StorePlan {
    /// The plan that moves nothing.
    pub fn new() -> (r: StorePlan)
        ensures
            r@ == PlanView::empty(),
    {
        StorePlan { reachable: IdSet::new(), transitions: Vec::new() }
    }
}

impl<'a> Interpreter<'a> {
    /// [`Self::collect_reachable_resources`] through each of `values`.
    fn collect_reachable_from(
        &self,
        values: &Vec<Value>,
        seen: &mut IdSet,
        ordered: &mut Vec<ResourceId>,
        depth: usize,
    ) -> (r: Result<(), InterpreterError>)
        ensures
            (final(seen)@, final(ordered)@, checked(r)) == self@.table.reach_from(
                value_views(values@),
                0,
                old(seen)@,
                old(ordered)@,
                depth as nat,
            ),
        decreases MAX_GENERIC_DEPTH - depth, 1nat,
    {
        let mut i: usize = 0;
        while i < values.len()
            invariant
                i <= values@.len(),
                self@.table.reach_from(
                    value_views(values@),
                    0,
                    old(seen)@,
                    old(ordered)@,
                    depth as nat,
                ) == self@.table.reach_from(
                    value_views(values@),
                    i as nat,
                    seen@,
                    ordered@,
                    depth as nat,
                ),
            decreases values@.len() - i,
        {
            match self.collect_reachable_resources(&values[i], seen, ordered, depth) {
                Err(e) => {
                    return Err(e);
                },
                Ok(_) => {},
            }
            i = i + 1;
        }
        Ok(())
    }

    /// Every resource reachable through `value`, in discovery order: the
    /// value's own handles outermost first, then each resource's stored
    /// fields in declaration order.
    pub fn collect_reachable_resources(
        &self,
        value: &Value,
        seen: &mut IdSet,
        ordered: &mut Vec<ResourceId>,
        depth: usize,
    ) -> (r: Result<(), InterpreterError>)
        ensures
            (final(seen)@, final(ordered)@, checked(r)) == self@.table.reach(
                value@,
                old(seen)@,
                old(ordered)@,
                depth as nat,
            ),
        decreases MAX_GENERIC_DEPTH - depth, 0nat,
    {
        if depth >= MAX_GENERIC_DEPTH {
            return Err(
                invalid(
                    "a runtime ownership graph is nested more deeply than this milestone supports",
                ),
            );
        }
        match value {
            Value::Resource(handle) => {
                if !seen.insert(handle.id.0) {
                    assert(seen@ =~= old(seen)@);
                    return Ok(());
                }
                ordered.push(handle.id);
                match self.resources.record(*handle) {
                    Err(_) => Ok(()),
                    Ok(record) => self.collect_reachable_from(
                        &record.fields,
                        seen,
                        ordered,
                        depth + 1,
                    ),
                }
            },
            Value::Record { fields, .. } => self.collect_reachable_from(
                fields,
                seen,
                ordered,
                depth + 1,
            ),
            Value::Variant { payload, .. } => self.collect_reachable_from(
                payload,
                seen,
                ordered,
                depth + 1,
            ),
            _ => Ok(()),
        }
    }

    /// Refuses an ownership operation over any resource that an active
    /// observation holds. Of several, the lowest resource and its lowest
    /// lease are reported.
    pub fn reject_leased_identities(&self, identities: &IdSet, what: &str) -> (r: Result<
        (),
        InterpreterError,
    >)
        ensures
            checked(r) == self@.table.lease_check(identities@, what@),
    {
        let ordered = identities.members();
        let mut i: usize = 0;
        while i < ordered.len()
            invariant
                i <= ordered@.len(),
                ascending(ordered@),
                forall|id: u32| identities@.contains(id) <==> ordered@.contains(id),
                forall|j: int| 0 <= j < i ==> !self@.table.held(#[trigger] ordered@[j]),
            decreases ordered@.len() - i,
        {
            let id: u32 = ordered[i];
            match self.resources.active_lease_holding(ResourceId(id)) {
                Some(lease) => {
                    assert(ordered@.contains(id));
                    assert forall|other: u32|
                        identities@.contains(other) && #[trigger] self@.table.held(
                            other,
                        ) implies id <= other by {
                        let k = choose|k: int| 0 <= k < ordered@.len() && ordered@[k] == other;
                        assert(k >= i);
                    }
                    assert(self@.table.lowest_held(identities@, id));
                    let chosen = Ghost(choose|id: u32| self@.table.lowest_held(identities@, id));
                    assert(chosen@ == id);
                    let mut message = framed("a resource cannot be ", what, " while observation ");
                    let rest = numbered("", lease.0 as u64, " is still holding it");
                    message.append(rest.as_str());
                    proof {
                        reveal_strlit("");
                        assert(message@ =~= "a resource cannot be "@ + what@
                            + " while observation "@ + decimal(lease.0 as nat)
                            + " is still holding it"@);
                    }
                    return Err(invalid_message(message));
                },
                None => {},
            }
            i = i + 1;
        }
        assert forall|id: u32| !self@.table.lowest_held(identities@, id) by {
            if identities@.contains(id) {
                let k = choose|k: int| 0 <= k < ordered@.len() && ordered@[k] == id;
                assert(!self@.table.held(ordered@[k]));
            }
        }
        Ok(())
    }

    /// [`Self::reject_leased_identities`] for everything `value`
    /// reaches.
    pub fn reject_leased_value(&self, value: &Value, what: &str) -> (r: Result<
        (),
        InterpreterError,
    >)
        ensures
            checked(r) == self@.table.lease_check_value(value@, what@),
    {
        let mut seen = IdSet::new();
        let mut ordered: Vec<ResourceId> = Vec::new();
        match self.collect_reachable_resources(value, &mut seen, &mut ordered, 0) {
            Err(e) => Err(e),
            Ok(_) => self.reject_leased_identities(&seen, what),
        }
    }

    /// [`Self::collect_owned_identities`] of each of `values`.
    fn collect_owned_from(&self, values: &Vec<Value>, out: &mut IdSet, depth: usize) -> (r: Result<
        (),
        InterpreterError,
    >)
        ensures
            (final(out)@, checked(r)) == self@.table.own_from(
                value_views(values@),
                0,
                old(out)@,
                depth as nat,
            ),
        decreases MAX_GENERIC_DEPTH - depth, 1nat,
    {
        let mut i: usize = 0;
        while i < values.len()
            invariant
                i <= values@.len(),
                self@.table.own_from(value_views(values@), 0, old(out)@, depth as nat)
                    == self@.table.own_from(
                    value_views(values@),
                    i as nat,
                    out@,
                    depth as nat,
                ),
            decreases values@.len() - i,
        {
            match self.collect_owned_identities(&values[i], out, depth) {
                Err(e) => {
                    return Err(e);
                },
                Ok(_) => {},
            }
            i = i + 1;
        }
        Ok(())
    }

    /// Every resource `value` owns, however deeply, including what is
    /// held in a resource's own record. One met twice is refused: it is
    /// either duplicated or part of a cycle.
    pub fn collect_owned_identities(&self, value: &Value, out: &mut IdSet, depth: usize) -> (r:
        Result<(), InterpreterError>)
        ensures
            (final(out)@, checked(r)) == self@.table.own(value@, old(out)@, depth as nat),
        decreases MAX_GENERIC_DEPTH - depth, 0nat,
    {
        if depth >= MAX_GENERIC_DEPTH {
            return Err(
                invalid(
                    "a runtime ownership graph is nested more deeply than this milestone supports",
                ),
            );
        }
        match value {
            Value::Resource(handle) => {
                if !out.insert(handle.id.0) {
                    assert(out@ =~= old(out)@);
                    return Err(
                        invalid(
                            "a runtime ownership graph reaches the same resource identity twice, either duplicated or through a cycle",
                        ),
                    );
                }
                match self.resources.record(*handle) {
                    Err(e) => Err(e),
                    Ok(record) => self.collect_owned_from(&record.fields, out, depth + 1),
                }
            },
            Value::Record { fields, .. } => self.collect_owned_from(fields, out, depth + 1),
            Value::Variant { payload, .. } => self.collect_owned_from(payload, out, depth + 1),
            _ => Ok(()),
        }
    }

    /// [`Self::collect_movable`] of each of `values`.
    fn collect_movable_from(&self, values: &Vec<Value>, out: &mut IdSet, depth: usize) -> (r: Result<
        (),
        InterpreterError,
    >)
        ensures
            (final(out)@, checked(r)) == self@.table.own_alive_from(
                value_views(values@),
                0,
                old(out)@,
                depth as nat,
            ),
        decreases MAX_GENERIC_DEPTH - depth, 1nat,
    {
        let mut i: usize = 0;
        while i < values.len()
            invariant
                i <= values@.len(),
                self@.table.own_alive_from(value_views(values@), 0, old(out)@, depth as nat)
                    == self@.table.own_alive_from(
                    value_views(values@),
                    i as nat,
                    out@,
                    depth as nat,
                ),
            decreases values@.len() - i,
        {
            match self.collect_movable(&values[i], out, depth) {
                Err(e) => {
                    return Err(e);
                },
                Ok(_) => {},
            }
            i = i + 1;
        }
        Ok(())
    }

    /// [`Self::collect_owned_identities`] of what moves along with a
    /// resource: a handle that merely observes is refused as well, and
    /// so is a resource that was already dropped.
    fn collect_movable(&self, value: &Value, out: &mut IdSet, depth: usize) -> (r:
        Result<(), InterpreterError>)
        ensures
            (final(out)@, checked(r)) == self@.table.own_alive(value@, old(out)@, depth as nat),
        decreases MAX_GENERIC_DEPTH - depth, 0nat,
    {
        if depth >= MAX_GENERIC_DEPTH {
            return Err(
                invalid(
                    "a runtime ownership graph is nested more deeply than this milestone supports",
                ),
            );
        }
        match value {
            Value::Resource(handle) => {
                if !out.insert(handle.id.0) {
                    assert(out@ =~= old(out)@);
                    return Err(
                        invalid(
                            "a runtime ownership graph reaches the same resource identity twice, either duplicated or through a cycle",
                        ),
                    );
                }
                if handle.role != RuntimeOwnershipRole::Owner {
                    return Err(
                        invalid(
                            "cannot transfer ownership through a merely-observing resource handle",
                        ),
                    );
                }
                match self.resources.record(*handle) {
                    Err(e) => Err(e),
                    Ok(record) => {
                        if record.status == ResourceStatus::Dropped {
                            return Err(
                                invalid(
                                    "cannot transfer ownership of a resource that was already dropped",
                                ),
                            );
                        }
                        self.collect_movable_from(&record.fields, out, depth + 1)
                    },
                }
            },
            Value::Record { fields, .. } => self.collect_movable_from(fields, out, depth + 1),
            Value::Variant { payload, .. } => self.collect_movable_from(payload, out, depth + 1),
            _ => Ok(()),
        }
    }

    /// [`Self::plan_transfer_inner`] of each of `values`.
    fn plan_transfer_from(
        &self,
        values: &Vec<Value>,
        plan: &mut StorePlan,
        depth: usize,
    ) -> (r: Result<Vec<Value>, InterpreterError>)
        ensures
            ({
                let (plan1, planned) = plan_inner_from(
                    *self.module,
                    self@.table,
                    value_views(values@),
                    0,
                    Seq::empty(),
                    old(plan)@,
                    depth as nat,
                );
                &&& final(plan)@ == plan1
                &&& match r {
                    Ok(rebuilt) => planned == Ok::<Seq<ValueView>, ErrorView>(
                        value_views(rebuilt@),
                    ),
                    Err(e) => planned == Err::<Seq<ValueView>, ErrorView>(e@),
                }
            }),
            old(plan)@.within(self@.table) ==> final(plan)@.within(self@.table),
        decreases MAX_GENERIC_DEPTH - depth, 1nat,
    {
        let mut rebuilt: Vec<Value> = Vec::new();
        let mut i: usize = 0;
        assert(value_views(rebuilt@) =~= Seq::empty());
        while i < values.len()
            invariant
                i <= values@.len(),
                plan_inner_from(
                    *self.module,
                    self@.table,
                    value_views(values@),
                    0,
                    Seq::empty(),
                    old(plan)@,
                    depth as nat,
                ) == plan_inner_from(
                    *self.module,
                    self@.table,
                    value_views(values@),
                    i as nat,
                    value_views(rebuilt@),
                    plan@,
                    depth as nat,
                ),
                old(plan)@.within(self@.table) ==> plan@.within(self@.table),
            decreases values@.len() - i,
        {
            match self.plan_transfer_inner(&values[i], plan, depth) {
                Err(e) => {
                    return Err(e);
                },
                Ok(value) => {
                    rebuilt.push(value);
                },
            }
            i = i + 1;
        }
        Ok(rebuilt)
    }

    /// Plans the move of `value` without moving anything, and returns
    /// the value rebuilt around the handles it will own afterwards.
    pub fn plan_transfer_inner(&self, value: &Value, plan: &mut StorePlan, depth: usize) -> (r:
        Result<Value, InterpreterError>)
        ensures
            (final(plan)@, evaluated(r)) == plan_inner(
                *self.module,
                self@.table,
                value@,
                old(plan)@,
                depth as nat,
            ),
            old(plan)@.within(self@.table) ==> final(plan)@.within(self@.table),
        decreases MAX_GENERIC_DEPTH - depth, 0nat,
    {
        if depth >= MAX_GENERIC_DEPTH {
            return Err(
                invalid("a runtime value is nested more deeply than this milestone supports"),
            );
        }
        match value {
            Value::Resource(handle) => {
                if handle.role != RuntimeOwnershipRole::Owner {
                    return Err(
                        invalid(
                            "cannot transfer ownership through a merely-observing resource handle",
                        ),
                    );
                }
                match self.resources.record(*handle) {
                    Err(e) => Err(e),
                    Ok(record) => {
                        if record.status == ResourceStatus::Dropped {
                            return Err(
                                invalid(
                                    "cannot transfer ownership of a resource that was already dropped",
                                ),
                            );
                        }
                        if !plan.reachable.insert(handle.id.0) {
                            assert(plan.reachable@ =~= old(plan).reachable@);
                            return Err(
                                invalid(
                                    "a structural store's own source carries the same resource identity more than once",
                                ),
                            );
                        }
                        let generation: u64 = raised(record.generation);
                        plan.transitions.push((handle.id, generation));
                        match self.collect_movable_from(&record.fields, &mut plan.reachable, 1) {
                            Err(e) => Err(e),
                            Ok(_) => Ok(
                                Value::Resource(
                                    ResourceHandle {
                                        id: handle.id,
                                        generation,
                                        role: RuntimeOwnershipRole::Owner,
                                        lease: None,
                                    },
                                ),
                            ),
                        }
                    },
                }
            },
            Value::Record { item, type_args, fields } => {
                let declared = match self.record_field_types(*item, type_args) {
                    Err(e) => {
                        return Err(e);
                    },
                    Ok(declared) => declared,
                };
                assert(ty_views(declared@).len() == declared@.len());
                assert(value_views(fields@).len() == fields@.len());
                if declared.len() != fields.len() {
                    return Err(
                        invalid(
                            "a structural store's own source record carries a field count its declaration does not declare",
                        ),
                    );
                }
                match self.plan_transfer_from(fields, plan, depth + 1) {
                    Err(e) => Err(e),
                    Ok(rebuilt) => Ok(
                        Value::Record {
                            item: *item,
                            type_args: copy_types(type_args),
                            fields: rebuilt,
                        },
                    ),
                }
            },
            Value::Variant { item, type_args, case, payload } => {
                let declared = match self.case_payload_types(*item, type_args, *case) {
                    Err(e) => {
                        return Err(e);
                    },
                    Ok(declared) => declared,
                };
                assert(ty_views(declared@).len() == declared@.len());
                assert(value_views(payload@).len() == payload@.len());
                if declared.len() != payload.len() {
                    return Err(
                        invalid(
                            "a structural store's own source variant carries a payload count its active case does not declare",
                        ),
                    );
                }
                match self.plan_transfer_from(payload, plan, depth + 1) {
                    Err(e) => Err(e),
                    Ok(rebuilt) => Ok(
                        Value::Variant {
                            item: *item,
                            type_args: copy_types(type_args),
                            case: *case,
                            payload: rebuilt,
                        },
                    ),
                }
            },
            Value::Moved => Err(invalid("transfer of a value that was already moved")),
            Value::Dropped => Err(invalid("transfer of a value that was already destroyed")),
            other => Ok(copy_value(other)),
        }
    }

    /// Plans the move of `value`, validating its whole graph without
    /// moving any of it.
    ///
    /// `plan` may already carry other values of the same operation, so
    /// that a resource occurring in two of them is noticed. At depth 0
    /// the resources of the whole plan are also checked against the
    /// active observations.
    pub fn plan_transfer(&self, value: &Value, plan: &mut StorePlan, depth: usize) -> (r: Result<
        Value,
        InterpreterError,
    >)
        ensures
            (final(plan)@, evaluated(r)) == plan_transferring(
                *self.module,
                self@.table,
                value@,
                old(plan)@,
                depth as nat,
            ),
            old(plan)@.within(self@.table) ==> final(plan)@.within(self@.table),
    {
        let rebuilt = match self.plan_transfer_inner(value, plan, depth) {
            Err(e) => {
                return Err(e);
            },
            Ok(rebuilt) => rebuilt,
        };
        if depth == 0 {
            match self.reject_leased_identities(&plan.reachable, "transferred") {
                Err(e) => {
                    return Err(e);
                },
                Ok(_) => {},
            }
        }
        Ok(rebuilt)
    }

    /// Applies a plan: the one point at which a planned transfer becomes
    /// real. Nothing about it can fail.
    pub fn commit_transfer(&mut self, plan: &StorePlan)
        requires
            plan@.within(old(self)@.table),
        ensures
            final(self)@.table == old(self)@.table.advanced(plan@.transitions, 0),
            final(self)@.events == old(self)@.events,
            final(self).module == old(self).module,
            final(self).call_depth == old(self).call_depth,
    {
        let mut i: usize = 0;
        while i < plan.transitions.len()
            invariant
                i <= plan.transitions@.len(),
                plan@.within(self@.table),
                old(self)@.table.advanced(plan@.transitions, 0) == self@.table.advanced(
                    plan@.transitions,
                    i as nat,
                ),
                self.events == old(self).events,
                self.module == old(self).module,
                self.call_depth == old(self).call_depth,
            decreases plan.transitions@.len() - i,
        {
            let ghost before = self@.table;
            let id = plan.transitions[i].0;
            let generation: u64 = plan.transitions[i].1;
            let index: usize = id.0 as usize;
            assert(plan@.transitions[i as int].0.0 < self@.table.records.len());
            self.resources.records[index].generation = generation;
            assert(self@.table.records =~= before.with_record(
                id,
                RecordView { generation, ..before.records[index as int] },
            ).records);
            assert(self@.table.leases =~= before.leases);
            i = i + 1;
        }
    }

    /// Moves `value` to a new owner, as one transaction over its whole
    /// graph.
    pub fn transfer_if_resource(&mut self, value: &Value) -> (r: Result<Value, InterpreterError>)
        ensures
            match r {
                Ok(moved) => transferred(*old(self).module, old(self)@.table, value@) == Ok::<
                    (TableView, ValueView),
                    ErrorView,
                >((final(self)@.table, moved@)),
                Err(e) => transferred(*old(self).module, old(self)@.table, value@) == Err::<
                    (TableView, ValueView),
                    ErrorView,
                >(e@) && final(self)@.table == old(self)@.table,
            },
            final(self)@.events == old(self)@.events,
            final(self).module == old(self).module,
            final(self).call_depth == old(self).call_depth,
    {
        let mut plan = StorePlan::new();
        match self.plan_transfer(value, &mut plan, 0) {
            Err(e) => Err(e),
            Ok(rebuilt) => {
                self.commit_transfer(&plan);
                Ok(rebuilt)
            },
        }
    }

    /// [`Self::owns_a_live_resource`] for some of `values`.
    fn owns_a_live_resource_from(
        &self,
        values: &Vec<Value>,
        seen: &mut IdSet,
        depth: usize,
        exiting: &IdSet,
    ) -> (r: bool)
        ensures
            (final(seen)@, r) == self@.table.owns_live_from(
                value_views(values@),
                0,
                old(seen)@,
                depth as nat,
                exiting@,
            ),
        decreases MAX_GENERIC_DEPTH - depth, 1nat,
    {
        let mut i: usize = 0;
        while i < values.len()
            invariant
                i <= values@.len(),
                self@.table.owns_live_from(
                    value_views(values@),
                    0,
                    old(seen)@,
                    depth as nat,
                    exiting@,
                ) == self@.table.owns_live_from(
                    value_views(values@),
                    i as nat,
                    seen@,
                    depth as nat,
                    exiting@,
                ),
            decreases values@.len() - i,
        {
            if self.owns_a_live_resource(&values[i], seen, depth, exiting) {
                return true;
            }
            i = i + 1;
        }
        false
    }

    /// Whether `value` still owns a live resource, however deeply. An
    /// observer owns nothing, and what is in `exiting` is leaving with
    /// another value.
    pub fn owns_a_live_resource(
        &self,
        value: &Value,
        seen: &mut IdSet,
        depth: usize,
        exiting: &IdSet,
    ) -> (r: bool)
        ensures
            (final(seen)@, r) == self@.table.owns_live(
                value@,
                old(seen)@,
                depth as nat,
                exiting@,
            ),
        decreases MAX_GENERIC_DEPTH - depth, 0nat,
    {
        if depth >= MAX_GENERIC_DEPTH {
            return false;
        }
        match value {
            Value::Resource(handle) => {
                if handle.role != RuntimeOwnershipRole::Owner {
                    return false;
                }
                if exiting.contains(handle.id.0) {
                    return false;
                }
                if !seen.insert(handle.id.0) {
                    assert(seen@ =~= old(seen)@);
                    return false;
                }
                match self.resources.record(*handle) {
                    Err(_) => false,
                    Ok(record) => {
                        if record.status == ResourceStatus::Alive {
                            return true;
                        }
                        self.owns_a_live_resource_from(&record.fields, seen, depth + 1, exiting)
                    },
                }
            },
            Value::Record { fields, .. } => self.owns_a_live_resource_from(
                fields,
                seen,
                depth + 1,
                exiting,
            ),
            Value::Variant { payload, .. } => self.owns_a_live_resource_from(
                payload,
                seen,
                depth + 1,
                exiting,
            ),
            _ => false,
        }
    }

    /// The lowest value of an ending frame that still owns a live
    /// resource: one the frame constructed or took, and neither
    /// destroyed nor gave away. `observing_params` are the values the
    /// frame only ever observed, and `exiting` the resources that leave
    /// with its result.
    pub fn leaked_resource(
        &self,
        values: &Frame,
        observing_params: &IdSet,
        exiting: &IdSet,
    ) -> (r: Option<ValueId>)
        ensures
            r == self@.table.leaked(values@, observing_params@, exiting@),
    {
        let ids = values.values.keys();
        let ghost table = self@.table;
        let mut i: usize = 0;
        while i < ids.len()
            invariant
                i <= ids@.len(),
                ascending(ids@),
                table == self@.table,
                forall|id: u32| values.values@.contains_key(id) <==> ids@.contains(id),
                forall|j: int|
                    0 <= j < i ==> !table.leaks(
                        values@,
                        observing_params@,
                        exiting@,
                        #[trigger] ids@[j],
                    ),
            decreases ids@.len() - i,
        {
            let id: u32 = ids[i];
            assert(ids@.contains(id));
            if !observing_params.contains(id) {
                match values.values.get(id) {
                    Some(value) => {
                        let mut seen = IdSet::new();
                        if self.owns_a_live_resource(value, &mut seen, 0, exiting) {
                            assert forall|other: u32| #[trigger]
                                table.leaks(
                                    values@,
                                    observing_params@,
                                    exiting@,
                                    other,
                                ) implies id <= other by {
                                assert(values.values@.contains_key(other));
                                assert(ids@.contains(other));
                                let k = choose|k: int|
                                    0 <= k < ids@.len() && ids@[k] == other;
                                assert(k >= i);
                            }
                            assert(table.lowest_leak(values@, observing_params@, exiting@, id));
                            let chosen = Ghost(
                                choose|id: u32|
                                    table.lowest_leak(values@, observing_params@, exiting@, id),
                            );
                            assert(chosen@ == id);
                            return Some(ValueId(id));
                        }
                    },
                    None => {},
                }
            }
            i = i + 1;
        }
        assert forall|id: u32| !table.lowest_leak(values@, observing_params@, exiting@, id) by {
            if values.values@.contains_key(id) {
                assert(ids@.contains(id));
                let k = choose|k: int| 0 <= k < ids@.len() && ids@[k] == id;
                assert(!table.leaks(values@, observing_params@, exiting@, ids@[k]));
            }
        }
        None
    }
}

} // verus!
