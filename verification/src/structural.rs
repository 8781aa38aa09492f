use crate::idmap::{IdMap, IdSet};
use crate::ids::{ItemId, ObservationId, ResourceId, RuntimeObservationId, ValueId};
use crate::interpreter::Interpreter;
use crate::ownership::{plan_transferring, PlanView, StorePlan};
use crate::place::{
    no_fields_to_store, observed_at, passed_through, projection_index, record_field_out_of_range,
    refuse_store, step_index, store_target, storing, taking,
};
use crate::program::{Module, OwnershipMode, Place, Projection};
use crate::table::TableView;
use crate::type_ops::{copy_type, copy_types};
use crate::types::{ty_views, Ty, TyView};
use crate::validate::{owned_graph, validated};
use crate::value::{
    checked, evaluated, invalid, refusal, value_eq, value_views, ErrorView, InterpreterError, Value,
    ValueView,
};
use crate::value_ops::{copy_values, get, is_tombstone, read_value, same_value, tombstone, Frame};
use vstd::prelude::*;

verus! {

broadcast use {crate::types::group_type_views, crate::value::group_value_views};

/// The storage `id` stands for after following at most `steps` loads.
pub open spec fn origin_within(origins: Map<u32, ValueId>, id: ValueId, steps: nat) -> ValueId
    decreases steps,
{
    if steps > 0 && origins.contains_key(id.0) && origins[id.0] != id {
        origin_within(origins, origins[id.0], (steps - 1) as nat)
    } else {
        id
    }
}

/// The storage `id` stands for: a load's result shares its identity with
/// the slot it read, however many loads lie between. A cyclic chain is
/// followed once through every entry and one step more.
pub open spec fn origin(origins: Map<u32, ValueId>, id: ValueId) -> ValueId {
    origin_within(origins, id, origins.len() + 1)
}

/// The storage location `root` names.
///
/// A mutable binding is reloaded as a fresh value each time a place
/// projects into it; what is moved out of the load must be missing from
/// the slot it was read from.
pub fn canonical_root(load_origin: &IdMap<ValueId>, root: ValueId) -> (r: ValueId)
    ensures
        r == origin(load_origin@, root),
{
    let mut current = root;
    let mut left: usize = load_origin.len();
    loop
        invariant
            origin(load_origin@, root) == origin_within(load_origin@, current, left as nat + 1),
        decreases left,
    {
        match load_origin.get(current.0) {
            Some(next) => {
                if *next == current {
                    return current;
                }
                current = *next;
            },
            None => {
                return current;
            },
        }
        if left == 0 {
            assert(origin_within(load_origin@, current, 0) == current);
            return current;
        }
        left = left - 1;
    }
}

/// Reading or removing the value at a place: the table, the frame and
/// the value afterwards. Observing changes nothing, and a refusal
/// neither.
pub open spec fn place_access(
    table: TableView,
    frame: Map<u32, ValueView>,
    origins: Map<u32, ValueId>,
    place: Place,
    mode: OwnershipMode,
) -> Result<(TableView, Map<u32, ValueView>, ValueView), ErrorView> {
    let root_id = origin(origins, place.root);
    match read_value(frame, root_id) {
        Err(e) => Err(e),
        Ok(root) => match observed_at(table, root, place.projections@, 0) {
            Err(e) => Err(e),
            Ok(seen) => match mode {
                OwnershipMode::Observe => match table.observing_view(seen, None, 0) {
                    Err(e) => Err(e),
                    Ok(view) => Ok((table, frame, view)),
                },
                OwnershipMode::Transfer => match table.lease_check_value(
                    seen,
                    "moved out of its place"@,
                ) {
                    Err(e) => Err(e),
                    Ok(_) => match taking(table, root, place.projections@) {
                        Err(e) => Err(e),
                        Ok((table1, value, container)) => Ok(
                            (table1, frame.insert(root_id.0, container), value),
                        ),
                    },
                },
            },
        },
    }
}

/// Whether the two sides of a structural store own or pass through a
/// resource in common.
pub open spec fn share_identity(
    reachable: Set<u32>,
    owned: Set<u32>,
    passed: Seq<ResourceId>,
) -> bool {
    ||| exists|id: u32| owned.contains(id) && #[trigger] reachable.contains(id)
    ||| exists|i: int| 0 <= i < passed.len() && reachable.contains((#[trigger] passed[i]).0)
}

/// The type that field `index` of `item`, at one instantiation,
/// declares.
pub open spec fn field_type(module: Module, item: ItemId, args: Seq<TyView>, index: usize) -> Result<
    TyView,
    ErrorView,
> {
    match module.record_field_types(item, args) {
        Err(e) => Err(e),
        Ok(declared) => if index >= declared.len() {
            Err(record_field_out_of_range())
        } else {
            Ok(declared[index as int])
        },
    }
}

/// The type that the field at the end of the steps from position `i` on
/// declares.
pub open spec fn place_type(
    module: Module,
    table: TableView,
    container: ValueView,
    steps: Seq<Projection>,
    i: nat,
) -> Result<TyView, ErrorView>
    decreases steps.len() - i,
{
    if i >= steps.len() {
        Err(refusal("a structural store names no field to reinitialize"@))
    } else {
        match step_index(steps[i as int]) {
            Err(e) => Err(e),
            Ok(index) => match container {
                ValueView::Resource(handle) => match table.observe(handle) {
                    Err(e) => Err(e),
                    Ok(record) => if i + 1 >= steps.len() {
                        field_type(module, record.item, Seq::empty(), index)
                    } else {
                        match table.observe_field(handle, index) {
                            Err(e) => Err(e),
                            Ok(inner) => place_type(module, table, inner, steps, i + 1),
                        }
                    },
                },
                ValueView::Record { item, type_args, fields } => if i + 1 >= steps.len() {
                    field_type(module, item, type_args, index)
                } else if index >= fields.len() {
                    Err(record_field_out_of_range())
                } else {
                    place_type(module, table, fields[index as int], steps, i + 1)
                },
                other => Err(no_fields_to_store(other)),
            },
        }
    }
}

/// The refusal of a value that does not fit the type declared for the
/// field at the end of `steps`.
pub open spec fn place_check(
    module: Module,
    table: TableView,
    root: ValueView,
    steps: Seq<Projection>,
    incoming: ValueView,
) -> Result<(), ErrorView> {
    match place_type(module, table, root, steps, 0) {
        Err(e) => Err(e),
        Ok(declared) => validated(module, table, incoming, Some(declared), Set::empty(), 0).1,
    }
}

/// Moving the value of `source` into the empty field at `place`: the
/// table and the frame afterwards. The value must fit the type that the
/// field declares. A refusal moves nothing.
pub open spec fn place_store(
    module: Module,
    table: TableView,
    frame: Map<u32, ValueView>,
    origins: Map<u32, ValueId>,
    place: Place,
    source: ValueId,
) -> Result<(TableView, Map<u32, ValueView>), ErrorView> {
    let root_id = origin(origins, place.root);
    let source_id = origin(origins, source);
    let steps = place.projections@;
    if source_id == root_id {
        Err(refusal("a structural store's own source and destination name the same storage"@))
    } else {
        match read_value(frame, root_id) {
            Err(e) => Err(e),
            Ok(root) => match read_value(frame, source) {
                Err(e) => Err(e),
                Ok(incoming) => match owned_graph(module, table, incoming) {
                    Err(e) => Err(e),
                    Ok(_) => {
                        let (plan, planned) = plan_transferring(
                            module,
                            table,
                            incoming,
                            PlanView::empty(),
                            0,
                        );
                        match planned {
                            Err(e) => Err(e),
                            Ok(rebuilt) => match disjoint_target(
                                table,
                                root,
                                steps,
                                plan.reachable,
                            ) {
                                Err(e) => Err(e),
                                Ok(_) => match place_check(module, table, root, steps, incoming) {
                                    Err(e) => Err(e),
                                    Ok(_) => match storing(table, root, steps, rebuilt) {
                                        Err(e) => Err(e),
                                        Ok((table1, root1)) => Ok(
                                            (
                                                table1.advanced(plan.transitions, 0),
                                                frame.insert(root_id.0, root1).insert(
                                                    source.0,
                                                    ValueView::Moved,
                                                ).insert(source_id.0, ValueView::Moved),
                                            ),
                                        ),
                                    },
                                },
                            },
                        }
                    },
                },
            },
        }
    }
}

/// Whether a store may go to the end of `steps` while the resources in
/// `reachable` move: the field must be free, and the destination must
/// have no resource in common with what moves.
pub open spec fn disjoint_target(
    table: TableView,
    root: ValueView,
    steps: Seq<Projection>,
    reachable: Set<u32>,
) -> Result<(), ErrorView> {
    match store_target(table, root, steps, 0) {
        Err(e) => Err(e),
        Ok(_) => {
            let (passed, walked) = passed_through(table, root, steps, 0, Seq::empty());
            match walked {
                Err(e) => Err(e),
                Ok(_) => {
                    let (owned, collected) = table.own(root, Set::empty(), 0);
                    match collected {
                        Err(e) => Err(e),
                        Ok(_) => if share_identity(reachable, owned, passed) {
                            Err(
                                refusal(
                                    "a structural store's own source and destination share a resource identity"@,
                                ),
                            )
                        } else {
                            Ok(())
                        },
                    }
                },
            }
        },
    }
}

/// The refusal of a decomposition of which an active observation holds a
/// payload from position `i` on.
pub open spec fn payload_leases(table: TableView, payload: Seq<ValueView>, i: nat) -> Result<
    (),
    ErrorView,
>
    decreases payload.len() - i,
{
    if i >= payload.len() {
        Ok(())
    } else {
        match table.lease_check_value(payload[i as int], "decomposed out of its variant"@) {
            Err(e) => Err(e),
            Ok(_) => payload_leases(table, payload, i + 1),
        }
    }
}

/// Whether an earlier claim names the position that claim `i` names.
pub open spec fn claimed_before(taken: Seq<(usize, ValueId)>, i: int) -> bool {
    exists|j: int| 0 <= j < i && (#[trigger] taken[j]).0 == taken[i].0
}

/// The check of the claims from position `i` on: each receiver is a
/// value the frame holds and equals what the claimed position holds, and
/// each position exists, is live and is claimed once.
pub open spec fn claims_check(
    frame: Map<u32, ValueView>,
    payload: Seq<ValueView>,
    taken: Seq<(usize, ValueId)>,
    i: nat,
) -> Result<(), ErrorView>
    decreases taken.len() - i,
{
    if i >= taken.len() {
        Ok(())
    } else {
        let (index, owner) = taken[i as int];
        if !frame.contains_key(owner.0) {
            Err(
                refusal(
                    "a variant decomposition hands a payload to a value this frame never computed"@,
                ),
            )
        } else if claimed_before(taken, i as int) {
            Err(
                refusal(
                    "a variant decomposition claims the same payload position more than once"@,
                ),
            )
        } else if index >= payload.len() {
            Err(
                refusal(
                    "a variant decomposition claims a payload position out of range for its case"@,
                ),
            )
        } else if tombstone(payload[index as int]) {
            Err(
                refusal(
                    "a variant decomposition claims a position whose ownership already moved"@,
                ),
            )
        } else if !value_eq(frame[owner.0], payload[index as int]) {
            Err(
                refusal(
                    "a variant decomposition hands a payload position to a value that is not what that position holds"@,
                ),
            )
        } else {
            claims_check(frame, payload, taken, i + 1)
        }
    }
}

/// The payload with a tombstone at every claimed position before `n`.
pub open spec fn relinquished(payload: Seq<ValueView>, taken: Seq<(usize, ValueId)>, n: nat) -> Seq<
    ValueView,
>
    decreases n,
{
    if n == 0 {
        payload
    } else {
        relinquished(payload, taken, (n - 1) as nat).update(
            taken[n - 1].0 as int,
            ValueView::Moved,
        )
    }
}

/// Taking a variant apart: the frame afterwards, in which the claimed
/// positions of the variant are tombstones. A refusal changes nothing.
pub open spec fn decomposition(
    module: Module,
    table: TableView,
    frame: Map<u32, ValueView>,
    origins: Map<u32, ValueId>,
    value: ValueId,
    variant: ItemId,
    case: usize,
    taken: Seq<(usize, ValueId)>,
) -> Result<Map<u32, ValueView>, ErrorView> {
    let shell_id = origin(origins, value);
    match read_value(frame, shell_id) {
        Err(e) => Err(e),
        Ok(shell) => match shell {
            ValueView::Variant { item, type_args, case: active, payload } => if item != variant {
                Err(
                    refusal(
                        "a variant decomposition names a different variant than its own value holds"@,
                    ),
                )
            } else if active != case {
                Err(
                    refusal(
                        "a variant decomposition names a case other than the one actually live"@,
                    ),
                )
            } else {
                match payload_leases(table, payload, 0) {
                    Err(e) => Err(e),
                    Ok(_) => match owned_graph(module, table, shell) {
                        Err(e) => Err(e),
                        Ok(_) => match claims_check(frame, payload, taken, 0) {
                            Err(e) => Err(e),
                            Ok(_) => Ok(
                                frame.insert(
                                    shell_id.0,
                                    ValueView::Variant {
                                        item,
                                        type_args,
                                        case: active,
                                        payload: relinquished(payload, taken, taken.len()),
                                    },
                                ),
                            ),
                        },
                    },
                }
            },
            _ => Err(
                refusal("a variant decomposition names a value that is not a variant"@),
            ),
        },
    }
}

/// Whether an observation is on a frame's stack of active ones.
pub open spec fn observation_active(
    active: Seq<(ObservationId, RuntimeObservationId)>,
    observation: ObservationId,
) -> bool {
    exists|i: int| 0 <= i < active.len() && (#[trigger] active[i]).0 == observation
}

/// The lease a new observation is opened inside.
pub open spec fn innermost(active: Seq<(ObservationId, RuntimeObservationId)>) -> Option<
    RuntimeObservationId,
> {
    if active.len() > 0 {
        Some(active.last().1)
    } else {
        None
    }
}

/// Beginning an observation of a place: the table and the stack of
/// active observations afterwards, and the view of the place. Nothing
/// changes unless the place can be read and everything it reaches
/// collected.
pub open spec fn observation_begun(
    table: TableView,
    frame: Map<u32, ValueView>,
    origins: Map<u32, ValueId>,
    active: Seq<(ObservationId, RuntimeObservationId)>,
    observation: ObservationId,
    place: Place,
) -> (TableView, Seq<(ObservationId, RuntimeObservationId)>, Result<ValueView, ErrorView>) {
    if observation_active(active, observation) {
        (
            table,
            active,
            Err(refusal("an observation began again while it was still active"@)),
        )
    } else {
        match read_value(frame, origin(origins, place.root)) {
            Err(e) => (table, active, Err(e)),
            Ok(root) => match observed_at(table, root, place.projections@, 0) {
                Err(e) => (table, active, Err(e)),
                Ok(seen) => {
                    let (_, observed, r) = table.reach(seen, Set::empty(), Seq::empty(), 0);
                    match r {
                        Err(e) => (table, active, Err(e)),
                        Ok(_) => {
                            let lease = table.next_lease();
                            let table1 = table.with_lease(observed, innermost(active));
                            (
                                table1,
                                active.push((observation, lease)),
                                table1.observing_view(seen, Some(lease), 0),
                            )
                        },
                    }
                },
            },
        }
    }
}

/// Ending an observation, which must be the innermost active one: the
/// table and the stack afterwards. A refusal changes nothing.
pub open spec fn observation_ended(
    table: TableView,
    active: Seq<(ObservationId, RuntimeObservationId)>,
    observation: ObservationId,
) -> Result<(TableView, Seq<(ObservationId, RuntimeObservationId)>), ErrorView> {
    if active.len() == 0 {
        Err(refusal("an observation ended that this frame never began"@))
    } else if active.last().0 != observation {
        Err(
            refusal(
                "an observation ended while an observation opened inside it is still active"@,
            ),
        )
    } else {
        match table.end_lease(active.last().1) {
            Err(e) => Err(e),
            Ok(table1) => Ok((table1, active.drop_last())),
        }
    }
}

impl<'a> Interpreter<'a> {
    /// `value` rebuilt so that every handle it carries is an observer:
    /// how an ordinary parameter and an observing store bind a value.
    pub fn to_observer_if_resource(&self, value: &Value) -> (r: Result<Value, InterpreterError>)
        ensures
            evaluated(r) == self@.table.observing_view(value@, None, 0),
    {
        self.to_observing_view(value, 0)
    }

    /// `value` rebuilt so that every handle it carries is an observer
    /// bound to `lease`, and stops working when that lease ends.
    pub fn to_leased_view(&self, value: &Value, lease: RuntimeObservationId, depth: usize) -> (r:
        Result<Value, InterpreterError>)
        ensures
            evaluated(r) == self@.table.observing_view(value@, Some(lease), depth as nat),
    {
        self.resources.observing_view(value, Some(lease), depth)
    }

    /// `value` rebuilt so that every handle it carries, at any depth, is
    /// an observer. The value itself keeps its owning handles.
    pub fn to_observing_view(&self, value: &Value, depth: usize) -> (r: Result<
        Value,
        InterpreterError,
    >)
        ensures
            evaluated(r) == self@.table.observing_view(value@, None, depth as nat),
    {
        self.resources.observing_view(value, None, depth)
    }

    /// Begins an observation of `place`: reads it without disturbing it,
    /// opens a lease over every resource it reaches, and returns a view
    /// bound to that lease.
    pub fn begin_observe(
        &mut self,
        values: &Frame,
        load_origin: &IdMap<ValueId>,
        active_leases: &mut Vec<(ObservationId, RuntimeObservationId)>,
        observation: ObservationId,
        place: &Place,
    ) -> (r: Result<Value, InterpreterError>)
        ensures
            (final(self)@.table, final(active_leases)@, evaluated(r)) == observation_begun(
                old(self)@.table,
                values@,
                load_origin@,
                old(active_leases)@,
                observation,
                *place,
            ),
            final(self)@.events == old(self)@.events,
            final(self).module == old(self).module,
            final(self).call_depth == old(self).call_depth,
    {
        let mut i: usize = 0;
        while i < active_leases.len()
            invariant
                i <= active_leases@.len(),
                active_leases == old(active_leases),
                self == old(self),
                forall|j: int| 0 <= j < i ==> (#[trigger] active_leases@[j]).0 != observation,
            decreases active_leases@.len() - i,
        {
            if active_leases[i].0 == observation {
                assert(active_leases@[i as int].0 == observation);
                return Err(invalid("an observation began again while it was still active"));
            }
            i = i + 1;
        }
        assert(!observation_active(active_leases@, observation));
        let root_id = canonical_root(load_origin, place.root);
        let root = match get(values, &root_id) {
            Err(e) => {
                return Err(e);
            },
            Ok(root) => root,
        };
        let seen = match self.observe_projections(&root, place.projections.as_slice()) {
            Err(e) => {
                return Err(e);
            },
            Ok(seen) => seen,
        };
        let mut identities = IdSet::new();
        let mut observed: Vec<ResourceId> = Vec::new();
        match self.collect_reachable_resources(&seen, &mut identities, &mut observed, 0) {
            Err(e) => {
                return Err(e);
            },
            Ok(_) => {},
        }
        let parent = if active_leases.len() > 0 {
            Some(active_leases[active_leases.len() - 1].1)
        } else {
            None
        };
        let lease = self.resources.begin_lease(observed, parent);
        active_leases.push((observation, lease));
        self.to_leased_view(&seen, lease, 0)
    }

    /// Ends an observation, which must be the innermost one of its
    /// frame.
    pub fn end_observe(
        &mut self,
        active_leases: &mut Vec<(ObservationId, RuntimeObservationId)>,
        observation: ObservationId,
    ) -> (r: Result<(), InterpreterError>)
        ensures
            match r {
                Ok(_) => observation_ended(
                    old(self)@.table,
                    old(active_leases)@,
                    observation,
                ) == Ok::<
                    (TableView, Seq<(ObservationId, RuntimeObservationId)>),
                    ErrorView,
                >((final(self)@.table, final(active_leases)@)),
                Err(e) => {
                    &&& observation_ended(old(self)@.table, old(active_leases)@, observation)
                        == Err::<
                        (TableView, Seq<(ObservationId, RuntimeObservationId)>),
                        ErrorView,
                    >(e@)
                    &&& final(self)@.table == old(self)@.table
                    &&& final(active_leases)@ == old(active_leases)@
                },
            },
            final(self)@.events == old(self)@.events,
            final(self).module == old(self).module,
            final(self).call_depth == old(self).call_depth,
    {
        if active_leases.len() == 0 {
            return Err(invalid("an observation ended that this frame never began"));
        }
        let (id, lease) = active_leases[active_leases.len() - 1];
        if id != observation {
            return Err(
                invalid(
                    "an observation ended while an observation opened inside it is still active",
                ),
            );
        }
        match self.resources.end_lease(lease) {
            Err(e) => Err(e),
            Ok(_) => {
                active_leases.pop();
                Ok(())
            },
        }
    }

    /// Reads or removes the value at `place`. Observing hands back an
    /// observing view and changes nothing; transferring leaves a
    /// tombstone in the field it removed the value from.
    pub fn access_place(
        &mut self,
        values: &mut Frame,
        load_origin: &IdMap<ValueId>,
        place: &Place,
        mode: OwnershipMode,
    ) -> (r: Result<Value, InterpreterError>)
        ensures
            match r {
                Ok(value) => place_access(
                    old(self)@.table,
                    old(values)@,
                    load_origin@,
                    *place,
                    mode,
                ) == Ok::<(TableView, Map<u32, ValueView>, ValueView), ErrorView>(
                    (final(self)@.table, final(values)@, value@),
                ),
                Err(e) => {
                    &&& place_access(old(self)@.table, old(values)@, load_origin@, *place, mode)
                        == Err::<(TableView, Map<u32, ValueView>, ValueView), ErrorView>(e@)
                    &&& final(self)@.table == old(self)@.table
                    &&& final(values)@ == old(values)@
                },
            },
            final(self)@.events == old(self)@.events,
            final(self).module == old(self).module,
            final(self).call_depth == old(self).call_depth,
    {
        let root_id = canonical_root(load_origin, place.root);
        let root = match get(values, &root_id) {
            Err(e) => {
                return Err(e);
            },
            Ok(root) => root,
        };
        let seen = match self.observe_projections(&root, place.projections.as_slice()) {
            Err(e) => {
                return Err(e);
            },
            Ok(seen) => seen,
        };
        match mode {
            OwnershipMode::Observe => self.to_observer_if_resource(&seen),
            OwnershipMode::Transfer => {
                match self.reject_leased_value(&seen, "moved out of its place") {
                    Err(e) => {
                        return Err(e);
                    },
                    Ok(_) => {},
                }
                match self.take_projections(&root, place.projections.as_slice()) {
                    Err(e) => Err(e),
                    Ok(result) => {
                        values.insert(root_id, result.container);
                        Ok(result.extracted)
                    },
                }
            },
        }
    }

    /// The type that field `index` of `item`, at one instantiation,
    /// declares.
    fn declared_field_type(&self, item: ItemId, type_args: &Vec<Ty>, index: usize) -> (r: Result<
        Ty,
        InterpreterError,
    >)
        ensures
            match r {
                Ok(declared) => field_type(*self.module, item, ty_views(type_args@), index) == Ok::<
                    TyView,
                    ErrorView,
                >(declared@),
                Err(e) => field_type(*self.module, item, ty_views(type_args@), index) == Err::<
                    TyView,
                    ErrorView,
                >(e@),
            },
    {
        match self.record_field_types(item, type_args) {
            Err(e) => Err(e),
            Ok(declared) => {
                assert(ty_views(declared@).len() == declared@.len());
                if index >= declared.len() {
                    Err(invalid("a place projects a field index out of range for this record"))
                } else {
                    Ok(copy_type(&declared[index]))
                }
            },
        }
    }

    /// The type that the field at the end of `projections`, from
    /// position `i` on, declares.
    fn declared_place_type(&self, container: &Value, projections: &[Projection], i: usize) -> (r:
        Result<Ty, InterpreterError>)
        requires
            i <= projections@.len(),
        ensures
            match r {
                Ok(declared) => place_type(
                    *self.module,
                    self@.table,
                    container@,
                    projections@,
                    i as nat,
                ) == Ok::<TyView, ErrorView>(declared@),
                Err(e) => place_type(
                    *self.module,
                    self@.table,
                    container@,
                    projections@,
                    i as nat,
                ) == Err::<TyView, ErrorView>(e@),
            },
        decreases projections@.len() - i,
    {
        if i >= projections.len() {
            return Err(invalid("a structural store names no field to reinitialize"));
        }
        let index: usize = match projection_index(&projections[i]) {
            Err(e) => {
                return Err(e);
            },
            Ok(index) => index,
        };
        match container {
            Value::Resource(handle) => {
                let record = match self.resources.observe(*handle) {
                    Err(e) => {
                        return Err(e);
                    },
                    Ok(record) => record,
                };
                if i + 1 >= projections.len() {
                    let none: Vec<Ty> = Vec::new();
                    assert(ty_views(none@) =~= Seq::empty());
                    return self.declared_field_type(record.item, &none, index);
                }
                match self.resources.observe_field(*handle, index) {
                    Err(e) => Err(e),
                    Ok(inner) => self.declared_place_type(&inner, projections, i + 1),
                }
            },
            Value::Record { item, type_args, fields } => {
                assert(value_views(fields@).len() == fields@.len());
                if i + 1 >= projections.len() {
                    return self.declared_field_type(*item, type_args, index);
                }
                if index >= fields.len() {
                    return Err(
                        invalid("a place projects a field index out of range for this record"),
                    );
                }
                self.declared_place_type(&fields[index], projections, i + 1)
            },
            other => Err(refuse_store(other)),
        }
    }

    /// Refuses a value that does not fit the type declared for the field
    /// at the end of `projections`.
    fn reject_misplaced(&self, root: &Value, projections: &[Projection], incoming: &Value) -> (r:
        Result<(), InterpreterError>)
        ensures
            checked(r) == place_check(
                *self.module,
                self@.table,
                root@,
                projections@,
                incoming@,
            ),
    {
        match self.declared_place_type(root, projections, 0) {
            Err(e) => Err(e),
            Ok(declared) => {
                let mut seen = IdSet::new();
                self.validate_value_against_ty(incoming, Some(&declared), &mut seen, 0)
            },
        }
    }

    /// Reinitializes `place` with the value of `source`, as a transfer
    /// of ownership: everything is validated and planned, then the value
    /// is installed, every resource it carries moves to its new
    /// generation, and the source becomes a tombstone. A refusal changes
    /// nothing.
    pub fn store_place_transfer(
        &mut self,
        values: &mut Frame,
        load_origin: &IdMap<ValueId>,
        place: &Place,
        source: ValueId,
    ) -> (r: Result<(), InterpreterError>)
        ensures
            match r {
                Ok(_) => place_store(
                    *old(self).module,
                    old(self)@.table,
                    old(values)@,
                    load_origin@,
                    *place,
                    source,
                ) == Ok::<(TableView, Map<u32, ValueView>), ErrorView>(
                    (final(self)@.table, final(values)@),
                ),
                Err(e) => {
                    &&& place_store(
                        *old(self).module,
                        old(self)@.table,
                        old(values)@,
                        load_origin@,
                        *place,
                        source,
                    ) == Err::<(TableView, Map<u32, ValueView>), ErrorView>(e@)
                    &&& final(self)@.table == old(self)@.table
                    &&& final(values)@ == old(values)@
                },
            },
            final(self)@.events == old(self)@.events,
            final(self).module == old(self).module,
            final(self).call_depth == old(self).call_depth,
    {
        let root_id = canonical_root(load_origin, place.root);
        let source_id = canonical_root(load_origin, source);
        if source_id == root_id {
            return Err(
                invalid("a structural store's own source and destination name the same storage"),
            );
        }
        let root = match get(values, &root_id) {
            Err(e) => {
                return Err(e);
            },
            Ok(root) => root,
        };
        let incoming = match get(values, &source) {
            Err(e) => {
                return Err(e);
            },
            Ok(incoming) => incoming,
        };
        match self.validate_owned_graph(&incoming) {
            Err(e) => {
                return Err(e);
            },
            Ok(_) => {},
        }
        let mut plan = StorePlan::new();
        let rebuilt = match self.plan_transfer(&incoming, &mut plan, 0) {
            Err(e) => {
                return Err(e);
            },
            Ok(rebuilt) => rebuilt,
        };
        match self.validate_store_target(&root, place.projections.as_slice()) {
            Err(e) => {
                return Err(e);
            },
            Ok(_) => {},
        }
        let mut destination: Vec<ResourceId> = Vec::new();
        match self.destination_identities(&root, place.projections.as_slice(), &mut destination) {
            Err(e) => {
                return Err(e);
            },
            Ok(_) => {},
        }
        let mut destination_owned = IdSet::new();
        match self.collect_owned_identities(&root, &mut destination_owned, 0) {
            Err(e) => {
                return Err(e);
            },
            Ok(_) => {},
        }
        if shares_identity(&plan.reachable, &destination_owned, &destination) {
            return Err(
                invalid(
                    "a structural store's own source and destination share a resource identity",
                ),
            );
        }
        match self.reject_misplaced(&root, place.projections.as_slice(), &incoming) {
            Err(e) => {
                return Err(e);
            },
            Ok(_) => {},
        }
        let ghost before = self@.table;
        match self.store_projections(&root, place.projections.as_slice(), rebuilt) {
            Err(e) => Err(e),
            Ok(updated_root) => {
                assert(plan@.within(before));
                assert(plan@.within(self@.table));
                self.commit_transfer(&plan);
                values.insert(root_id, updated_root);
                values.insert(source, Value::Moved);
                values.insert(source_id, Value::Moved);
                Ok(())
            },
        }
    }

    /// Takes a variant apart into one case, moving each claimed payload
    /// position out of the shell. Every claim is validated before any is
    /// written, so a refusal leaves the shell as it was.
    pub fn decompose_variant(
        &self,
        values: &mut Frame,
        load_origin: &IdMap<ValueId>,
        value: ValueId,
        variant: ItemId,
        case: usize,
        taken: &Vec<(usize, ValueId)>,
    ) -> (r: Result<(), InterpreterError>)
        ensures
            match r {
                Ok(_) => decomposition(
                    *self.module,
                    self@.table,
                    old(values)@,
                    load_origin@,
                    value,
                    variant,
                    case,
                    taken@,
                ) == Ok::<Map<u32, ValueView>, ErrorView>(final(values)@),
                Err(e) => decomposition(
                    *self.module,
                    self@.table,
                    old(values)@,
                    load_origin@,
                    value,
                    variant,
                    case,
                    taken@,
                ) == Err::<Map<u32, ValueView>, ErrorView>(e@) && final(values)@ == old(values)@,
            },
    {
        let shell_id = canonical_root(load_origin, value);
        let shell = match get(values, &shell_id) {
            Err(e) => {
                return Err(e);
            },
            Ok(shell) => shell,
        };
        match &shell {
            Value::Variant { item, type_args, case: active_case, payload } => {
                if *item != variant {
                    return Err(
                        invalid(
                            "a variant decomposition names a different variant than its own value holds",
                        ),
                    );
                }
                if *active_case != case {
                    return Err(
                        invalid(
                            "a variant decomposition names a case other than the one actually live",
                        ),
                    );
                }
                match self.reject_leased_payload(payload) {
                    Err(e) => {
                        return Err(e);
                    },
                    Ok(_) => {},
                }
                match self.validate_owned_graph(&shell) {
                    Err(e) => {
                        return Err(e);
                    },
                    Ok(_) => {},
                }
                match validate_claims(values, payload, taken) {
                    Err(e) => {
                        return Err(e);
                    },
                    Ok(_) => {},
                }
                proof {
                    lemma_claims_in_range(values@, value_views(payload@), taken@, 0);
                }
                let rest = relinquish(payload, taken);
                let emptied = Value::Variant {
                    item: *item,
                    type_args: copy_types(type_args),
                    case: *active_case,
                    payload: rest,
                };
                values.insert(shell_id, emptied);
                Ok(())
            },
            _ => Err(invalid("a variant decomposition names a value that is not a variant")),
        }
    }

    /// Refuses a decomposition while an active observation holds any of
    /// the payload.
    fn reject_leased_payload(&self, payload: &Vec<Value>) -> (r: Result<(), InterpreterError>)
        ensures
            checked(r) == payload_leases(self@.table, value_views(payload@), 0),
    {
        let mut i: usize = 0;
        while i < payload.len()
            invariant
                i <= payload@.len(),
                payload_leases(self@.table, value_views(payload@), 0) == payload_leases(
                    self@.table,
                    value_views(payload@),
                    i as nat,
                ),
            decreases payload@.len() - i,
        {
            match self.reject_leased_value(&payload[i], "decomposed out of its variant") {
                Err(e) => {
                    return Err(e);
                },
                Ok(_) => {},
            }
            i = i + 1;
        }
        Ok(())
    }
}

/// Whether what moves and where it goes have a resource in common.
fn shares_identity(reachable: &IdSet, owned: &IdSet, passed: &Vec<ResourceId>) -> (r: bool)
    ensures
        r == share_identity(reachable@, owned@, passed@),
{
    let ids = owned.members();
    let mut i: usize = 0;
    while i < ids.len()
        invariant
            i <= ids@.len(),
            forall|id: u32| owned@.contains(id) <==> ids@.contains(id),
            forall|j: int| 0 <= j < i ==> !reachable@.contains(#[trigger] ids@[j]),
        decreases ids@.len() - i,
    {
        if reachable.contains(ids[i]) {
            assert(ids@.contains(ids@[i as int]));
            return true;
        }
        i = i + 1;
    }
    assert forall|id: u32| owned@.contains(id) implies !#[trigger] reachable@.contains(id) by {
        assert(ids@.contains(id));
        let k = choose|k: int| 0 <= k < ids@.len() && ids@[k] == id;
        assert(!reachable@.contains(ids@[k]));
    }
    let mut j: usize = 0;
    while j < passed.len()
        invariant
            j <= passed@.len(),
            forall|k: int| 0 <= k < j ==> !reachable@.contains((#[trigger] passed@[k]).0),
        decreases passed@.len() - j,
    {
        if reachable.contains(passed[j].0) {
            assert(reachable@.contains(passed@[j as int].0));
            return true;
        }
        j = j + 1;
    }
    false
}

/// Validates every claim of a decomposition.
fn validate_claims(values: &Frame, payload: &Vec<Value>, taken: &Vec<(usize, ValueId)>) -> (r:
    Result<(), InterpreterError>)
    ensures
        checked(r) == claims_check(values@, value_views(payload@), taken@, 0),
{
    let mut i: usize = 0;
    while i < taken.len()
        invariant
            i <= taken@.len(),
            claims_check(values@, value_views(payload@), taken@, 0) == claims_check(
                values@,
                value_views(payload@),
                taken@,
                i as nat,
            ),
        decreases taken@.len() - i,
    {
        let index: usize = taken[i].0;
        let owner = taken[i].1;
        let receiver = match values.get(&owner) {
            None => {
                return Err(
                    invalid(
                        "a variant decomposition hands a payload to a value this frame never computed",
                    ),
                );
            },
            Some(receiver) => receiver,
        };
        if is_claimed_before(taken, i) {
            return Err(
                invalid("a variant decomposition claims the same payload position more than once"),
            );
        }
        if index >= payload.len() {
            return Err(
                invalid(
                    "a variant decomposition claims a payload position out of range for its case",
                ),
            );
        }
        if is_tombstone(&payload[index]) {
            return Err(
                invalid("a variant decomposition claims a position whose ownership already moved"),
            );
        }
        if !same_value(receiver, &payload[index]) {
            return Err(
                invalid(
                    "a variant decomposition hands a payload position to a value that is not what that position holds",
                ),
            );
        }
        i = i + 1;
    }
    Ok(())
}

/// Whether an earlier claim names the position that claim `i` names.
fn is_claimed_before(taken: &Vec<(usize, ValueId)>, i: usize) -> (r: bool)
    requires
        i < taken@.len(),
    ensures
        r == claimed_before(taken@, i as int),
{
    let mut j: usize = 0;
    while j < i
        invariant
            j <= i < taken@.len(),
            forall|k: int| 0 <= k < j ==> (#[trigger] taken@[k]).0 != taken@[i as int].0,
        decreases i - j,
    {
        if taken[j].0 == taken[i].0 {
            assert(taken@[j as int].0 == taken@[i as int].0);
            return true;
        }
        j = j + 1;
    }
    false
}

/// The payload with a tombstone at every claimed position.
fn relinquish(payload: &Vec<Value>, taken: &Vec<(usize, ValueId)>) -> (r: Vec<Value>)
    requires
        forall|i: int| 0 <= i < taken@.len() ==> (#[trigger] taken@[i]).0 < payload@.len(),
    ensures
        value_views(r@) == relinquished(value_views(payload@), taken@, taken@.len()),
{
    let mut rest = copy_values(payload);
    assert(value_views(rest@).len() == rest@.len());
    assert(value_views(payload@).len() == payload@.len());
    let mut i: usize = 0;
    while i < taken.len()
        invariant
            i <= taken@.len(),
            rest@.len() == payload@.len(),
            forall|i: int| 0 <= i < taken@.len() ==> (#[trigger] taken@[i]).0 < payload@.len(),
            value_views(rest@) == relinquished(value_views(payload@), taken@, i as nat),
        decreases taken@.len() - i,
    {
        let index: usize = taken[i].0;
        assert(taken@[i as int].0 < payload@.len());
        let ghost before = rest@;
        rest.set(index, Value::Moved);
        assert(value_views(rest@) == value_views(before).update(index as int, ValueView::Moved));
        i = i + 1;
    }
    rest
}

/// Claims that pass their check name positions of the payload.
proof fn lemma_claims_in_range(
    frame: Map<u32, ValueView>,
    payload: Seq<ValueView>,
    taken: Seq<(usize, ValueId)>,
    i: nat,
)
    requires
        claims_check(frame, payload, taken, i) is Ok,
    ensures
        forall|j: int| i <= j < taken.len() ==> (#[trigger] taken[j]).0 < payload.len(),
    decreases taken.len() - i,
{
    if i < taken.len() {
        lemma_claims_in_range(frame, payload, taken, i + 1);
    }
}

} // verus!
