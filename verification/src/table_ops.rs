use crate::ids::{ItemId, ResourceId, RuntimeObservationId};
use crate::program::MAX_GENERIC_DEPTH;
use crate::table::{
    LeaseStatus, LeaseView, RecordView, ResourceRecord, ResourceStatus, ResourceTable,
    RuntimeObservation, TableView,
};
use crate::value::{
    evaluated, invalid, value_views, ErrorView, InterpreterError, ResourceHandle,
    RuntimeOwnershipRole, Value, ValueView,
};
use crate::value_ops::{copy_value, is_tombstone};
use vstd::prelude::*;

verus! {

broadcast use {crate::types::group_type_views, crate::value::group_value_views};

/// A record result, as a mathematical value.
pub open spec fn recorded(r: Result<&ResourceRecord, InterpreterError>) -> Result<
    RecordView,
    ErrorView,
> {
    match r {
        Ok(record) => Ok(record@),
        Err(e) => Err(e@),
    }
}

/// Whether `r` reports the change `effect` describes: on success the
/// table is what `effect` says, and a refusal leaves it as it was.
pub open spec fn applied(
    effect: Result<TableView, ErrorView>,
    r: Result<(), InterpreterError>,
    before: TableView,
    after: TableView,
) -> bool {
    match r {
        Ok(_) => effect == Ok::<TableView, ErrorView>(after),
        Err(e) => effect == Err::<TableView, ErrorView>(e@) && after == before,
    }
}

/// A handle result, as a mathematical value.
pub open spec fn handled(r: Result<ResourceHandle, InterpreterError>) -> Result<
    ResourceHandle,
    ErrorView,
> {
    match r {
        Ok(handle) => Ok(handle),
        Err(e) => Err(e@),
    }
}

impl ResourceTable {
    /// A table with no resources and no leases.
    pub fn new() -> (r: ResourceTable)
        ensures
            r@.records == Seq::<RecordView>::empty(),
            r@.leases == Seq::<LeaseView>::empty(),
    {
        let r = ResourceTable { records: Vec::new(), leases: Vec::new() };
        assert(r@.records =~= Seq::<RecordView>::empty());
        assert(r@.leases =~= Seq::<LeaseView>::empty());
        r
    }

    /// Adds a live resource of generation 0 and returns its owner.
    pub fn construct(&mut self, item: ItemId, fields: Vec<Value>) -> (r: ResourceHandle)
        ensures
            r == old(self)@.next_handle(),
            final(self)@ == old(self)@.with_resource(item, value_views(fields@)),
    {
        let id = ResourceId(
            #[verifier::truncate]
            (self.records.len() as u32),
        );
        self.records.push(
            ResourceRecord { item, generation: 0, status: ResourceStatus::Alive, fields },
        );
        assert(self@.records =~= old(self)@.with_resource(item, value_views(fields@)).records);
        assert(self@.leases =~= old(self)@.leases);
        ResourceHandle { id, generation: 0, role: RuntimeOwnershipRole::Owner, lease: None }
    }

    /// Opens a lease over `observed`, nested inside `parent`.
    pub fn begin_lease(
        &mut self,
        observed: Vec<ResourceId>,
        parent: Option<RuntimeObservationId>,
    ) -> (r: RuntimeObservationId)
        ensures
            r == old(self)@.next_lease(),
            final(self)@ == old(self)@.with_lease(observed@, parent),
    {
        let id = RuntimeObservationId(
            #[verifier::truncate]
            (self.leases.len() as u32),
        );
        self.leases.push(
            RuntimeObservation { id, status: LeaseStatus::Active, observed, parent },
        );
        assert(self@.leases =~= old(self)@.with_lease(observed@, parent).leases);
        assert(self@.records =~= old(self)@.records);
        id
    }

    /// The lease `id` names.
    pub fn lease(&self, id: RuntimeObservationId) -> (r: Result<
        &RuntimeObservation,
        InterpreterError,
    >)
        ensures
            match r {
                Ok(lease) => self@.lease(id) == Ok::<LeaseView, ErrorView>(lease@),
                Err(e) => self@.lease(id) == Err::<LeaseView, ErrorView>(e@),
            },
    {
        let index: usize = id.0 as usize;
        if index < self.leases.len() {
            Ok(&self.leases[index])
        } else {
            Err(invalid("an observation handle does not refer to any known observation"))
        }
    }

    /// Ends `id` exactly once.
    ///
    /// Refused when it was never opened, when it already ended, or when
    /// a lease opened inside it is still active.
    pub fn end_lease(&mut self, id: RuntimeObservationId) -> (r: Result<(), InterpreterError>)
        ensures
            applied(old(self)@.end_lease(id), r, old(self)@, final(self)@),
    {
        match self.lease(id) {
            Err(e) => {
                return Err(e);
            },
            Ok(lease) => {
                if lease.status == LeaseStatus::Ended {
                    return Err(invalid("an observation was ended more than once at run time"));
                }
            },
        }
        let mut i: usize = 0;
        while i < self.leases.len()
            invariant
                i <= self.leases@.len(),
                self == old(self),
                forall|j: int|
                    0 <= j < i ==> !((#[trigger] self@.leases[j]).parent == Some(id)
                        && self@.leases[j].status is Active),
                self@.lease(id) matches Ok(lease) && lease.status is Active,
            decreases self.leases@.len() - i,
        {
            let nested = match self.leases[i].parent {
                Some(parent) => parent == id && self.leases[i].status == LeaseStatus::Active,
                None => false,
            };
            if nested {
                assert(self@.leases[i as int].parent == Some(id));
                assert(self@.encloses_active(id));
                return Err(
                    invalid(
                        "cannot end an observation while an observation opened inside it is still active",
                    ),
                );
            }
            i = i + 1;
        }
        assert(!self@.encloses_active(id));
        let index: usize = id.0 as usize;
        self.leases[index].status = LeaseStatus::Ended;
        assert(self@.leases =~= old(self)@.leases.update(
            index as int,
            LeaseView { status: LeaseStatus::Ended, ..old(self)@.leases[index as int] },
        ));
        assert(self@.records =~= old(self)@.records);
        Ok(())
    }

    /// The lowest-numbered still-active lease holding `resource`, if
    /// any.
    pub fn active_lease_holding(&self, resource: ResourceId) -> (r: Option<RuntimeObservationId>)
        ensures
            r == self@.active_lease_holding(resource),
    {
        let mut i: usize = 0;
        while i < self.leases.len()
            invariant
                i <= self.leases@.len(),
                self@.active_lease_from(resource, i as nat) == self@.active_lease_holding(resource),
            decreases self.leases@.len() - i,
        {
            let lease = &self.leases[i];
            if lease.status == LeaseStatus::Active && holds_resource(&lease.observed, resource) {
                return Some(lease.id);
            }
            i = i + 1;
        }
        None
    }

    /// The record `handle` names.
    ///
    /// A handle minted under an observation stops working the moment
    /// that observation ends; the owner's own handle is unaffected.
    pub fn record(&self, handle: ResourceHandle) -> (r: Result<&ResourceRecord, InterpreterError>)
        ensures
            recorded(r) == self@.record(handle),
    {
        match handle.lease {
            Some(id) => match self.lease(id) {
                Err(e) => {
                    return Err(e);
                },
                Ok(lease) => {
                    if lease.status == LeaseStatus::Ended {
                        return Err(
                            invalid(
                                "use of an observation after its own `observe` block already ended",
                            ),
                        );
                    }
                },
            },
            None => {},
        }
        let index: usize = handle.id.0 as usize;
        if index >= self.records.len() {
            return Err(invalid("resource handle does not refer to any known resource"));
        }
        let record = &self.records[index];
        if record.generation != handle.generation {
            return Err(
                invalid(
                    "stale resource handle: this resource's own ownership was already transferred elsewhere",
                ),
            );
        }
        Ok(record)
    }

    /// The live record `handle` names, without transferring ownership:
    /// an owner and an observer may both always read.
    pub fn observe(&self, handle: ResourceHandle) -> (r: Result<&ResourceRecord, InterpreterError>)
        ensures
            recorded(r) == self@.observe(handle),
    {
        match self.record(handle) {
            Err(e) => Err(e),
            Ok(record) => if record.status == ResourceStatus::Dropped {
                Err(invalid("use of a resource after it was already dropped"))
            } else {
                Ok(record)
            },
        }
    }

    /// Downgrades `handle` to an observer of the same record, bound to
    /// the same lease.
    pub fn to_observer(&self, handle: ResourceHandle) -> (r: Result<
        ResourceHandle,
        InterpreterError,
    >)
        ensures
            handled(r) == self@.observer(handle, None),
    {
        match self.observe(handle) {
            Err(e) => Err(e),
            Ok(_) => Ok(
                ResourceHandle {
                    id: handle.id,
                    generation: handle.generation,
                    role: RuntimeOwnershipRole::Observer,
                    lease: handle.lease,
                },
            ),
        }
    }

    /// Downgrades `handle` to an observer bound to `lease`.
    pub fn to_leased_observer(
        &self,
        handle: ResourceHandle,
        lease: RuntimeObservationId,
    ) -> (r: Result<ResourceHandle, InterpreterError>)
        ensures
            handled(r) == self@.observer(handle, Some(lease)),
    {
        match self.observe(handle) {
            Err(e) => Err(e),
            Ok(_) => Ok(
                ResourceHandle {
                    id: handle.id,
                    generation: handle.generation,
                    role: RuntimeOwnershipRole::Observer,
                    lease: Some(lease),
                },
            ),
        }
    }

    /// Transfers ownership of one resource, which makes `handle` and
    /// every other handle of its generation stale, and returns the
    /// handle of the new owner.
    ///
    /// An execution plans the transfer of a whole value before it moves
    /// any part of it; this moves one resource on its own.
    pub fn transfer(&mut self, handle: ResourceHandle) -> (r: Result<
        ResourceHandle,
        InterpreterError,
    >)
        ensures
            match r {
                Ok(owner) => old(self)@.transfer(handle) == Ok::<
                    (TableView, ResourceHandle),
                    ErrorView,
                >((final(self)@, owner)),
                Err(e) => old(self)@.transfer(handle) == Err::<
                    (TableView, ResourceHandle),
                    ErrorView,
                >(e@) && final(self)@ == old(self)@,
            },
    {
        if handle.role != RuntimeOwnershipRole::Owner {
            return Err(
                invalid("cannot transfer ownership through a merely-observing resource handle"),
            );
        }
        let generation: u64 = match self.record(handle) {
            Err(e) => {
                return Err(e);
            },
            Ok(record) => {
                if record.status == ResourceStatus::Dropped {
                    return Err(
                        invalid("cannot transfer ownership of a resource that was already dropped"),
                    );
                }
                raised(record.generation)
            },
        };
        let index: usize = handle.id.0 as usize;
        self.records[index].generation = generation;
        assert(self@.records =~= old(self)@.records.update(
            index as int,
            RecordView { generation, ..old(self)@.records[index as int] },
        ));
        assert(self@.leases =~= old(self)@.leases);
        Ok(
            ResourceHandle {
                id: handle.id,
                generation,
                role: RuntimeOwnershipRole::Owner,
                lease: None,
            },
        )
    }

    /// Destroys the resource `handle` owns, exactly once.
    pub fn drop_resource(&mut self, handle: ResourceHandle) -> (r: Result<(), InterpreterError>)
        ensures
            applied(old(self)@.drop_resource(handle), r, old(self)@, final(self)@),
    {
        if handle.role != RuntimeOwnershipRole::Owner {
            return Err(
                invalid("cannot drop a resource through a merely-observing resource handle"),
            );
        }
        match self.record(handle) {
            Err(e) => {
                return Err(e);
            },
            Ok(record) => {
                if record.status == ResourceStatus::Dropped {
                    return Err(invalid("double drop of a resource"));
                }
            },
        }
        let index: usize = handle.id.0 as usize;
        self.records[index].status = ResourceStatus::Dropped;
        assert(self@.records =~= old(self)@.records.update(
            index as int,
            RecordView { status: ResourceStatus::Dropped, ..old(self)@.records[index as int] },
        ));
        assert(self@.leases =~= old(self)@.leases);
        Ok(())
    }

    /// Reads one field without disturbing it. What is read through an
    /// observer is an observing view at every depth.
    pub fn observe_field(&self, handle: ResourceHandle, index: usize) -> (r: Result<
        Value,
        InterpreterError,
    >)
        ensures
            evaluated(r) == self@.observe_field(handle, index),
    {
        match self.observe(handle) {
            Err(e) => Err(e),
            Ok(record) => {
                if index >= record.fields.len() {
                    return Err(
                        invalid("a place projects a field index out of range for this resource"),
                    );
                }
                match handle.role {
                    RuntimeOwnershipRole::Observer => self.observing_view(
                        &record.fields[index],
                        handle.lease,
                        0,
                    ),
                    RuntimeOwnershipRole::Owner => Ok(copy_value(&record.fields[index])),
                }
            },
        }
    }

    /// [`Self::observing_view`] of each of `values`.
    fn observing_views(
        &self,
        values: &Vec<Value>,
        lease: Option<RuntimeObservationId>,
        depth: usize,
    ) -> (r: Result<Vec<Value>, InterpreterError>)
        ensures
            match r {
                Ok(views) => self@.observing_views(
                    value_views(values@),
                    0,
                    Seq::empty(),
                    lease,
                    depth as nat,
                ) == Ok::<Seq<ValueView>, ErrorView>(value_views(views@)),
                Err(e) => self@.observing_views(
                    value_views(values@),
                    0,
                    Seq::empty(),
                    lease,
                    depth as nat,
                ) == Err::<Seq<ValueView>, ErrorView>(e@),
            },
        decreases MAX_GENERIC_DEPTH - depth, 1nat,
    {
        let mut views: Vec<Value> = Vec::new();
        let mut i: usize = 0;
        assert(value_views(views@) =~= Seq::empty());
        while i < values.len()
            invariant
                i <= values@.len(),
                self@.observing_views(
                    value_views(values@),
                    0,
                    Seq::empty(),
                    lease,
                    depth as nat,
                ) == self@.observing_views(
                    value_views(values@),
                    i as nat,
                    value_views(views@),
                    lease,
                    depth as nat,
                ),
            decreases values@.len() - i,
        {
            match self.observing_view(&values[i], lease, depth) {
                Err(e) => {
                    return Err(e);
                },
                Ok(view) => {
                    views.push(view);
                },
            }
            i = i + 1;
        }
        Ok(views)
    }

    /// Rebuilds `value` so that every resource handle it carries inline,
    /// at any depth, is an observer. Nothing stored is changed.
    pub fn observing_view(
        &self,
        value: &Value,
        lease: Option<RuntimeObservationId>,
        depth: usize,
    ) -> (r: Result<Value, InterpreterError>)
        ensures
            evaluated(r) == self@.observing_view(value@, lease, depth as nat),
        decreases MAX_GENERIC_DEPTH - depth, 0nat,
    {
        if depth >= MAX_GENERIC_DEPTH {
            return Err(
                invalid("a runtime value is nested more deeply than this milestone supports"),
            );
        }
        match value {
            Value::Resource(inner) => {
                let observer = match lease {
                    Some(lease) => self.to_leased_observer(*inner, lease),
                    None => self.to_observer(*inner),
                };
                match observer {
                    Err(e) => Err(e),
                    Ok(handle) => Ok(Value::Resource(handle)),
                }
            },
            Value::Record { item, type_args, fields } => match self.observing_views(
                fields,
                lease,
                depth + 1,
            ) {
                Err(e) => Err(e),
                Ok(views) => Ok(
                    Value::Record {
                        item: *item,
                        type_args: crate::type_ops::copy_types(type_args),
                        fields: views,
                    },
                ),
            },
            Value::Variant { item, type_args, case, payload } => match self.observing_views(
                payload,
                lease,
                depth + 1,
            ) {
                Err(e) => Err(e),
                Ok(views) => Ok(
                    Value::Variant {
                        item: *item,
                        type_args: crate::type_ops::copy_types(type_args),
                        case: *case,
                        payload: views,
                    },
                ),
            },
            other => Ok(copy_value(other)),
        }
    }

    /// Writes one field of a record that is known to have it.
    fn write_field(&mut self, id: ResourceId, index: usize, value: Value) -> (r: Value)
        requires
            id.0 < old(self)@.records.len(),
            index < old(self)@.records[id.0 as int].fields.len(),
        ensures
            final(self)@ == old(self)@.with_field(id, index, value@),
            r@ == old(self)@.records[id.0 as int].fields[index as int],
    {
        let position: usize = id.0 as usize;
        let mut previous = value;
        std::mem::swap(&mut self.records[position].fields[index], &mut previous);
        assert(self@.records =~= old(self)@.with_field(id, index, value@).records);
        assert(self@.leases =~= old(self)@.leases);
        previous
    }

    /// Moves one field out, leaving a tombstone behind. Legal only
    /// through an owner.
    pub fn take_field(&mut self, handle: ResourceHandle, index: usize) -> (r: Result<
        Value,
        InterpreterError,
    >)
        ensures
            match r {
                Ok(value) => old(self)@.take_field(handle, index) == Ok::<
                    (TableView, ValueView),
                    ErrorView,
                >((final(self)@, value@)),
                Err(e) => old(self)@.take_field(handle, index) == Err::<
                    (TableView, ValueView),
                    ErrorView,
                >(e@) && final(self)@ == old(self)@,
            },
    {
        if handle.role != RuntimeOwnershipRole::Owner {
            return Err(
                invalid("cannot transfer a field through a merely-observing resource handle"),
            );
        }
        match self.observe(handle) {
            Err(e) => {
                return Err(e);
            },
            Ok(record) => {
                if index >= record.fields.len() {
                    return Err(
                        invalid("a place projects a field index out of range for this resource"),
                    );
                }
            },
        }
        Ok(self.write_field(handle.id, index, Value::Moved))
    }

    /// Reinitializes one field, which must be a tombstone. Legal only
    /// through an owner.
    pub fn set_field(&mut self, handle: ResourceHandle, index: usize, value: Value) -> (r: Result<
        (),
        InterpreterError,
    >)
        ensures
            applied(old(self)@.set_field(handle, index, value@), r, old(self)@, final(self)@),
    {
        if handle.role != RuntimeOwnershipRole::Owner {
            return Err(
                invalid("cannot reinitialize a field through a merely-observing resource handle"),
            );
        }
        match self.observe(handle) {
            Err(e) => {
                return Err(e);
            },
            Ok(record) => {
                if index >= record.fields.len() {
                    return Err(
                        invalid("a place projects a field index out of range for this resource"),
                    );
                }
                if !is_tombstone(&record.fields[index]) {
                    return Err(
                        invalid("cannot overwrite a resource field that still owns a live value"),
                    );
                }
            },
        }
        self.write_field(handle.id, index, value);
        Ok(())
    }

    /// Writes a container back into the field it was read from, after a
    /// walk passed through it. Unlike [`Self::set_field`] the field is
    /// expected to be live.
    pub fn restore_field(
        &mut self,
        handle: ResourceHandle,
        index: usize,
        container: Value,
    ) -> (r: Result<(), InterpreterError>)
        ensures
            applied(old(self)@.restore_field(handle, index, container@), r, old(self)@, final(self)@),
    {
        if handle.role != RuntimeOwnershipRole::Owner {
            return Err(invalid("cannot write through a merely-observing resource handle"));
        }
        match self.observe(handle) {
            Err(e) => {
                return Err(e);
            },
            Ok(record) => {
                if index >= record.fields.len() {
                    return Err(
                        invalid("a place projects a field index out of range for this resource"),
                    );
                }
            },
        }
        self.write_field(handle.id, index, container);
        Ok(())
    }
}

/// The generation a transfer moves a resource to.
pub fn raised(generation: u64) -> (r: u64)
    ensures
        r == crate::table::next_generation(generation),
{
    if generation == u64::MAX {
        0
    } else {
        generation + 1
    }
}

/// Whether `resource` is one of `observed`.
fn holds_resource(observed: &Vec<ResourceId>, resource: ResourceId) -> (r: bool)
    ensures
        r == observed@.contains(resource),
{
    let mut i: usize = 0;
    while i < observed.len()
        invariant
            i <= observed@.len(),
            forall|j: int| 0 <= j < i ==> observed@[j] != resource,
        decreases observed@.len() - i,
    {
        if observed[i] == resource {
            return true;
        }
        i = i + 1;
    }
    false
}

} // verus!
