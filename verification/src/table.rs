use crate::ids::{ItemId, ResourceId, RuntimeObservationId};
use crate::program::MAX_GENERIC_DEPTH;
use crate::value::{
    refusal, value_views, ErrorView, ResourceHandle, RuntimeOwnershipRole, Value, ValueView,
};
use crate::value_ops::tombstone;
use vstd::prelude::*;

verus! {

#[derive(Debug, Clone, Copy, PartialEq, Eq, Structural)]
pub enum LeaseStatus {
    Active,
    Ended,
}

/// One lexically scoped observation, as a runtime object: an ended lease
/// stops every handle minted under it, and an active one blocks every
/// ownership operation on what it holds.
#[derive(Debug)]
pub struct RuntimeObservation {
    pub id: RuntimeObservationId,
    pub status: LeaseStatus,
    /// Every resource reachable through the observed place when the
    /// lease was taken, in discovery order.
    pub observed: Vec<ResourceId>,
    /// The lease this one was opened inside, if any.
    pub parent: Option<RuntimeObservationId>,
}

#[derive(Debug, Clone, Copy, PartialEq, Eq, Structural)]
pub enum ResourceStatus {
    Alive,
    Dropped,
}

/// One resource. Its record outlives it: a dropped resource keeps its
/// place in the table, so that a stale handle always finds something to
/// be refused by.
#[derive(Debug)]
pub struct ResourceRecord {
    pub item: ItemId,
    pub generation: u64,
    pub status: ResourceStatus,
    pub fields: Vec<Value>,
}

/// Every resource and every observation lease of one execution. Neither
/// list ever shrinks.
#[derive(Debug)]
pub struct ResourceTable {
    pub records: Vec<ResourceRecord>,
    pub leases: Vec<RuntimeObservation>,
}

/// The mathematical value of a [`ResourceRecord`].
pub struct RecordView {
    pub item: ItemId,
    pub generation: u64,
    pub status: ResourceStatus,
    pub fields: Seq<ValueView>,
}

/// The mathematical value of a [`RuntimeObservation`].
pub struct LeaseView {
    pub id: RuntimeObservationId,
    pub status: LeaseStatus,
    pub observed: Seq<ResourceId>,
    pub parent: Option<RuntimeObservationId>,
}

/// The mathematical value of a [`ResourceTable`].
pub struct TableView {
    pub records: Seq<RecordView>,
    pub leases: Seq<LeaseView>,
}

impl View for ResourceRecord {
    type V = RecordView;

    open spec fn view(&self) -> RecordView {
        RecordView {
            item: self.item,
            generation: self.generation,
            status: self.status,
            fields: value_views(self.fields@),
        }
    }
}

impl View for RuntimeObservation {
    type V = LeaseView;

    open spec fn view(&self) -> LeaseView {
        LeaseView {
            id: self.id,
            status: self.status,
            observed: self.observed@,
            parent: self.parent,
        }
    }
}

impl View for ResourceTable {
    type V = TableView;

    open spec fn view(&self) -> TableView {
        TableView {
            records: Seq::new(self.records@.len(), |i: int| self.records@[i].view()),
            leases: Seq::new(self.leases@.len(), |i: int| self.leases@[i].view()),
        }
    }
}

impl LeaseView {
    /// Whether this lease is active and holds `resource`.
    pub open spec fn holds(self, resource: ResourceId) -> bool {
        self.status is Active && self.observed.contains(resource)
    }
}

impl TableView {
    /// The table with the record at `id` replaced.
    pub open spec fn with_record(self, id: ResourceId, record: RecordView) -> TableView {
        TableView { records: self.records.update(id.0 as int, record), leases: self.leases }
    }

    /// The table with one field of the resource `id` replaced.
    pub open spec fn with_field(self, id: ResourceId, index: usize, value: ValueView) -> TableView {
        let record = self.records[id.0 as int];
        self.with_record(
            id,
            RecordView { fields: record.fields.update(index as int, value), ..record },
        )
    }

    /// The table with one more resource.
    pub open spec fn with_resource(self, item: ItemId, fields: Seq<ValueView>) -> TableView {
        TableView {
            records: self.records.push(
                RecordView { item, generation: 0, status: ResourceStatus::Alive, fields },
            ),
            leases: self.leases,
        }
    }

    /// The handle that owns the next resource to be constructed.
    pub open spec fn next_handle(self) -> ResourceHandle {
        ResourceHandle {
            id: ResourceId(self.records.len() as u32),
            generation: 0,
            role: RuntimeOwnershipRole::Owner,
            lease: None,
        }
    }

    /// The table with one more active lease.
    pub open spec fn with_lease(
        self,
        observed: Seq<ResourceId>,
        parent: Option<RuntimeObservationId>,
    ) -> TableView {
        TableView {
            records: self.records,
            leases: self.leases.push(
                LeaseView { id: self.next_lease(), status: LeaseStatus::Active, observed, parent },
            ),
        }
    }

    /// The identity of the next lease to be opened.
    pub open spec fn next_lease(self) -> RuntimeObservationId {
        RuntimeObservationId(self.leases.len() as u32)
    }

    pub open spec fn lease(self, id: RuntimeObservationId) -> Result<LeaseView, ErrorView> {
        if id.0 < self.leases.len() {
            Ok(self.leases[id.0 as int])
        } else {
            Err(refusal("an observation handle does not refer to any known observation"@))
        }
    }

    /// Whether a lease opened inside `id` is still active.
    pub open spec fn encloses_active(self, id: RuntimeObservationId) -> bool {
        exists|i: int|
            0 <= i < self.leases.len() && (#[trigger] self.leases[i]).parent == Some(id)
                && self.leases[i].status is Active
    }

    /// Ending a lease: refused when it is unknown, has ended, or
    /// encloses an active one.
    pub open spec fn end_lease(self, id: RuntimeObservationId) -> Result<TableView, ErrorView> {
        match self.lease(id) {
            Err(e) => Err(e),
            Ok(lease) => if lease.status is Ended {
                Err(refusal("an observation was ended more than once at run time"@))
            } else if self.encloses_active(id) {
                Err(
                    refusal(
                        "cannot end an observation while an observation opened inside it is still active"@,
                    ),
                )
            } else {
                Ok(
                    TableView {
                        records: self.records,
                        leases: self.leases.update(
                            id.0 as int,
                            LeaseView { status: LeaseStatus::Ended, ..lease },
                        ),
                    },
                )
            },
        }
    }

    /// The first lease from position `i` on that is active and holds
    /// `resource`.
    pub open spec fn active_lease_from(self, resource: ResourceId, i: nat) -> Option<
        RuntimeObservationId,
    >
        decreases self.leases.len() - i,
    {
        if i >= self.leases.len() {
            None
        } else if self.leases[i as int].holds(resource) {
            Some(self.leases[i as int].id)
        } else {
            self.active_lease_from(resource, i + 1)
        }
    }

    /// The lowest-numbered active lease that holds `resource`.
    pub open spec fn active_lease_holding(self, resource: ResourceId) -> Option<
        RuntimeObservationId,
    > {
        self.active_lease_from(resource, 0)
    }

    /// The record a handle names: refused when the handle's lease is
    /// unknown or has ended, when it names no record, and when its
    /// generation is not the current one.
    pub open spec fn record(self, handle: ResourceHandle) -> Result<RecordView, ErrorView> {
        match self.lease_usable(handle) {
            Err(e) => Err(e),
            Ok(_) => if handle.id.0 >= self.records.len() {
                Err(refusal("resource handle does not refer to any known resource"@))
            } else if self.records[handle.id.0 as int].generation != handle.generation {
                Err(
                    refusal(
                        "stale resource handle: this resource's own ownership was already transferred elsewhere"@,
                    ),
                )
            } else {
                Ok(self.records[handle.id.0 as int])
            },
        }
    }

    /// Whether the lease a handle was minted under still lets it work.
    pub open spec fn lease_usable(self, handle: ResourceHandle) -> Result<(), ErrorView> {
        match handle.lease {
            None => Ok(()),
            Some(id) => match self.lease(id) {
                Err(e) => Err(e),
                Ok(lease) => if lease.status is Ended {
                    Err(
                        refusal(
                            "use of an observation after its own `observe` block already ended"@,
                        ),
                    )
                } else {
                    Ok(())
                },
            },
        }
    }

    /// The live record a handle names, whatever its role.
    pub open spec fn observe(self, handle: ResourceHandle) -> Result<RecordView, ErrorView> {
        match self.record(handle) {
            Err(e) => Err(e),
            Ok(record) => if record.status is Dropped {
                Err(refusal("use of a resource after it was already dropped"@))
            } else {
                Ok(record)
            },
        }
    }

    /// A handle downgraded to an observer: bound to `lease` when one is
    /// given, else to the lease it already carries.
    pub open spec fn observer(
        self,
        handle: ResourceHandle,
        lease: Option<RuntimeObservationId>,
    ) -> Result<ResourceHandle, ErrorView> {
        match self.observe(handle) {
            Err(e) => Err(e),
            Ok(_) => Ok(
                ResourceHandle {
                    id: handle.id,
                    generation: handle.generation,
                    role: RuntimeOwnershipRole::Observer,
                    lease: match lease {
                        Some(id) => Some(id),
                        None => handle.lease,
                    },
                },
            ),
        }
    }

    /// Moving one resource to a new owner: its generation rises by one.
    pub open spec fn transfer(self, handle: ResourceHandle) -> Result<
        (TableView, ResourceHandle),
        ErrorView,
    > {
        if handle.role != RuntimeOwnershipRole::Owner {
            Err(refusal("cannot transfer ownership through a merely-observing resource handle"@))
        } else {
            match self.record(handle) {
                Err(e) => Err(e),
                Ok(record) => if record.status is Dropped {
                    Err(
                        refusal("cannot transfer ownership of a resource that was already dropped"@),
                    )
                } else {
                    let generation = next_generation(record.generation);
                    Ok(
                        (
                            self.with_record(handle.id, RecordView { generation, ..record }),
                            owning_handle(handle.id, generation),
                        ),
                    )
                },
            }
        }
    }

    /// Destroying a resource, which is possible once.
    pub open spec fn drop_resource(self, handle: ResourceHandle) -> Result<TableView, ErrorView> {
        if handle.role != RuntimeOwnershipRole::Owner {
            Err(refusal("cannot drop a resource through a merely-observing resource handle"@))
        } else {
            match self.record(handle) {
                Err(e) => Err(e),
                Ok(record) => if record.status is Dropped {
                    Err(refusal("double drop of a resource"@))
                } else {
                    Ok(
                        self.with_record(
                            handle.id,
                            RecordView { status: ResourceStatus::Dropped, ..record },
                        ),
                    )
                },
            }
        }
    }

    /// A value rebuilt so that every handle it carries inline, at any
    /// depth, is an observer.
    pub open spec fn observing_view(
        self,
        value: ValueView,
        lease: Option<RuntimeObservationId>,
        depth: nat,
    ) -> Result<ValueView, ErrorView>
        decreases MAX_GENERIC_DEPTH - depth, 0nat,
    {
        if depth >= MAX_GENERIC_DEPTH {
            Err(refusal("a runtime value is nested more deeply than this milestone supports"@))
        } else {
            match value {
                ValueView::Resource(handle) => match self.observer(handle, lease) {
                    Err(e) => Err(e),
                    Ok(observer) => Ok(ValueView::Resource(observer)),
                },
                ValueView::Record { item, type_args, fields } => match self.observing_views(
                    fields,
                    0,
                    Seq::empty(),
                    lease,
                    depth + 1,
                ) {
                    Err(e) => Err(e),
                    Ok(views) => Ok(ValueView::Record { item, type_args, fields: views }),
                },
                ValueView::Variant { item, type_args, case, payload } => match self.observing_views(
                    payload,
                    0,
                    Seq::empty(),
                    lease,
                    depth + 1,
                ) {
                    Err(e) => Err(e),
                    Ok(views) => Ok(ValueView::Variant { item, type_args, case, payload: views }),
                },
                other => Ok(other),
            }
        }
    }

    /// [`Self::observing_view`] of each value from position `i` on,
    /// after the views `done` of the earlier ones.
    pub open spec fn observing_views(
        self,
        values: Seq<ValueView>,
        i: nat,
        done: Seq<ValueView>,
        lease: Option<RuntimeObservationId>,
        depth: nat,
    ) -> Result<Seq<ValueView>, ErrorView>
        decreases MAX_GENERIC_DEPTH - depth, 1 + values.len() - i,
    {
        if i >= values.len() {
            Ok(done)
        } else {
            match self.observing_view(values[i as int], lease, depth) {
                Err(e) => Err(e),
                Ok(view) => self.observing_views(values, i + 1, done.push(view), lease, depth),
            }
        }
    }

    /// Reading a field: through an observer, only as an observing view.
    pub open spec fn observe_field(self, handle: ResourceHandle, index: usize) -> Result<
        ValueView,
        ErrorView,
    > {
        match self.observe(handle) {
            Err(e) => Err(e),
            Ok(record) => if index >= record.fields.len() {
                Err(field_out_of_range())
            } else if handle.role is Observer {
                self.observing_view(record.fields[index as int], handle.lease, 0)
            } else {
                Ok(record.fields[index as int])
            },
        }
    }

    /// Moving a field out, which leaves a tombstone behind.
    pub open spec fn take_field(self, handle: ResourceHandle, index: usize) -> Result<
        (TableView, ValueView),
        ErrorView,
    > {
        if handle.role != RuntimeOwnershipRole::Owner {
            Err(refusal("cannot transfer a field through a merely-observing resource handle"@))
        } else {
            match self.observe(handle) {
                Err(e) => Err(e),
                Ok(record) => if index >= record.fields.len() {
                    Err(field_out_of_range())
                } else {
                    Ok(
                        (
                            self.with_field(handle.id, index, ValueView::Moved),
                            record.fields[index as int],
                        ),
                    )
                },
            }
        }
    }

    /// Reinitializing a field, which must be a tombstone.
    pub open spec fn set_field(
        self,
        handle: ResourceHandle,
        index: usize,
        value: ValueView,
    ) -> Result<TableView, ErrorView> {
        if handle.role != RuntimeOwnershipRole::Owner {
            Err(refusal("cannot reinitialize a field through a merely-observing resource handle"@))
        } else {
            match self.observe(handle) {
                Err(e) => Err(e),
                Ok(record) => if index >= record.fields.len() {
                    Err(field_out_of_range())
                } else if !tombstone(record.fields[index as int]) {
                    Err(refusal("cannot overwrite a resource field that still owns a live value"@))
                } else {
                    Ok(self.with_field(handle.id, index, value))
                },
            }
        }
    }

    /// Writing an intermediate container back into the field it came
    /// from, whatever that field holds.
    pub open spec fn restore_field(
        self,
        handle: ResourceHandle,
        index: usize,
        container: ValueView,
    ) -> Result<TableView, ErrorView> {
        if handle.role != RuntimeOwnershipRole::Owner {
            Err(refusal("cannot write through a merely-observing resource handle"@))
        } else {
            match self.observe(handle) {
                Err(e) => Err(e),
                Ok(record) => if index >= record.fields.len() {
                    Err(field_out_of_range())
                } else {
                    Ok(self.with_field(handle.id, index, container))
                },
            }
        }
    }
}

pub open spec fn field_out_of_range() -> ErrorView {
    refusal("a place projects a field index out of range for this resource"@)
}

/// The generation a transfer moves a resource to.
pub open spec fn next_generation(generation: u64) -> u64 {
    if generation == u64::MAX {
        0
    } else {
        (generation + 1) as u64
    }
}

/// The handle that owns `id` at `generation`.
pub open spec fn owning_handle(id: ResourceId, generation: u64) -> ResourceHandle {
    ResourceHandle { id, generation, role: RuntimeOwnershipRole::Owner, lease: None }
}

} // verus!
