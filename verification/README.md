# napitia

A verified interpreter for modules of basic blocks whose values may own
resources.

Resources live in one table and are reached through handles. A handle
owns or observes; moving a resource to a new owner makes every older
handle stale, destroying it is possible once, and an active observation
holds what it sees against every owner. The interpreter checks each
ownership operation as a whole before any of it takes effect, so one that
is refused leaves the table, the frame and the record of events as they
were.

Every executable function in `src/` carries a contract that states its
result and its effect exactly, over mathematical views of values, tables
and frames, for every input. `src/laws/` states and proves what relates
several of them: that observation is transitive, that a transfer moves
exactly what a value carries and reaches only what is alive, that what was
taken can be put back, that a typed destination holds only what fits it,
that a structural store is refused for each of its reasons,
that destruction destroys each resource once and leaves nothing alive,
that a call never shares what it takes, and that the record of events
stays true over a whole run.

Floating-point numbers are held as bit patterns; their arithmetic is
written out on integers and proved to give the nearest representable
result, ties to even.

`tests/` runs programs and single operations against expected values.
