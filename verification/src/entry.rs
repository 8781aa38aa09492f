use crate::eval::{find_function, function_named, CallView};
use crate::frame::{called, Outcome, OutcomeView};
use crate::ids::ItemId;
use crate::interpreter::{Event, Interpreter, StateView};
use crate::program::{Function, Module};
use crate::symbol::{symbol_name, Interner};
use crate::text::{decimal, framed, numbered};
use crate::types::{evidence_views, ty_views, Evidence, EvidenceView, Ty, TyView};
use crate::value::{
    evaluated, invalid, invalid_message, refusal, value_views, ErrorView, InterpreterError, Value,
    ValueView,
};
use vstd::prelude::*;

verus! {

broadcast use {crate::types::group_type_views, crate::value::group_value_views};

/// How an event is written down.
pub open spec fn event_text(event: Event) -> Seq<char> {
    match event {
        Event::Call(item) => "call:"@ + decimal(item.0 as nat) + ""@,
        Event::Drop(resource) => "drop:"@ + decimal(resource.0 as nat) + ""@,
    }
}

/// What a program's caller gets of an outcome: a failure that nothing
/// handled is refused.
pub open spec fn unraised(outcome: Result<OutcomeView, ErrorView>) -> Result<
    ValueView,
    ErrorView,
> {
    match outcome {
        Err(e) => Err(e),
        Ok(OutcomeView::Returned(value)) => Ok(value),
        Ok(OutcomeView::Raised(_)) => Err(
            refusal("an unhandled failure reached the program's entry point"@),
        ),
    }
}

/// Calling a function from outside: with no type arguments and no
/// evidence.
pub open spec fn outside_call(
    module: Module,
    state: StateView,
    function: Function,
    args: Seq<ValueView>,
    depth: nat,
) -> (StateView, Result<ValueView, ErrorView>) {
    let (state1, outcome) = called(
        module,
        state,
        CallView {
            callee: function,
            type_args: Seq::<TyView>::empty(),
            args,
            evidence: Seq::<EvidenceView>::empty(),
        },
        depth,
    );
    (state1, unraised(outcome))
}

/// The first function with a name, from position `i` on.
pub open spec fn function_called(
    functions: Seq<Function>,
    names: Seq<Seq<char>>,
    name: Seq<char>,
    i: nat,
) -> Option<Function>
    decreases functions.len() - i,
{
    if i >= functions.len() {
        None
    } else if symbol_name(names, functions[i as int].name) == Some(name) {
        Some(functions[i as int])
    } else {
        function_called(functions, names, name, i + 1)
    }
}

/// Calling a function by its name.
pub open spec fn call_by_name(
    module: Module,
    state: StateView,
    names: Seq<Seq<char>>,
    name: Seq<char>,
    args: Seq<ValueView>,
    depth: nat,
) -> (StateView, Result<ValueView, ErrorView>) {
    match function_called(module.functions@, names, name, 0) {
        None => (state, Err(refusal("unknown function `"@ + name + "`"@))),
        Some(function) => outside_call(module, state, function, args, depth),
    }
}

/// Calling a function by its declaration.
pub open spec fn call_by_item(
    module: Module,
    state: StateView,
    item: ItemId,
    args: Seq<ValueView>,
    depth: nat,
) -> (StateView, Result<ValueView, ErrorView>) {
    match find_function(module.functions@, item, 0) {
        None => (
            state,
            Err(refusal("unknown function ItemId("@ + decimal(item.0 as nat) + ")"@)),
        ),
        Some(function) => outside_call(module, state, function, args, depth),
    }
}

/// What a program's caller gets of an outcome.
pub fn into_result(outcome: Outcome) -> (r: Result<Value, InterpreterError>)
    ensures
        evaluated(r) == unraised(Ok::<OutcomeView, ErrorView>(outcome@)),
{
    match outcome {
        Outcome::Returned(value) => Ok(value),
        Outcome::Raised(_) => Err(
            invalid("an unhandled failure reached the program's entry point"),
        ),
    }
}

impl<'a> Interpreter<'a> {
    /// Calls a function from outside.
    fn call_from_outside(&mut self, function: &Function, args: Vec<Value>) -> (r: Result<
        Value,
        InterpreterError,
    >)
        ensures
            (final(self)@, evaluated(r)) == outside_call(
                *old(self).module,
                old(self)@,
                *function,
                value_views(args@),
                old(self).call_depth as nat,
            ),
            final(self).module == old(self).module,
            final(self).call_depth == old(self).call_depth,
    {
        let no_types: Vec<Ty> = Vec::new();
        let no_evidence: Vec<Evidence> = Vec::new();
        assert(ty_views(no_types@) =~= Seq::<TyView>::empty());
        assert(evidence_views(no_evidence@) =~= Seq::<EvidenceView>::empty());
        match self.call_function(function, &no_types, args, no_evidence) {
            Err(e) => Err(e),
            Ok(outcome) => into_result(outcome),
        }
    }

    /// Calls the function named `name` with no arguments.
    pub fn run(&mut self, name: &str, interner: &Interner) -> (r: Result<Value, InterpreterError>)
        ensures
            (final(self)@, evaluated(r)) == call_by_name(
                *old(self).module,
                old(self)@,
                interner@,
                name@,
                Seq::<ValueView>::empty(),
                old(self).call_depth as nat,
            ),
            final(self).module == old(self).module,
            final(self).call_depth == old(self).call_depth,
    {
        let no_args: Vec<Value> = Vec::new();
        assert(value_views(no_args@) =~= Seq::<ValueView>::empty());
        self.call(name, interner, no_args)
    }

    /// Calls the first function named `name`.
    pub fn call(&mut self, name: &str, interner: &Interner, args: Vec<Value>) -> (r: Result<
        Value,
        InterpreterError,
    >)
        ensures
            (final(self)@, evaluated(r)) == call_by_name(
                *old(self).module,
                old(self)@,
                interner@,
                name@,
                value_views(args@),
                old(self).call_depth as nat,
            ),
            final(self).module == old(self).module,
            final(self).call_depth == old(self).call_depth,
    {
        let wanted = name.to_owned();
        let module = self.module;
        let mut i: usize = 0;
        while i < module.functions.len()
            invariant
                i <= module.functions@.len(),
                wanted@ == name@,
                module == old(self).module,
                *self == *old(self),
                function_called(module.functions@, interner@, name@, 0) == function_called(
                    module.functions@,
                    interner@,
                    name@,
                    i as nat,
                ),
            decreases module.functions@.len() - i,
        {
            let function = &module.functions[i];
            let found = match interner.resolve(function.name) {
                Some(text) => text.to_owned() == wanted,
                None => false,
            };
            if found {
                return self.call_from_outside(function, args);
            }
            i = i + 1;
        }
        Err(invalid_message(framed("unknown function `", name, "`")))
    }

    /// Calls the function declared as `item` with no arguments.
    pub fn run_item(&mut self, item: ItemId) -> (r: Result<Value, InterpreterError>)
        ensures
            (final(self)@, evaluated(r)) == call_by_item(
                *old(self).module,
                old(self)@,
                item,
                Seq::<ValueView>::empty(),
                old(self).call_depth as nat,
            ),
            final(self).module == old(self).module,
            final(self).call_depth == old(self).call_depth,
    {
        let no_args: Vec<Value> = Vec::new();
        assert(value_views(no_args@) =~= Seq::<ValueView>::empty());
        self.call_item(item, no_args)
    }

    /// Calls the function declared as `item`.
    pub fn call_item(&mut self, item: ItemId, args: Vec<Value>) -> (r: Result<
        Value,
        InterpreterError,
    >)
        ensures
            (final(self)@, evaluated(r)) == call_by_item(
                *old(self).module,
                old(self)@,
                item,
                value_views(args@),
                old(self).call_depth as nat,
            ),
            final(self).module == old(self).module,
            final(self).call_depth == old(self).call_depth,
    {
        match function_named(self.module, item) {
            None => Err(
                invalid_message(numbered("unknown function ItemId(", item.0 as u64, ")")),
            ),
            Some(function) => self.call_from_outside(function, args),
        }
    }

    /// What the execution has done so far, one line for each event.
    pub fn event_log(&self) -> (r: Vec<String>)
        ensures
            r@.len() == self@.events.len(),
            forall|i: int| 0 <= i < r@.len() ==> (#[trigger] r@[i])@ == event_text(self@.events[i]),
    {
        let mut out: Vec<String> = Vec::new();
        let mut i: usize = 0;
        while i < self.events.len()
            invariant
                i <= self.events@.len(),
                out@.len() == i,
                forall|j: int| 0 <= j < i ==> (#[trigger] out@[j])@ == event_text(self.events@[j]),
            decreases self.events@.len() - i,
        {
            let line = match self.events[i] {
                Event::Call(item) => numbered("call:", item.0 as u64, ""),
                Event::Drop(resource) => numbered("drop:", resource.0 as u64, ""),
            };
            out.push(line);
            i = i + 1;
        }
        out
    }
}

} // verus!
