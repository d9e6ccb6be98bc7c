use crate::evaluator::environment::Environment;
use crate::expressions::{NativeFunction, SValue, Value};
use vstd::prelude::*;

verus! {

/// Defines the host's functions (`clock`) in the outermost scope.
pub fn define_globals<'a, N: Copy>(scope: &mut Environment<'a, N>)
    requires
        old(scope)@.wf(),
    ensures
        final(scope)@.wf(),
        final(scope)@.stack == old(scope)@.stack,
        final(scope)@.heap == old(scope)@.heap.update(
            old(scope)@.stack[0] as int,
            old(scope)@.heap[old(scope)@.stack[0] as int].insert(
                "clock"@,
                Some(SValue::NativeFunction(NativeFunction::Clock)),
            ),
        ),
{
    scope.add_global("clock", Value::NativeFunction(NativeFunction::Clock));
}

} // verus!
