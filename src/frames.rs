//! Call frames balance: a return undoes exactly what the call set up.
use crate::eval::{function_named, step, ProgramModel, RuntimeError, VmState};
use vstd::prelude::*;

verus! {

/// After a call of a function of `k` parameters with its `k` arguments on
/// the stack, any later state of the callee's frame that returns (the frame
/// pointer is the callee's, the values below it are untouched, and a value
/// lies above it) resumes the caller after the call, with the caller's frame
/// pointer, and with the caller's stack as it was before the arguments were
/// pushed plus the returned value.
pub proof fn return_restores_caller(p: ProgramModel, s: VmState, t: VmState)
    requires
        s.pc < p.instructions.len(),
        p.instructions[s.pc as int] is Call,
        p.instructions[s.pc as int]->Call_0@ != "print"@,
        function_named(p.functions, p.instructions[s.pc as int]->Call_0@) is Some,
        function_named(p.functions, p.instructions[s.pc as int]->Call_0@)->Some_0.arity
            == p.instructions[s.pc as int]->Call_1,
        p.instructions[s.pc as int]->Call_1 <= s.stack.len(),
        step(p, s) is Ok,
        t.fp == step(p, s)->Ok_0.fp,
        t.fp < t.stack.len(),
        t.stack.subrange(0, t.fp as int) == step(p, s)->Ok_0.stack.subrange(0, t.fp as int),
        t.pc < p.instructions.len(),
        p.instructions[t.pc as int] is Return,
    ensures
        step(p, t) == Ok::<VmState, RuntimeError>(
            VmState {
                pc: s.pc + 1,
                fp: s.fp,
                stack: s.stack.subrange(0, s.stack.len() - (p.instructions[s.pc as int]->Call_1 as int)).push(
                    t.stack.last(),
                ),
                output: t.output,
            },
        ),
{
    let k = p.instructions[s.pc as int]->Call_1 as int;
    let s1 = step(p, s)->Ok_0;
    let n = s.stack.len() as int;
    let framed = s.stack.push(s.fp as i32).push((s.pc + 1) as i32).push(k as i32);
    assert(s1.fp == framed.len());
    assert(s1.stack.subrange(0, t.fp as int) =~= framed);
    let rest = t.stack.drop_last();
    let kept = if t.fp < rest.len() { rest.subrange(0, t.fp as int) } else { rest };
    assert(kept =~= framed);
    assert(kept[n + 2] == k as i32);
    assert(kept[n + 1] == (s.pc + 1) as i32);
    assert(kept[n] == s.fp as i32);
    assert(kept.subrange(0, n - k) =~= s.stack.subrange(0, n - k));
}

} // verus!
