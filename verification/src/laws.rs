//! The laws of the machine and of the lowering, stated as theorems.
//!
//! Each proof function here states one of the library's guarantees
//! over the specification semantics (`spec_step`, `spec_run`) and the
//! lowering (`tr_*`), so a reader sees the law itself and not only the
//! per-instruction contracts it follows from.

use vstd::prelude::*;
use crate::value::{ValueV, RuntimeError, Scope};
use crate::vm::{
    CmdV, StateV, BindV, spec_step, nth_parent_frame, field_slot, tail_scan,
    nearest_function_frame, pop_scopes, native_call, CallFrame,
};
use crate::ast::Expression;
use crate::translator::{EnvV, env_lookup, tr_args, tr_expression, TransErrorV};

verus! {

/// Running the machine for `n` transitions, keeping the intermediate
/// state.
pub open spec fn spec_steps_n(p: Seq<CmdV>, s: StateV, n: nat) -> Result<StateV, RuntimeError>
    decreases n,
{
    if n == 0 {
        Ok(s)
    } else {
        match spec_step(p, s) {
            Err(e) => Err(e),
            Ok(s2) => spec_steps_n(p, s2, (n - 1) as nat),
        }
    }
}

/// The bind-arena slot the instruction under the pointer would write:
/// only a `Store` writes one.
pub open spec fn store_target(p: Seq<CmdV>, s: StateV) -> Option<int> {
    if s.ip < p.len() {
        match (p[s.ip as int], s.scope.0) {
            (CmdV::Store(n), Some(i)) => if i < s.frames.len() && n < s.frames[i as int].len {
                Some(s.frames[i as int].first + n)
            } else {
                None
            },
            _ => None,
        }
    } else {
        None
    }
}

/// Whether none of the next `n` transitions from `s` stores into bind
/// slot `j`.
pub open spec fn no_store_into(p: Seq<CmdV>, s: StateV, n: nat, j: int) -> bool
    decreases n,
{
    if n == 0 {
        true
    } else {
        &&& store_target(p, s) != Some(j)
        &&& match spec_step(p, s) {
            Err(_) => true,
            Ok(s2) => no_store_into(p, s2, (n - 1) as nat, j),
        }
    }
}

/// One transition never un-evaluates a binding: an evaluated slot is
/// changed only by a `Store` aimed at exactly that slot, and slots are
/// only ever added, never removed.  This is the single-step heart of
/// the law that a thunk's value, once computed, stays.
pub proof fn lemma_step_preserves_evaluated(p: Seq<CmdV>, s: StateV, s1: StateV, j: int)
    requires
        spec_step(p, s) == Ok::<StateV, RuntimeError>(s1),
        0 <= j < s.binds.len(),
        store_target(p, s) != Some(j),
    ensures
        s1.binds.len() >= s.binds.len(),
        s1.binds[j] == s.binds[j],
{
}

/// Over any number of transitions in which nothing stores into slot
/// `j`, the slot keeps its value: once a thunk has been upgraded to a
/// value, every later load observes that same value.
pub proof fn lemma_evaluated_persists(p: Seq<CmdV>, s: StateV, n: nat, j: int)
    requires
        0 <= j < s.binds.len(),
        no_store_into(p, s, n, j),
        spec_steps_n(p, s, n) is Ok,
    ensures
        spec_steps_n(p, s, n) matches Ok(sf) && sf.binds.len() >= s.binds.len() && sf.binds[j]
            == s.binds[j],
    decreases n,
{
    if n > 0 {
        let s2 = spec_step(p, s).unwrap();
        lemma_step_preserves_evaluated(p, s, s2, j);
        lemma_evaluated_persists(p, s2, (n - 1) as nat, j);
    }
}

/// Loading an already-evaluated binding pushes exactly the stored
/// value, advances past the `Load`, and neither transfers control
/// into the thunk nor changes any binding: the thunk body does not
/// run again.
pub proof fn lemma_load_of_evaluated(p: Seq<CmdV>, s: StateV, n: usize, d: usize, t: usize, v: ValueV)
    requires
        s.ip < p.len(),
        p[s.ip as int] == CmdV::Load(n, d),
        nth_parent_frame(s.frames, s.scope, d as nat) == Some(t),
        n < s.frames[t as int].len,
        s.frames[t as int].first + n < s.binds.len(),
        s.binds[s.frames[t as int].first + n] == BindV::Evaluated(v),
    ensures
        spec_step(p, s) == Ok::<StateV, RuntimeError>(StateV {
            stack: s.stack.push(v),
            ip: (s.ip + 1) as usize,
            ..s
        }),
{
}

/// A tail-position self-call does not grow the call stack: when the
/// next instruction past the pending scope exits is `Return` and the
/// nearest enclosing function activation carries the same function
/// identity and the same captured scope, the call reuses that
/// activation — the saved-return-site stack is exactly what it was.
pub proof fn lemma_tail_call_keeps_call_stack(
    p: Seq<CmdV>,
    s: StateV,
    rest: Seq<ValueV>,
    id: u64,
    addr: usize,
    closure_scope: Scope,
    args: Seq<ValueV>,
    k: nat,
    cf: CallFrame,
)
    requires
        tail_scan(p, s.ip + 1) == Some(k),
        nearest_function_frame(s.calls) == Some(cf),
        cf.func == Some(id),
        cf.scope == closure_scope,
        pop_scopes(s.frames, s.scope, k) is Some,
    ensures
        native_call(p, s, rest, id, addr, closure_scope, args) matches Ok(s1) && s1.calls
            == s.calls && s1.ip == addr,
{
}

/// A second access to a block field whose binding has already been
/// evaluated: the three transitions — enter the field body, load the
/// stored value, return — push exactly the stored value and leave
/// every binding, every frame, the call stack and the scope as they
/// were.  Access is referentially transparent: any two accesses of
/// that field from states sharing the arena observe this same value,
/// and the binding body never runs again.
#[verifier::rlimit(100)]
#[verifier::spinoff_prover]
pub proof fn lemma_access_of_evaluated_field(
    p: Seq<CmdV>,
    s: StateV,
    name: Seq<u8>,
    entry: usize,
    fields: Seq<(Seq<u8>, usize)>,
    bscope: Scope,
    slot: usize,
    n: usize,
    fi: usize,
    v: ValueV,
)
    requires
        s.ip < p.len(),
        p[s.ip as int] == CmdV::Access,
        s.stack.len() >= 2,
        s.stack.last() == ValueV::String(name),
        s.stack[s.stack.len() - 2] == ValueV::Block(
            crate::value::BlockV { entry, fields, scope: bscope },
        ),
        field_slot(fields, name) == Some(slot),
        entry + 2 * slot + 1 < p.len(),
        entry + 2 * slot + 1 <= usize::MAX,
        p[entry + 2 * slot] == CmdV::Load(n, 0),
        p[entry + 2 * slot + 1] == CmdV::Return,
        bscope.0 matches Some(i) && i == fi,
        fi < s.frames.len(),
        n < s.frames[fi as int].len,
        s.frames[fi as int].first + n < s.binds.len(),
        s.binds[s.frames[fi as int].first + n] == BindV::Evaluated(v),
        s.ip + 1 <= usize::MAX,
    ensures
        spec_steps_n(p, s, 3) == Ok::<StateV, RuntimeError>(StateV {
            stack: s.stack.drop_last().drop_last().push(v),
            ip: (s.ip + 1) as usize,
            ..s
        }),
{
    reveal_with_fuel(spec_steps_n, 4);
    let s1 = StateV {
        stack: s.stack.drop_last().drop_last(),
        calls: s.calls.push(CallFrame { func: None, ret: (s.ip + 1) as usize, scope: s.scope }),
        scope: bscope,
        ip: (entry + 2 * slot) as usize,
        ..s
    };
    assert(spec_step(p, s) == Ok::<StateV, RuntimeError>(s1));
    let s2 = StateV { stack: s1.stack.push(v), ip: (entry + 2 * slot + 1) as usize, ..s1 };
    assert(spec_step(p, s1) == Ok::<StateV, RuntimeError>(s2));
    let s3 = StateV { stack: s2.stack, calls: s.calls, scope: s.scope, ip: (s.ip + 1) as usize, ..s2 };
    assert(s1.calls.drop_last() =~= s.calls);
    assert(spec_step(p, s2) == Ok::<StateV, RuntimeError>(s3));
    assert(s3 =~= (StateV {
        stack: s.stack.drop_last().drop_last().push(v),
        ip: (s.ip + 1) as usize,
        ..s
    }));
}

/// Call arguments are compiled in source order: the code for the
/// first `j + 1` arguments is the code for the first `j` followed by
/// the code of argument `j`, so evaluation on the stack machine runs
/// left to right.
pub proof fn lemma_args_in_source_order(
    env: EnvV,
    args: Seq<Expression>,
    fid: u64,
    j: int,
    done: Seq<CmdV>,
    f: u64,
    a: Seq<CmdV>,
    f2: u64,
)
    requires
        0 <= j < args.len(),
        tr_args(env, args.take(j), fid) == Ok::<(Seq<CmdV>, u64), TransErrorV>((done, f)),
        tr_expression(env, args[j], f) == Ok::<(Seq<CmdV>, u64), TransErrorV>((a, f2)),
    ensures
        tr_args(env, args.take(j + 1), fid) == Ok::<(Seq<CmdV>, u64), TransErrorV>(
            (done + a, f2),
        ),
{
    reveal(tr_args);
    assert(args.take(j + 1).drop_last() =~= args.take(j));
    assert(args.take(j + 1).last() == args[j]);
}

/// A resolved lexical address is in bounds: the depth names an
/// existing frame, and the slot lies inside that frame's declared
/// names.  Every `Load` the lowering emits for an identifier carries
/// such an address.
pub proof fn lemma_lookup_address_in_bounds(env: EnvV, name: Seq<u8>)
    requires
        env.len() <= usize::MAX,
    ensures
        env_lookup(env, name) matches Some((slot, depth)) ==> depth < env.len() && slot
            < env[env.len() - 1 - depth].len(),
    decreases env.len(),
{
    if env.len() > 0 {
        lemma_frame_slot_in_bounds(env.last(), name);
        lemma_lookup_address_in_bounds(env.drop_last(), name);
        let rest = env_lookup(env.drop_last(), name);
        if rest is Some {
            let d = rest.unwrap().1;
            assert(env.drop_last()[env.drop_last().len() - 1 - d] == env[
                env.len() - 2 - d
            ]);
        }
    }
}

/// A slot found in one frame lies inside it.
pub proof fn lemma_frame_slot_in_bounds(names: Seq<Seq<u8>>, name: Seq<u8>)
    ensures
        crate::translator::frame_slot(names, name) matches Some(slot) ==> slot < names.len(),
    decreases names.len(),
{
    if names.len() > 0 {
        lemma_frame_slot_in_bounds(names.drop_last(), name);
    }
}

} // verus!
