//! The stack virtual machine and its specification.
//!
//! The machine state is a value stack, a call stack of return sites, a
//! frame arena holding every binding frame ever created, the handle of
//! the current scope chain, and an instruction pointer.  Scope chains
//! are persistent: entering a scope allocates a frame whose parent is
//! the previous handle, and leaving a scope merely steps to the parent,
//! so captured handles stay valid forever.
//!
//! `spec_step` is the machine's transition function; every instruction
//! handler is proved to implement it, and `run` is proved to compute
//! exactly `spec_run`, the iterated transition function.

use vstd::prelude::*;
use std::rc::Rc;
use crate::value::{
    Value, ValueV, Function, FunctionV, BlockValue, BlockV, ForeignFunction, ForeignKind,
    RuntimeError, Scope, models_of, lemma_models_of, spec_value_eq, spec_into_number,
    spec_into_bool, value_eq, bytes_eq,
};

verus! {

/// One instruction of the flat program.
#[derive(Debug)]
pub enum Cmd {
    Add,
    Sub,
    Mul,
    Div,
    Surplus,
    Equal,
    GreaterThan,
    LessThan,
    Not,
    /// Push the value of slot `.0` of the `.1`-th ancestor frame,
    /// running its thunk first if it has not been evaluated yet.
    Load(usize, usize),
    /// Write the top of the stack into slot `.0` of the current frame.
    Store(usize),
    /// Enter a scope of one binding per listed thunk size.
    Block(Vec<usize>),
    NumberConst(i64),
    StringConst(Rc<Vec<u8>>),
    NullConst,
    /// Pop `.0` values and push them as a list in source order.
    ConstructList(usize),
    /// Push a function value with identity `.0` whose body is the next
    /// `.1` instructions.
    ConstructFunction(u64, usize),
    /// Push a block value whose field-reading body is the next `.0`
    /// instructions, with the given field table.
    ConstructBlock(usize, Rc<Vec<(Vec<u8>, usize)>>),
    ConstructForeignFunction(ForeignFunction),
    JumpRel(usize),
    JumpRelUnless(usize),
    Call(usize),
    Index,
    Access,
    ExitScope,
    Return,
}

/// The mathematical shape of an instruction.
pub enum CmdV {
    Add,
    Sub,
    Mul,
    Div,
    Surplus,
    Equal,
    GreaterThan,
    LessThan,
    Not,
    Load(usize, usize),
    Store(usize),
    Block(Seq<usize>),
    NumberConst(i64),
    StringConst(Seq<u8>),
    NullConst,
    ConstructList(usize),
    ConstructFunction(u64, usize),
    ConstructBlock(usize, Seq<(Seq<u8>, usize)>),
    ConstructForeignFunction(ForeignFunction),
    JumpRel(usize),
    JumpRelUnless(usize),
    Call(usize),
    Index,
    Access,
    ExitScope,
    Return,
}

impl Cmd {
    /// The mathematical shape of this instruction.
    pub open spec fn model(self) -> CmdV {
        match self {
            Cmd::Add => CmdV::Add,
            Cmd::Sub => CmdV::Sub,
            Cmd::Mul => CmdV::Mul,
            Cmd::Div => CmdV::Div,
            Cmd::Surplus => CmdV::Surplus,
            Cmd::Equal => CmdV::Equal,
            Cmd::GreaterThan => CmdV::GreaterThan,
            Cmd::LessThan => CmdV::LessThan,
            Cmd::Not => CmdV::Not,
            Cmd::Load(n, d) => CmdV::Load(n, d),
            Cmd::Store(n) => CmdV::Store(n),
            Cmd::Block(sizes) => CmdV::Block(sizes@),
            Cmd::NumberConst(n) => CmdV::NumberConst(n),
            Cmd::StringConst(s) => CmdV::StringConst(s@),
            Cmd::NullConst => CmdV::NullConst,
            Cmd::ConstructList(n) => CmdV::ConstructList(n),
            Cmd::ConstructFunction(id, len) => CmdV::ConstructFunction(id, len),
            Cmd::ConstructBlock(len, fields) => CmdV::ConstructBlock(
                len,
                fields@.map_values(|p: (Vec<u8>, usize)| (p.0@, p.1)),
            ),
            Cmd::ConstructForeignFunction(f) => CmdV::ConstructForeignFunction(f),
            Cmd::JumpRel(n) => CmdV::JumpRel(n),
            Cmd::JumpRelUnless(n) => CmdV::JumpRelUnless(n),
            Cmd::Call(n) => CmdV::Call(n),
            Cmd::Index => CmdV::Index,
            Cmd::Access => CmdV::Access,
            Cmd::ExitScope => CmdV::ExitScope,
            Cmd::Return => CmdV::Return,
        }
    }
}

impl View for Cmd {
    type V = CmdV;

    open spec fn view(&self) -> CmdV {
        self.model()
    }
}

/// The mathematical shape of a program.
pub open spec fn program_model(p: Seq<Cmd>) -> Seq<CmdV> {
    p.map_values(|c: Cmd| c.model())
}

/// One binding slot: the entry address of its unevaluated thunk, or
/// the value the thunk produced.
#[derive(Debug)]
pub enum Bind {
    Cmd(usize),
    Evaluated(Value),
}

/// The mathematical shape of a binding slot.
pub enum BindV {
    Cmd(usize),
    Evaluated(ValueV),
}

impl Bind {
    /// The mathematical shape of this binding slot.
    pub open spec fn model(self) -> BindV {
        match self {
            Bind::Cmd(addr) => BindV::Cmd(addr),
            Bind::Evaluated(v) => BindV::Evaluated(v.model()),
        }
    }
}

/// The mathematical shapes of a sequence of binding slots.
pub open spec fn bind_models_of(s: Seq<Bind>) -> Seq<BindV>
    decreases s,
{
    if s.len() == 0 {
        Seq::empty()
    } else {
        bind_models_of(s.drop_last()).push(s.last().model())
    }
}

/// `bind_models_of` is the elementwise image of `Bind::model`.
pub proof fn lemma_bind_models_of(s: Seq<Bind>)
    ensures
        bind_models_of(s).len() == s.len(),
        forall|i: int| 0 <= i < s.len() ==> bind_models_of(s)[i] == s[i].model(),
    decreases s.len(),
{
    if s.len() > 0 {
        lemma_bind_models_of(s.drop_last());
    }
}

/// One saved return site: the function identity of the callee for
/// frames pushed by a user-function call (the key of tail-call
/// recognition), the return address, and the scope to restore.
#[derive(Clone, Copy, Debug)]
pub struct CallFrame {
    pub func: Option<u64>,
    pub ret: usize,
    pub scope: Scope,
}

/// One frame of the arena: its binding slots are
/// `binds[first .. first + len]`, and `parent` is the rest of its
/// scope chain.
#[derive(Clone, Copy, Debug)]
pub struct FrameInfo {
    pub first: usize,
    pub len: usize,
    pub parent: Scope,
}

/// The mathematical shape of the machine state.
#[verifier::ext_equal]
pub struct StateV {
    pub stack: Seq<ValueV>,
    pub calls: Seq<CallFrame>,
    pub frames: Seq<FrameInfo>,
    pub binds: Seq<BindV>,
    pub scope: Scope,
    pub ip: usize,
}

/// The machine state.
pub struct VM {
    pub stack: Vec<Value>,
    pub call_stack: Vec<CallFrame>,
    pub frames: Vec<FrameInfo>,
    pub binds: Vec<Bind>,
    pub scope: Scope,
    pub ip: usize,
}

impl View for VM {
    type V = StateV;

    open spec fn view(&self) -> StateV {
        StateV {
            stack: models_of(self.stack@),
            calls: self.call_stack@,
            frames: self.frames@,
            binds: bind_models_of(self.binds@),
            scope: self.scope,
            ip: self.ip,
        }
    }
}

/// A scope handle either is empty or names an existing frame.
pub open spec fn scope_ok(sc: Scope, frames: Seq<FrameInfo>) -> bool {
    sc.0 matches Some(i) ==> i < frames.len()
}

/// Well-formedness of a machine state: every frame's parent was
/// allocated before it (so every chain reaches the root), every
/// frame's slots lie inside the bind arena, and the current and every
/// saved scope handle name existing frames.
pub open spec fn wf_state(s: StateV) -> bool {
    &&& scope_ok(s.scope, s.frames)
    &&& forall|k: int| 0 <= k < s.frames.len() ==>
        (#[trigger] s.frames[k].parent.0 matches Some(p) ==> p < k)
    &&& forall|k: int| 0 <= k < s.frames.len() ==>
        (#[trigger] s.frames[k]).first + s.frames[k].len <= s.binds.len()
    &&& forall|j: int| 0 <= j < s.calls.len() ==>
        scope_ok((#[trigger] s.calls[j]).scope, s.frames)
}

/// The frame named by the `d`-th ancestor of a scope chain, if the
/// chain is that long and every handle on the way is valid.
pub open spec fn nth_parent_frame(frames: Seq<FrameInfo>, sc: Scope, d: nat) -> Option<usize>
    decreases d,
{
    match sc.0 {
        None => None,
        Some(i) => {
            if i >= frames.len() {
                None
            } else if d == 0 {
                Some(i)
            } else {
                nth_parent_frame(frames, frames[i as int].parent, (d - 1) as nat)
            }
        },
    }
}

/// The root frame of the chain starting at frame `i`: the frame whose
/// parent is empty.
pub open spec fn root_frame_of(frames: Seq<FrameInfo>, i: nat) -> Option<usize>
    decreases i,
{
    if i >= frames.len() {
        None
    } else {
        match frames[i as int].parent.0 {
            None => Some(i as usize),
            Some(p) => if p < i {
                root_frame_of(frames, p as nat)
            } else {
                None
            },
        }
    }
}

/// The slot of a field name in a field table; the last entry wins, as
/// a later binding of the same name shadows an earlier one.
pub open spec fn field_slot(fields: Seq<(Seq<u8>, usize)>, name: Seq<u8>) -> Option<usize>
    decreases fields.len(),
{
    if fields.len() == 0 {
        None
    } else if fields.last().0 == name {
        Some(fields.last().1)
    } else {
        field_slot(fields.drop_last(), name)
    }
}

/// The sum of a sequence of thunk sizes.
pub open spec fn sizes_sum(sizes: Seq<usize>) -> int
    decreases sizes.len(),
{
    if sizes.len() == 0 {
        0
    } else {
        sizes_sum(sizes.drop_last()) + sizes.last()
    }
}

/// The thunk slots a `Block` instruction at address `base - 1` builds:
/// slot `i` points at the first instruction after the thunks of the
/// earlier slots.
pub open spec fn block_thunks(base: int, sizes: Seq<usize>) -> Seq<BindV>
    decreases sizes.len(),
{
    if sizes.len() == 0 {
        Seq::empty()
    } else {
        block_thunks(base, sizes.drop_last()).push(
            BindV::Cmd((base + sizes_sum(sizes.drop_last())) as usize),
        )
    }
}





/// Popping `k` scopes off a chain: the handle after following `k`
/// parent links, if every handle on the way names an existing frame.
pub open spec fn pop_scopes(frames: Seq<FrameInfo>, sc: Scope, k: nat) -> Option<Scope>
    decreases k,
{
    if k == 0 {
        Some(sc)
    } else {
        match sc.0 {
            None => None,
            Some(i) => if i < frames.len() {
                pop_scopes(frames, frames[i as int].parent, (k - 1) as nat)
            } else {
                None
            },
        }
    }
}

/// The tail-position lookahead: starting at `i`, the number of
/// `ExitScope` instructions standing before a `Return`, or nothing if
/// any other instruction comes first.
pub open spec fn tail_scan(p: Seq<CmdV>, i: int) -> Option<nat>
    decreases p.len() - i,
{
    if i < 0 || i >= p.len() {
        None
    } else {
        match p[i] {
            CmdV::Return => Some(0),
            CmdV::ExitScope => match tail_scan(p, i + 1) {
                Some(k) => Some(k + 1),
                None => None,
            },
            _ => None,
        }
    }
}

/// The newest call frame that belongs to a user-function call.
pub open spec fn nearest_function_frame(calls: Seq<CallFrame>) -> Option<CallFrame>
    decreases calls.len(),
{
    if calls.len() == 0 {
        None
    } else if calls.last().func is Some {
        Some(calls.last())
    } else {
        nearest_function_frame(calls.drop_last())
    }
}

/// Argument values as already-evaluated binding slots.
pub open spec fn evaluated_binds(args: Seq<ValueV>) -> Seq<BindV> {
    args.map_values(|v: ValueV| BindV::Evaluated(v))
}

/// The numbers `a, a+1, …, b-1` as values.
pub open spec fn range_values(a: int, b: int) -> Seq<ValueV>
    decreases b - a,
{
    if a >= b {
        Seq::empty()
    } else {
        seq![ValueV::Number(a as i64)] + range_values(a + 1, b)
    }
}

/// The position of the first occurrence of `pat` in `s` at or after
/// `from`.
pub open spec fn find_pattern(s: Seq<u8>, pat: Seq<u8>, from: int) -> Option<int>
    decreases s.len() - from,
{
    if pat.len() == 0 || from < 0 || from + pat.len() > s.len() {
        None
    } else if s.subrange(from, from + pat.len() as int) == pat {
        Some(from)
    } else {
        find_pattern(s, pat, from + 1)
    }
}

/// The pieces of `s` between non-overlapping occurrences of `pat`,
/// scanned left to right.  An empty pattern splits nothing.
pub open spec fn split_bytes(s: Seq<u8>, pat: Seq<u8>) -> Seq<Seq<u8>>
    decreases s.len(),
{
    if pat.len() == 0 {
        seq![s]
    } else {
        match find_pattern(s, pat, 0) {
            None => seq![s],
            Some(i) => if 0 <= i && i + pat.len() <= s.len() {
                seq![s.subrange(0, i)] + split_bytes(
                    s.subrange(i + pat.len() as int, s.len() as int),
                    pat,
                )
            } else {
                seq![s]
            },
        }
    }
}

/// What one arithmetic instruction computes, with its failures.
pub open spec fn arith_result(op: CmdV, l: i64, r: i64) -> Result<i64, RuntimeError> {
    match op {
        CmdV::Add => match l.checked_add(r) {
            Some(x) => Ok(x),
            None => Err(RuntimeError::Overflow),
        },
        CmdV::Sub => match l.checked_sub(r) {
            Some(x) => Ok(x),
            None => Err(RuntimeError::Overflow),
        },
        CmdV::Mul => match l.checked_mul(r) {
            Some(x) => Ok(x),
            None => Err(RuntimeError::Overflow),
        },
        CmdV::Div => if r == 0 {
            Err(RuntimeError::DivisionByZero)
        } else {
            match l.checked_div(r) {
                Some(x) => Ok(x),
                None => Err(RuntimeError::Overflow),
            }
        },
        CmdV::Surplus => if r == 0 {
            Err(RuntimeError::DivisionByZero)
        } else {
            match l.checked_rem(r) {
                Some(x) => Ok(x),
                None => Err(RuntimeError::Overflow),
            }
        },
        _ => Err(RuntimeError::CorruptProgram),
    }
}

/// An arithmetic step: pop the right then the left number, combine,
/// push the result.
pub open spec fn step_arith(op: CmdV, s: StateV) -> Result<StateV, RuntimeError> {
    if s.stack.len() == 0 {
        Err(RuntimeError::StackUnderflow)
    } else {
        match spec_into_number(s.stack.last()) {
            Err(e) => Err(e),
            Ok(r) => {
                let st1 = s.stack.drop_last();
                if st1.len() == 0 {
                    Err(RuntimeError::StackUnderflow)
                } else {
                    match spec_into_number(st1.last()) {
                        Err(e) => Err(e),
                        Ok(l) => match arith_result(op, l, r) {
                            Err(e) => Err(e),
                            Ok(x) => Ok(StateV {
                                stack: st1.drop_last().push(ValueV::Number(x)),
                                ip: (s.ip + 1) as usize,
                                ..s
                            }),
                        },
                    }
                }
            },
        }
    }
}

/// A comparison step: pop the right then the left number, push the
/// boolean.
pub open spec fn step_compare(op: CmdV, s: StateV) -> Result<StateV, RuntimeError> {
    if s.stack.len() == 0 {
        Err(RuntimeError::StackUnderflow)
    } else {
        match spec_into_number(s.stack.last()) {
            Err(e) => Err(e),
            Ok(r) => {
                let st1 = s.stack.drop_last();
                if st1.len() == 0 {
                    Err(RuntimeError::StackUnderflow)
                } else {
                    match spec_into_number(st1.last()) {
                        Err(e) => Err(e),
                        Ok(l) => Ok(StateV {
                            stack: st1.drop_last().push(
                                ValueV::Bool(if op is GreaterThan { l > r } else { l < r }),
                            ),
                            ip: (s.ip + 1) as usize,
                            ..s
                        }),
                    }
                }
            },
        }
    }
}

/// `Equal`: pop two values of any kinds and push whether the language
/// counts them equal.
pub open spec fn step_equal(s: StateV) -> Result<StateV, RuntimeError> {
    if s.stack.len() < 2 {
        Err(RuntimeError::StackUnderflow)
    } else {
        let r = s.stack.last();
        let l = s.stack.drop_last().last();
        Ok(StateV {
            stack: s.stack.drop_last().drop_last().push(ValueV::Bool(spec_value_eq(r, l))),
            ip: (s.ip + 1) as usize,
            ..s
        })
    }
}

/// `Not`: pop a bool and push its negation.
pub open spec fn step_not(s: StateV) -> Result<StateV, RuntimeError> {
    if s.stack.len() == 0 {
        Err(RuntimeError::StackUnderflow)
    } else {
        match spec_into_bool(s.stack.last()) {
            Err(e) => Err(e),
            Ok(b) => Ok(StateV {
                stack: s.stack.drop_last().push(ValueV::Bool(!b)),
                ip: (s.ip + 1) as usize,
                ..s
            }),
        }
    }
}

/// Push one literal value and advance.
pub open spec fn step_push(s: StateV, v: ValueV) -> Result<StateV, RuntimeError> {
    Ok(StateV { stack: s.stack.push(v), ip: (s.ip + 1) as usize, ..s })
}

/// `ConstructList(n)`: pop `n` values and push them as one list in
/// source order.
pub open spec fn step_construct_list(s: StateV, n: usize) -> Result<StateV, RuntimeError> {
    if s.stack.len() < n {
        Err(RuntimeError::StackUnderflow)
    } else {
        let items = s.stack.subrange(s.stack.len() - n, s.stack.len() as int);
        Ok(StateV {
            stack: s.stack.subrange(0, s.stack.len() - n).push(ValueV::List(items)),
            ip: (s.ip + 1) as usize,
            ..s
        })
    }
}

/// `Block(sizes)`: allocate a frame of one thunk slot per binding and
/// continue after the thunk region.
pub open spec fn step_block(s: StateV, sizes: Seq<usize>) -> Result<StateV, RuntimeError> {
    if s.ip + 1 + sizes_sum(sizes) > usize::MAX {
        Err(RuntimeError::CorruptProgram)
    } else {
        Ok(StateV {
            stack: s.stack,
            calls: s.calls,
            frames: s.frames.push(FrameInfo {
                first: s.binds.len() as usize,
                len: sizes.len() as usize,
                parent: s.scope,
            }),
            binds: s.binds + block_thunks(s.ip + 1, sizes),
            scope: Scope(Some(s.frames.len() as usize)),
            ip: (s.ip + 1 + sizes_sum(sizes)) as usize,
        })
    }
}

/// `ExitScope`: step to the parent of the current scope chain.
pub open spec fn step_exit_scope(s: StateV) -> Result<StateV, RuntimeError> {
    match s.scope.0 {
        None => Err(RuntimeError::CorruptScope),
        Some(i) => if i >= s.frames.len() {
            Err(RuntimeError::CorruptScope)
        } else {
            Ok(StateV {
                scope: s.frames[i as int].parent,
                ip: (s.ip + 1) as usize,
                ..s
            })
        },
    }
}

/// `Store(n)`: write the top of the stack into slot `n` of the current
/// frame, leaving the value on the stack.
pub open spec fn step_store(s: StateV, n: usize) -> Result<StateV, RuntimeError> {
    if s.stack.len() == 0 {
        Err(RuntimeError::StackUnderflow)
    } else {
        match s.scope.0 {
            None => Err(RuntimeError::CorruptScope),
            Some(i) => if i >= s.frames.len() {
                Err(RuntimeError::CorruptScope)
            } else {
                let f = s.frames[i as int];
                if n >= f.len || f.first + n >= s.binds.len() {
                    Err(RuntimeError::CorruptScope)
                } else {
                    Ok(StateV {
                        binds: s.binds.update(
                            f.first + n,
                            BindV::Evaluated(s.stack.last()),
                        ),
                        ip: (s.ip + 1) as usize,
                        ..s
                    })
                }
            },
        }
    }
}

/// `Load(n, d)`: push the value of slot `n` of the `d`-th ancestor
/// frame; an unevaluated slot transfers control into its thunk, which
/// runs in its defining scope.
pub open spec fn step_load(s: StateV, n: usize, d: usize) -> Result<StateV, RuntimeError> {
    match nth_parent_frame(s.frames, s.scope, d as nat) {
        None => Err(RuntimeError::CorruptScope),
        Some(t) => {
            let f = s.frames[t as int];
            if n >= f.len || f.first + n >= s.binds.len() {
                Err(RuntimeError::CorruptScope)
            } else {
                match s.binds[f.first + n] {
                    BindV::Evaluated(v) => Ok(StateV {
                        stack: s.stack.push(v),
                        ip: (s.ip + 1) as usize,
                        ..s
                    }),
                    BindV::Cmd(addr) => Ok(StateV {
                        calls: s.calls.push(CallFrame {
                            func: None,
                            ret: (s.ip + 1) as usize,
                            scope: s.scope,
                        }),
                        scope: Scope(Some(t)),
                        ip: addr,
                        ..s
                    }),
                }
            }
        },
    }
}

/// `Return`: restore the newest saved return site.
pub open spec fn step_return(s: StateV) -> Result<StateV, RuntimeError> {
    if s.calls.len() == 0 {
        Err(RuntimeError::CallStackUnderflow)
    } else {
        let cf = s.calls.last();
        Ok(StateV { calls: s.calls.drop_last(), scope: cf.scope, ip: cf.ret, ..s })
    }
}

/// `JumpRel(n)`: skip `n` instructions ahead.
pub open spec fn step_jump_rel(s: StateV, n: usize) -> Result<StateV, RuntimeError> {
    if s.ip + n > usize::MAX {
        Err(RuntimeError::CorruptProgram)
    } else {
        Ok(StateV { ip: (s.ip + n) as usize, ..s })
    }
}

/// `JumpRelUnless(n)`: pop a bool and skip `n` instructions ahead if
/// it is false.
pub open spec fn step_jump_rel_unless(s: StateV, n: usize) -> Result<StateV, RuntimeError> {
    if s.stack.len() == 0 {
        Err(RuntimeError::StackUnderflow)
    } else {
        match spec_into_bool(s.stack.last()) {
            Err(e) => Err(e),
            Ok(b) => if !b {
                if s.ip + n > usize::MAX {
                    Err(RuntimeError::CorruptProgram)
                } else {
                    Ok(StateV { stack: s.stack.drop_last(), ip: (s.ip + n) as usize, ..s })
                }
            } else {
                Ok(StateV { stack: s.stack.drop_last(), ip: (s.ip + 1) as usize, ..s })
            },
        }
    }
}

/// `ConstructFunction(id, len)`: push a closure over the current scope
/// whose body is the next `len` instructions, and skip past the body.
pub open spec fn step_construct_function(s: StateV, id: u64, len: usize) -> Result<
    StateV,
    RuntimeError,
> {
    if s.ip + 1 + len > usize::MAX {
        Err(RuntimeError::CorruptProgram)
    } else {
        Ok(StateV {
            stack: s.stack.push(
                ValueV::Function(FunctionV::Native(id, (s.ip + 1) as usize, s.scope)),
            ),
            ip: (s.ip + 1 + len) as usize,
            ..s
        })
    }
}

/// `ConstructBlock(len, fields)`: push a block value over the current
/// scope whose field-reading body is the next `len` instructions, and
/// skip past the body.
pub open spec fn step_construct_block(
    s: StateV,
    len: usize,
    fields: Seq<(Seq<u8>, usize)>,
) -> Result<StateV, RuntimeError> {
    if s.ip + 1 + len > usize::MAX {
        Err(RuntimeError::CorruptProgram)
    } else {
        Ok(StateV {
            stack: s.stack.push(
                ValueV::Block(BlockV { entry: (s.ip + 1) as usize, fields, scope: s.scope }),
            ),
            ip: (s.ip + 1 + len) as usize,
            ..s
        })
    }
}

/// Entering a block's field body: save the return site, switch to the
/// block's captured scope, and jump to the field's `Load`/`Return`
/// pair.
pub open spec fn enter_block_field(
    s: StateV,
    rest: Seq<ValueV>,
    b: BlockV,
    name: Seq<u8>,
) -> Result<StateV, RuntimeError> {
    match field_slot(b.fields, name) {
        None => Err(RuntimeError::UnknownField),
        Some(slot) => if b.entry + 2 * slot > usize::MAX {
            Err(RuntimeError::CorruptProgram)
        } else if !scope_ok(b.scope, s.frames) {
            Err(RuntimeError::CorruptScope)
        } else {
            Ok(StateV {
                stack: rest,
                calls: s.calls.push(CallFrame {
                    func: None,
                    ret: (s.ip + 1) as usize,
                    scope: s.scope,
                }),
                scope: b.scope,
                ip: (b.entry + 2 * slot) as usize,
                ..s
            })
        },
    }
}

/// `Index`: pop the key and the container; a number indexes a list,
/// and a string accesses a block field.
pub open spec fn step_index(s: StateV) -> Result<StateV, RuntimeError> {
    if s.stack.len() == 0 {
        Err(RuntimeError::StackUnderflow)
    } else {
        let key = s.stack.last();
        let st1 = s.stack.drop_last();
        if st1.len() == 0 {
            Err(RuntimeError::StackUnderflow)
        } else {
            let container = st1.last();
            let st2 = st1.drop_last();
            match container {
                ValueV::List(items) => match key {
                    ValueV::Number(n) => if n < 0 || n >= items.len() {
                        Err(RuntimeError::IndexOutOfRange)
                    } else {
                        Ok(StateV {
                            stack: st2.push(items[n as int]),
                            ip: (s.ip + 1) as usize,
                            ..s
                        })
                    },
                    _ => Err(RuntimeError::NotNumber),
                },
                ValueV::Block(b) => match key {
                    ValueV::String(name) => enter_block_field(s, st2, b, name),
                    _ => Err(RuntimeError::NotString),
                },
                _ => Err(RuntimeError::NotList),
            }
        }
    }
}

/// `Access`: pop the field name and the receiver.  A block enters its
/// field body; a string or list yields a built-in method value or, for
/// `count`, the length itself.
pub open spec fn step_access(s: StateV) -> Result<StateV, RuntimeError> {
    if s.stack.len() == 0 {
        Err(RuntimeError::StackUnderflow)
    } else {
        match s.stack.last() {
            ValueV::String(name) => {
                let st1 = s.stack.drop_last();
                if st1.len() == 0 {
                    Err(RuntimeError::StackUnderflow)
                } else {
                    let recv = st1.last();
                    let st2 = st1.drop_last();
                    match recv {
                        ValueV::Block(b) => enter_block_field(s, st2, b, name),
                        ValueV::String(_) => if name == crate::names::concat_name() {
                            Ok(StateV {
                                stack: st2.push(method_value(ForeignKind::StringConcat, recv)),
                                ip: (s.ip + 1) as usize,
                                ..s
                            })
                        } else if name == crate::names::split_name() {
                            Ok(StateV {
                                stack: st2.push(method_value(ForeignKind::StringSplit, recv)),
                                ip: (s.ip + 1) as usize,
                                ..s
                            })
                        } else {
                            Err(RuntimeError::UnknownField)
                        },
                        ValueV::List(items) => if name == crate::names::count_name() {
                            if items.len() > i64::MAX {
                                Err(RuntimeError::Overflow)
                            } else {
                                Ok(StateV {
                                    stack: st2.push(ValueV::Number(items.len() as i64)),
                                    ip: (s.ip + 1) as usize,
                                    ..s
                                })
                            }
                        } else if name == crate::names::concat_name() {
                            Ok(StateV {
                                stack: st2.push(method_value(ForeignKind::ListConcat, recv)),
                                ip: (s.ip + 1) as usize,
                                ..s
                            })
                        } else if name == crate::names::filter_name() {
                            Ok(StateV {
                                stack: st2.push(method_value(ForeignKind::ListFilter, recv)),
                                ip: (s.ip + 1) as usize,
                                ..s
                            })
                        } else if name == crate::names::map_name() {
                            Ok(StateV {
                                stack: st2.push(method_value(ForeignKind::ListMap, recv)),
                                ip: (s.ip + 1) as usize,
                                ..s
                            })
                        } else {
                            Err(RuntimeError::UnknownField)
                        },
                        _ => Err(RuntimeError::NotBlock),
                    }
                }
            },
            _ => Err(RuntimeError::NotString),
        }
    }
}

/// A built-in bound to its receiver, as a value.
pub open spec fn method_value(kind: ForeignKind, recv: ValueV) -> ValueV {
    ValueV::Function(FunctionV::Foreign(ForeignFunction(kind), seq![recv]))
}


/// The root-frame slots of the routines the seeded standard library
/// compiles into every program.
pub const FILTER_SLOT: usize = 4;

/// The root-frame slot of the seeded list-map routine.
pub const MAP_IMPL_SLOT: usize = 5;

/// The root-frame slot of the seeded block-values routine.
pub const VALUES_SLOT: usize = 6;

/// Resolving a seeded routine: the function value held (or still to be
/// built by the thunk) in the given slot of the root frame of the
/// current chain.
pub open spec fn resolve_root_function(p: Seq<CmdV>, s: StateV, slot: usize) -> Result<
    (u64, usize, Scope),
    RuntimeError,
> {
    match s.scope.0 {
        None => Err(RuntimeError::CorruptScope),
        Some(i) => match root_frame_of(s.frames, i as nat) {
            None => Err(RuntimeError::CorruptScope),
            Some(r) => {
                let f = s.frames[r as int];
                if slot >= f.len || f.first + slot >= s.binds.len() {
                    Err(RuntimeError::CorruptScope)
                } else {
                    match s.binds[f.first + slot] {
                        BindV::Evaluated(v) => match v {
                            ValueV::Function(FunctionV::Native(id, addr, sc)) => Ok(
                                (id, addr, sc),
                            ),
                            _ => Err(RuntimeError::NotFunction),
                        },
                        BindV::Cmd(a) => if a >= p.len() {
                            Err(RuntimeError::CorruptProgram)
                        } else {
                            match p[a as int] {
                                CmdV::ConstructFunction(id, len) => Ok(
                                    (id, (a + 1) as usize, Scope(Some(r))),
                                ),
                                _ => Err(RuntimeError::CorruptProgram),
                            }
                        },
                    }
                }
            },
        },
    }
}

/// Calling compiled code: bind the arguments as a fresh frame on the
/// callee's captured scope and jump to its body, saving the return
/// site — except that a tail-position self-call reuses the enclosing
/// activation instead of saving a new one.
pub open spec fn native_call(
    p: Seq<CmdV>,
    s: StateV,
    rest: Seq<ValueV>,
    id: u64,
    addr: usize,
    closure_scope: Scope,
    args: Seq<ValueV>,
) -> Result<StateV, RuntimeError> {
    let tail = match (tail_scan(p, s.ip + 1), nearest_function_frame(s.calls)) {
        (Some(k), Some(cf)) => if cf.func == Some(id) && cf.scope == closure_scope {
            Some(k)
        } else {
            None
        },
        _ => None,
    };
    match tail {
        Some(k) => match pop_scopes(s.frames, s.scope, k) {
            None => Err(RuntimeError::CorruptScope),
            Some(base) => Ok(StateV {
                stack: rest,
                calls: s.calls,
                frames: s.frames.push(FrameInfo {
                    first: s.binds.len() as usize,
                    len: args.len() as usize,
                    parent: base,
                }),
                binds: s.binds + evaluated_binds(args),
                scope: Scope(Some(s.frames.len() as usize)),
                ip: addr,
            }),
        },
        None => if !scope_ok(closure_scope, s.frames) {
            Err(RuntimeError::CorruptScope)
        } else {
            Ok(StateV {
                stack: rest,
                calls: s.calls.push(CallFrame {
                    func: Some(id),
                    ret: (s.ip + 1) as usize,
                    scope: s.scope,
                }),
                frames: s.frames.push(FrameInfo {
                    first: s.binds.len() as usize,
                    len: args.len() as usize,
                    parent: closure_scope,
                }),
                binds: s.binds + evaluated_binds(args),
                scope: Scope(Some(s.frames.len() as usize)),
                ip: addr,
            })
        },
    }
}

/// The field names of a block, as string values in slot order.
pub open spec fn block_key_values(fields: Seq<(Seq<u8>, usize)>) -> Seq<ValueV> {
    fields.map_values(|p: (Seq<u8>, usize)| ValueV::String(p.0))
}

/// Calling a built-in.  The receiver, if any, stands before the
/// explicit arguments.  The pure built-ins compute their value
/// directly; the routine-backed ones resolve their seeded routine and
/// call it like compiled code.
pub open spec fn foreign_call(
    p: Seq<CmdV>,
    s: StateV,
    rest: Seq<ValueV>,
    kind: ForeignKind,
    recv: Seq<ValueV>,
    args: Seq<ValueV>,
) -> Result<StateV, RuntimeError> {
    let eff = recv + args;
    match kind {
        ForeignKind::ListRange => if eff.len() != 2 {
            Err(RuntimeError::Arity)
        } else {
            match (eff[0], eff[1]) {
                (ValueV::Number(a), ValueV::Number(b)) => Ok(StateV {
                    stack: rest.push(ValueV::List(range_values(a as int, b as int))),
                    ip: (s.ip + 1) as usize,
                    ..s
                }),
                _ => Err(RuntimeError::NotNumber),
            }
        },
        ForeignKind::ListConcat => if eff.len() != 2 {
            Err(RuntimeError::Arity)
        } else {
            match (eff[0], eff[1]) {
                (ValueV::List(x), ValueV::List(y)) => Ok(StateV {
                    stack: rest.push(ValueV::List(x + y)),
                    ip: (s.ip + 1) as usize,
                    ..s
                }),
                _ => Err(RuntimeError::NotList),
            }
        },
        ForeignKind::StringConcat => if eff.len() != 2 {
            Err(RuntimeError::Arity)
        } else {
            match (eff[0], eff[1]) {
                (ValueV::String(x), ValueV::String(y)) => Ok(StateV {
                    stack: rest.push(ValueV::String(x + y)),
                    ip: (s.ip + 1) as usize,
                    ..s
                }),
                _ => Err(RuntimeError::NotString),
            }
        },
        ForeignKind::StringSplit => if eff.len() != 2 {
            Err(RuntimeError::Arity)
        } else {
            match (eff[0], eff[1]) {
                (ValueV::String(x), ValueV::String(pat)) => Ok(StateV {
                    stack: rest.push(
                        ValueV::List(
                            split_bytes(x, pat).map_values(|piece: Seq<u8>|
                                ValueV::String(piece)),
                        ),
                    ),
                    ip: (s.ip + 1) as usize,
                    ..s
                }),
                _ => Err(RuntimeError::NotString),
            }
        },
        ForeignKind::MapKeys => if eff.len() != 1 {
            Err(RuntimeError::Arity)
        } else {
            match eff[0] {
                ValueV::Block(b) => Ok(StateV {
                    stack: rest.push(ValueV::List(block_key_values(b.fields))),
                    ip: (s.ip + 1) as usize,
                    ..s
                }),
                _ => Err(RuntimeError::NotBlock),
            }
        },
        ForeignKind::ListFilter => if eff.len() != 2 {
            Err(RuntimeError::Arity)
        } else {
            match resolve_root_function(p, s, FILTER_SLOT) {
                Err(e) => Err(e),
                Ok((id, addr, sc)) => native_call(p, s, rest, id, addr, sc, eff),
            }
        },
        ForeignKind::ListMap => if eff.len() != 2 {
            Err(RuntimeError::Arity)
        } else {
            match resolve_root_function(p, s, MAP_IMPL_SLOT) {
                Err(e) => Err(e),
                Ok((id, addr, sc)) => native_call(p, s, rest, id, addr, sc, eff),
            }
        },
        ForeignKind::MapValues => if eff.len() != 1 {
            Err(RuntimeError::Arity)
        } else {
            match eff[0] {
                ValueV::Block(b) => match resolve_root_function(p, s, VALUES_SLOT) {
                    Err(e) => Err(e),
                    Ok((id, addr, sc)) => native_call(
                        p,
                        s,
                        rest,
                        id,
                        addr,
                        sc,
                        seq![eff[0], ValueV::List(block_key_values(b.fields))],
                    ),
                },
                _ => Err(RuntimeError::NotBlock),
            }
        },
    }
}

/// `Call(argc)`: pop the arguments (in source order) and the callee,
/// then enter compiled code or run a built-in.
pub open spec fn step_call(p: Seq<CmdV>, s: StateV, argc: usize) -> Result<
    StateV,
    RuntimeError,
> {
    if s.stack.len() < argc {
        Err(RuntimeError::StackUnderflow)
    } else {
        let args = s.stack.subrange(s.stack.len() - argc, s.stack.len() as int);
        let st1 = s.stack.subrange(0, s.stack.len() - argc);
        if st1.len() == 0 {
            Err(RuntimeError::StackUnderflow)
        } else {
            let rest = st1.drop_last();
            match st1.last() {
                ValueV::Function(FunctionV::Native(id, addr, sc)) => native_call(
                    p,
                    s,
                    rest,
                    id,
                    addr,
                    sc,
                    args,
                ),
                ValueV::Function(FunctionV::Foreign(ff, recv)) => foreign_call(
                    p,
                    s,
                    rest,
                    ff.0,
                    recv,
                    args,
                ),
                _ => Err(RuntimeError::NotFunction),
            }
        }
    }
}

/// The machine's transition function: what executing the instruction
/// under the instruction pointer does to the state, or the error it
/// raises.
pub open spec fn spec_step(p: Seq<CmdV>, s: StateV) -> Result<StateV, RuntimeError> {
    if s.ip >= p.len() {
        Err(RuntimeError::CorruptProgram)
    } else {
        match p[s.ip as int] {
            CmdV::Add => step_arith(CmdV::Add, s),
            CmdV::Sub => step_arith(CmdV::Sub, s),
            CmdV::Mul => step_arith(CmdV::Mul, s),
            CmdV::Div => step_arith(CmdV::Div, s),
            CmdV::Surplus => step_arith(CmdV::Surplus, s),
            CmdV::Equal => step_equal(s),
            CmdV::GreaterThan => step_compare(CmdV::GreaterThan, s),
            CmdV::LessThan => step_compare(CmdV::LessThan, s),
            CmdV::Not => step_not(s),
            CmdV::Load(n, d) => step_load(s, n, d),
            CmdV::Store(n) => step_store(s, n),
            CmdV::Block(sizes) => step_block(s, sizes),
            CmdV::NumberConst(n) => step_push(s, ValueV::Number(n)),
            CmdV::StringConst(bytes) => step_push(s, ValueV::String(bytes)),
            CmdV::NullConst => step_push(s, ValueV::Null),
            CmdV::ConstructList(n) => step_construct_list(s, n),
            CmdV::ConstructFunction(id, len) => step_construct_function(s, id, len),
            CmdV::ConstructBlock(len, fields) => step_construct_block(s, len, fields),
            CmdV::ConstructForeignFunction(f) => step_push(
                s,
                ValueV::Function(FunctionV::Foreign(f, Seq::empty())),
            ),
            CmdV::JumpRel(n) => step_jump_rel(s, n),
            CmdV::JumpRelUnless(n) => step_jump_rel_unless(s, n),
            CmdV::Call(argc) => step_call(p, s, argc),
            CmdV::Index => step_index(s),
            CmdV::Access => step_access(s),
            CmdV::ExitScope => step_exit_scope(s),
            CmdV::Return => step_return(s),
        }
    }
}

/// The state a program starts in: everything empty, the instruction
/// pointer at the first instruction.
pub open spec fn initial_state() -> StateV {
    StateV {
        stack: Seq::empty(),
        calls: Seq::empty(),
        frames: Seq::empty(),
        binds: Seq::empty(),
        scope: Scope(None),
        ip: 0,
    }
}

/// Running the machine for at most `fuel` transitions: the final value
/// left on the stack when the instruction pointer leaves the program,
/// or the error the first failing transition raises, or `OutOfFuel`.
pub open spec fn spec_run(p: Seq<CmdV>, s: StateV, fuel: nat) -> Result<ValueV, RuntimeError>
    decreases fuel,
{
    if s.ip >= p.len() {
        if s.stack.len() > 0 {
            Ok(s.stack.last())
        } else {
            Err(RuntimeError::StackUnderflow)
        }
    } else if fuel == 0 {
        Err(RuntimeError::OutOfFuel)
    } else {
        match spec_step(p, s) {
            Err(e) => Err(e),
            Ok(s2) => spec_run(p, s2, (fuel - 1) as nat),
        }
    }
}


/// Pushing a value commutes with taking models.
pub proof fn lemma_models_push(s: Seq<Value>, v: Value)
    ensures
        models_of(s.push(v)) == models_of(s).push(v.model()),
{
    assert(s.push(v).drop_last() =~= s);
}

/// Pushing a binding slot commutes with taking models.
pub proof fn lemma_bind_models_push(s: Seq<Bind>, b: Bind)
    ensures
        bind_models_of(s.push(b)) == bind_models_of(s).push(b.model()),
{
    assert(s.push(b).drop_last() =~= s);
}

/// Concatenation commutes with taking models of binding slots.
pub proof fn lemma_bind_models_append(a: Seq<Bind>, b: Seq<Bind>)
    ensures
        bind_models_of(a + b) == bind_models_of(a) + bind_models_of(b),
    decreases b.len(),
{
    if b.len() == 0 {
        assert(a + b =~= a);
        assert(bind_models_of(a) + bind_models_of(b) =~= bind_models_of(a));
    } else {
        lemma_bind_models_append(a, b.drop_last());
        assert((a + b).drop_last() =~= a + b.drop_last());
        assert(bind_models_of(a + b.drop_last()).push(b.last().model()) =~= bind_models_of(
            a,
        ) + bind_models_of(b));
    }
}

/// Updating one slot commutes with taking models of binding slots.
pub proof fn lemma_bind_models_update(s: Seq<Bind>, i: int, b: Bind)
    requires
        0 <= i < s.len(),
    ensures
        bind_models_of(s.update(i, b)) == bind_models_of(s).update(i, b.model()),
{
    lemma_bind_models_of(s);
    lemma_bind_models_of(s.update(i, b));
    assert(bind_models_of(s.update(i, b)) =~= bind_models_of(s).update(i, b.model()));
}

impl VM {
    /// Pops the top of the value stack.
    fn pop_value(&mut self) -> (r: Result<Value, RuntimeError>)
        ensures
            match r {
                Ok(v) => old(self)@.stack.len() > 0 && v@ == old(self)@.stack.last()
                    && final(self)@ == (StateV { stack: old(self)@.stack.drop_last(), ..old(self)@ }),
                Err(e) => e == RuntimeError::StackUnderflow && old(self)@.stack.len() == 0
                    && final(self)@ == old(self)@,
            },
    {
        match self.stack.pop() {
            Some(v) => {
                proof {
                    let s = old(self).stack@;
                    assert(s.subrange(0, s.len() - 1) =~= s.drop_last());
                    assert(models_of(s) == models_of(s.drop_last()).push(s.last().model()));
                    assert(models_of(s).drop_last() =~= models_of(s.drop_last()));
                    assert(models_of(s).last() == s.last().model());
                }
                Ok(v)
            },
            None => Err(RuntimeError::StackUnderflow),
        }
    }

    /// Pushes a value onto the value stack.
    fn push_value(&mut self, v: Value)
        ensures
            final(self)@ == (StateV { stack: old(self)@.stack.push(v@), ..old(self)@ }),
    {
        proof {
            lemma_models_push(self.stack@, v);
        }
        self.stack.push(v);
    }

    /// Pops a number, or fails as the popped value dictates.
    fn pop_number(&mut self) -> (r: Result<i64, RuntimeError>)
        ensures
            match r {
                Ok(n) => old(self)@.stack.len() > 0
                    && spec_into_number(old(self)@.stack.last()) == Ok::<i64, RuntimeError>(n)
                    && final(self)@ == (StateV { stack: old(self)@.stack.drop_last(), ..old(self)@ }),
                Err(e) => if old(self)@.stack.len() == 0 {
                    e == RuntimeError::StackUnderflow
                } else {
                    spec_into_number(old(self)@.stack.last()) == Err::<i64, RuntimeError>(e)
                },
            },
    {
        let v = self.pop_value()?;
        v.into_number()
    }

    /// Pops a bool, or fails as the popped value dictates.
    fn pop_bool(&mut self) -> (r: Result<bool, RuntimeError>)
        ensures
            match r {
                Ok(b) => old(self)@.stack.len() > 0
                    && spec_into_bool(old(self)@.stack.last()) == Ok::<bool, RuntimeError>(b)
                    && final(self)@ == (StateV { stack: old(self)@.stack.drop_last(), ..old(self)@ }),
                Err(e) => if old(self)@.stack.len() == 0 {
                    e == RuntimeError::StackUnderflow
                } else {
                    spec_into_bool(old(self)@.stack.last()) == Err::<bool, RuntimeError>(e)
                },
            },
    {
        let v = self.pop_value()?;
        v.into_bool()
    }
}


/// Taking models commutes with subranges of the value stack.
pub proof fn lemma_models_subrange(s: Seq<Value>, a: int, b: int)
    requires
        0 <= a <= b <= s.len(),
    ensures
        models_of(s.subrange(a, b)) == models_of(s).subrange(a, b),
{
    lemma_models_of(s);
    lemma_models_of(s.subrange(a, b));
    assert(models_of(s.subrange(a, b)) =~= models_of(s).subrange(a, b));
}

/// The arithmetic instructions, as a plain tag.
#[derive(Clone, Copy, Debug)]
pub enum ArithOp {
    Add,
    Sub,
    Mul,
    Div,
    Surplus,
}

/// The instruction an arithmetic tag stands for.
pub open spec fn arith_cmd(op: ArithOp) -> CmdV {
    match op {
        ArithOp::Add => CmdV::Add,
        ArithOp::Sub => CmdV::Sub,
        ArithOp::Mul => CmdV::Mul,
        ArithOp::Div => CmdV::Div,
        ArithOp::Surplus => CmdV::Surplus,
    }
}

impl VM {
    /// One arithmetic instruction.
    fn op_arith(&mut self, op: ArithOp) -> (r: Result<(), RuntimeError>)
        requires
            old(self).ip < usize::MAX,
        ensures
            match r {
                Ok(()) => step_arith(arith_cmd(op), old(self)@)
                    == Ok::<StateV, RuntimeError>(final(self)@),
                Err(e) => step_arith(arith_cmd(op), old(self)@)
                    == Err::<StateV, RuntimeError>(e),
            },
    {
        let rv = self.pop_number()?;
        let lv = self.pop_number()?;
        let x = match op {
            ArithOp::Add => match lv.checked_add(rv) {
                Some(x) => x,
                None => {
                    return Err(RuntimeError::Overflow);
                },
            },
            ArithOp::Sub => match lv.checked_sub(rv) {
                Some(x) => x,
                None => {
                    return Err(RuntimeError::Overflow);
                },
            },
            ArithOp::Mul => match lv.checked_mul(rv) {
                Some(x) => x,
                None => {
                    return Err(RuntimeError::Overflow);
                },
            },
            ArithOp::Div => {
                if rv == 0 {
                    return Err(RuntimeError::DivisionByZero);
                }
                match lv.checked_div(rv) {
                    Some(x) => x,
                    None => {
                        return Err(RuntimeError::Overflow);
                    },
                }
            },
            ArithOp::Surplus => {
                if rv == 0 {
                    return Err(RuntimeError::DivisionByZero);
                }
                match lv.checked_rem(rv) {
                    Some(x) => x,
                    None => {
                        return Err(RuntimeError::Overflow);
                    },
                }
            },
        };
        self.push_value(Value::Number(x));
        self.ip = self.ip + 1;
        Ok(())
    }

    /// One numeric comparison instruction.
    fn op_compare(&mut self, greater: bool) -> (r: Result<(), RuntimeError>)
        requires
            old(self).ip < usize::MAX,
        ensures
            match r {
                Ok(()) => step_compare(
                    if greater { CmdV::GreaterThan } else { CmdV::LessThan },
                    old(self)@,
                ) == Ok::<StateV, RuntimeError>(final(self)@),
                Err(e) => step_compare(
                    if greater { CmdV::GreaterThan } else { CmdV::LessThan },
                    old(self)@,
                ) == Err::<StateV, RuntimeError>(e),
            },
    {
        let rv = self.pop_number()?;
        let lv = self.pop_number()?;
        let b = if greater {
            lv > rv
        } else {
            lv < rv
        };
        self.push_value(Value::Bool(b));
        self.ip = self.ip + 1;
        Ok(())
    }

    /// The `Equal` instruction.
    fn op_equal(&mut self) -> (r: Result<(), RuntimeError>)
        requires
            old(self).ip < usize::MAX,
        ensures
            match r {
                Ok(()) => step_equal(old(self)@) == Ok::<StateV, RuntimeError>(final(self)@),
                Err(e) => step_equal(old(self)@) == Err::<StateV, RuntimeError>(e),
            },
    {
        let rv = self.pop_value()?;
        let lv = match self.pop_value() {
            Ok(v) => v,
            Err(e) => {
                return Err(e);
            },
        };
        let b = value_eq(&rv, &lv);
        self.push_value(Value::Bool(b));
        self.ip = self.ip + 1;
        Ok(())
    }

    /// The `Not` instruction.
    fn op_not(&mut self) -> (r: Result<(), RuntimeError>)
        requires
            old(self).ip < usize::MAX,
        ensures
            match r {
                Ok(()) => step_not(old(self)@) == Ok::<StateV, RuntimeError>(final(self)@),
                Err(e) => step_not(old(self)@) == Err::<StateV, RuntimeError>(e),
            },
    {
        let b = self.pop_bool()?;
        self.push_value(Value::Bool(!b));
        self.ip = self.ip + 1;
        Ok(())
    }

    /// A literal push: one of the `*Const` instructions, or a built-in
    /// function value.
    fn op_push_const(&mut self, v: Value) -> (r: Result<(), RuntimeError>)
        requires
            old(self).ip < usize::MAX,
        ensures
            r is Ok && step_push(old(self)@, v@) == Ok::<StateV, RuntimeError>(final(self)@),
    {
        self.push_value(v);
        self.ip = self.ip + 1;
        Ok(())
    }

    /// The `ConstructList` instruction.
    fn op_construct_list(&mut self, n: usize) -> (r: Result<(), RuntimeError>)
        requires
            old(self).ip < usize::MAX,
        ensures
            match r {
                Ok(()) => step_construct_list(old(self)@, n)
                    == Ok::<StateV, RuntimeError>(final(self)@),
                Err(e) => step_construct_list(old(self)@, n)
                    == Err::<StateV, RuntimeError>(e),
            },
    {
        if self.stack.len() < n {
            proof {
                lemma_models_of(self.stack@);
            }
            return Err(RuntimeError::StackUnderflow);
        }
        let at = self.stack.len() - n;
        let items = self.stack.split_off(at);
        proof {
            lemma_models_of(old(self).stack@);
            lemma_models_subrange(old(self).stack@, at as int, old(self).stack@.len() as int);
            lemma_models_subrange(old(self).stack@, 0, at as int);
        }
        self.push_value(Value::List(Rc::new(items)));
        self.ip = self.ip + 1;
        Ok(())
    }

    /// The `JumpRel` instruction.
    fn op_jump_rel(&mut self, n: usize) -> (r: Result<(), RuntimeError>)
        ensures
            match r {
                Ok(()) => step_jump_rel(old(self)@, n)
                    == Ok::<StateV, RuntimeError>(final(self)@),
                Err(e) => step_jump_rel(old(self)@, n)
                    == Err::<StateV, RuntimeError>(e),
            },
    {
        match self.ip.checked_add(n) {
            Some(t) => {
                self.ip = t;
                Ok(())
            },
            None => Err(RuntimeError::CorruptProgram),
        }
    }

    /// The `JumpRelUnless` instruction.
    fn op_jump_rel_unless(&mut self, n: usize) -> (r: Result<(), RuntimeError>)
        requires
            old(self).ip < usize::MAX,
        ensures
            match r {
                Ok(()) => step_jump_rel_unless(old(self)@, n)
                    == Ok::<StateV, RuntimeError>(final(self)@),
                Err(e) => step_jump_rel_unless(old(self)@, n)
                    == Err::<StateV, RuntimeError>(e),
            },
    {
        let b = self.pop_bool()?;
        if !b {
            match self.ip.checked_add(n) {
                Some(t) => {
                    self.ip = t;
                    Ok(())
                },
                None => Err(RuntimeError::CorruptProgram),
            }
        } else {
            self.ip = self.ip + 1;
            Ok(())
        }
    }

    /// The `Return` instruction.
    fn op_return(&mut self) -> (r: Result<(), RuntimeError>)
        ensures
            match r {
                Ok(()) => step_return(old(self)@) == Ok::<StateV, RuntimeError>(final(self)@),
                Err(e) => step_return(old(self)@) == Err::<StateV, RuntimeError>(e),
            },
    {
        match self.call_stack.pop() {
            Some(cf) => {
                proof {
                    assert(old(self).call_stack@.subrange(0, old(self).call_stack@.len() - 1)
                        =~= old(self).call_stack@.drop_last());
                }
                self.ip = cf.ret;
                self.scope = cf.scope;
                Ok(())
            },
            None => Err(RuntimeError::CallStackUnderflow),
        }
    }

    /// The `ExitScope` instruction.
    fn op_exit_scope(&mut self) -> (r: Result<(), RuntimeError>)
        requires
            old(self).ip < usize::MAX,
            wf_state(old(self)@),
        ensures
            match r {
                Ok(()) => step_exit_scope(old(self)@)
                    == Ok::<StateV, RuntimeError>(final(self)@),
                Err(e) => step_exit_scope(old(self)@) == Err::<StateV, RuntimeError>(e),
            },
    {
        match self.scope.0 {
            None => Err(RuntimeError::CorruptScope),
            Some(i) => {
                self.scope = self.frames[i].parent;
                self.ip = self.ip + 1;
                Ok(())
            },
        }
    }
}


/// Prefix sums of thunk sizes never exceed the total.
pub proof fn lemma_sizes_sum_take(s: Seq<usize>, j: int)
    requires
        0 <= j <= s.len(),
    ensures
        sizes_sum(s.take(j)) <= sizes_sum(s),
        sizes_sum(s.take(j)) >= 0,
    decreases s.len(),
{
    if s.len() == 0 {
        assert(s.take(j) =~= s);
    } else if j == s.len() {
        assert(s.take(j) =~= s);
        lemma_sizes_sum_take(s.drop_last(), j - 1);
    } else {
        assert(s.drop_last().take(j) =~= s.take(j));
        lemma_sizes_sum_take(s.drop_last(), j);
    }
}

impl VM {
    /// The frame the `d`-th ancestor of a scope chain names.
    fn nth_parent(&self, sc: Scope, d: usize) -> (r: Option<usize>)
        requires
            wf_state(self@),
            scope_ok(sc, self@.frames),
        ensures
            r == nth_parent_frame(self@.frames, sc, d as nat),
            r matches Some(t) ==> t < self@.frames.len(),
    {
        let mut cur: Scope = sc;
        let mut k: usize = 0;
        while k < d
            invariant
                k <= d,
                wf_state(self@),
                scope_ok(cur, self@.frames),
                nth_parent_frame(self@.frames, sc, d as nat) == nth_parent_frame(
                    self@.frames,
                    cur,
                    (d - k) as nat,
                ),
            decreases d - k,
        {
            match cur.0 {
                None => {
                    return None;
                },
                Some(i) => {
                    cur = self.frames[i].parent;
                    k = k + 1;
                },
            }
        }
        match cur.0 {
            None => None,
            Some(i) => Some(i),
        }
    }

    /// The `Store` instruction.
    fn op_store(&mut self, n: usize) -> (r: Result<(), RuntimeError>)
        requires
            old(self).ip < usize::MAX,
            wf_state(old(self)@),
        ensures
            match r {
                Ok(()) => step_store(old(self)@, n) == Ok::<StateV, RuntimeError>(final(self)@)
                    && wf_state(final(self)@),
                Err(e) => step_store(old(self)@, n) == Err::<StateV, RuntimeError>(e),
            },
    {
        let v = self.pop_value()?;
        match self.scope.0 {
            None => Err(RuntimeError::CorruptScope),
            Some(i) => {
                let f = self.frames[i];
                if n >= f.len {
                    return Err(RuntimeError::CorruptScope);
                }
                let nbinds = self.binds.len();
                proof {
                    lemma_bind_models_of(self.binds@);
                    assert(self@.frames[i as int].first + self@.frames[i as int].len
                        <= self@.binds.len());
                    assert(f.first + n < nbinds);
                }
                let dup = v.duplicate();
                proof {
                    lemma_bind_models_update(self.binds@, f.first + n, Bind::Evaluated(v));
                }
                self.binds.set(f.first + n, Bind::Evaluated(v));
                self.push_value(dup);
                self.ip = self.ip + 1;
                proof {
                    assert(final(self)@.stack =~= old(self)@.stack);
                    assert(final(self)@ =~= (match step_store(old(self)@, n) {
                        Ok(s) => s,
                        Err(_) => final(self)@,
                    }));
                }
                Ok(())
            },
        }
    }

    /// The `Load` instruction.
    fn op_load(&mut self, n: usize, d: usize) -> (r: Result<(), RuntimeError>)
        requires
            old(self).ip < usize::MAX,
            wf_state(old(self)@),
        ensures
            match r {
                Ok(()) => step_load(old(self)@, n, d) == Ok::<StateV, RuntimeError>(final(self)@)
                    && wf_state(final(self)@),
                Err(e) => step_load(old(self)@, n, d) == Err::<StateV, RuntimeError>(e),
            },
    {
        let t = match self.nth_parent(self.scope, d) {
            Some(t) => t,
            None => {
                return Err(RuntimeError::CorruptScope);
            },
        };
        let f = self.frames[t];
        if n >= f.len {
            return Err(RuntimeError::CorruptScope);
        }
        let nbinds = self.binds.len();
        proof {
            lemma_bind_models_of(self.binds@);
            assert(self@.frames[t as int].first + self@.frames[t as int].len
                <= self@.binds.len());
            assert(f.first + n < nbinds);
        }
        match &self.binds[f.first + n] {
            Bind::Evaluated(v) => {
                let dup = v.duplicate();
                self.push_value(dup);
                self.ip = self.ip + 1;
                Ok(())
            },
            Bind::Cmd(addr) => {
                let a: usize = *addr;
                self.call_stack.push(CallFrame {
                    func: None,
                    ret: self.ip + 1,
                    scope: self.scope,
                });
                self.scope = Scope(Some(t));
                self.ip = a;
                Ok(())
            },
        }
    }

    /// The `Block` instruction.
    fn op_block(&mut self, sizes: &Vec<usize>) -> (r: Result<(), RuntimeError>)
        requires
            old(self).ip < usize::MAX,
            wf_state(old(self)@),
        ensures
            match r {
                Ok(()) => step_block(old(self)@, sizes@) == Ok::<StateV, RuntimeError>(final(self)@)
                    && wf_state(final(self)@),
                Err(e) => step_block(old(self)@, sizes@) == Err::<StateV, RuntimeError>(e),
            },
    {
        let first: usize = self.binds.len();
        let ghost old_binds = self.binds@;
        let mut body_base: usize = self.ip + 1;
        let mut j: usize = 0;
        while j < sizes.len()
            invariant
                j <= sizes@.len(),
                self.stack == old(self).stack,
                self.call_stack == old(self).call_stack,
                self.frames == old(self).frames,
                self.scope == old(self).scope,
                self.ip == old(self).ip,
                self.ip < usize::MAX,
                first == old_binds.len(),
                old_binds == old(self).binds@,
                self.binds@.len() == old_binds.len() + j,
                bind_models_of(self.binds@) == bind_models_of(old_binds) + block_thunks(
                    self.ip + 1,
                    sizes@.take(j as int),
                ),
                body_base == self.ip + 1 + sizes_sum(sizes@.take(j as int)),
            decreases sizes@.len() - j,
        {
            proof {
                lemma_bind_models_push(self.binds@, Bind::Cmd(body_base));
                assert(sizes@.take(j + 1).drop_last() =~= sizes@.take(j as int));
                assert((bind_models_of(old_binds) + block_thunks(self.ip + 1, sizes@.take(j as int)))
                    .push(BindV::Cmd(body_base))
                    =~= bind_models_of(old_binds) + block_thunks(self.ip + 1, sizes@.take(j + 1)));
            }
            self.binds.push(Bind::Cmd(body_base));
            match body_base.checked_add(sizes[j]) {
                Some(t) => {
                    body_base = t;
                },
                None => {
                    proof {
                        lemma_sizes_sum_take(sizes@, j + 1);
                        assert(sizes@.take(j + 1).drop_last() =~= sizes@.take(j as int));
                    }
                    return Err(RuntimeError::CorruptProgram);
                },
            }
            j = j + 1;
        }
        proof {
            assert(sizes@.take(sizes@.len() as int) =~= sizes@);
        }
        self.frames.push(FrameInfo { first, len: sizes.len(), parent: self.scope });
        let new_scope = Scope(Some(self.frames.len() - 1));
        self.scope = new_scope;
        self.ip = body_base;
        proof {
            lemma_bind_models_of(self.binds@);
            lemma_bind_models_of(old(self).binds@);
            let fs = self@.frames;
            let os = old(self)@;
            assert forall|k: int| 0 <= k < fs.len() implies (#[trigger] fs[k].parent.0
                matches Some(p) ==> p < k) by {
                if k < fs.len() - 1 {
                    assert(fs[k] == os.frames[k]);
                }
            }
            assert forall|k: int| 0 <= k < fs.len() implies (#[trigger] fs[k]).first
                + fs[k].len <= self@.binds.len() by {
                if k < fs.len() - 1 {
                    assert(fs[k] == os.frames[k]);
                }
            }
            assert forall|k: int| 0 <= k < self@.calls.len() implies scope_ok(
                (#[trigger] self@.calls[k]).scope,
                fs,
            ) by {
                assert(scope_ok(os.calls[k].scope, os.frames));
            }
            assert(wf_state(self@));
            assert(self@ =~= (match step_block(os, sizes@) {
                Ok(s) => s,
                Err(_) => self@,
            }));
        }
        Ok(())
    }

    /// The `ConstructFunction` instruction.
    fn op_construct_function(&mut self, id: u64, len: usize) -> (r: Result<(), RuntimeError>)
        requires
            old(self).ip < usize::MAX,
        ensures
            match r {
                Ok(()) => step_construct_function(old(self)@, id, len)
                    == Ok::<StateV, RuntimeError>(final(self)@),
                Err(e) => step_construct_function(old(self)@, id, len)
                    == Err::<StateV, RuntimeError>(e),
            },
    {
        let entry = self.ip + 1;
        match entry.checked_add(len) {
            Some(t) => {
                self.push_value(Value::Function(Function::Native(id, entry, self.scope)));
                self.ip = t;
                Ok(())
            },
            None => Err(RuntimeError::CorruptProgram),
        }
    }

    /// The `ConstructBlock` instruction.
    fn op_construct_block(&mut self, len: usize, fields: &Rc<Vec<(Vec<u8>, usize)>>) -> (r:
        Result<(), RuntimeError>)
        requires
            old(self).ip < usize::MAX,
        ensures
            match r {
                Ok(()) => step_construct_block(
                    old(self)@,
                    len,
                    fields@.map_values(|p: (Vec<u8>, usize)| (p.0@, p.1)),
                ) == Ok::<StateV, RuntimeError>(final(self)@),
                Err(e) => step_construct_block(
                    old(self)@,
                    len,
                    fields@.map_values(|p: (Vec<u8>, usize)| (p.0@, p.1)),
                ) == Err::<StateV, RuntimeError>(e),
            },
    {
        let entry = self.ip + 1;
        match entry.checked_add(len) {
            Some(t) => {
                self.push_value(Value::Block(BlockValue {
                    entry,
                    fields: fields.clone(),
                    scope: self.scope,
                }));
                self.ip = t;
                Ok(())
            },
            None => Err(RuntimeError::CorruptProgram),
        }
    }
}


/// Looks a field name up in a field table; the last entry wins.
fn find_field(fields: &Vec<(Vec<u8>, usize)>, name: &Vec<u8>) -> (r: Option<usize>)
    ensures
        r == field_slot(fields@.map_values(|p: (Vec<u8>, usize)| (p.0@, p.1)), name@),
{
    let ghost mapped = fields@.map_values(|p: (Vec<u8>, usize)| (p.0@, p.1));
    let mut j: usize = fields.len();
    proof {
        assert(mapped.take(j as int) =~= mapped);
    }
    while j > 0
        invariant
            j <= fields@.len(),
            mapped == fields@.map_values(|p: (Vec<u8>, usize)| (p.0@, p.1)),
            field_slot(mapped, name@) == field_slot(mapped.take(j as int), name@),
        decreases j,
    {
        j = j - 1;
        if bytes_eq(&fields[j].0, name) {
            proof {
                assert(mapped.take(j + 1).last() == mapped[j as int]);
            }
            return Some(fields[j].1);
        }
        proof {
            assert(mapped.take(j + 1).last() == mapped[j as int]);
            assert(mapped.take(j + 1).drop_last() =~= mapped.take(j as int));
        }
    }
    proof {
        assert(mapped.take(0) =~= Seq::<(Seq<u8>, usize)>::empty());
    }
    None
}

impl VM {
    /// Entering a block's field body, once the name and receiver have
    /// been popped.
    fn enter_block_field_now(&mut self, b: BlockValue, name: &Vec<u8>) -> (r: Result<
        (),
        RuntimeError,
    >)
        requires
            old(self).ip < usize::MAX,
            wf_state(old(self)@),
        ensures
            match r {
                Ok(()) => enter_block_field(old(self)@, old(self)@.stack, b@, name@)
                    == Ok::<StateV, RuntimeError>(final(self)@) && wf_state(final(self)@),
                Err(e) => enter_block_field(old(self)@, old(self)@.stack, b@, name@)
                    == Err::<StateV, RuntimeError>(e),
            },
    {
        let slot = match find_field(&b.fields, name) {
            Some(slot) => slot,
            None => {
                return Err(RuntimeError::UnknownField);
            },
        };
        let doubled = match slot.checked_mul(2) {
            Some(t) => t,
            None => {
                return Err(RuntimeError::CorruptProgram);
            },
        };
        let target = match b.entry.checked_add(doubled) {
            Some(t) => t,
            None => {
                return Err(RuntimeError::CorruptProgram);
            },
        };
        if let Scope(Some(i)) = b.scope {
            if i >= self.frames.len() {
                return Err(RuntimeError::CorruptScope);
            }
        }
        self.call_stack.push(CallFrame { func: None, ret: self.ip + 1, scope: self.scope });
        self.scope = b.scope;
        self.ip = target;
        Ok(())
    }

    /// The `Index` instruction.
    fn op_index(&mut self) -> (r: Result<(), RuntimeError>)
        requires
            old(self).ip < usize::MAX,
            wf_state(old(self)@),
        ensures
            match r {
                Ok(()) => step_index(old(self)@) == Ok::<StateV, RuntimeError>(final(self)@)
                    && wf_state(final(self)@),
                Err(e) => step_index(old(self)@) == Err::<StateV, RuntimeError>(e),
            },
    {
        let key = self.pop_value()?;
        let container = match self.pop_value() {
            Ok(v) => v,
            Err(e) => {
                return Err(e);
            },
        };
        match container {
            Value::List(items) => match key {
                Value::Number(n) => {
                    proof {
                        lemma_models_of(items@);
                    }
                    if n < 0 {
                        return Err(RuntimeError::IndexOutOfRange);
                    }
                    if items.len() as u64 <= n as u64 {
                        return Err(RuntimeError::IndexOutOfRange);
                    }
                    let dup = items[n as usize].duplicate();
                    proof {
                        lemma_models_of(items@);
                    }
                    self.push_value(dup);
                    self.ip = self.ip + 1;
                    Ok(())
                },
                _ => Err(RuntimeError::NotNumber),
            },
            Value::Block(b) => match key {
                Value::String(name) => self.enter_block_field_now(b, &name),
                _ => Err(RuntimeError::NotString),
            },
            _ => Err(RuntimeError::NotList),
        }
    }

    /// The `Access` instruction.
    fn op_access(&mut self) -> (r: Result<(), RuntimeError>)
        requires
            old(self).ip < usize::MAX,
            wf_state(old(self)@),
        ensures
            match r {
                Ok(()) => step_access(old(self)@) == Ok::<StateV, RuntimeError>(final(self)@)
                    && wf_state(final(self)@),
                Err(e) => step_access(old(self)@) == Err::<StateV, RuntimeError>(e),
            },
    {
        let nv = self.pop_value()?;
        let name = match nv {
            Value::String(name) => name,
            _ => {
                return Err(RuntimeError::NotString);
            },
        };
        let recv = match self.pop_value() {
            Ok(v) => v,
            Err(e) => {
                return Err(e);
            },
        };
        match recv {
            Value::Block(b) => self.enter_block_field_now(b, &name),
            Value::String(_) => {
                if bytes_eq(&name, &crate::names::concat_name_vec()) {
                    self.push_value(Value::Function(Function::Foreign(
                        ForeignFunction(ForeignKind::StringConcat),
                        Some(Rc::new(recv)),
                    )));
                    self.ip = self.ip + 1;
                    Ok(())
                } else if bytes_eq(&name, &crate::names::split_name_vec()) {
                    self.push_value(Value::Function(Function::Foreign(
                        ForeignFunction(ForeignKind::StringSplit),
                        Some(Rc::new(recv)),
                    )));
                    self.ip = self.ip + 1;
                    Ok(())
                } else {
                    Err(RuntimeError::UnknownField)
                }
            },
            Value::List(ref items) => {
                proof {
                    lemma_models_of(items@);
                }
                if bytes_eq(&name, &crate::names::count_name_vec()) {
                    if items.len() as u64 > i64::MAX as u64 {
                        return Err(RuntimeError::Overflow);
                    }
                    let n = items.len() as i64;
                    proof {
                        lemma_models_of(items@);
                    }
                    self.push_value(Value::Number(n));
                    self.ip = self.ip + 1;
                    Ok(())
                } else if bytes_eq(&name, &crate::names::concat_name_vec()) {
                    self.push_value(Value::Function(Function::Foreign(
                        ForeignFunction(ForeignKind::ListConcat),
                        Some(Rc::new(recv)),
                    )));
                    self.ip = self.ip + 1;
                    Ok(())
                } else if bytes_eq(&name, &crate::names::filter_name_vec()) {
                    self.push_value(Value::Function(Function::Foreign(
                        ForeignFunction(ForeignKind::ListFilter),
                        Some(Rc::new(recv)),
                    )));
                    self.ip = self.ip + 1;
                    Ok(())
                } else if bytes_eq(&name, &crate::names::map_name_vec()) {
                    self.push_value(Value::Function(Function::Foreign(
                        ForeignFunction(ForeignKind::ListMap),
                        Some(Rc::new(recv)),
                    )));
                    self.ip = self.ip + 1;
                    Ok(())
                } else {
                    Err(RuntimeError::UnknownField)
                }
            },
            _ => Err(RuntimeError::NotBlock),
        }
    }
}


/// Concatenation commutes with taking models of values.
pub proof fn lemma_models_append(a: Seq<Value>, b: Seq<Value>)
    ensures
        models_of(a + b) == models_of(a) + models_of(b),
    decreases b.len(),
{
    if b.len() == 0 {
        assert(a + b =~= a);
        assert(models_of(a) + models_of(b) =~= models_of(a));
    } else {
        lemma_models_append(a, b.drop_last());
        assert((a + b).drop_last() =~= a + b.drop_last());
        assert(models_of(a + b.drop_last()).push(b.last().model()) =~= models_of(a)
            + models_of(b));
    }
}

/// Scans for the tail position: how many `ExitScope`s stand between
/// `start` and a `Return`, if nothing else does.
fn scan_tail(program: &Vec<Cmd>, start: usize) -> (r: Option<usize>)
    ensures
        match r {
            Some(k) => tail_scan(program_model(program@), start as int) == Some(k as nat),
            None => tail_scan(program_model(program@), start as int) is None,
        },
{
    let ghost pm = program_model(program@);
    let mut i: usize = start;
    let mut count: usize = 0;
    while i < program.len()
        invariant
            start <= i,
            count == i - start,
            pm == program_model(program@),
            pm.len() == program@.len(),
            tail_scan(pm, start as int) == (match tail_scan(pm, i as int) {
                Some(k) => Some((k + count) as nat),
                None => None::<nat>,
            }),
        decreases program@.len() - i,
    {
        proof {
            assert(pm[i as int] == program@[i as int]@);
        }
        match &program[i] {
            Cmd::Return => {
                return Some(count);
            },
            Cmd::ExitScope => {
                i = i + 1;
                count = count + 1;
            },
            _ => {
                return None;
            },
        }
    }
    None
}

impl VM {
    /// The newest call frame of a user-function call.
    fn nearest_function(&self) -> (r: Option<CallFrame>)
        ensures
            r == nearest_function_frame(self@.calls),
    {
        let ghost calls = self.call_stack@;
        let mut j: usize = self.call_stack.len();
        proof {
            assert(calls.take(j as int) =~= calls);
        }
        while j > 0
            invariant
                j <= calls.len(),
                calls == self.call_stack@,
                nearest_function_frame(calls) == nearest_function_frame(calls.take(j as int)),
            decreases j,
        {
            j = j - 1;
            let cf = self.call_stack[j];
            proof {
                assert(calls.take(j + 1).last() == calls[j as int]);
                assert(calls.take(j + 1).drop_last() =~= calls.take(j as int));
            }
            match cf.func {
                Some(_) => {
                    return Some(cf);
                },
                None => {},
            }
        }
        None
    }

    /// Appends argument values to the bind arena as evaluated slots.
    fn push_arg_binds(&mut self, args: &Vec<Value>)
        ensures
            *final(self) == (VM {
                binds: final(self).binds,
                ..*old(self)
            }),
            final(self)@.binds == old(self)@.binds + evaluated_binds(models_of(args@)),
            final(self).binds@.len() == old(self).binds@.len() + args@.len(),
    {
        let ghost old_binds = self.binds@;
        proof {
            lemma_models_of(args@);
            assert(bind_models_of(self.binds@) =~= bind_models_of(old_binds)
                + evaluated_binds(models_of(args@)).take(0));
        }
        let mut j: usize = 0;
        while j < args.len()
            invariant
                j <= args@.len(),
                old_binds == old(self).binds@,
                self.stack == old(self).stack,
                self.call_stack == old(self).call_stack,
                self.frames == old(self).frames,
                self.scope == old(self).scope,
                self.ip == old(self).ip,
                self.binds@.len() == old_binds.len() + j,
                evaluated_binds(models_of(args@)).len() == args@.len(),
                bind_models_of(self.binds@) == bind_models_of(old_binds) + evaluated_binds(
                    models_of(args@),
                ).take(j as int),
            decreases args@.len() - j,
        {
            let b = Bind::Evaluated(args[j].duplicate());
            proof {
                lemma_models_of(args@);
                lemma_bind_models_push(self.binds@, b);
                assert(evaluated_binds(models_of(args@))[j as int] == BindV::Evaluated(
                    args@[j as int].model(),
                ));
                assert(evaluated_binds(models_of(args@)).take(j + 1) =~= evaluated_binds(
                    models_of(args@),
                ).take(j as int).push(BindV::Evaluated(args@[j as int].model())));
                assert((bind_models_of(old_binds) + evaluated_binds(models_of(args@)).take(
                    j as int,
                )).push(b.model()) =~= bind_models_of(old_binds) + evaluated_binds(
                    models_of(args@),
                ).take(j + 1));
            }
            self.binds.push(b);
            j = j + 1;
        }
        proof {
            assert(evaluated_binds(models_of(args@)).take(args@.len() as int)
                =~= evaluated_binds(models_of(args@)));
        }
    }

    /// Calling compiled code, once the callee and arguments have been
    /// popped: the shared path of `Call` and of the routine-backed
    /// built-ins.
    #[verifier::loop_isolation(false)]
    fn call_native(
        &mut self,
        program: &Vec<Cmd>,
        id: u64,
        addr: usize,
        closure_scope: Scope,
        args: Vec<Value>,
    ) -> (r: Result<(), RuntimeError>)
        requires
            old(self).ip < usize::MAX,
            wf_state(old(self)@),
        ensures
            match r {
                Ok(()) => native_call(
                    program_model(program@),
                    old(self)@,
                    old(self)@.stack,
                    id,
                    addr,
                    closure_scope,
                    models_of(args@),
                ) == Ok::<StateV, RuntimeError>(final(self)@) && wf_state(final(self)@),
                Err(e) => native_call(
                    program_model(program@),
                    old(self)@,
                    old(self)@.stack,
                    id,
                    addr,
                    closure_scope,
                    models_of(args@),
                ) == Err::<StateV, RuntimeError>(e),
            },
    {
        proof {
            lemma_models_of(args@);
        }
        let k_opt = scan_tail(program, self.ip + 1);
        let near = self.nearest_function();
        let mut tail: Option<usize> = None;
        if let (Some(k), Some(cf)) = (k_opt, near) {
            let same_id = match cf.func {
                Some(fid) => fid == id,
                None => false,
            };
            if same_id && cf.scope == closure_scope {
                tail = Some(k);
            }
        }
        match tail {
            Some(k) => {
                let mut cur: Scope = self.scope;
                let mut step_count: usize = 0;
                while step_count < k
                    invariant
                        step_count <= k,
                        wf_state(self@),
                        self == old(self),
                        scope_ok(cur, self@.frames),
                        pop_scopes(self@.frames, self.scope, k as nat) == pop_scopes(
                            self@.frames,
                            cur,
                            (k - step_count) as nat,
                        ),
                    decreases k - step_count,
                {
                    match cur.0 {
                        None => {
                            return Err(RuntimeError::CorruptScope);
                        },
                        Some(i) => {
                            cur = self.frames[i].parent;
                            step_count = step_count + 1;
                        },
                    }
                }
                let first = self.binds.len();
                self.push_arg_binds(&args);
                self.frames.push(FrameInfo { first, len: args.len(), parent: cur });
                self.scope = Scope(Some(self.frames.len() - 1));
                self.ip = addr;
                proof {
                    lemma_bind_models_of(old(self).binds@);
                    lemma_bind_models_of(self.binds@);
                    let fs = self@.frames;
                    let os = old(self)@;
                    assert forall|q: int| 0 <= q < fs.len() implies (#[trigger] fs[q].parent.0
                        matches Some(p) ==> p < q) by {
                        if q < fs.len() - 1 {
                            assert(fs[q] == os.frames[q]);
                        }
                    }
                    assert forall|q: int| 0 <= q < fs.len() implies (#[trigger] fs[q]).first
                        + fs[q].len <= self@.binds.len() by {
                        if q < fs.len() - 1 {
                            assert(fs[q] == os.frames[q]);
                        }
                    }
                    assert forall|q: int| 0 <= q < self@.calls.len() implies scope_ok(
                        (#[trigger] self@.calls[q]).scope,
                        fs,
                    ) by {
                        assert(scope_ok(os.calls[q].scope, os.frames));
                    }
                    assert(wf_state(self@));
                    assert(self@ =~= (match native_call(
                        program_model(program@),
                        os,
                        os.stack,
                        id,
                        addr,
                        closure_scope,
                        models_of(args@),
                    ) {
                        Ok(s) => s,
                        Err(_) => self@,
                    }));
                }
                Ok(())
            },
            None => {
                if let Scope(Some(i)) = closure_scope {
                    if i >= self.frames.len() {
                        return Err(RuntimeError::CorruptScope);
                    }
                }
                let first = self.binds.len();
                self.push_arg_binds(&args);
                self.call_stack.push(CallFrame {
                    func: Some(id),
                    ret: self.ip + 1,
                    scope: self.scope,
                });
                self.frames.push(FrameInfo { first, len: args.len(), parent: closure_scope });
                self.scope = Scope(Some(self.frames.len() - 1));
                self.ip = addr;
                proof {
                    lemma_bind_models_of(old(self).binds@);
                    lemma_bind_models_of(self.binds@);
                    let fs = self@.frames;
                    let os = old(self)@;
                    assert forall|q: int| 0 <= q < fs.len() implies (#[trigger] fs[q].parent.0
                        matches Some(p) ==> p < q) by {
                        if q < fs.len() - 1 {
                            assert(fs[q] == os.frames[q]);
                        }
                    }
                    assert forall|q: int| 0 <= q < fs.len() implies (#[trigger] fs[q]).first
                        + fs[q].len <= self@.binds.len() by {
                        if q < fs.len() - 1 {
                            assert(fs[q] == os.frames[q]);
                        }
                    }
                    assert forall|q: int| 0 <= q < self@.calls.len() implies scope_ok(
                        (#[trigger] self@.calls[q]).scope,
                        fs,
                    ) by {
                        if q < self@.calls.len() - 1 {
                            assert(self@.calls[q] == os.calls[q]);
                            assert(scope_ok(os.calls[q].scope, os.frames));
                        }
                    }
                    assert(wf_state(self@));
                    assert(self@ =~= (match native_call(
                        program_model(program@),
                        os,
                        os.stack,
                        id,
                        addr,
                        closure_scope,
                        models_of(args@),
                    ) {
                        Ok(s) => s,
                        Err(_) => self@,
                    }));
                }
                Ok(())
            },
        }
    }
}


/// Extending a range by one at the top appends one number.
pub proof fn lemma_range_values_snoc(a: int, b: int)
    requires
        i64::MIN <= a <= b <= i64::MAX,
    ensures
        range_values(a, b + 1) == range_values(a, b).push(ValueV::Number(b as i64)),
    decreases b - a,
{
    if a == b {
        assert(range_values(b + 1, b + 1) =~= Seq::<ValueV>::empty());
        assert(range_values(a, b + 1) =~= range_values(a, b).push(ValueV::Number(b as i64)));
    } else {
        lemma_range_values_snoc(a + 1, b);
        assert(range_values(a, b + 1) =~= range_values(a, b).push(ValueV::Number(b as i64)));
    }
}

/// The numbers `a, a+1, …, b-1` as a vector of values.
fn make_range(a: i64, b: i64) -> (r: Vec<Value>)
    ensures
        models_of(r@) == range_values(a as int, b as int),
{
    let mut out: Vec<Value> = Vec::new();
    if a >= b {
        return out;
    }
    let mut i: i64 = a;
    while i < b
        invariant
            a <= i <= b,
            models_of(out@) == range_values(a as int, i as int),
        decreases b - i,
    {
        proof {
            lemma_models_push(out@, Value::Number(i));
            lemma_range_values_snoc(a as int, i as int);
        }
        out.push(Value::Number(i));
        i = i + 1;
    }
    out
}

/// A copy of a byte string.
pub fn copy_bytes(src: &Vec<u8>) -> (r: Vec<u8>)
    ensures
        r@ == src@,
{
    let mut out: Vec<u8> = Vec::new();
    let mut i: usize = 0;
    while i < src.len()
        invariant
            i <= src@.len(),
            out@ == src@.take(i as int),
        decreases src@.len() - i,
    {
        proof {
            assert(src@.take(i + 1).drop_last() =~= src@.take(i as int));
            assert(src@.take(i + 1) =~= src@.take(i as int).push(src@[i as int]));
        }
        out.push(src[i]);
        i = i + 1;
    }
    proof {
        assert(src@.take(src@.len() as int) =~= src@);
    }
    out
}

/// The concatenation of two byte strings.
fn concat_bytes(x: &Vec<u8>, y: &Vec<u8>) -> (r: Vec<u8>)
    ensures
        r@ == x@ + y@,
{
    let mut out = copy_bytes(x);
    let mut i: usize = 0;
    while i < y.len()
        invariant
            i <= y@.len(),
            out@ == x@ + y@.take(i as int),
        decreases y@.len() - i,
    {
        proof {
            assert((x@ + y@.take(i as int)).push(y@[i as int]) =~= x@ + y@.take(i + 1));
        }
        out.push(y[i]);
        i = i + 1;
    }
    proof {
        assert(x@ + y@.take(y@.len() as int) =~= x@ + y@);
    }
    out
}

/// The concatenation of two lists of values, sharing the elements.
fn concat_value_lists(x: &Vec<Value>, y: &Vec<Value>) -> (r: Vec<Value>)
    ensures
        models_of(r@) == models_of(x@) + models_of(y@),
{
    let mut out: Vec<Value> = Vec::new();
    let mut i: usize = 0;
    while i < x.len()
        invariant
            i <= x@.len(),
            models_of(out@) == models_of(x@.take(i as int)),
        decreases x@.len() - i,
    {
        let dup = x[i].duplicate();
        proof {
            lemma_models_push(out@, dup);
            assert(x@.take(i + 1).drop_last() =~= x@.take(i as int));
            assert(models_of(x@.take(i + 1)) == models_of(x@.take(i as int)).push(
                x@.take(i + 1).last().model(),
            ));
            assert(x@.take(i + 1).last() == x@[i as int]);
        }
        out.push(dup);
        i = i + 1;
    }
    proof {
        assert(x@.take(x@.len() as int) =~= x@);
    }
    let mut j: usize = 0;
    while j < y.len()
        invariant
            j <= y@.len(),
            models_of(out@) == models_of(x@) + models_of(y@.take(j as int)),
        decreases y@.len() - j,
    {
        let dup = y[j].duplicate();
        proof {
            lemma_models_push(out@, dup);
            assert(y@.take(j + 1).drop_last() =~= y@.take(j as int));
            assert(models_of(y@.take(j + 1)) == models_of(y@.take(j as int)).push(
                y@.take(j + 1).last().model(),
            ));
            assert(y@.take(j + 1).last() == y@[j as int]);
            assert((models_of(x@) + models_of(y@.take(j as int))).push(y@[j as int].model())
                =~= models_of(x@) + models_of(y@.take(j + 1)));
        }
        out.push(dup);
        j = j + 1;
    }
    proof {
        assert(y@.take(y@.len() as int) =~= y@);
    }
    out
}

/// The field names of a block, as string values in slot order.
fn make_key_values(fields: &Rc<Vec<(Vec<u8>, usize)>>) -> (r: Vec<Value>)
    ensures
        models_of(r@) == block_key_values(
            fields@.map_values(|p: (Vec<u8>, usize)| (p.0@, p.1)),
        ),
{
    let ghost mapped = fields@.map_values(|p: (Vec<u8>, usize)| (p.0@, p.1));
    let mut out: Vec<Value> = Vec::new();
    let mut i: usize = 0;
    while i < fields.len()
        invariant
            i <= fields@.len(),
            mapped == fields@.map_values(|p: (Vec<u8>, usize)| (p.0@, p.1)),
            models_of(out@) == block_key_values(mapped).take(i as int),
        decreases fields@.len() - i,
    {
        let name = copy_bytes(&fields[i].0);
        let v = Value::String(Rc::new(name));
        proof {
            lemma_models_push(out@, v);
            assert(block_key_values(mapped)[i as int] == ValueV::String(mapped[i as int].0));
            assert(block_key_values(mapped).take(i as int).push(v.model())
                =~= block_key_values(mapped).take(i + 1));
        }
        out.push(v);
        i = i + 1;
    }
    proof {
        assert(block_key_values(mapped).take(fields@.len() as int) =~= block_key_values(mapped));
    }
    out
}


/// A copy of `s[a..b]`.
fn sub_bytes(s: &Vec<u8>, a: usize, b: usize) -> (r: Vec<u8>)
    requires
        a <= b <= s@.len(),
    ensures
        r@ == s@.subrange(a as int, b as int),
{
    let mut out: Vec<u8> = Vec::new();
    let mut i: usize = a;
    while i < b
        invariant
            a <= i <= b <= s@.len(),
            out@ == s@.subrange(a as int, i as int),
        decreases b - i,
    {
        proof {
            assert(s@.subrange(a as int, i + 1) =~= s@.subrange(a as int, i as int).push(
                s@[i as int],
            ));
        }
        out.push(s[i]);
        i = i + 1;
    }
    out
}

/// Whether `pat` occurs in `s` at position `i`.
fn window_matches(s: &Vec<u8>, pat: &Vec<u8>, i: usize) -> (r: bool)
    requires
        i + pat@.len() <= s@.len(),
    ensures
        r <==> s@.subrange(i as int, i + pat@.len()) == pat@,
{
    let total = s.len();
    let mut j: usize = 0;
    while j < pat.len()
        invariant
            j <= pat@.len(),
            i + pat@.len() <= s@.len(),
            total == s@.len(),
            forall|q: int| 0 <= q < j ==> s@[i + q] == pat@[q],
        decreases pat@.len() - j,
    {
        if s[i + j] != pat[j] {
            assert(s@.subrange(i as int, i + pat@.len())[j as int] == s@[i + j]);
            return false;
        }
        j = j + 1;
    }
    proof {
        assert(s@.subrange(i as int, i + pat@.len()) =~= pat@);
    }
    true
}

/// The position of the first occurrence of `pat` in `s` at or after
/// `from`.
fn find_pat_at(s: &Vec<u8>, pat: &Vec<u8>, from: usize) -> (r: Option<usize>)
    ensures
        match r {
            Some(i) => find_pattern(s@, pat@, from as int) == Some(i as int)
                && from <= i && i + pat@.len() <= s@.len(),
            None => find_pattern(s@, pat@, from as int) is None,
        },
{
    if pat.len() == 0 {
        return None;
    }
    if pat.len() > s.len() {
        return None;
    }
    if from > s.len() - pat.len() {
        return None;
    }
    let mut i: usize = from;
    while i <= s.len() - pat.len()
        invariant
            from <= i,
            0 < pat@.len() <= s@.len(),
            i <= s@.len() - pat@.len() + 1,
            find_pattern(s@, pat@, from as int) == find_pattern(s@, pat@, i as int),
        decreases s@.len() - i,
    {
        if window_matches(s, pat, i) {
            return Some(i);
        }
        i = i + 1;
    }
    None
}

/// The pieces of `s` around occurrences of `pat`, as string values.
fn split_values(s: &Vec<u8>, pat: &Vec<u8>) -> (r: Vec<Value>)
    ensures
        models_of(r@) == split_bytes(s@, pat@).map_values(|piece: Seq<u8>| ValueV::String(piece)),
    decreases s@.len(),
{
    let whole_case = if pat.len() == 0 {
        true
    } else {
        false
    };
    if !whole_case {
        if let Some(i) = find_pat_at(s, pat, 0) {
            let slen = s.len();
            proof {
                assert(i + pat@.len() <= slen);
            }
            let head = sub_bytes(s, 0, i);
            let rest = sub_bytes(s, i + pat.len(), slen);
            let tail_pieces = split_values(&rest, pat);
            let mut out: Vec<Value> = Vec::new();
            let head_val = Value::String(Rc::new(head));
            proof {
                lemma_models_push(out@, head_val);
                assert(models_of(out@.push(head_val)) =~= seq![head_val.model()]);
            }
            out.push(head_val);
            let mut k: usize = 0;
            proof {
                lemma_models_of(tail_pieces@);
            }
            while k < tail_pieces.len()
                invariant
                    k <= tail_pieces@.len(),
                    models_of(out@) == seq![
                        ValueV::String(s@.subrange(0, find_pattern(s@, pat@, 0).unwrap())),
                    ] + models_of(tail_pieces@).take(k as int),
                    models_of(tail_pieces@).len() == tail_pieces@.len(),
                    forall|q: int| 0 <= q < tail_pieces@.len()
                        ==> models_of(tail_pieces@)[q] == tail_pieces@[q].model(),
                    find_pattern(s@, pat@, 0) == Some(
                        s@.len() - pat@.len() - rest@.len() as int,
                    ) || find_pattern(s@, pat@, 0) matches Some(_),
                    models_of(out@)[0] == ValueV::String(
                        s@.subrange(0, find_pattern(s@, pat@, 0).unwrap()),
                    ),
                decreases tail_pieces@.len() - k,
            {
                let dup = tail_pieces[k].duplicate();
                proof {
                    lemma_models_push(out@, dup);
                    assert((seq![
                        ValueV::String(s@.subrange(0, find_pattern(s@, pat@, 0).unwrap())),
                    ] + models_of(tail_pieces@).take(k as int)).push(dup.model()) =~= seq![
                        ValueV::String(s@.subrange(0, find_pattern(s@, pat@, 0).unwrap())),
                    ] + models_of(tail_pieces@).take(k + 1));
                }
                out.push(dup);
                k = k + 1;
            }
            proof {
                assert(models_of(tail_pieces@).take(tail_pieces@.len() as int) =~= models_of(
                    tail_pieces@,
                ));
                let i0 = find_pattern(s@, pat@, 0).unwrap();
                assert(rest@ == s@.subrange(i0 + pat@.len() as int, s@.len() as int));
                assert(split_bytes(s@, pat@) == seq![s@.subrange(0, i0)] + split_bytes(
                    rest@,
                    pat@,
                ));
                assert(models_of(out@) =~= split_bytes(s@, pat@).map_values(
                    |piece: Seq<u8>| ValueV::String(piece),
                ));
            }
            return out;
        }
    }
    let mut out: Vec<Value> = Vec::new();
    let v = Value::String(Rc::new(copy_bytes(s)));
    proof {
        lemma_models_push(out@, v);
        assert(models_of(out@.push(v)) =~= seq![v.model()]);
        assert(split_bytes(s@, pat@) == seq![s@]);
        assert(seq![v.model()] =~= split_bytes(s@, pat@).map_values(
            |piece: Seq<u8>| ValueV::String(piece),
        ));
    }
    out.push(v);
    out
}


impl VM {
    /// Resolves a seeded routine held in the given slot of the root
    /// frame of the current chain.
    fn resolve_root(&self, program: &Vec<Cmd>, slot: usize) -> (r: Result<
        (u64, usize, Scope),
        RuntimeError,
    >)
        requires
            wf_state(self@),
        ensures
            r == resolve_root_function(program_model(program@), self@, slot),
    {
        let start = match self.scope.0 {
            None => {
                return Err(RuntimeError::CorruptScope);
            },
            Some(i) => i,
        };
        let mut cur: usize = start;
        while self.frames[cur].parent.0.is_some()
            invariant
                wf_state(self@),
                cur < self@.frames.len(),
                root_frame_of(self@.frames, start as nat) == root_frame_of(
                    self@.frames,
                    cur as nat,
                ),
            decreases cur,
        {
            cur = match self.frames[cur].parent.0 {
                Some(p) => p,
                None => cur,
            };
        }
        let root = cur;
        let f = self.frames[root];
        if slot >= f.len {
            return Err(RuntimeError::CorruptScope);
        }
        let nbinds = self.binds.len();
        proof {
            lemma_bind_models_of(self.binds@);
            assert(self@.frames[root as int].first + self@.frames[root as int].len
                <= self@.binds.len());
            assert(f.first + slot < nbinds);
        }
        match &self.binds[f.first + slot] {
            Bind::Evaluated(v) => match v {
                Value::Function(Function::Native(id, addr, sc)) => Ok((*id, *addr, *sc)),
                _ => Err(RuntimeError::NotFunction),
            },
            Bind::Cmd(a) => {
                let a: usize = *a;
                if a >= program.len() {
                    return Err(RuntimeError::CorruptProgram);
                }
                proof {
                    assert(program_model(program@)[a as int] == program@[a as int]@);
                }
                match &program[a] {
                    Cmd::ConstructFunction(id, _len) => Ok((*id, a + 1, Scope(Some(root)))),
                    _ => Err(RuntimeError::CorruptProgram),
                }
            },
        }
    }

    /// Calling a built-in, once the callee and arguments have been
    /// popped.
    fn call_foreign(
        &mut self,
        program: &Vec<Cmd>,
        kind: ForeignKind,
        recv: Option<Rc<Value>>,
        args: Vec<Value>,
    ) -> (r: Result<(), RuntimeError>)
        requires
            old(self).ip < usize::MAX,
            wf_state(old(self)@),
        ensures
            match r {
                Ok(()) => foreign_call(
                    program_model(program@),
                    old(self)@,
                    old(self)@.stack,
                    kind,
                    match recv {
                        Some(v) => seq![v@],
                        None => Seq::<ValueV>::empty(),
                    },
                    models_of(args@),
                ) == Ok::<StateV, RuntimeError>(final(self)@) && wf_state(final(self)@),
                Err(e) => foreign_call(
                    program_model(program@),
                    old(self)@,
                    old(self)@.stack,
                    kind,
                    match recv {
                        Some(v) => seq![v@],
                        None => Seq::<ValueV>::empty(),
                    },
                    models_of(args@),
                ) == Err::<StateV, RuntimeError>(e),
            },
    {
        let ghost recv_models: Seq<ValueV> = match recv {
            Some(ref v) => seq![v@],
            None => Seq::<ValueV>::empty(),
        };
        let mut eff: Vec<Value> = Vec::new();
        match recv {
            Some(v) => {
                let dup = v.duplicate();
                proof {
                    lemma_models_push(eff@, dup);
                }
                eff.push(dup);
            },
            None => {},
        }
        proof {
            assert(models_of(eff@) =~= recv_models);
            lemma_models_of(args@);
        }
        let mut j: usize = 0;
        while j < args.len()
            invariant
                j <= args@.len(),
                self == old(self),
                models_of(eff@) == recv_models + models_of(args@).take(j as int),
                models_of(args@).len() == args@.len(),
                forall|q: int| 0 <= q < args@.len()
                    ==> models_of(args@)[q] == args@[q].model(),
            decreases args@.len() - j,
        {
            let dup = args[j].duplicate();
            proof {
                lemma_models_push(eff@, dup);
                assert((recv_models + models_of(args@).take(j as int)).push(dup.model())
                    =~= recv_models + models_of(args@).take(j + 1));
            }
            eff.push(dup);
            j = j + 1;
        }
        proof {
            lemma_models_of(args@);
            assert(models_of(args@).take(args@.len() as int) =~= models_of(args@));
            lemma_models_of(eff@);
        }
        let ghost effv = recv_models + models_of(args@);
        proof {
            assert(models_of(eff@) == effv);
        }
        match kind {
            ForeignKind::ListRange => {
                if eff.len() != 2 {
                    return Err(RuntimeError::Arity);
                }
                let a = match &eff[0] {
                    Value::Number(a) => *a,
                    _ => {
                        return Err(RuntimeError::NotNumber);
                    },
                };
                let b = match &eff[1] {
                    Value::Number(b) => *b,
                    _ => {
                        return Err(RuntimeError::NotNumber);
                    },
                };
                let items = make_range(a, b);
                self.push_value(Value::List(Rc::new(items)));
                self.ip = self.ip + 1;
                Ok(())
            },
            ForeignKind::ListConcat => {
                if eff.len() != 2 {
                    return Err(RuntimeError::Arity);
                }
                match (&eff[0], &eff[1]) {
                    (Value::List(x), Value::List(y)) => {
                        let items = concat_value_lists(x, y);
                        proof {
                            lemma_models_append(x@, y@);
                        }
                        self.push_value(Value::List(Rc::new(items)));
                        self.ip = self.ip + 1;
                        Ok(())
                    },
                    _ => Err(RuntimeError::NotList),
                }
            },
            ForeignKind::StringConcat => {
                if eff.len() != 2 {
                    return Err(RuntimeError::Arity);
                }
                match (&eff[0], &eff[1]) {
                    (Value::String(x), Value::String(y)) => {
                        let bytes = concat_bytes(x, y);
                        self.push_value(Value::String(Rc::new(bytes)));
                        self.ip = self.ip + 1;
                        Ok(())
                    },
                    _ => Err(RuntimeError::NotString),
                }
            },
            ForeignKind::StringSplit => {
                if eff.len() != 2 {
                    return Err(RuntimeError::Arity);
                }
                match (&eff[0], &eff[1]) {
                    (Value::String(x), Value::String(pat)) => {
                        let pieces = split_values(x, pat);
                        self.push_value(Value::List(Rc::new(pieces)));
                        self.ip = self.ip + 1;
                        Ok(())
                    },
                    _ => Err(RuntimeError::NotString),
                }
            },
            ForeignKind::MapKeys => {
                if eff.len() != 1 {
                    return Err(RuntimeError::Arity);
                }
                match &eff[0] {
                    Value::Block(b) => {
                        let keys = make_key_values(&b.fields);
                        self.push_value(Value::List(Rc::new(keys)));
                        self.ip = self.ip + 1;
                        Ok(())
                    },
                    _ => Err(RuntimeError::NotBlock),
                }
            },
            ForeignKind::ListFilter => {
                if eff.len() != 2 {
                    return Err(RuntimeError::Arity);
                }
                let (id, addr, sc) = self.resolve_root(program, FILTER_SLOT)?;
                self.call_native(program, id, addr, sc, eff)
            },
            ForeignKind::ListMap => {
                if eff.len() != 2 {
                    return Err(RuntimeError::Arity);
                }
                let (id, addr, sc) = self.resolve_root(program, MAP_IMPL_SLOT)?;
                self.call_native(program, id, addr, sc, eff)
            },
            ForeignKind::MapValues => {
                if eff.len() != 1 {
                    return Err(RuntimeError::Arity);
                }
                let keys = match &eff[0] {
                    Value::Block(b) => make_key_values(&b.fields),
                    _ => {
                        return Err(RuntimeError::NotBlock);
                    },
                };
                let (id, addr, sc) = self.resolve_root(program, VALUES_SLOT)?;
                let m = eff[0].duplicate();
                let mut call_args: Vec<Value> = Vec::new();
                proof {
                    lemma_models_push(call_args@, m);
                }
                call_args.push(m);
                let kv = Value::List(Rc::new(keys));
                proof {
                    lemma_models_push(call_args@, kv);
                }
                call_args.push(kv);
                proof {
                    assert(models_of(call_args@) =~= seq![
                        effv[0],
                        ValueV::List(block_key_values(effv[0]->Block_0.fields)),
                    ]);
                }
                self.call_native(program, id, addr, sc, call_args)
            },
        }
    }

    /// The `Call` instruction.
    #[verifier::rlimit(60)]
    fn op_call(&mut self, program: &Vec<Cmd>, argc: usize) -> (r: Result<(), RuntimeError>)
        requires
            old(self).ip < usize::MAX,
            wf_state(old(self)@),
        ensures
            match r {
                Ok(()) => step_call(program_model(program@), old(self)@, argc)
                    == Ok::<StateV, RuntimeError>(final(self)@) && wf_state(final(self)@),
                Err(e) => step_call(program_model(program@), old(self)@, argc)
                    == Err::<StateV, RuntimeError>(e),
            },
    {
        if self.stack.len() < argc {
            proof {
                lemma_models_of(self.stack@);
            }
            return Err(RuntimeError::StackUnderflow);
        }
        let at = self.stack.len() - argc;
        let args = self.stack.split_off(at);
        proof {
            lemma_models_of(old(self).stack@);
            lemma_models_subrange(old(self).stack@, at as int, old(self).stack@.len() as int);
            lemma_models_subrange(old(self).stack@, 0, at as int);
        }
        let callee = match self.pop_value() {
            Ok(v) => v,
            Err(e) => {
                return Err(e);
            },
        };
        let func = match callee.into_function() {
            Ok(f) => f,
            Err(e) => {
                return Err(e);
            },
        };
        proof {
            assert(models_of(self.stack@) =~= models_of(old(self).stack@).subrange(
                0,
                at as int,
            ).drop_last());
        }
        match func {
            Function::Native(id, addr, sc) => self.call_native(program, id, addr, sc, args),
            Function::Foreign(ff, recv) => self.call_foreign(program, ff.0, recv, args),
        }
    }

    /// Executes the instruction under the instruction pointer.
    pub fn step(&mut self, program: &Vec<Cmd>) -> (r: Result<(), RuntimeError>)
        requires
            old(self).ip < program@.len(),
            wf_state(old(self)@),
        ensures
            match r {
                Ok(()) => spec_step(program_model(program@), old(self)@)
                    == Ok::<StateV, RuntimeError>(final(self)@) && wf_state(final(self)@),
                Err(e) => spec_step(program_model(program@), old(self)@)
                    == Err::<StateV, RuntimeError>(e),
            },
    {
        let n = program.len();
        proof {
            assert(program_model(program@)[old(self).ip as int] == program@[old(self).ip as int]@);
            assert(old(self).ip < n);
        }
        let ip = self.ip;
        match &program[ip] {
            Cmd::Add => {
                let r = self.op_arith(ArithOp::Add);
                proof {
                    if r is Ok {
                        if old(self)@.calls.len() > 0 {
                            assert(scope_ok(
                                old(self)@.calls[old(self)@.calls.len() - 1].scope,
                                old(self)@.frames,
                            ));
                        }
                        wf_after_shallow(old(self)@, self@);
                    }
                }
                r
            },
            Cmd::Sub => {
                let r = self.op_arith(ArithOp::Sub);
                proof {
                    if r is Ok {
                        if old(self)@.calls.len() > 0 {
                            assert(scope_ok(
                                old(self)@.calls[old(self)@.calls.len() - 1].scope,
                                old(self)@.frames,
                            ));
                        }
                        wf_after_shallow(old(self)@, self@);
                    }
                }
                r
            },
            Cmd::Mul => {
                let r = self.op_arith(ArithOp::Mul);
                proof {
                    if r is Ok {
                        if old(self)@.calls.len() > 0 {
                            assert(scope_ok(
                                old(self)@.calls[old(self)@.calls.len() - 1].scope,
                                old(self)@.frames,
                            ));
                        }
                        wf_after_shallow(old(self)@, self@);
                    }
                }
                r
            },
            Cmd::Div => {
                let r = self.op_arith(ArithOp::Div);
                proof {
                    if r is Ok {
                        if old(self)@.calls.len() > 0 {
                            assert(scope_ok(
                                old(self)@.calls[old(self)@.calls.len() - 1].scope,
                                old(self)@.frames,
                            ));
                        }
                        wf_after_shallow(old(self)@, self@);
                    }
                }
                r
            },
            Cmd::Surplus => {
                let r = self.op_arith(ArithOp::Surplus);
                proof {
                    if r is Ok {
                        if old(self)@.calls.len() > 0 {
                            assert(scope_ok(
                                old(self)@.calls[old(self)@.calls.len() - 1].scope,
                                old(self)@.frames,
                            ));
                        }
                        wf_after_shallow(old(self)@, self@);
                    }
                }
                r
            },
            Cmd::Equal => {
                let r = self.op_equal();
                proof {
                    if r is Ok {
                        if old(self)@.calls.len() > 0 {
                            assert(scope_ok(
                                old(self)@.calls[old(self)@.calls.len() - 1].scope,
                                old(self)@.frames,
                            ));
                        }
                        wf_after_shallow(old(self)@, self@);
                    }
                }
                r
            },
            Cmd::GreaterThan => {
                let r = self.op_compare(true);
                proof {
                    if r is Ok {
                        if old(self)@.calls.len() > 0 {
                            assert(scope_ok(
                                old(self)@.calls[old(self)@.calls.len() - 1].scope,
                                old(self)@.frames,
                            ));
                        }
                        wf_after_shallow(old(self)@, self@);
                    }
                }
                r
            },
            Cmd::LessThan => {
                let r = self.op_compare(false);
                proof {
                    if r is Ok {
                        if old(self)@.calls.len() > 0 {
                            assert(scope_ok(
                                old(self)@.calls[old(self)@.calls.len() - 1].scope,
                                old(self)@.frames,
                            ));
                        }
                        wf_after_shallow(old(self)@, self@);
                    }
                }
                r
            },
            Cmd::Not => {
                let r = self.op_not();
                proof {
                    if r is Ok {
                        if old(self)@.calls.len() > 0 {
                            assert(scope_ok(
                                old(self)@.calls[old(self)@.calls.len() - 1].scope,
                                old(self)@.frames,
                            ));
                        }
                        wf_after_shallow(old(self)@, self@);
                    }
                }
                r
            },
            Cmd::Load(n, d) => {
                let n: usize = *n;
                let d: usize = *d;
                self.op_load(n, d)
            },
            Cmd::Store(n) => {
                let n: usize = *n;
                self.op_store(n)
            },
            Cmd::Block(sizes) => self.op_block(sizes),
            Cmd::NumberConst(n) => {
                let n: i64 = *n;
                let r = self.op_push_const(Value::Number(n));
                proof {
                    if r is Ok {
                        if old(self)@.calls.len() > 0 {
                            assert(scope_ok(
                                old(self)@.calls[old(self)@.calls.len() - 1].scope,
                                old(self)@.frames,
                            ));
                        }
                        wf_after_shallow(old(self)@, self@);
                    }
                }
                r
            },
            Cmd::StringConst(s) => {
                let v = Value::String(s.clone());
                let r = self.op_push_const(v);
                proof {
                    if r is Ok {
                        if old(self)@.calls.len() > 0 {
                            assert(scope_ok(
                                old(self)@.calls[old(self)@.calls.len() - 1].scope,
                                old(self)@.frames,
                            ));
                        }
                        wf_after_shallow(old(self)@, self@);
                    }
                }
                r
            },
            Cmd::NullConst => {
                let r = self.op_push_const(Value::Null);
                proof {
                    if r is Ok {
                        if old(self)@.calls.len() > 0 {
                            assert(scope_ok(
                                old(self)@.calls[old(self)@.calls.len() - 1].scope,
                                old(self)@.frames,
                            ));
                        }
                        wf_after_shallow(old(self)@, self@);
                    }
                }
                r
            },
            Cmd::ConstructList(n) => {
                let n: usize = *n;
                let r = self.op_construct_list(n);
                proof {
                    if r is Ok {
                        if old(self)@.calls.len() > 0 {
                            assert(scope_ok(
                                old(self)@.calls[old(self)@.calls.len() - 1].scope,
                                old(self)@.frames,
                            ));
                        }
                        wf_after_shallow(old(self)@, self@);
                    }
                }
                r
            },
            Cmd::ConstructFunction(id, len) => {
                let id: u64 = *id;
                let len: usize = *len;
                let r = self.op_construct_function(id, len);
                proof {
                    if r is Ok {
                        if old(self)@.calls.len() > 0 {
                            assert(scope_ok(
                                old(self)@.calls[old(self)@.calls.len() - 1].scope,
                                old(self)@.frames,
                            ));
                        }
                        wf_after_shallow(old(self)@, self@);
                    }
                }
                r
            },
            Cmd::ConstructBlock(len, fields) => {
                let len: usize = *len;
                let r = self.op_construct_block(len, fields);
                proof {
                    if r is Ok {
                        if old(self)@.calls.len() > 0 {
                            assert(scope_ok(
                                old(self)@.calls[old(self)@.calls.len() - 1].scope,
                                old(self)@.frames,
                            ));
                        }
                        wf_after_shallow(old(self)@, self@);
                    }
                }
                r
            },
            Cmd::ConstructForeignFunction(f) => {
                let v = Value::Function(Function::Foreign(*f, None));
                let r = self.op_push_const(v);
                proof {
                    if r is Ok {
                        if old(self)@.calls.len() > 0 {
                            assert(scope_ok(
                                old(self)@.calls[old(self)@.calls.len() - 1].scope,
                                old(self)@.frames,
                            ));
                        }
                        wf_after_shallow(old(self)@, self@);
                    }
                }
                r
            },
            Cmd::JumpRel(n) => {
                let n: usize = *n;
                let r = self.op_jump_rel(n);
                proof {
                    if r is Ok {
                        if old(self)@.calls.len() > 0 {
                            assert(scope_ok(
                                old(self)@.calls[old(self)@.calls.len() - 1].scope,
                                old(self)@.frames,
                            ));
                        }
                        wf_after_shallow(old(self)@, self@);
                    }
                }
                r
            },
            Cmd::JumpRelUnless(n) => {
                let n: usize = *n;
                let r = self.op_jump_rel_unless(n);
                proof {
                    if r is Ok {
                        if old(self)@.calls.len() > 0 {
                            assert(scope_ok(
                                old(self)@.calls[old(self)@.calls.len() - 1].scope,
                                old(self)@.frames,
                            ));
                        }
                        wf_after_shallow(old(self)@, self@);
                    }
                }
                r
            },
            Cmd::Call(argc) => {
                let argc: usize = *argc;
                self.op_call(program, argc)
            },
            Cmd::Index => self.op_index(),
            Cmd::Access => self.op_access(),
            Cmd::ExitScope => {
                let r = self.op_exit_scope();
                proof {
                    if r is Ok {
                        if old(self)@.calls.len() > 0 {
                            assert(scope_ok(
                                old(self)@.calls[old(self)@.calls.len() - 1].scope,
                                old(self)@.frames,
                            ));
                        }
                        wf_after_shallow(old(self)@, self@);
                    }
                }
                r
            },
            Cmd::Return => {
                let r = self.op_return();
                proof {
                    if r is Ok {
                        if old(self)@.calls.len() > 0 {
                            assert(scope_ok(
                                old(self)@.calls[old(self)@.calls.len() - 1].scope,
                                old(self)@.frames,
                            ));
                        }
                        wf_after_shallow(old(self)@, self@);
                    }
                }
                r
            },
        }
    }
}

/// A transition that leaves the frame arena and binds unchanged,
/// drops saved call frames only from the top, and ends in a valid
/// scope keeps the state well formed.
pub proof fn wf_after_shallow(s0: StateV, s1: StateV)
    requires
        wf_state(s0),
        s1.frames == s0.frames,
        s1.binds == s0.binds,
        s1.calls == s0.calls || (s0.calls.len() > 0 && s1.calls == s0.calls.drop_last()),
        scope_ok(s1.scope, s1.frames),
    ensures
        wf_state(s1),
{
    assert forall|j: int| 0 <= j < s1.calls.len() implies scope_ok(
        (#[trigger] s1.calls[j]).scope,
        s1.frames,
    ) by {
        if s1.calls == s0.calls {
            assert(scope_ok(s0.calls[j].scope, s0.frames));
        } else {
            assert(s1.calls[j] == s0.calls.drop_last()[j]);
            assert(s0.calls.drop_last()[j] == s0.calls[j]);
            assert(scope_ok(s0.calls[j].scope, s0.frames));
        }
    }
}


impl VM {
    /// A machine in the initial state.
    pub fn new() -> (r: VM)
        ensures
            r@ == initial_state(),
            wf_state(r@),
    {
        let vm = VM {
            stack: Vec::new(),
            call_stack: Vec::new(),
            frames: Vec::new(),
            binds: Vec::new(),
            scope: Scope(None),
            ip: 0,
        };
        proof {
            assert(vm@ =~= initial_state());
        }
        vm
    }
}

/// Runs a program for at most `fuel` transitions and returns the value
/// it leaves on the stack, or the error it raises: exactly what the
/// specification semantics `spec_run` computes.
pub fn run(program: &Vec<Cmd>, fuel: u64) -> (r: Result<Value, RuntimeError>)
    ensures
        match r {
            Ok(v) => spec_run(program_model(program@), initial_state(), fuel as nat)
                == Ok::<ValueV, RuntimeError>(v@),
            Err(e) => spec_run(program_model(program@), initial_state(), fuel as nat)
                == Err::<ValueV, RuntimeError>(e),
        },
{
    let mut vm = VM::new();
    let ghost pm = program_model(program@);
    let ghost fuel0 = fuel;
    let mut fuel_left: u64 = fuel;
    while vm.ip < program.len()
        invariant
            wf_state(vm@),
            pm == program_model(program@),
            pm.len() == program@.len(),
            fuel_left <= fuel0,
            fuel0 == fuel,
            spec_run(pm, initial_state(), fuel0 as nat) == spec_run(pm, vm@, fuel_left as nat),
        decreases fuel_left,
    {
        if fuel_left == 0 {
            return Err(RuntimeError::OutOfFuel);
        }
        fuel_left = fuel_left - 1;
        match vm.step(program) {
            Ok(()) => {},
            Err(e) => {
                return Err(e);
            },
        }
    }
    proof {
        lemma_models_of(vm.stack@);
    }
    let ghost prestate = vm@;
    match vm.stack.pop() {
        Some(v) => {
            proof {
                assert(prestate.stack.len() > 0);
                assert(v@ == prestate.stack.last());
            }
            Ok(v)
        },
        None => {
            proof {
                assert(prestate.stack.len() == 0);
            }
            Err(RuntimeError::StackUnderflow)
        },
    }
}

} // verus!
