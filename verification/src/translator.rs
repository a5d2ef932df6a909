//! Lowering the abstract syntax tree to the flat instruction stream.
//!
//! Every identifier is resolved to a lexical address: its slot in the
//! frame that declares it, and how many scopes outward that frame sits.
//! Each binding's body is compiled into a thunk ending in
//! `Store(slot); Return`, so the machine evaluates bindings lazily and
//! at most once.  The specification translation functions `tr_*` define
//! the lowering; every executable translation function is proved to
//! compute them.

use vstd::prelude::*;
use std::rc::Rc;
use crate::ast::{
    Statement, Expression, Comparison, ComparisonRight, Additive, AdditiveRight, Multitive,
    MultitiveRight, Operation, OperationRight, Primary,
};
use crate::vm::{Cmd, CmdV, program_model};
use crate::value::{ForeignFunction, ForeignKind};

verus! {

/// A translation-time environment, mathematically: the stack of
/// lexical frames, outermost first, each an ordered list of the names
/// it declares.
pub type EnvV = Seq<Seq<Seq<u8>>>;

/// A translation-time error.
#[derive(Debug)]
pub enum TransError {
    /// An identifier was referenced with no visible binding.
    UndefinedName(Vec<u8>),
    /// An emitted operand would not fit the instruction encoding.
    TooLarge,
    /// The supply of function identities was exhausted.
    TooManyFunctions,
}

/// The mathematical shape of a translation-time error.
pub enum TransErrorV {
    UndefinedName(Seq<u8>),
    TooLarge,
    TooManyFunctions,
}

impl TransError {
    /// The mathematical shape of this error.
    pub open spec fn model(self) -> TransErrorV {
        match self {
            TransError::UndefinedName(name) => TransErrorV::UndefinedName(name@),
            TransError::TooLarge => TransErrorV::TooLarge,
            TransError::TooManyFunctions => TransErrorV::TooManyFunctions,
        }
    }
}

/// The slot of a name in one frame; the last declaration wins, as a
/// later binding of the same name shadows an earlier one.
pub open spec fn frame_slot(names: Seq<Seq<u8>>, name: Seq<u8>) -> Option<usize>
    decreases names.len(),
{
    if names.len() == 0 {
        None
    } else if names.last() == name {
        Some((names.len() - 1) as usize)
    } else {
        frame_slot(names.drop_last(), name)
    }
}

/// The lexical address of a name: its slot in the innermost frame that
/// declares it, and how many frames outward that frame sits.
pub open spec fn env_lookup(env: EnvV, name: Seq<u8>) -> Option<(usize, usize)>
    decreases env.len(),
{
    if env.len() == 0 {
        None
    } else {
        match frame_slot(env.last(), name) {
            Some(slot) => Some((slot, 0)),
            None => match env_lookup(env.drop_last(), name) {
                Some((slot, depth)) => Some((slot, (depth + 1) as usize)),
                None => None,
            },
        }
    }
}

/// The names a definition list declares, in declaration order.
pub open spec fn names_of_defs(defs: Seq<(Vec<u8>, Expression)>) -> Seq<Seq<u8>> {
    defs.map_values(|d: (Vec<u8>, Expression)| d.0@)
}

/// The field table of a record literal: each name mapped to its slot.
pub open spec fn field_table_of(defs: Seq<(Vec<u8>, Expression)>) -> Seq<(Seq<u8>, usize)> {
    Seq::new(defs.len(), |i: int| (defs[i].0@, i as usize))
}

/// The concatenation of a list of instruction sequences.
pub open spec fn flatten_cmds(list: Seq<Seq<CmdV>>) -> Seq<CmdV>
    decreases list.len(),
{
    if list.len() == 0 {
        Seq::empty()
    } else {
        flatten_cmds(list.drop_last()) + list.last()
    }
}

/// The thunk sizes of a list of thunks.
pub open spec fn sizes_of(list: Seq<Seq<CmdV>>) -> Seq<usize> {
    list.map_values(|t: Seq<CmdV>| t.len() as usize)
}

/// Whether every thunk's size fits a `usize` operand.
pub open spec fn sizes_fit(list: Seq<Seq<CmdV>>) -> bool {
    forall|i: int| 0 <= i < list.len() ==> (#[trigger] list[i]).len() <= usize::MAX
}

/// The instruction the comparison operator of one right-hand side
/// compiles to, with `Not` where the operator is a negation.
pub open spec fn comparison_ops(right: ComparisonRight) -> Seq<CmdV> {
    match right {
        ComparisonRight::Equal(_) => seq![CmdV::Equal],
        ComparisonRight::NotEqual(_) => seq![CmdV::Equal, CmdV::Not],
        ComparisonRight::GreaterThan(_) => seq![CmdV::GreaterThan],
        ComparisonRight::LessThan(_) => seq![CmdV::LessThan],
        ComparisonRight::NotGreaterThan(_) => seq![CmdV::GreaterThan, CmdV::Not],
        ComparisonRight::NotLessThan(_) => seq![CmdV::LessThan, CmdV::Not],
    }
}

/// The operand of one comparison right-hand side.
pub open spec fn comparison_operand(right: ComparisonRight) -> Additive {
    match right {
        ComparisonRight::Equal(a) => a,
        ComparisonRight::NotEqual(a) => a,
        ComparisonRight::GreaterThan(a) => a,
        ComparisonRight::LessThan(a) => a,
        ComparisonRight::NotGreaterThan(a) => a,
        ComparisonRight::NotLessThan(a) => a,
    }
}

/// Lowering a statement or immediate block: enter a frame of one thunk
/// per definition, then the body, then leave the frame.
#[verifier::opaque]
pub open spec fn tr_statement(env: EnvV, s: Statement, fid: u64) -> Result<
    (Seq<CmdV>, u64),
    TransErrorV,
>
    decreases s, 2int,
{
    let env2 = env.push(names_of_defs(s.definitions@));
    match tr_defs(env2, s.definitions@, fid) {
        Err(e) => Err(e),
        Ok((thunks, fid1)) => if !sizes_fit(thunks) {
            Err(TransErrorV::TooLarge)
        } else {
            match tr_expression(env2, s.body, fid1) {
                Err(e) => Err(e),
                Ok((body, fid2)) => Ok(
                    (
                        seq![CmdV::Block(sizes_of(thunks))] + flatten_cmds(thunks) + body
                            + seq![CmdV::ExitScope],
                        fid2,
                    ),
                ),
            }
        },
    }
}

/// Lowering the thunks of a definition list: each body is compiled in
/// the new frame and ends with `Store(slot); Return`.
#[verifier::opaque]
pub open spec fn tr_defs(env2: EnvV, defs: Seq<(Vec<u8>, Expression)>, fid: u64) -> Result<
    (Seq<Seq<CmdV>>, u64),
    TransErrorV,
>
    decreases defs, 2int,
{
    if defs.len() == 0 {
        Ok((Seq::empty(), fid))
    } else {
        match tr_defs(env2, defs.drop_last(), fid) {
            Err(e) => Err(e),
            Ok((thunks, fid1)) => match tr_expression(env2, defs.last().1, fid1) {
                Err(e) => Err(e),
                Ok((body, fid2)) => Ok(
                    (
                        thunks.push(
                            body + seq![
                                CmdV::Store((defs.len() - 1) as usize),
                                CmdV::Return,
                            ],
                        ),
                        fid2,
                    ),
                ),
            },
        }
    }
}

/// Lowering an expression.
#[verifier::opaque]
pub open spec fn tr_expression(env: EnvV, e: Expression, fid: u64) -> Result<
    (Seq<CmdV>, u64),
    TransErrorV,
>
    decreases e, 2int,
{
    match e {
        Expression::Comparison(c) => tr_comparison(env, c, fid),
        Expression::If { cond, cons, alt } => match tr_expression(env, *cond, fid) {
            Err(e) => Err(e),
            Ok((cond_cmds, fid1)) => match tr_expression(env, *alt, fid1) {
                Err(e) => Err(e),
                Ok((alt_cmds, fid2)) => match tr_expression(env, *cons, fid2) {
                    Err(e) => Err(e),
                    Ok((cons_cmds, fid3)) => if alt_cmds.len() + 1 > usize::MAX || cons_cmds.len()
                        + 2 > usize::MAX {
                        Err(TransErrorV::TooLarge)
                    } else {
                        Ok(
                            (
                                cond_cmds + seq![
                                    CmdV::JumpRelUnless((cons_cmds.len() + 2) as usize),
                                ] + cons_cmds + seq![
                                    CmdV::JumpRel((alt_cmds.len() + 1) as usize),
                                ] + alt_cmds,
                                fid3,
                            ),
                        )
                    },
                },
            },
        },
    }
}

/// Lowering a comparison chain: the left term, then each right-hand
/// side's operand followed by its operator instructions.
#[verifier::opaque]
pub open spec fn tr_comparison(env: EnvV, c: Comparison, fid: u64) -> Result<
    (Seq<CmdV>, u64),
    TransErrorV,
>
    decreases c, 2int,
{
    match tr_additive(env, c.left, fid) {
        Err(e) => Err(e),
        Ok((left, fid1)) => match tr_comparison_rights(env, c.rights@, fid1) {
            Err(e) => Err(e),
            Ok((rights, fid2)) => Ok((left + rights, fid2)),
        },
    }
}

/// Lowering the right-hand sides of a comparison chain, in order.
#[verifier::opaque]
pub open spec fn tr_comparison_rights(env: EnvV, rights: Seq<ComparisonRight>, fid: u64) -> Result<
    (Seq<CmdV>, u64),
    TransErrorV,
>
    decreases rights, 2int,
{
    if rights.len() == 0 {
        Ok((Seq::empty(), fid))
    } else {
        match tr_comparison_rights(env, rights.drop_last(), fid) {
            Err(e) => Err(e),
            Ok((done, fid1)) => match tr_additive(env, comparison_operand(rights.last()), fid1) {
                Err(e) => Err(e),
                Ok((operand, fid2)) => Ok(
                    (done + operand + comparison_ops(rights.last()), fid2),
                ),
            },
        }
    }
}

/// The operand and operator of one additive right-hand side.
pub open spec fn additive_parts(right: AdditiveRight) -> (Multitive, CmdV) {
    match right {
        AdditiveRight::Add(m) => (m, CmdV::Add),
        AdditiveRight::Sub(m) => (m, CmdV::Sub),
    }
}

/// Lowering an additive chain: a strict left fold.
#[verifier::opaque]
pub open spec fn tr_additive(env: EnvV, a: Additive, fid: u64) -> Result<
    (Seq<CmdV>, u64),
    TransErrorV,
>
    decreases a, 2int,
{
    match tr_multitive(env, a.left, fid) {
        Err(e) => Err(e),
        Ok((left, fid1)) => match tr_additive_rights(env, a.rights@, fid1) {
            Err(e) => Err(e),
            Ok((rights, fid2)) => Ok((left + rights, fid2)),
        },
    }
}

/// Lowering the right-hand sides of an additive chain, in order.
#[verifier::opaque]
pub open spec fn tr_additive_rights(env: EnvV, rights: Seq<AdditiveRight>, fid: u64) -> Result<
    (Seq<CmdV>, u64),
    TransErrorV,
>
    decreases rights, 2int,
{
    if rights.len() == 0 {
        Ok((Seq::empty(), fid))
    } else {
        match tr_additive_rights(env, rights.drop_last(), fid) {
            Err(e) => Err(e),
            Ok((done, fid1)) => match tr_multitive(env, additive_parts(rights.last()).0, fid1) {
                Err(e) => Err(e),
                Ok((operand, fid2)) => Ok(
                    (done + operand + seq![additive_parts(rights.last()).1], fid2),
                ),
            },
        }
    }
}

/// The operand and operator of one multiplicative right-hand side.
pub open spec fn multitive_parts(right: MultitiveRight) -> (Operation, CmdV) {
    match right {
        MultitiveRight::Mul(o) => (o, CmdV::Mul),
        MultitiveRight::Div(o) => (o, CmdV::Div),
        MultitiveRight::Surplus(o) => (o, CmdV::Surplus),
    }
}

/// Lowering a multiplicative chain: a strict left fold.
#[verifier::opaque]
pub open spec fn tr_multitive(env: EnvV, m: Multitive, fid: u64) -> Result<
    (Seq<CmdV>, u64),
    TransErrorV,
>
    decreases m, 2int,
{
    match tr_operation(env, m.left, fid) {
        Err(e) => Err(e),
        Ok((left, fid1)) => match tr_multitive_rights(env, m.rights@, fid1) {
            Err(e) => Err(e),
            Ok((rights, fid2)) => Ok((left + rights, fid2)),
        },
    }
}

/// Lowering the right-hand sides of a multiplicative chain, in order.
#[verifier::opaque]
pub open spec fn tr_multitive_rights(env: EnvV, rights: Seq<MultitiveRight>, fid: u64) -> Result<
    (Seq<CmdV>, u64),
    TransErrorV,
>
    decreases rights, 2int,
{
    if rights.len() == 0 {
        Ok((Seq::empty(), fid))
    } else {
        match tr_multitive_rights(env, rights.drop_last(), fid) {
            Err(e) => Err(e),
            Ok((done, fid1)) => match tr_operation(env, multitive_parts(rights.last()).0, fid1) {
                Err(e) => Err(e),
                Ok((operand, fid2)) => Ok(
                    (done + operand + seq![multitive_parts(rights.last()).1], fid2),
                ),
            },
        }
    }
}

/// Lowering a postfix chain: the primary, then each postfix operator.
#[verifier::opaque]
pub open spec fn tr_operation(env: EnvV, o: Operation, fid: u64) -> Result<
    (Seq<CmdV>, u64),
    TransErrorV,
>
    decreases o, 2int,
{
    match tr_primary(env, o.left, fid) {
        Err(e) => Err(e),
        Ok((left, fid1)) => match tr_operation_rights(env, o.rights@, fid1) {
            Err(e) => Err(e),
            Ok((rights, fid2)) => Ok((left + rights, fid2)),
        },
    }
}

/// Lowering the postfix operators of a chain, in order.  A field
/// access pushes the name and enters the block; a call compiles its
/// arguments left to right, in source order; indexing compiles the
/// index expression.
#[verifier::opaque]
pub open spec fn tr_operation_rights(env: EnvV, rights: Seq<OperationRight>, fid: u64) -> Result<
    (Seq<CmdV>, u64),
    TransErrorV,
>
    decreases rights, 2int,
{
    if rights.len() == 0 {
        Ok((Seq::empty(), fid))
    } else {
        match tr_operation_rights(env, rights.drop_last(), fid) {
            Err(e) => Err(e),
            Ok((done, fid1)) => match rights.last() {
                OperationRight::Access(name) => Ok(
                    (done + seq![CmdV::StringConst(name@), CmdV::Access], fid1),
                ),
                OperationRight::Call(args) => match tr_args(env, args@, fid1) {
                    Err(e) => Err(e),
                    Ok((argcmds, fid2)) => Ok(
                        (done + argcmds + seq![CmdV::Call(args@.len() as usize)], fid2),
                    ),
                },
                OperationRight::Index(e) => match tr_expression(env, *e, fid1) {
                    Err(err) => Err(err),
                    Ok((icmds, fid2)) => Ok((done + icmds + seq![CmdV::Index], fid2)),
                },
            },
        }
    }
}

/// Lowering a list of argument expressions, left to right.
#[verifier::opaque]
pub open spec fn tr_args(env: EnvV, args: Seq<Expression>, fid: u64) -> Result<
    (Seq<CmdV>, u64),
    TransErrorV,
>
    decreases args, 2int,
{
    if args.len() == 0 {
        Ok((Seq::empty(), fid))
    } else {
        match tr_args(env, args.drop_last(), fid) {
            Err(e) => Err(e),
            Ok((done, fid1)) => match tr_expression(env, args.last(), fid1) {
                Err(e) => Err(e),
                Ok((acmds, fid2)) => Ok((done + acmds, fid2)),
            },
        }
    }
}

/// Lowering a primary expression.
#[verifier::opaque]
pub open spec fn tr_primary(env: EnvV, p: Primary, fid: u64) -> Result<
    (Seq<CmdV>, u64),
    TransErrorV,
>
    decreases p, 3int,
{
    match p {
        Primary::Number(n) => Ok((seq![CmdV::NumberConst(n)], fid)),
        Primary::String(s) => Ok((seq![CmdV::StringConst(s@)], fid)),
        Primary::Variable(name) => match env_lookup(env, name@) {
            Some((slot, depth)) => Ok((seq![CmdV::Load(slot, depth)], fid)),
            None => Err(TransErrorV::UndefinedName(name@)),
        },
        Primary::Block(stmt) => tr_statement(env, *stmt, fid),
        Primary::List(items) => match tr_args(env, items@, fid) {
            Err(e) => Err(e),
            Ok((icmds, fid1)) => Ok(
                (icmds + seq![CmdV::ConstructList(items@.len() as usize)], fid1),
            ),
        },
        Primary::Function(argnames, body) => if fid == u64::MAX {
            Err(TransErrorV::TooManyFunctions)
        } else {
            let env2 = env.push(frame_model(argnames@));
            match tr_expression(env2, *body, (fid + 1) as u64) {
                Err(e) => Err(e),
                Ok((bodycmds, fid1)) => {
                    let full = bodycmds + seq![CmdV::ExitScope, CmdV::Return];
                    if full.len() > usize::MAX {
                        Err(TransErrorV::TooLarge)
                    } else {
                        Ok(
                            (
                                seq![CmdV::ConstructFunction(fid, full.len() as usize)] + full,
                                fid1,
                            ),
                        )
                    }
                },
            }
        },
        Primary::Struct(defs) => tr_struct(env, defs@, fid),
        Primary::Null => Ok((seq![CmdV::NullConst], fid)),
        Primary::Foreign(f) => Ok((seq![CmdV::ConstructForeignFunction(f)], fid)),
    }
}

/// Lowering a record literal: like a statement whose body builds a
/// block value reading every bound slot back out through a
/// `Load`/`Return` pair per field.
#[verifier::opaque]
pub open spec fn tr_struct(env: EnvV, defs: Seq<(Vec<u8>, Expression)>, fid: u64) -> Result<
    (Seq<CmdV>, u64),
    TransErrorV,
>
    decreases defs, 3int,
{
    let env2 = env.push(names_of_defs(defs));
    match tr_defs(env2, defs, fid) {
        Err(e) => Err(e),
        Ok((thunks, fid1)) => if !sizes_fit(thunks) || 2 * defs.len() > usize::MAX {
            Err(TransErrorV::TooLarge)
        } else {
            Ok(
                (
                    seq![CmdV::Block(sizes_of(thunks))] + flatten_cmds(thunks) + seq![
                        CmdV::ConstructBlock((2 * defs.len()) as usize, field_table_of(defs)),
                    ] + field_reads(defs.len() as int) + seq![CmdV::ExitScope],
                    fid1,
                ),
            )
        },
    }
}

/// The field-reading body of a record literal: a `Load(i, 0); Return`
/// pair per field, so that entering at `base + 2·i` evaluates field
/// `i`.
pub open spec fn field_reads(k: int) -> Seq<CmdV>
    decreases k,
{
    if k <= 0 {
        Seq::empty()
    } else {
        field_reads(k - 1) + seq![CmdV::Load((k - 1) as usize, 0), CmdV::Return]
    }
}


/// A resolved depth is always smaller than the number of frames.
pub proof fn lemma_env_lookup_depth(env: EnvV, name: Seq<u8>)
    ensures
        env_lookup(env, name) matches Some((slot, depth)) ==> depth < env.len(),
    decreases env.len(),
{
    if env.len() > 0 {
        lemma_env_lookup_depth(env.drop_last(), name);
    }
}

/// The mathematical shape of one frame's name list.
pub open spec fn frame_model(names: Seq<Vec<u8>>) -> Seq<Seq<u8>> {
    names.map_values(|n: Vec<u8>| n@)
}

/// The mathematical shape of an environment's frame stack.
pub open spec fn env_model(frames: Seq<Vec<Vec<u8>>>) -> EnvV {
    frames.map_values(|f: Vec<Vec<u8>>| frame_model(f@))
}

/// The translation-time environment: the stack of lexical frames,
/// outermost first, each the ordered list of names it declares.
#[derive(Debug)]
pub struct Env(pub Vec<Vec<Vec<u8>>>);

impl View for Env {
    type V = EnvV;

    open spec fn view(&self) -> EnvV {
        env_model(self.0@)
    }
}

/// Finds a name's slot in one frame; the last declaration wins.
fn frame_find(frame: &Vec<Vec<u8>>, name: &Vec<u8>) -> (r: Option<usize>)
    ensures
        r == frame_slot(frame_model(frame@), name@),
{
    let ghost fm = frame_model(frame@);
    let mut j: usize = frame.len();
    proof {
        assert(fm.take(j as int) =~= fm);
    }
    while j > 0
        invariant
            j <= frame@.len(),
            fm == frame_model(frame@),
            frame_slot(fm, name@) == frame_slot(fm.take(j as int), name@),
        decreases j,
    {
        j = j - 1;
        proof {
            assert(fm.take(j + 1).last() == fm[j as int]);
            assert(fm.take(j + 1).drop_last() =~= fm.take(j as int));
        }
        if crate::value::bytes_eq(&frame[j], name) {
            return Some(j);
        }
    }
    proof {
        assert(fm.take(0) =~= Seq::<Seq<u8>>::empty());
    }
    None
}

impl Env {
    /// An empty environment.
    pub fn new() -> (r: Env)
        ensures
            r@ == Seq::<Seq<Seq<u8>>>::empty(),
    {
        let e = Env(Vec::new());
        proof {
            assert(e@ =~= Seq::<Seq<Seq<u8>>>::empty());
        }
        e
    }

    /// Enters a lexical frame.
    pub fn push(&mut self, frame: Vec<Vec<u8>>)
        ensures
            final(self)@ == old(self)@.push(frame_model(frame@)),
    {
        let ghost fm = frame_model(frame@);
        let ghost before = self.0@;
        self.0.push(frame);
        proof {
            assert(env_model(before.push(frame)) =~= env_model(before).push(fm));
        }
    }

    /// Leaves the innermost lexical frame and returns its names.
    pub fn pop(&mut self) -> (r: Vec<Vec<u8>>)
        requires
            old(self)@.len() > 0,
        ensures
            final(self)@ == old(self)@.drop_last(),
            frame_model(r@) == old(self)@.last(),
    {
        match self.0.pop() {
            Some(frame) => {
                proof {
                    let before = old(self).0@;
                    assert(before.subrange(0, before.len() - 1) =~= before.drop_last());
                    assert(env_model(before.drop_last()) =~= env_model(before).drop_last());
                }
                frame
            },
            None => {
                proof {
                    assert(false);
                }
                Vec::new()
            },
        }
    }

    /// Resolves a name to its lexical address: the slot in the
    /// innermost frame declaring it, and that frame's depth counted
    /// from the innermost frame outward.
    pub fn get_bind(&self, name: &Vec<u8>) -> (r: Option<(usize, usize)>)
        ensures
            r == env_lookup(self@, name@),
    {
        let ghost envv = self@;
        let total = self.0.len();
        let mut idx: usize = total;
        proof {
            assert(envv.take(idx as int) =~= envv);
        }
        while idx > 0
            invariant
                idx <= total,
                total == self.0@.len(),
                envv == self@,
                envv.len() == total,
                env_lookup(envv, name@) == (match env_lookup(envv.take(idx as int), name@) {
                    Some((slot, depth)) => Some(
                        (slot, (depth + (total - idx)) as usize),
                    ),
                    None => None::<(usize, usize)>,
                }),
            decreases idx,
        {
            idx = idx - 1;
            proof {
                assert(envv.take(idx + 1).last() == envv[idx as int]);
                assert(envv.take(idx + 1).drop_last() =~= envv.take(idx as int));
                assert(envv[idx as int] == frame_model(self.0@[idx as int]@));
                lemma_env_lookup_depth(envv.take(idx as int), name@);
                lemma_env_lookup_depth(envv.take(idx + 1), name@);
                assert(envv.take(idx as int).len() <= total);
            }
            match frame_find(&self.0[idx], name) {
                Some(slot) => {
                    return Some((slot, total - 1 - idx));
                },
                None => {},
            }
        }
        proof {
            assert(envv.take(0) =~= Seq::<Seq<Seq<u8>>>::empty());
        }
        None
    }
}


/// Pushing one instruction commutes with taking program models.
pub proof fn lemma_pm_push(s: Seq<Cmd>, c: Cmd)
    ensures
        program_model(s.push(c)) == program_model(s).push(c@),
{
    assert(program_model(s.push(c)) =~= program_model(s).push(c@));
}

/// Concatenation commutes with taking program models.
pub proof fn lemma_pm_append(a: Seq<Cmd>, b: Seq<Cmd>)
    ensures
        program_model(a + b) == program_model(a) + program_model(
            b,
        ),
{
    assert(program_model(a + b) =~= program_model(a)
        + program_model(b));
}

/// A failing prefix decides the whole definition list.
pub proof fn lemma_tr_defs_err(env: EnvV, defs: Seq<(Vec<u8>, Expression)>, fid: u64, i: int)
    requires
        0 <= i <= defs.len(),
        tr_defs(env, defs.take(i), fid) is Err,
    ensures
        tr_defs(env, defs, fid) == tr_defs(env, defs.take(i), fid),
    decreases defs.len() - i,
{
    reveal(tr_defs);
    if i == defs.len() {
        assert(defs.take(i) =~= defs);
    } else {
        assert(defs.take(i + 1).drop_last() =~= defs.take(i));
        lemma_tr_defs_err(env, defs, fid, i + 1);
    }
}

/// A failing prefix decides the whole comparison chain.
pub proof fn lemma_tr_comparison_rights_err(
    env: EnvV,
    rights: Seq<ComparisonRight>,
    fid: u64,
    i: int,
)
    requires
        0 <= i <= rights.len(),
        tr_comparison_rights(env, rights.take(i), fid) is Err,
    ensures
        tr_comparison_rights(env, rights, fid) == tr_comparison_rights(env, rights.take(i), fid),
    decreases rights.len() - i,
{
    reveal(tr_comparison_rights);
    if i == rights.len() {
        assert(rights.take(i) =~= rights);
    } else {
        assert(rights.take(i + 1).drop_last() =~= rights.take(i));
        lemma_tr_comparison_rights_err(env, rights, fid, i + 1);
    }
}

/// A failing prefix decides the whole additive chain.
pub proof fn lemma_tr_additive_rights_err(env: EnvV, rights: Seq<AdditiveRight>, fid: u64, i: int)
    requires
        0 <= i <= rights.len(),
        tr_additive_rights(env, rights.take(i), fid) is Err,
    ensures
        tr_additive_rights(env, rights, fid) == tr_additive_rights(env, rights.take(i), fid),
    decreases rights.len() - i,
{
    reveal(tr_additive_rights);
    if i == rights.len() {
        assert(rights.take(i) =~= rights);
    } else {
        assert(rights.take(i + 1).drop_last() =~= rights.take(i));
        lemma_tr_additive_rights_err(env, rights, fid, i + 1);
    }
}

/// A failing prefix decides the whole multiplicative chain.
pub proof fn lemma_tr_multitive_rights_err(env: EnvV, rights: Seq<MultitiveRight>, fid: u64, i: int)
    requires
        0 <= i <= rights.len(),
        tr_multitive_rights(env, rights.take(i), fid) is Err,
    ensures
        tr_multitive_rights(env, rights, fid) == tr_multitive_rights(env, rights.take(i), fid),
    decreases rights.len() - i,
{
    reveal(tr_multitive_rights);
    if i == rights.len() {
        assert(rights.take(i) =~= rights);
    } else {
        assert(rights.take(i + 1).drop_last() =~= rights.take(i));
        lemma_tr_multitive_rights_err(env, rights, fid, i + 1);
    }
}

/// A failing prefix decides the whole postfix chain.
pub proof fn lemma_tr_operation_rights_err(env: EnvV, rights: Seq<OperationRight>, fid: u64, i: int)
    requires
        0 <= i <= rights.len(),
        tr_operation_rights(env, rights.take(i), fid) is Err,
    ensures
        tr_operation_rights(env, rights, fid) == tr_operation_rights(env, rights.take(i), fid),
    decreases rights.len() - i,
{
    reveal(tr_operation_rights);
    if i == rights.len() {
        assert(rights.take(i) =~= rights);
    } else {
        assert(rights.take(i + 1).drop_last() =~= rights.take(i));
        lemma_tr_operation_rights_err(env, rights, fid, i + 1);
    }
}

/// A failing prefix decides the whole argument list.
pub proof fn lemma_tr_args_err(env: EnvV, args: Seq<Expression>, fid: u64, i: int)
    requires
        0 <= i <= args.len(),
        tr_args(env, args.take(i), fid) is Err,
    ensures
        tr_args(env, args, fid) == tr_args(env, args.take(i), fid),
    decreases args.len() - i,
{
    reveal(tr_args);
    if i == args.len() {
        assert(args.take(i) =~= args);
    } else {
        assert(args.take(i + 1).drop_last() =~= args.take(i));
        lemma_tr_args_err(env, args, fid, i + 1);
    }
}

/// Pushing a name commutes with taking frame models.
pub proof fn lemma_frame_model_push(s: Seq<Vec<u8>>, n: Vec<u8>)
    ensures
        frame_model(s.push(n)) == frame_model(s).push(n@),
{
    assert forall|k: int| 0 <= k < s.len() + 1 implies frame_model(s.push(n))[k]
        == frame_model(s).push(n@)[k] by {
        if k < s.len() {
            assert(s.push(n)[k] == s[k]);
        } else {
            assert(s.push(n)[k] == n);
        }
    }
    assert(frame_model(s.push(n)) =~= frame_model(s).push(n@));
}

/// Pushing a definition commutes with taking the declared names.
pub proof fn lemma_names_of_defs_push(s: Seq<(Vec<u8>, Expression)>, d: (Vec<u8>, Expression))
    ensures
        names_of_defs(s.push(d)) == names_of_defs(s).push(d.0@),
{
    assert forall|k: int| 0 <= k < s.len() + 1 implies names_of_defs(s.push(d))[k]
        == names_of_defs(s).push(d.0@)[k] by {
        if k < s.len() {
            assert(s.push(d)[k] == s[k]);
        } else {
            assert(s.push(d)[k] == d);
        }
    }
    assert(names_of_defs(s.push(d)) =~= names_of_defs(s).push(d.0@));
}

/// A copy of a list of names.
fn copy_names(names: &Vec<Vec<u8>>) -> (r: Vec<Vec<u8>>)
    ensures
        frame_model(r@) == frame_model(names@),
{
    let mut out: Vec<Vec<u8>> = Vec::new();
    let mut i: usize = 0;
    while i < names.len()
        invariant
            i <= names@.len(),
            frame_model(out@) == frame_model(names@.take(i as int)),
        decreases names@.len() - i,
    {
        let nm = crate::vm::copy_bytes(&names[i]);
        let ghost prev = out@;
        out.push(nm);
        proof {
            lemma_frame_model_push(prev, nm);
            assert(names@.take(i + 1) =~= names@.take(i as int).push(names@[i as int]));
            lemma_frame_model_push(names@.take(i as int), names@[i as int]);
        }
        i = i + 1;
    }
    proof {
        assert(names@.take(names@.len() as int) =~= names@);
    }
    out
}

/// The names a definition list declares, as a fresh frame.
fn def_names(defs: &Vec<(Vec<u8>, Expression)>) -> (r: Vec<Vec<u8>>)
    ensures
        frame_model(r@) == names_of_defs(defs@),
{
    let mut out: Vec<Vec<u8>> = Vec::new();
    let mut i: usize = 0;
    while i < defs.len()
        invariant
            i <= defs@.len(),
            frame_model(out@) == names_of_defs(defs@.take(i as int)),
        decreases defs@.len() - i,
    {
        let nm = crate::vm::copy_bytes(&defs[i].0);
        let ghost prev = out@;
        out.push(nm);
        proof {
            lemma_frame_model_push(prev, nm);
            assert(defs@.take(i + 1) =~= defs@.take(i as int).push(defs@[i as int]));
            lemma_names_of_defs_push(defs@.take(i as int), defs@[i as int]);
        }
        i = i + 1;
    }
    proof {
        assert(defs@.take(defs@.len() as int) =~= defs@);
    }
    out
}

/// The field table of a record literal, as a fresh vector.
fn make_field_table(defs: &Vec<(Vec<u8>, Expression)>) -> (r: Vec<(Vec<u8>, usize)>)
    ensures
        r@.map_values(|p: (Vec<u8>, usize)| (p.0@, p.1)) == field_table_of(defs@),
{
    let mut out: Vec<(Vec<u8>, usize)> = Vec::new();
    let mut i: usize = 0;
    while i < defs.len()
        invariant
            i <= defs@.len(),
            out@.len() == i,
            out@.map_values(|p: (Vec<u8>, usize)| (p.0@, p.1)) == field_table_of(defs@).take(
                i as int,
            ),
        decreases defs@.len() - i,
    {
        out.push((crate::vm::copy_bytes(&defs[i].0), i));
        proof {
            assert(out@.map_values(|p: (Vec<u8>, usize)| (p.0@, p.1)) =~~= field_table_of(
                defs@,
            ).take(i + 1));
        }
        i = i + 1;
    }
    proof {
        assert(field_table_of(defs@).take(defs@.len() as int) =~= field_table_of(defs@));
    }
    out
}


/// The size of a statement, for termination of the translation.
pub open spec fn sz_stmt(s: Statement) -> nat
    decreases s, 2int,
{
    sz_defs(s.definitions@) + sz_expr(s.body) + 1
}

/// The size of a definition list.
pub open spec fn sz_defs(defs: Seq<(Vec<u8>, Expression)>) -> nat
    decreases defs, 2int,
{
    if defs.len() == 0 {
        0
    } else {
        sz_defs(defs.drop_last()) + sz_expr(defs.last().1) + 1
    }
}

/// The size of an expression.
pub open spec fn sz_expr(e: Expression) -> nat
    decreases e, 2int,
{
    match e {
        Expression::Comparison(c) => sz_cmp(c) + 1,
        Expression::If { cond, cons, alt } => sz_expr(*cond) + sz_expr(*cons) + sz_expr(*alt) + 1,
    }
}

/// The size of a comparison chain.
pub open spec fn sz_cmp(c: Comparison) -> nat
    decreases c, 2int,
{
    sz_add(c.left) + sz_cmp_rights(c.rights@) + 1
}

/// The size of a comparison chain's right-hand sides.
pub open spec fn sz_cmp_rights(rights: Seq<ComparisonRight>) -> nat
    decreases rights, 2int,
{
    if rights.len() == 0 {
        0
    } else {
        sz_cmp_rights(rights.drop_last()) + sz_add(comparison_operand(rights.last())) + 1
    }
}

/// The size of an additive chain.
pub open spec fn sz_add(a: Additive) -> nat
    decreases a, 2int,
{
    sz_mul(a.left) + sz_add_rights(a.rights@) + 1
}

/// The size of an additive chain's right-hand sides.
pub open spec fn sz_add_rights(rights: Seq<AdditiveRight>) -> nat
    decreases rights, 2int,
{
    if rights.len() == 0 {
        0
    } else {
        sz_add_rights(rights.drop_last()) + sz_mul(additive_parts(rights.last()).0) + 1
    }
}

/// The size of a multiplicative chain.
pub open spec fn sz_mul(m: Multitive) -> nat
    decreases m, 2int,
{
    sz_op(m.left) + sz_mul_rights(m.rights@) + 1
}

/// The size of a multiplicative chain's right-hand sides.
pub open spec fn sz_mul_rights(rights: Seq<MultitiveRight>) -> nat
    decreases rights, 2int,
{
    if rights.len() == 0 {
        0
    } else {
        sz_mul_rights(rights.drop_last()) + sz_op(multitive_parts(rights.last()).0) + 1
    }
}

/// The size of a postfix chain.
pub open spec fn sz_op(o: Operation) -> nat
    decreases o, 2int,
{
    sz_primary(o.left) + sz_op_rights(o.rights@) + 1
}

/// The size of a postfix chain's operators.
pub open spec fn sz_op_rights(rights: Seq<OperationRight>) -> nat
    decreases rights, 2int,
{
    if rights.len() == 0 {
        0
    } else {
        sz_op_rights(rights.drop_last()) + (match rights.last() {
            OperationRight::Access(_) => 1,
            OperationRight::Call(args) => sz_args(args@) + 1,
            OperationRight::Index(e) => sz_expr(*e) + 1,
        })
    }
}

/// The size of an argument list.
pub open spec fn sz_args(args: Seq<Expression>) -> nat
    decreases args, 2int,
{
    if args.len() == 0 {
        0
    } else {
        sz_args(args.drop_last()) + sz_expr(args.last()) + 1
    }
}

/// The size of a primary expression.
pub open spec fn sz_primary(p: Primary) -> nat
    decreases p, 3int,
{
    match p {
        Primary::Block(stmt) => sz_stmt(*stmt) + 1,
        Primary::List(items) => sz_args(items@) + 1,
        Primary::Function(_, body) => sz_expr(*body) + 1,
        Primary::Struct(defs) => sz_defs(defs@) + 1,
        _ => 1,
    }
}

/// Every definition's body is smaller than the definition list.
pub proof fn lemma_sz_defs_elem(defs: Seq<(Vec<u8>, Expression)>, j: int)
    requires
        0 <= j < defs.len(),
    ensures
        sz_expr(defs[j].1) < sz_defs(defs),
    decreases defs.len(),
{
    if j == defs.len() - 1 {
    } else {
        lemma_sz_defs_elem(defs.drop_last(), j);
    }
}

/// Every right-hand side's operand is smaller than the comparison
/// chain's right-hand sides.
pub proof fn lemma_sz_cmp_rights_elem(rights: Seq<ComparisonRight>, j: int)
    requires
        0 <= j < rights.len(),
    ensures
        sz_add(comparison_operand(rights[j])) < sz_cmp_rights(rights),
    decreases rights.len(),
{
    if j == rights.len() - 1 {
    } else {
        lemma_sz_cmp_rights_elem(rights.drop_last(), j);
    }
}

/// Every right-hand side's operand is smaller than the additive
/// chain's right-hand sides.
pub proof fn lemma_sz_add_rights_elem(rights: Seq<AdditiveRight>, j: int)
    requires
        0 <= j < rights.len(),
    ensures
        sz_mul(additive_parts(rights[j]).0) < sz_add_rights(rights),
    decreases rights.len(),
{
    if j == rights.len() - 1 {
    } else {
        lemma_sz_add_rights_elem(rights.drop_last(), j);
    }
}

/// Every right-hand side's operand is smaller than the multiplicative
/// chain's right-hand sides.
pub proof fn lemma_sz_mul_rights_elem(rights: Seq<MultitiveRight>, j: int)
    requires
        0 <= j < rights.len(),
    ensures
        sz_op(multitive_parts(rights[j]).0) < sz_mul_rights(rights),
    decreases rights.len(),
{
    if j == rights.len() - 1 {
    } else {
        lemma_sz_mul_rights_elem(rights.drop_last(), j);
    }
}

/// Every postfix operator's payload is smaller than the chain's
/// operators.
pub proof fn lemma_sz_op_rights_elem(rights: Seq<OperationRight>, j: int)
    requires
        0 <= j < rights.len(),
    ensures
        match rights[j] {
            OperationRight::Access(_) => true,
            OperationRight::Call(args) => sz_args(args@) < sz_op_rights(rights),
            OperationRight::Index(e) => sz_expr(*e) < sz_op_rights(rights),
        },
    decreases rights.len(),
{
    if j == rights.len() - 1 {
    } else {
        lemma_sz_op_rights_elem(rights.drop_last(), j);
    }
}

/// Every argument is smaller than the argument list.
pub proof fn lemma_sz_args_elem(args: Seq<Expression>, j: int)
    requires
        0 <= j < args.len(),
    ensures
        sz_expr(args[j]) < sz_args(args),
    decreases args.len(),
{
    if j == args.len() - 1 {
    } else {
        lemma_sz_args_elem(args.drop_last(), j);
    }
}


/// Pushing a thunk commutes with taking sizes.
pub proof fn lemma_sizes_of_push(list: Seq<Seq<CmdV>>, t: Seq<CmdV>)
    ensures
        sizes_of(list.push(t)) == sizes_of(list).push(t.len() as usize),
{
    assert forall|k: int| 0 <= k < list.len() + 1 implies sizes_of(list.push(t))[k]
        == sizes_of(list).push(t.len() as usize)[k] by {
        if k < list.len() {
            assert(list.push(t)[k] == list[k]);
        } else {
            assert(list.push(t)[k] == t);
        }
    }
    assert(sizes_of(list.push(t)) =~= sizes_of(list).push(t.len() as usize));
}


/// Appends compiled instructions onto an output buffer.
fn append_cmds(out: &mut Vec<Cmd>, other: Vec<Cmd>)
    ensures
        program_model(final(out)@) == program_model(old(out)@) + program_model(other@),
{
    let mut other = other;
    let ghost a = out@;
    let ghost b = other@;
    out.append(&mut other);
    proof {
        lemma_pm_append(a, b);
    }
}

/// Pushes one instruction onto an output buffer.
fn push_cmd(out: &mut Vec<Cmd>, c: Cmd)
    ensures
        program_model(final(out)@) == program_model(old(out)@).push(c@),
{
    proof {
        lemma_pm_push(out@, c);
    }
    out.push(c);
}

/// Assembles a lowered statement: the frame header, the thunk code,
/// the body, and the exit.
#[verifier::spinoff_prover]
fn assemble_statement(sizes: Vec<usize>, flat: Vec<Cmd>, body: Vec<Cmd>) -> (out: Vec<Cmd>)
    ensures
        program_model(out@) == seq![CmdV::Block(sizes@)] + program_model(flat@)
            + program_model(body@) + seq![CmdV::ExitScope],
{
    let ghost sizesv = sizes@;
    let ghost flatpm = program_model(flat@);
    let ghost bodypm = program_model(body@);
    let mut out: Vec<Cmd> = Vec::new();
    push_cmd(&mut out, Cmd::Block(sizes));
    append_cmds(&mut out, flat);
    append_cmds(&mut out, body);
    push_cmd(&mut out, Cmd::ExitScope);
    proof {
        assert(program_model(out@) =~= seq![CmdV::Block(sizesv)] + flatpm + bodypm + seq![
            CmdV::ExitScope,
        ]);
    }
    out
}

/// Lowers a whole statement: a frame of thunks, the body, and the
/// exit.
#[verifier::spinoff_prover]
pub fn translate_statement(env: &mut Env, s: &Statement, fid: u64) -> (r: Result<
    (Vec<Cmd>, u64),
    TransError,
>)
    ensures
        final(env)@ == old(env)@,
        match r {
            Ok((cmds, fid2)) => tr_statement(old(env)@, *s, fid) == Ok::<
                (Seq<CmdV>, u64),
                TransErrorV,
            >((program_model(cmds@), fid2)),
            Err(e) => tr_statement(old(env)@, *s, fid) == Err::<
                (Seq<CmdV>, u64),
                TransErrorV,
            >(e.model()),
        },
    decreases sz_stmt(*s), 0int,
{
    reveal(tr_statement);
    let ghost env0 = env@;
    let frame = def_names(&s.definitions);
    env.push(frame);
    proof {
        assert(env0.push(names_of_defs(s.definitions@)).drop_last() =~= env0);
    }
    let (sizes, flat, fid1) = match translate_defs(env, &s.definitions, fid) {
        Ok(t) => t,
        Err(e) => {
            let _ = env.pop();
            return Err(e);
        },
    };
    let (body, fid2) = match translate_expression(env, &s.body, fid1) {
        Ok(t) => t,
        Err(e) => {
            let _ = env.pop();
            return Err(e);
        },
    };
    let _ = env.pop();
    let out = assemble_statement(sizes, flat, body);
    Ok((out, fid2))
}

/// Lowers the thunks of a definition list: the sizes and the
/// concatenated thunk code.
#[verifier::spinoff_prover]
pub fn translate_defs(env: &mut Env, defs: &Vec<(Vec<u8>, Expression)>, fid: u64) -> (r: Result<
    (Vec<usize>, Vec<Cmd>, u64),
    TransError,
>)
    ensures
        final(env)@ == old(env)@,
        match r {
            Ok((sizes, flat, fid2)) => tr_defs(old(env)@, defs@, fid) matches Ok((thunks, f))
                && f == fid2 && sizes@ == sizes_of(thunks) && program_model(flat@)
                == flatten_cmds(thunks) && sizes_fit(thunks),
            Err(e) => tr_defs(old(env)@, defs@, fid) == Err::<
                (Seq<Seq<CmdV>>, u64),
                TransErrorV,
            >(e.model()),
        },
    decreases sz_defs(defs@), 0int,
{
    reveal(tr_defs);
    let mut sizes: Vec<usize> = Vec::new();
    let mut flat: Vec<Cmd> = Vec::new();
    let mut fid_cur: u64 = fid;
    let ghost env0 = env@;
    let ghost mut thunks: Seq<Seq<CmdV>> = Seq::empty();
    proof {
        assert(defs@.take(0) =~= Seq::<(Vec<u8>, Expression)>::empty());
        assert(sizes@ =~= sizes_of(thunks));
        assert(program_model(flat@) =~= flatten_cmds(thunks));
    }
    let mut i: usize = 0;
    while i < defs.len()
        invariant
            i <= defs@.len(),
            env@ == env0,
            env0 == old(env)@,
            tr_defs(env0, defs@.take(i as int), fid) == Ok::<
                (Seq<Seq<CmdV>>, u64),
                TransErrorV,
            >((thunks, fid_cur)),
            sizes@ == sizes_of(thunks),
            program_model(flat@) == flatten_cmds(thunks),
            sizes_fit(thunks),
        decreases defs@.len() - i,
    {
        reveal(tr_defs);
        proof {
            lemma_sz_defs_elem(defs@, i as int);
            assert(defs@.take(i + 1).drop_last() =~= defs@.take(i as int));
            assert(defs@.take(i + 1).last() == defs@[i as int]);
        }
        match translate_expression(env, &defs[i].1, fid_cur) {
            Err(e) => {
                proof {
                    assert(tr_defs(env0, defs@.take(i + 1), fid) is Err);
                    lemma_tr_defs_err(env0, defs@, fid, i + 1);
                }
                return Err(e);
            },
            Ok((mut body, f2)) => {
                let ghost bodypm = program_model(body@);
                push_cmd(&mut body, Cmd::Store(i));
                push_cmd(&mut body, Cmd::Return);
                let ghost thunkv = program_model(body@);
                proof {
                    assert(thunkv =~= bodypm + seq![CmdV::Store(i as usize), CmdV::Return]);
                    assert(thunkv.len() == body@.len());
                }
                sizes.push(body.len());
                append_cmds(&mut flat, body);
                proof {
                    lemma_sizes_of_push(thunks, thunkv);
                    assert(thunks.push(thunkv).drop_last() =~= thunks);
                    assert(flatten_cmds(thunks.push(thunkv)) == flatten_cmds(thunks) + thunkv);
                    thunks = thunks.push(thunkv);
                }
                fid_cur = f2;
            },
        }
        i = i + 1;
    }
    proof {
        assert(defs@.take(defs@.len() as int) =~= defs@);
    }
    Ok((sizes, flat, fid_cur))
}

/// Lowers an expression.
#[verifier::spinoff_prover]
pub fn translate_expression(env: &mut Env, e: &Expression, fid: u64) -> (r: Result<
    (Vec<Cmd>, u64),
    TransError,
>)
    ensures
        final(env)@ == old(env)@,
        match r {
            Ok((cmds, fid2)) => tr_expression(old(env)@, *e, fid) == Ok::<
                (Seq<CmdV>, u64),
                TransErrorV,
            >((program_model(cmds@), fid2)),
            Err(err) => tr_expression(old(env)@, *e, fid) == Err::<
                (Seq<CmdV>, u64),
                TransErrorV,
            >(err.model()),
        },
    decreases sz_expr(*e), 0int,
{
    reveal(tr_expression);
    match e {
        Expression::Comparison(c) => translate_comparison(env, c, fid),
        Expression::If { cond, cons, alt } => {
            let (mut out, fid1) = match translate_expression(env, cond, fid) {
                Ok(t) => t,
                Err(err) => {
                    return Err(err);
                },
            };
            let (alt_cmds, fid2) = match translate_expression(env, alt, fid1) {
                Ok(t) => t,
                Err(err) => {
                    return Err(err);
                },
            };
            let (cons_cmds, fid3) = match translate_expression(env, cons, fid2) {
                Ok(t) => t,
                Err(err) => {
                    return Err(err);
                },
            };
            let alt_jump = match alt_cmds.len().checked_add(1) {
                Some(t) => t,
                None => {
                    return Err(TransError::TooLarge);
                },
            };
            let cons_jump = match cons_cmds.len().checked_add(2) {
                Some(t) => t,
                None => {
                    return Err(TransError::TooLarge);
                },
            };
            let ghost condpm = program_model(out@);
            let ghost conspm = program_model(cons_cmds@);
            let ghost altpm = program_model(alt_cmds@);
            push_cmd(&mut out, Cmd::JumpRelUnless(cons_jump));
            append_cmds(&mut out, cons_cmds);
            push_cmd(&mut out, Cmd::JumpRel(alt_jump));
            append_cmds(&mut out, alt_cmds);
            proof {
                assert(program_model(out@) =~= condpm + seq![
                    CmdV::JumpRelUnless((conspm.len() + 2) as usize),
                ] + conspm + seq![CmdV::JumpRel((altpm.len() + 1) as usize)] + altpm);
            }
            Ok((out, fid3))
        },
    }
}


/// Lowers a comparison chain.
#[verifier::spinoff_prover]
pub fn translate_comparison(env: &mut Env, c: &Comparison, fid: u64) -> (r: Result<
    (Vec<Cmd>, u64),
    TransError,
>)
    ensures
        final(env)@ == old(env)@,
        match r {
            Ok((cmds, fid2)) => tr_comparison(old(env)@, *c, fid) == Ok::<
                (Seq<CmdV>, u64),
                TransErrorV,
            >((program_model(cmds@), fid2)),
            Err(err) => tr_comparison(old(env)@, *c, fid) == Err::<
                (Seq<CmdV>, u64),
                TransErrorV,
            >(err.model()),
        },
    decreases sz_cmp(*c), 0int,
{
    reveal(tr_comparison);
    reveal(tr_comparison_rights);
    let ghost env0 = env@;
    let (mut out, fid1) = match translate_additive(env, &c.left, fid) {
        Ok(t) => t,
        Err(err) => {
            return Err(err);
        },
    };
    let ghost leftpm = program_model(out@);
    let ghost mut donev: Seq<CmdV> = Seq::empty();
    let mut fid_cur: u64 = fid1;
    proof {
        assert(c.rights@.take(0) =~= Seq::<ComparisonRight>::empty());
        assert(leftpm + donev =~= leftpm);
    }
    let mut j: usize = 0;
    while j < c.rights.len()
        invariant
            j <= c.rights@.len(),
            env@ == env0,
            env0 == old(env)@,
            tr_additive(env0, c.left, fid) == Ok::<(Seq<CmdV>, u64), TransErrorV>(
                (leftpm, fid1),
            ),
            tr_comparison_rights(env0, c.rights@.take(j as int), fid1) == Ok::<
                (Seq<CmdV>, u64),
                TransErrorV,
            >((donev, fid_cur)),
            program_model(out@) == leftpm + donev,
        decreases c.rights@.len() - j,
    {
        reveal(tr_comparison);
        reveal(tr_comparison_rights);
        proof {
            lemma_sz_cmp_rights_elem(c.rights@, j as int);
            assert(c.rights@.take(j + 1).drop_last() =~= c.rights@.take(j as int));
            assert(c.rights@.take(j + 1).last() == c.rights@[j as int]);
        }
        let operand = match &c.rights[j] {
            ComparisonRight::Equal(a) => a,
            ComparisonRight::NotEqual(a) => a,
            ComparisonRight::GreaterThan(a) => a,
            ComparisonRight::LessThan(a) => a,
            ComparisonRight::NotGreaterThan(a) => a,
            ComparisonRight::NotLessThan(a) => a,
        };
        proof {
            assert(*operand == comparison_operand(c.rights@[j as int]));
        }
        match translate_additive(env, operand, fid_cur) {
            Err(err) => {
                proof {
                    assert(tr_comparison_rights(env0, c.rights@.take(j + 1), fid1) is Err);
                    lemma_tr_comparison_rights_err(env0, c.rights@, fid1, j + 1);
                }
                return Err(err);
            },
            Ok((acmds, f2)) => {
                let ghost apm = program_model(acmds@);
                append_cmds(&mut out, acmds);
                match &c.rights[j] {
                    ComparisonRight::Equal(_) => {
                        push_cmd(&mut out, Cmd::Equal);
                    },
                    ComparisonRight::NotEqual(_) => {
                        push_cmd(&mut out, Cmd::Equal);
                        push_cmd(&mut out, Cmd::Not);
                    },
                    ComparisonRight::GreaterThan(_) => {
                        push_cmd(&mut out, Cmd::GreaterThan);
                    },
                    ComparisonRight::LessThan(_) => {
                        push_cmd(&mut out, Cmd::LessThan);
                    },
                    ComparisonRight::NotGreaterThan(_) => {
                        push_cmd(&mut out, Cmd::GreaterThan);
                        push_cmd(&mut out, Cmd::Not);
                    },
                    ComparisonRight::NotLessThan(_) => {
                        push_cmd(&mut out, Cmd::LessThan);
                        push_cmd(&mut out, Cmd::Not);
                    },
                }
                proof {
                    donev = donev + apm + comparison_ops(c.rights@[j as int]);
                    assert(program_model(out@) =~= leftpm + donev);
                }
                fid_cur = f2;
            },
        }
        j = j + 1;
    }
    proof {
        assert(c.rights@.take(c.rights@.len() as int) =~= c.rights@);
    }
    Ok((out, fid_cur))
}

/// Lowers an additive chain.
#[verifier::spinoff_prover]
pub fn translate_additive(env: &mut Env, a: &Additive, fid: u64) -> (r: Result<
    (Vec<Cmd>, u64),
    TransError,
>)
    ensures
        final(env)@ == old(env)@,
        match r {
            Ok((cmds, fid2)) => tr_additive(old(env)@, *a, fid) == Ok::<
                (Seq<CmdV>, u64),
                TransErrorV,
            >((program_model(cmds@), fid2)),
            Err(err) => tr_additive(old(env)@, *a, fid) == Err::<
                (Seq<CmdV>, u64),
                TransErrorV,
            >(err.model()),
        },
    decreases sz_add(*a), 0int,
{
    reveal(tr_additive);
    reveal(tr_additive_rights);
    let ghost env0 = env@;
    let (mut out, fid1) = match translate_multitive(env, &a.left, fid) {
        Ok(t) => t,
        Err(err) => {
            return Err(err);
        },
    };
    let ghost leftpm = program_model(out@);
    let ghost mut donev: Seq<CmdV> = Seq::empty();
    let mut fid_cur: u64 = fid1;
    proof {
        assert(a.rights@.take(0) =~= Seq::<AdditiveRight>::empty());
        assert(leftpm + donev =~= leftpm);
    }
    let mut j: usize = 0;
    while j < a.rights.len()
        invariant
            j <= a.rights@.len(),
            env@ == env0,
            env0 == old(env)@,
            tr_multitive(env0, a.left, fid) == Ok::<(Seq<CmdV>, u64), TransErrorV>(
                (leftpm, fid1),
            ),
            tr_additive_rights(env0, a.rights@.take(j as int), fid1) == Ok::<
                (Seq<CmdV>, u64),
                TransErrorV,
            >((donev, fid_cur)),
            program_model(out@) == leftpm + donev,
        decreases a.rights@.len() - j,
    {
        reveal(tr_additive);
        reveal(tr_additive_rights);
        proof {
            lemma_sz_add_rights_elem(a.rights@, j as int);
            assert(a.rights@.take(j + 1).drop_last() =~= a.rights@.take(j as int));
            assert(a.rights@.take(j + 1).last() == a.rights@[j as int]);
        }
        let operand = match &a.rights[j] {
            AdditiveRight::Add(m) => m,
            AdditiveRight::Sub(m) => m,
        };
        proof {
            assert(*operand == additive_parts(a.rights@[j as int]).0);
        }
        match translate_multitive(env, operand, fid_cur) {
            Err(err) => {
                proof {
                    assert(tr_additive_rights(env0, a.rights@.take(j + 1), fid1) is Err);
                    lemma_tr_additive_rights_err(env0, a.rights@, fid1, j + 1);
                }
                return Err(err);
            },
            Ok((mcmds, f2)) => {
                let ghost mpm = program_model(mcmds@);
                append_cmds(&mut out, mcmds);
                match &a.rights[j] {
                    AdditiveRight::Add(_) => {
                        push_cmd(&mut out, Cmd::Add);
                    },
                    AdditiveRight::Sub(_) => {
                        push_cmd(&mut out, Cmd::Sub);
                    },
                }
                proof {
                    donev = donev + mpm + seq![additive_parts(a.rights@[j as int]).1];
                    assert(program_model(out@) =~= leftpm + donev);
                }
                fid_cur = f2;
            },
        }
        j = j + 1;
    }
    proof {
        assert(a.rights@.take(a.rights@.len() as int) =~= a.rights@);
    }
    Ok((out, fid_cur))
}

/// Lowers a multiplicative chain.
#[verifier::spinoff_prover]
pub fn translate_multitive(env: &mut Env, m: &Multitive, fid: u64) -> (r: Result<
    (Vec<Cmd>, u64),
    TransError,
>)
    ensures
        final(env)@ == old(env)@,
        match r {
            Ok((cmds, fid2)) => tr_multitive(old(env)@, *m, fid) == Ok::<
                (Seq<CmdV>, u64),
                TransErrorV,
            >((program_model(cmds@), fid2)),
            Err(err) => tr_multitive(old(env)@, *m, fid) == Err::<
                (Seq<CmdV>, u64),
                TransErrorV,
            >(err.model()),
        },
    decreases sz_mul(*m), 0int,
{
    reveal(tr_multitive);
    reveal(tr_multitive_rights);
    let ghost env0 = env@;
    let (mut out, fid1) = match translate_operation(env, &m.left, fid) {
        Ok(t) => t,
        Err(err) => {
            return Err(err);
        },
    };
    let ghost leftpm = program_model(out@);
    let ghost mut donev: Seq<CmdV> = Seq::empty();
    let mut fid_cur: u64 = fid1;
    proof {
        assert(m.rights@.take(0) =~= Seq::<MultitiveRight>::empty());
        assert(leftpm + donev =~= leftpm);
    }
    let mut j: usize = 0;
    while j < m.rights.len()
        invariant
            j <= m.rights@.len(),
            env@ == env0,
            env0 == old(env)@,
            tr_operation(env0, m.left, fid) == Ok::<(Seq<CmdV>, u64), TransErrorV>(
                (leftpm, fid1),
            ),
            tr_multitive_rights(env0, m.rights@.take(j as int), fid1) == Ok::<
                (Seq<CmdV>, u64),
                TransErrorV,
            >((donev, fid_cur)),
            program_model(out@) == leftpm + donev,
        decreases m.rights@.len() - j,
    {
        reveal(tr_multitive);
        reveal(tr_multitive_rights);
        proof {
            lemma_sz_mul_rights_elem(m.rights@, j as int);
            assert(m.rights@.take(j + 1).drop_last() =~= m.rights@.take(j as int));
            assert(m.rights@.take(j + 1).last() == m.rights@[j as int]);
        }
        let operand = match &m.rights[j] {
            MultitiveRight::Mul(o) => o,
            MultitiveRight::Div(o) => o,
            MultitiveRight::Surplus(o) => o,
        };
        proof {
            assert(*operand == multitive_parts(m.rights@[j as int]).0);
        }
        match translate_operation(env, operand, fid_cur) {
            Err(err) => {
                proof {
                    assert(tr_multitive_rights(env0, m.rights@.take(j + 1), fid1) is Err);
                    lemma_tr_multitive_rights_err(env0, m.rights@, fid1, j + 1);
                }
                return Err(err);
            },
            Ok((ocmds, f2)) => {
                let ghost opm = program_model(ocmds@);
                append_cmds(&mut out, ocmds);
                match &m.rights[j] {
                    MultitiveRight::Mul(_) => {
                        push_cmd(&mut out, Cmd::Mul);
                    },
                    MultitiveRight::Div(_) => {
                        push_cmd(&mut out, Cmd::Div);
                    },
                    MultitiveRight::Surplus(_) => {
                        push_cmd(&mut out, Cmd::Surplus);
                    },
                }
                proof {
                    donev = donev + opm + seq![multitive_parts(m.rights@[j as int]).1];
                    assert(program_model(out@) =~= leftpm + donev);
                }
                fid_cur = f2;
            },
        }
        j = j + 1;
    }
    proof {
        assert(m.rights@.take(m.rights@.len() as int) =~= m.rights@);
    }
    Ok((out, fid_cur))
}

/// Lowers an argument list, left to right in source order.
#[verifier::spinoff_prover]
pub fn translate_args(env: &mut Env, args: &Vec<Expression>, fid: u64) -> (r: Result<
    (Vec<Cmd>, u64),
    TransError,
>)
    ensures
        final(env)@ == old(env)@,
        match r {
            Ok((cmds, fid2)) => tr_args(old(env)@, args@, fid) == Ok::<
                (Seq<CmdV>, u64),
                TransErrorV,
            >((program_model(cmds@), fid2)),
            Err(err) => tr_args(old(env)@, args@, fid) == Err::<
                (Seq<CmdV>, u64),
                TransErrorV,
            >(err.model()),
        },
    decreases sz_args(args@), 0int,
{
    reveal(tr_args);
    let ghost env0 = env@;
    let mut out: Vec<Cmd> = Vec::new();
    let mut fid_cur: u64 = fid;
    let ghost mut donev: Seq<CmdV> = Seq::empty();
    proof {
        assert(args@.take(0) =~= Seq::<Expression>::empty());
        assert(program_model(out@) =~= donev);
    }
    let mut j: usize = 0;
    while j < args.len()
        invariant
            j <= args@.len(),
            env@ == env0,
            env0 == old(env)@,
            tr_args(env0, args@.take(j as int), fid) == Ok::<(Seq<CmdV>, u64), TransErrorV>(
                (donev, fid_cur),
            ),
            program_model(out@) == donev,
        decreases args@.len() - j,
    {
        reveal(tr_args);
        proof {
            lemma_sz_args_elem(args@, j as int);
            assert(args@.take(j + 1).drop_last() =~= args@.take(j as int));
            assert(args@.take(j + 1).last() == args@[j as int]);
        }
        match translate_expression(env, &args[j], fid_cur) {
            Err(err) => {
                proof {
                    assert(tr_args(env0, args@.take(j + 1), fid) is Err);
                    lemma_tr_args_err(env0, args@, fid, j + 1);
                }
                return Err(err);
            },
            Ok((acmds, f2)) => {
                let ghost apm = program_model(acmds@);
                append_cmds(&mut out, acmds);
                proof {
                    donev = donev + apm;
                }
                fid_cur = f2;
            },
        }
        j = j + 1;
    }
    proof {
        assert(args@.take(args@.len() as int) =~= args@);
    }
    Ok((out, fid_cur))
}


/// Lowers a postfix chain: the primary, then each access, call, or
/// indexing in order.
#[verifier::spinoff_prover]
pub fn translate_operation(env: &mut Env, o: &Operation, fid: u64) -> (r: Result<
    (Vec<Cmd>, u64),
    TransError,
>)
    ensures
        final(env)@ == old(env)@,
        match r {
            Ok((cmds, fid2)) => tr_operation(old(env)@, *o, fid) == Ok::<
                (Seq<CmdV>, u64),
                TransErrorV,
            >((program_model(cmds@), fid2)),
            Err(err) => tr_operation(old(env)@, *o, fid) == Err::<
                (Seq<CmdV>, u64),
                TransErrorV,
            >(err.model()),
        },
    decreases sz_op(*o), 0int,
{
    reveal(tr_operation);
    reveal(tr_operation_rights);
    let ghost env0 = env@;
    let (mut out, fid1) = match translate_primary(env, &o.left, fid) {
        Ok(t) => t,
        Err(err) => {
            return Err(err);
        },
    };
    let ghost leftpm = program_model(out@);
    let ghost mut donev: Seq<CmdV> = Seq::empty();
    let mut fid_cur: u64 = fid1;
    proof {
        assert(o.rights@.take(0) =~= Seq::<OperationRight>::empty());
        assert(leftpm + donev =~= leftpm);
    }
    let mut j: usize = 0;
    while j < o.rights.len()
        invariant
            j <= o.rights@.len(),
            env@ == env0,
            env0 == old(env)@,
            tr_primary(env0, o.left, fid) == Ok::<(Seq<CmdV>, u64), TransErrorV>(
                (leftpm, fid1),
            ),
            tr_operation_rights(env0, o.rights@.take(j as int), fid1) == Ok::<
                (Seq<CmdV>, u64),
                TransErrorV,
            >((donev, fid_cur)),
            program_model(out@) == leftpm + donev,
        decreases o.rights@.len() - j,
    {
        reveal(tr_operation);
        reveal(tr_operation_rights);
        proof {
            lemma_sz_op_rights_elem(o.rights@, j as int);
            assert(o.rights@.take(j + 1).drop_last() =~= o.rights@.take(j as int));
            assert(o.rights@.take(j + 1).last() == o.rights@[j as int]);
        }
        match &o.rights[j] {
            OperationRight::Access(name) => {
                push_cmd(&mut out, Cmd::StringConst(Rc::new(crate::vm::copy_bytes(name))));
                push_cmd(&mut out, Cmd::Access);
                proof {
                    donev = donev + seq![
                        CmdV::StringConst((o.rights@[j as int])->Access_0@),
                        CmdV::Access,
                    ];
                    assert(program_model(out@) =~= leftpm + donev);
                }
            },
            OperationRight::Call(args) => {
                match translate_args(env, args, fid_cur) {
                    Err(err) => {
                        proof {
                            assert(tr_operation_rights(env0, o.rights@.take(j + 1), fid1)
                                is Err);
                            lemma_tr_operation_rights_err(env0, o.rights@, fid1, j + 1);
                        }
                        return Err(err);
                    },
                    Ok((acmds, f2)) => {
                        let ghost apm = program_model(acmds@);
                        let argc = args.len();
                        append_cmds(&mut out, acmds);
                        push_cmd(&mut out, Cmd::Call(argc));
                        proof {
                            donev = donev + apm + seq![CmdV::Call(args@.len() as usize)];
                            assert(program_model(out@) =~= leftpm + donev);
                        }
                        fid_cur = f2;
                    },
                }
            },
            OperationRight::Index(ie) => {
                match translate_expression(env, ie, fid_cur) {
                    Err(err) => {
                        proof {
                            assert(tr_operation_rights(env0, o.rights@.take(j + 1), fid1)
                                is Err);
                            lemma_tr_operation_rights_err(env0, o.rights@, fid1, j + 1);
                        }
                        return Err(err);
                    },
                    Ok((icmds, f2)) => {
                        let ghost ipm = program_model(icmds@);
                        append_cmds(&mut out, icmds);
                        push_cmd(&mut out, Cmd::Index);
                        proof {
                            donev = donev + ipm + seq![CmdV::Index];
                            assert(program_model(out@) =~= leftpm + donev);
                        }
                        fid_cur = f2;
                    },
                }
            },
        }
        j = j + 1;
    }
    proof {
        assert(o.rights@.take(o.rights@.len() as int) =~= o.rights@);
    }
    Ok((out, fid_cur))
}

/// Lowers a primary expression.
#[verifier::spinoff_prover]
pub fn translate_primary(env: &mut Env, p: &Primary, fid: u64) -> (r: Result<
    (Vec<Cmd>, u64),
    TransError,
>)
    ensures
        final(env)@ == old(env)@,
        match r {
            Ok((cmds, fid2)) => tr_primary(old(env)@, *p, fid) == Ok::<
                (Seq<CmdV>, u64),
                TransErrorV,
            >((program_model(cmds@), fid2)),
            Err(err) => tr_primary(old(env)@, *p, fid) == Err::<
                (Seq<CmdV>, u64),
                TransErrorV,
            >(err.model()),
        },
    decreases sz_primary(*p), 0int,
{
    reveal(tr_primary);
    match p {
        Primary::Number(n) => {
            let mut out: Vec<Cmd> = Vec::new();
            push_cmd(&mut out, Cmd::NumberConst(*n));
            proof {
                assert(program_model(out@) =~= seq![CmdV::NumberConst(*n)]);
            }
            Ok((out, fid))
        },
        Primary::String(s) => {
            let mut out: Vec<Cmd> = Vec::new();
            push_cmd(&mut out, Cmd::StringConst(Rc::new(crate::vm::copy_bytes(s))));
            proof {
                assert(program_model(out@) =~= seq![CmdV::StringConst(s@)]);
            }
            Ok((out, fid))
        },
        Primary::Variable(name) => match env.get_bind(name) {
            Some((slot, depth)) => {
                let mut out: Vec<Cmd> = Vec::new();
                push_cmd(&mut out, Cmd::Load(slot, depth));
                proof {
                    assert(program_model(out@) =~= seq![CmdV::Load(slot, depth)]);
                }
                Ok((out, fid))
            },
            None => Err(TransError::UndefinedName(crate::vm::copy_bytes(name))),
        },
        Primary::Block(stmt) => translate_statement(env, stmt, fid),
        Primary::List(items) => {
            let (mut out, fid1) = match translate_args(env, items, fid) {
                Ok(t) => t,
                Err(err) => {
                    return Err(err);
                },
            };
            let ghost ipm = program_model(out@);
            push_cmd(&mut out, Cmd::ConstructList(items.len()));
            proof {
                assert(program_model(out@) =~= ipm + seq![
                    CmdV::ConstructList(items@.len() as usize),
                ]);
            }
            Ok((out, fid1))
        },
        Primary::Function(argnames, body) => {
            if fid == u64::MAX {
                return Err(TransError::TooManyFunctions);
            }
            let ghost env0 = env@;
            let frame = copy_names(argnames);
            env.push(frame);
            proof {
                assert(env0.push(frame_model(argnames@)).drop_last() =~= env0);
            }
            let res = translate_expression(env, body, fid + 1);
            let _ = env.pop();
            match res {
                Err(err) => Err(err),
                Ok((mut bodycmds, fid1)) => {
                    let ghost bodypm = program_model(bodycmds@);
                    push_cmd(&mut bodycmds, Cmd::ExitScope);
                    push_cmd(&mut bodycmds, Cmd::Return);
                    let ghost fullpm = program_model(bodycmds@);
                    proof {
                        assert(fullpm =~= bodypm + seq![CmdV::ExitScope, CmdV::Return]);
                        assert(fullpm.len() == bodycmds@.len());
                    }
                    let mut out: Vec<Cmd> = Vec::new();
                    push_cmd(&mut out, Cmd::ConstructFunction(fid, bodycmds.len()));
                    let ghost o1 = program_model(out@);
                    append_cmds(&mut out, bodycmds);
                    proof {
                        assert(o1 =~= seq![
                            CmdV::ConstructFunction(fid, fullpm.len() as usize),
                        ]);
                    }
                    Ok((out, fid1))
                },
            }
        },
        Primary::Struct(defs) => translate_struct(env, defs, fid),
        Primary::Null => {
            let mut out: Vec<Cmd> = Vec::new();
            push_cmd(&mut out, Cmd::NullConst);
            proof {
                assert(program_model(out@) =~= seq![CmdV::NullConst]);
            }
            Ok((out, fid))
        },
        Primary::Foreign(f) => {
            let mut out: Vec<Cmd> = Vec::new();
            push_cmd(&mut out, Cmd::ConstructForeignFunction(*f));
            proof {
                assert(program_model(out@) =~= seq![CmdV::ConstructForeignFunction(*f)]);
            }
            Ok((out, fid))
        },
    }
}

/// Lowers a record literal.
#[verifier::spinoff_prover]
pub fn translate_struct(env: &mut Env, defs: &Vec<(Vec<u8>, Expression)>, fid: u64) -> (r: Result<
    (Vec<Cmd>, u64),
    TransError,
>)
    ensures
        final(env)@ == old(env)@,
        match r {
            Ok((cmds, fid2)) => tr_struct(old(env)@, defs@, fid) == Ok::<
                (Seq<CmdV>, u64),
                TransErrorV,
            >((program_model(cmds@), fid2)),
            Err(err) => tr_struct(old(env)@, defs@, fid) == Err::<
                (Seq<CmdV>, u64),
                TransErrorV,
            >(err.model()),
        },
    decreases sz_defs(defs@), 1int,
{
    reveal(tr_struct);
    let ghost env0 = env@;
    let frame = def_names(defs);
    env.push(frame);
    proof {
        assert(env0.push(names_of_defs(defs@)).drop_last() =~= env0);
    }
    let dres = translate_defs(env, defs, fid);
    let _ = env.pop();
    let (sizes, flat, fid1) = match dres {
        Ok(t) => t,
        Err(err) => {
            return Err(err);
        },
    };
    let doubled = match defs.len().checked_mul(2) {
        Some(t) => t,
        None => {
            return Err(TransError::TooLarge);
        },
    };
    let table = make_field_table(defs);
    let ghost flatpm = program_model(flat@);
    let ghost sizesv = sizes@;
    let mut out: Vec<Cmd> = Vec::new();
    push_cmd(&mut out, Cmd::Block(sizes));
    append_cmds(&mut out, flat);
    push_cmd(&mut out, Cmd::ConstructBlock(doubled, Rc::new(table)));
    let ghost base = program_model(out@);
    proof {
        assert(base =~= seq![CmdV::Block(sizesv)] + flatpm + seq![
            CmdV::ConstructBlock((2 * defs@.len()) as usize, field_table_of(defs@)),
        ]);
        assert(field_reads(0) =~= Seq::<CmdV>::empty());
        assert(base + field_reads(0) =~= base);
    }
    let mut k: usize = 0;
    while k < defs.len()
        invariant
            k <= defs@.len(),
            program_model(out@) == base + field_reads(k as int),
        decreases defs@.len() - k,
    {
        push_cmd(&mut out, Cmd::Load(k, 0));
        push_cmd(&mut out, Cmd::Return);
        proof {
            assert(field_reads(k + 1) == field_reads(k as int) + seq![
                CmdV::Load(k as usize, 0),
                CmdV::Return,
            ]);
            assert(program_model(out@) =~= base + field_reads(k + 1));
        }
        k = k + 1;
    }
    push_cmd(&mut out, Cmd::ExitScope);
    proof {
        assert(program_model(out@) =~= base + field_reads(defs@.len() as int) + seq![
            CmdV::ExitScope,
        ]);
    }
    Ok((out, fid1))
}


/// Whether `root` is the user program `ast` seeded with the standard
/// library: seven definitions — the `Iterator`, `List`, `String` and
/// `Map` modules, then the filter, map and values routines at the
/// root-frame slots the machine expects — around `ast` as the body.
/// Every module and routine is pinned node for node, so any two
/// conforming roots carry the same code and lower identically.
pub open spec fn seeded_root(root: Statement, ast: Statement) -> bool {
    &&& root.definitions@.len() == 7
    &&& root.definitions@[0].0@ == crate::names::iterator_module_name()
    &&& root.definitions@[1].0@ == crate::names::list_module_name()
    &&& root.definitions@[2].0@ == crate::names::string_module_name()
    &&& root.definitions@[3].0@ == crate::names::map_module_name()
    &&& root.definitions@[4].0@ == crate::names::filterimpl_name()
    &&& root.definitions@[5].0@ == crate::names::mapimpl_name()
    &&& root.definitions@[6].0@ == crate::names::valuesimpl_name()
    &&& crate::stdlib::is_iterator_module(root.definitions@[0].1)
    &&& crate::stdlib::is_module_of(
        root.definitions@[1].1,
        seq![
            (crate::names::range_name(), ForeignFunction(ForeignKind::ListRange)),
            (crate::names::concat_name(), ForeignFunction(ForeignKind::ListConcat)),
        ],
    )
    &&& crate::stdlib::is_module_of(
        root.definitions@[2].1,
        seq![
            (crate::names::concat_name(), ForeignFunction(ForeignKind::StringConcat)),
            (crate::names::split_name(), ForeignFunction(ForeignKind::StringSplit)),
        ],
    )
    &&& crate::stdlib::is_module_of(
        root.definitions@[3].1,
        seq![
            (crate::names::keys_name(), ForeignFunction(ForeignKind::MapKeys)),
            (crate::names::values_name(), ForeignFunction(ForeignKind::MapValues)),
        ],
    )
    &&& crate::stdlib::is_filter_routine(root.definitions@[4].1)
    &&& crate::stdlib::is_map_routine(root.definitions@[5].1)
    &&& crate::stdlib::is_values_routine(root.definitions@[6].1)
    &&& crate::ast::is_plain(root.body)
    &&& crate::ast::plain_primary(root.body) matches Primary::Block(b) && *b == ast
}

/// Seeds a user program with the standard library: the program becomes
/// the body of a root block holding the module and routine bindings.
pub fn seed_program(ast: Statement) -> (root: Statement)
    ensures
        seeded_root(root, ast),
{
    let mut defs: Vec<(Vec<u8>, Expression)> = Vec::new();
    defs.push((crate::names::iterator_module_name_vec(), crate::stdlib::iterator_module()));
    defs.push((
        crate::names::list_module_name_vec(),
        crate::stdlib::list_module_expression(),
    ));
    defs.push((
        crate::names::string_module_name_vec(),
        crate::stdlib::string_module_expression(),
    ));
    defs.push((
        crate::names::map_module_name_vec(),
        crate::stdlib::map_module_expression(),
    ));
    defs.push((crate::names::filterimpl_name_vec(), crate::stdlib::filter_routine()));
    defs.push((crate::names::mapimpl_name_vec(), crate::stdlib::map_routine()));
    defs.push((crate::names::valuesimpl_name_vec(), crate::stdlib::values_routine()));
    let body = crate::ast::primary_expression(Primary::Block(Box::new(ast)));
    Statement { definitions: defs, body }
}

/// Translates a user program: seeds the standard library around it
/// and lowers the seeded root statement from an empty environment.
///
/// Specification code cannot build the seeded syntax tree itself, so
/// the contract quantifies over it: `seeded_root` pins every node of
/// the seeding — the module tables, the routines, and the user body —
/// and the result, success and failure alike, is the lowering of a
/// root that satisfies it.
pub fn get_cmd(ast: Statement) -> (r: Result<Vec<Cmd>, TransError>)
    ensures
        exists|root: Statement|
            #[trigger] seeded_root(root, ast) && (match r {
                Ok(cmds) => tr_statement(Seq::empty(), root, 0) matches Ok((pm, fid))
                    && pm == program_model(cmds@),
                Err(e) => tr_statement(Seq::empty(), root, 0) matches Err(ev) && ev
                    == e.model(),
            }),
{
    let ghost ast0 = ast;
    let root = seed_program(ast);
    let mut env = Env::new();
    let res = translate_statement(&mut env, &root, 0);
    proof {
        assert(seeded_root(root, ast0));
    }
    match res {
        Ok((cmds, _fid)) => Ok(cmds),
        Err(e) => Err(e),
    }
}

/// A translator: the environment the next expression is lowered in.
pub struct Translator {
    pub env: Env,
}

impl Translator {
    /// A translator with no frames.
    pub fn new() -> (r: Translator)
        ensures
            r.env@ == Seq::<Seq<Seq<u8>>>::empty(),
    {
        Translator { env: Env::new() }
    }

    /// A record-literal builder over this translator.
    pub fn block(&self) -> (r: BlockTranslator)
        ensures
            r.binds@.len() == 0,
    {
        BlockTranslator { binds: Vec::new() }
    }

    /// A translator for a nested scope: this environment with one more
    /// frame.
    pub fn fork(&self, frame: Vec<Vec<u8>>) -> (r: Translator)
        ensures
            r.env@ == self.env@.push(frame_model(frame@)),
    {
        let mut frames: Vec<Vec<Vec<u8>>> = Vec::new();
        let mut i: usize = 0;
        while i < self.env.0.len()
            invariant
                i <= self.env.0@.len(),
                env_model(frames@) == env_model(self.env.0@.take(i as int)),
            decreases self.env.0@.len() - i,
        {
            let copied = copy_names(&self.env.0[i]);
            let ghost prev = frames@;
            frames.push(copied);
            proof {
                assert(env_model(prev.push(copied)) =~= env_model(prev).push(
                    frame_model(copied@),
                ));
                assert(env_model(self.env.0@.take(i + 1)) =~= env_model(
                    self.env.0@.take(i as int),
                ).push(frame_model(self.env.0@[i as int]@)));
            }
            i = i + 1;
        }
        proof {
            assert(self.env.0@.take(self.env.0@.len() as int) =~= self.env.0@);
        }
        let mut env = Env(frames);
        env.push(frame);
        Translator { env }
    }

    /// Lowers a built-in into a one-instruction stream, as a binding
    /// body for a seeded module.
    pub fn translate_foreign(&self, f: ForeignFunction) -> (r: Vec<Cmd>)
        ensures
            program_model(r@) == seq![CmdV::ConstructForeignFunction(f)],
    {
        let mut out: Vec<Cmd> = Vec::new();
        push_cmd(&mut out, Cmd::ConstructForeignFunction(f));
        proof {
            assert(program_model(out@) =~= seq![CmdV::ConstructForeignFunction(f)]);
        }
        out
    }
}

/// A builder for a record literal: named bindings collected one at a
/// time, then lowered together.
pub struct BlockTranslator {
    pub binds: Vec<(Vec<u8>, Expression)>,
}

impl BlockTranslator {
    /// Adds one named binding.
    pub fn add_bind(&mut self, name: Vec<u8>, body: Expression)
        ensures
            final(self).binds@ == old(self).binds@.push((name, body)),
    {
        self.binds.push((name, body));
    }

    /// Lowers the collected bindings as a record literal in the
    /// translator's environment.
    pub fn finalize(self, translator: &mut Translator, fid: u64) -> (r: Result<
        (Vec<Cmd>, u64),
        TransError,
    >)
        ensures
            final(translator).env@ == old(translator).env@,
            match r {
                Ok((cmds, fid2)) => tr_struct(old(translator).env@, self.binds@, fid) == Ok::<
                    (Seq<CmdV>, u64),
                    TransErrorV,
                >((program_model(cmds@), fid2)),
                Err(err) => tr_struct(old(translator).env@, self.binds@, fid) == Err::<
                    (Seq<CmdV>, u64),
                    TransErrorV,
                >(err.model()),
            },
    {
        translate_struct(&mut translator.env, &self.binds, fid)
    }
}

} // verus!
