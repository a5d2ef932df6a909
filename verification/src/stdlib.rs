//! The standard-library surface: the named modules and routines the
//! translator seeds into the outermost scope of every program.
//!
//! `List`, `String` and `Map` are blocks of built-in functions.  The
//! routines backing `filter`, `map` and `Map.values`, and the
//! `Iterator` module, are written in the language itself and compiled
//! into every program; the machine reaches the routines through their
//! fixed root-frame slots.

use vstd::prelude::*;
use crate::ast::{
    Statement, Expression, Comparison, ComparisonRight, Additive, AdditiveRight, Multitive,
    Operation, OperationRight, Primary, is_plain, plain_primary, primary_expression,
};
use crate::value::{ForeignFunction, ForeignKind};
use crate::names;

verus! {

/// The `List` module.
pub struct ListModule;

impl ListModule {
    /// The built-ins the module exposes, by name: `range` and
    /// `concat`.
    pub fn get_value() -> (r: Vec<(Vec<u8>, ForeignFunction)>)
        ensures
            r@.len() == 2,
            r@[0].0@ == names::range_name(),
            r@[0].1 == ForeignFunction(ForeignKind::ListRange),
            r@[1].0@ == names::concat_name(),
            r@[1].1 == ForeignFunction(ForeignKind::ListConcat),
    {
        let mut out: Vec<(Vec<u8>, ForeignFunction)> = Vec::new();
        out.push((names::range_name_vec(), ForeignFunction(ForeignKind::ListRange)));
        out.push((names::concat_name_vec(), ForeignFunction(ForeignKind::ListConcat)));
        out
    }
}

/// The `Map` module.
pub struct MapModule;

impl MapModule {
    /// The built-ins the module exposes, by name: `keys` and `values`.
    pub fn get_value() -> (r: Vec<(Vec<u8>, ForeignFunction)>)
        ensures
            r@.len() == 2,
            r@[0].0@ == names::keys_name(),
            r@[0].1 == ForeignFunction(ForeignKind::MapKeys),
            r@[1].0@ == names::values_name(),
            r@[1].1 == ForeignFunction(ForeignKind::MapValues),
    {
        let mut out: Vec<(Vec<u8>, ForeignFunction)> = Vec::new();
        out.push((names::keys_name_vec(), ForeignFunction(ForeignKind::MapKeys)));
        out.push((names::values_name_vec(), ForeignFunction(ForeignKind::MapValues)));
        out
    }
}

/// The `String` module.
pub struct StringModule;

impl StringModule {
    /// The built-ins the module exposes, by name: `concat` and
    /// `split`.
    pub fn get_value() -> (r: Vec<(Vec<u8>, ForeignFunction)>)
        ensures
            r@.len() == 2,
            r@[0].0@ == names::concat_name(),
            r@[0].1 == ForeignFunction(ForeignKind::StringConcat),
            r@[1].0@ == names::split_name(),
            r@[1].1 == ForeignFunction(ForeignKind::StringSplit),
    {
        let mut out: Vec<(Vec<u8>, ForeignFunction)> = Vec::new();
        out.push((names::concat_name_vec(), ForeignFunction(ForeignKind::StringConcat)));
        out.push((names::split_name_vec(), ForeignFunction(ForeignKind::StringSplit)));
        out
    }
}

/// Whether an expression is a record literal whose fields are exactly
/// the named built-ins of a module table.
pub open spec fn is_module_of(e: Expression, table: Seq<(Seq<u8>, ForeignFunction)>) -> bool {
    &&& is_plain(e)
    &&& plain_primary(e) matches Primary::Struct(defs) && defs@.len() == table.len() && forall|
        i: int,
    |
        0 <= i < table.len() ==> {
            &&& (#[trigger] defs@[i]).0@ == table[i].0
            &&& is_plain(defs@[i].1)
            &&& plain_primary(defs@[i].1) matches Primary::Foreign(ff) && ff == table[i].1
        }
}

/// A record-literal expression of built-in functions, per the table.
fn module_expression(table: Vec<(Vec<u8>, ForeignFunction)>) -> (r: Expression)
    ensures
        is_module_of(
            r,
            table@.map_values(|p: (Vec<u8>, ForeignFunction)| (p.0@, p.1)),
        ),
{
    let ghost tm = table@.map_values(|p: (Vec<u8>, ForeignFunction)| (p.0@, p.1));
    let mut defs: Vec<(Vec<u8>, Expression)> = Vec::new();
    let mut i: usize = 0;
    while i < table.len()
        invariant
            i <= table@.len(),
            tm == table@.map_values(|p: (Vec<u8>, ForeignFunction)| (p.0@, p.1)),
            defs@.len() == i,
            forall|k: int| 0 <= k < i ==> {
                &&& (#[trigger] defs@[k]).0@ == tm[k].0
                &&& is_plain(defs@[k].1)
                &&& plain_primary(defs@[k].1) matches Primary::Foreign(ff) && ff == tm[k].1
            },
        decreases table@.len() - i,
    {
        let name = crate::vm::copy_bytes(&table[i].0);
        let ff = table[i].1;
        defs.push((name, primary_expression(Primary::Foreign(ff))));
        i = i + 1;
    }
    primary_expression(Primary::Struct(defs))
}

/// Whether an expression is a bare variable reference to `n`.
pub open spec fn is_var(e: Expression, n: Seq<u8>) -> bool {
    &&& is_plain(e)
    &&& plain_primary(e) matches Primary::Variable(x) && x@ == n
}

/// Whether an expression is the number literal `k`.
pub open spec fn is_num(e: Expression, k: i64) -> bool {
    &&& is_plain(e)
    &&& plain_primary(e) matches Primary::Number(x) && x == k
}

/// Whether an expression is the empty list literal.
pub open spec fn is_empty_list(e: Expression) -> bool {
    &&& is_plain(e)
    &&& plain_primary(e) matches Primary::List(items) && items@.len() == 0
}

/// Whether an expression is a postfix chain: a primary with postfix
/// operators and no arithmetic or comparison around it.
pub open spec fn is_postfix(e: Expression) -> bool {
    &&& e matches Expression::Comparison(c)
    &&& c.rights@.len() == 0
    &&& c.left.rights@.len() == 0
    &&& c.left.left.rights@.len() == 0
}

/// The primary a postfix chain starts from.
pub open spec fn postfix_primary(e: Expression) -> Primary
    recommends
        is_postfix(e),
{
    (e->Comparison_0).left.left.left.left
}

/// The postfix operators of a chain.
pub open spec fn postfix_rights(e: Expression) -> Seq<OperationRight>
    recommends
        is_postfix(e),
{
    (e->Comparison_0).left.left.left.rights@
}

/// Whether a multiplicative term is the bare variable `n`.
pub open spec fn is_mult_var(m: Multitive, n: Seq<u8>) -> bool {
    &&& m.rights@.len() == 0
    &&& m.left.rights@.len() == 0
    &&& m.left.left matches Primary::Variable(x) && x@ == n
}

/// Whether a multiplicative term is the number literal `k`.
pub open spec fn is_mult_num(m: Multitive, k: i64) -> bool {
    &&& m.rights@.len() == 0
    &&& m.left.rights@.len() == 0
    &&& m.left.left matches Primary::Number(x) && x == k
}

/// Whether an expression is `n + 1`.
pub open spec fn is_plus_one(e: Expression, n: Seq<u8>) -> bool {
    &&& e matches Expression::Comparison(c)
    &&& c.rights@.len() == 0
    &&& is_mult_var(c.left.left, n)
    &&& c.left.rights@.len() == 1
    &&& c.left.rights@[0] matches AdditiveRight::Add(m) && is_mult_num(m, 1)
}

/// Whether an expression is `i < s.count`.
pub open spec fn is_below_count(e: Expression, i: Seq<u8>, s: Seq<u8>) -> bool {
    &&& e matches Expression::Comparison(c)
    &&& c.left.rights@.len() == 0
    &&& is_mult_var(c.left.left, i)
    &&& c.rights@.len() == 1
    &&& c.rights@[0] matches ComparisonRight::LessThan(a) && {
        &&& a.rights@.len() == 0
        &&& a.left.rights@.len() == 0
        &&& a.left.left.left matches Primary::Variable(x) && x@ == s
        &&& a.left.left.rights@.len() == 1
        &&& a.left.left.rights@[0] matches OperationRight::Access(cn) && cn@
            == names::count_name()
    }
}

/// Whether an expression is `s[i]`.
pub open spec fn is_index_var(e: Expression, s: Seq<u8>, i: Seq<u8>) -> bool {
    &&& is_postfix(e)
    &&& postfix_primary(e) matches Primary::Variable(x) && x@ == s
    &&& postfix_rights(e).len() == 1
    &&& postfix_rights(e)[0] matches OperationRight::Index(ie) && is_var(*ie, i)
}

/// Whether an expression is `f(l[i])`.
pub open spec fn is_predicate_applied(e: Expression) -> bool {
    &&& is_postfix(e)
    &&& postfix_primary(e) matches Primary::Variable(x) && x@ == names::f_name()
    &&& postfix_rights(e).len() == 1
    &&& postfix_rights(e)[0] matches OperationRight::Call(args) && args@.len() == 1
        && is_index_var(args@[0], names::l_name(), names::i_name())
}

/// Whether an expression is `go(i + 1, acc)`: advance without
/// collecting.
pub open spec fn is_go_skip(e: Expression) -> bool {
    &&& is_postfix(e)
    &&& postfix_primary(e) matches Primary::Variable(g) && g@ == names::go_name()
    &&& postfix_rights(e).len() == 1
    &&& postfix_rights(e)[0] matches OperationRight::Call(args) && args@.len() == 2
        && is_plus_one(args@[0], names::i_name()) && is_var(args@[1], names::acc_name())
}

/// Whether an expression is `go(i + 1, acc.concat([element]))` for
/// some element expression, which `go_step_element` extracts.
pub open spec fn is_go_step(e: Expression) -> bool {
    &&& is_postfix(e)
    &&& postfix_primary(e) matches Primary::Variable(g) && g@ == names::go_name()
    &&& postfix_rights(e).len() == 1
    &&& postfix_rights(e)[0] matches OperationRight::Call(args) && args@.len() == 2
        && is_plus_one(args@[0], names::i_name()) && {
        let grown = args@[1];
        &&& is_postfix(grown)
        &&& postfix_primary(grown) matches Primary::Variable(a) && a@ == names::acc_name()
        &&& postfix_rights(grown).len() == 2
        &&& postfix_rights(grown)[0] matches OperationRight::Access(cn) && cn@
            == names::concat_name()
        &&& postfix_rights(grown)[1] matches OperationRight::Call(ca) && ca@.len() == 1 && {
            let listed = ca@[0];
            &&& is_plain(listed)
            &&& plain_primary(listed) matches Primary::List(items) && items@.len() == 1
        }
    }
}

/// The element a collecting step appends.
pub open spec fn go_step_element(e: Expression) -> Expression
    recommends
        is_go_step(e),
{
    let args = (postfix_rights(e)[0])->Call_0;
    let grown = args@[1];
    let ca = (postfix_rights(grown)[1])->Call_0;
    (plain_primary(ca@[0]))->List_0@[0]
}

/// Whether an expression is `go(0, [])`: starting the accumulator
/// loop.
pub open spec fn is_go_start(e: Expression) -> bool {
    &&& is_postfix(e)
    &&& postfix_primary(e) matches Primary::Variable(g) && g@ == names::go_name()
    &&& postfix_rights(e).len() == 1
    &&& postfix_rights(e)[0] matches OperationRight::Call(args) && args@.len() == 2
        && is_num(args@[0], 0) && is_empty_list(args@[1])
}

/// Whether an expression is the accumulator routine
/// `(p0, p1) => { go: (i, acc) => if i < sn.count <step> acc, go(0, []) }`
/// for some step, which `accumulator_step` extracts.
pub open spec fn is_accumulator(e: Expression, p0: Seq<u8>, p1: Seq<u8>, sn: Seq<u8>) -> bool {
    &&& is_plain(e)
    &&& plain_primary(e) matches Primary::Function(params, body) && params@.len() == 2
        && params@[0]@ == p0 && params@[1]@ == p1 && {
        &&& is_plain(*body)
        &&& plain_primary(*body) matches Primary::Block(st) && {
            &&& st.definitions@.len() == 1
            &&& st.definitions@[0].0@ == names::go_name()
            &&& is_go_start(st.body)
            &&& {
                let gofn = st.definitions@[0].1;
                &&& is_plain(gofn)
                &&& plain_primary(gofn) matches Primary::Function(gps, gb) && gps@.len() == 2
                    && gps@[0]@ == names::i_name() && gps@[1]@ == names::acc_name() && {
                    &&& *gb matches Expression::If { cond, cons, alt }
                    &&& is_below_count(*cond, names::i_name(), sn)
                    &&& is_var(*alt, names::acc_name())
                }
            }
        }
    }
}

/// The step expression of an accumulator routine: the branch taken
/// while the index is below the count.
pub open spec fn accumulator_step(e: Expression) -> Expression
    recommends
        is_accumulator(
            e,
            names::l_name(),
            names::f_name(),
            names::l_name(),
        ) || is_accumulator(e, names::m_name(), names::ks_name(), names::ks_name()),
{
    let body = (plain_primary(e))->Function_1;
    let st = (plain_primary(*body))->Block_0;
    let gofn = st.definitions@[0].1;
    let gb = (plain_primary(gofn))->Function_1;
    *((*gb)->cons)
}

/// The filter routine, node for node:
/// `(l, f) => { go: (i, acc) => if i < l.count
///   (if f(l[i]) go(i + 1, acc.concat([l[i]])) go(i + 1, acc))
///   acc, go(0, []) }`.
pub open spec fn is_filter_routine(e: Expression) -> bool {
    &&& is_accumulator(e, names::l_name(), names::f_name(), names::l_name())
    &&& accumulator_step(e) matches Expression::If { cond, cons, alt } && {
        &&& is_predicate_applied(*cond)
        &&& is_go_step(*cons)
        &&& is_index_var(go_step_element(*cons), names::l_name(), names::i_name())
        &&& is_go_skip(*alt)
    }
}

/// The map routine, node for node:
/// `(l, f) => { go: (i, acc) => if i < l.count
///   go(i + 1, acc.concat([f(l[i])])) acc, go(0, []) }`.
pub open spec fn is_map_routine(e: Expression) -> bool {
    &&& is_accumulator(e, names::l_name(), names::f_name(), names::l_name())
    &&& is_go_step(accumulator_step(e))
    &&& is_predicate_applied(go_step_element(accumulator_step(e)))
}

/// The values routine, node for node:
/// `(m, ks) => { go: (i, acc) => if i < ks.count
///   go(i + 1, acc.concat([m[ks[i]]])) acc, go(0, []) }`.
pub open spec fn is_values_routine(e: Expression) -> bool {
    &&& is_accumulator(e, names::m_name(), names::ks_name(), names::ks_name())
    &&& is_go_step(accumulator_step(e))
    &&& {
        let field = go_step_element(accumulator_step(e));
        &&& is_postfix(field)
        &&& postfix_primary(field) matches Primary::Variable(x) && x@ == names::m_name()
        &&& postfix_rights(field).len() == 1
        &&& postfix_rights(field)[0] matches OperationRight::Index(bx) && is_index_var(
            *bx,
            names::ks_name(),
            names::i_name(),
        )
    }
}

/// The `Iterator` module, node for node:
/// `{ from: (l) => { go: (i) => { next: if i < l.count
///   [go(i + 1), l[i]] null }, go(0) } }`.
pub open spec fn is_iterator_module(e: Expression) -> bool {
    &&& is_plain(e)
    &&& plain_primary(e) matches Primary::Struct(defs) && defs@.len() == 1 && defs@[0].0@
        == names::from_name() && {
        let fromfn = defs@[0].1;
        &&& is_plain(fromfn)
        &&& plain_primary(fromfn) matches Primary::Function(fps, fb) && fps@.len() == 1
            && fps@[0]@ == names::l_name() && {
            &&& is_plain(*fb)
            &&& plain_primary(*fb) matches Primary::Block(st) && {
                &&& st.definitions@.len() == 1
                &&& st.definitions@[0].0@ == names::go_name()
                &&& is_postfix(st.body)
                &&& postfix_primary(st.body) matches Primary::Variable(g) && g@
                    == names::go_name()
                &&& postfix_rights(st.body).len() == 1
                &&& postfix_rights(st.body)[0] matches OperationRight::Call(sa)
                    && sa@.len() == 1 && is_num(sa@[0], 0)
                &&& {
                    let gofn = st.definitions@[0].1;
                    &&& is_plain(gofn)
                    &&& plain_primary(gofn) matches Primary::Function(gps, gb)
                        && gps@.len() == 1 && gps@[0]@ == names::i_name() && {
                        &&& is_plain(*gb)
                        &&& plain_primary(*gb) matches Primary::Struct(cd) && cd@.len() == 1
                            && cd@[0].0@ == names::next_name() && {
                            &&& cd@[0].1 matches Expression::If { cond, cons, alt } && {
                                &&& is_below_count(
                                    *cond,
                                    names::i_name(),
                                    names::l_name(),
                                )
                                &&& is_plain(*alt)
                                &&& plain_primary(*alt) is Null
                                &&& is_plain(*cons)
                                &&& plain_primary(*cons) matches Primary::List(pair)
                                    && pair@.len() == 2 && {
                                    &&& is_postfix(pair@[0])
                                    &&& postfix_primary(pair@[0])
                                        matches Primary::Variable(g2) && g2@
                                        == names::go_name()
                                    &&& postfix_rights(pair@[0]).len() == 1
                                    &&& postfix_rights(pair@[0])[0]
                                        matches OperationRight::Call(na) && na@.len() == 1
                                        && is_plus_one(na@[0], names::i_name())
                                    &&& is_index_var(
                                        pair@[1],
                                        names::l_name(),
                                        names::i_name(),
                                    )
                                }
                            }
                        }
                    }
                }
            }
        }
    }
}

/// `name` as a bare variable reference.
fn evar(name: Vec<u8>) -> (r: Expression)
    ensures
        is_var(r, name@),
{
    primary_expression(Primary::Variable(name))
}

/// `n` as a number literal.
fn enumber(n: i64) -> (r: Expression)
    ensures
        is_num(r, n),
{
    primary_expression(Primary::Number(n))
}

/// A primary followed by postfix operators, as a full expression.
fn opchain(left: Primary, rights: Vec<OperationRight>) -> (r: Expression)
    ensures
        is_postfix(r),
        postfix_primary(r) == left,
        postfix_rights(r) == rights@,
{
    Expression::Comparison(Comparison {
        left: Additive {
            left: Multitive { left: Operation { left, rights }, rights: Vec::new() },
            rights: Vec::new(),
        },
        rights: Vec::new(),
    })
}

/// `name + 1`.
fn plus_one(name: Vec<u8>) -> (r: Expression)
    ensures
        is_plus_one(r, name@),
{
    Expression::Comparison(Comparison {
        left: Additive {
            left: Multitive {
                left: Operation { left: Primary::Variable(name), rights: Vec::new() },
                rights: Vec::new(),
            },
            rights: vec![
                AdditiveRight::Add(Multitive {
                    left: Operation { left: Primary::Number(1), rights: Vec::new() },
                    rights: Vec::new(),
                }),
            ],
        },
        rights: Vec::new(),
    })
}

/// `i < seq.count`.
fn below_count(i_name: Vec<u8>, seq_name: Vec<u8>) -> (r: Expression)
    ensures
        is_below_count(r, i_name@, seq_name@),
{
    let mut count_access: Vec<OperationRight> = Vec::new();
    count_access.push(OperationRight::Access(names::count_name_vec()));
    Expression::Comparison(Comparison {
        left: Additive {
            left: Multitive {
                left: Operation { left: Primary::Variable(i_name), rights: Vec::new() },
                rights: Vec::new(),
            },
            rights: Vec::new(),
        },
        rights: vec![
            ComparisonRight::LessThan(Additive {
                left: Multitive {
                    left: Operation {
                        left: Primary::Variable(seq_name),
                        rights: count_access,
                    },
                    rights: Vec::new(),
                },
                rights: Vec::new(),
            }),
        ],
    })
}

/// `seq[i]`.
fn index_var(seq_name: Vec<u8>, i_name: Vec<u8>) -> (r: Expression)
    ensures
        is_index_var(r, seq_name@, i_name@),
{
    let mut rights: Vec<OperationRight> = Vec::new();
    rights.push(OperationRight::Index(Box::new(evar(i_name))));
    opchain(Primary::Variable(seq_name), rights)
}

/// `go(i + 1, acc)`: advance without collecting.
fn go_skip() -> (r: Expression)
    ensures
        is_go_skip(r),
{
    let mut call_args: Vec<Expression> = Vec::new();
    call_args.push(plus_one(names::i_name_vec()));
    call_args.push(evar(names::acc_name_vec()));
    let mut go_rights: Vec<OperationRight> = Vec::new();
    go_rights.push(OperationRight::Call(call_args));
    opchain(Primary::Variable(names::go_name_vec()), go_rights)
}

/// `go(i + 1, acc.concat([element]))`.
fn go_step(element: Expression) -> (r: Expression)
    ensures
        is_go_step(r),
        go_step_element(r) == element,
{
    let ghost elem = element;
    let mut listed: Vec<Expression> = Vec::new();
    listed.push(element);
    let mut acc_rights: Vec<OperationRight> = Vec::new();
    acc_rights.push(OperationRight::Access(names::concat_name_vec()));
    let mut concat_args: Vec<Expression> = Vec::new();
    concat_args.push(primary_expression(Primary::List(listed)));
    acc_rights.push(OperationRight::Call(concat_args));
    let grown = opchain(Primary::Variable(names::acc_name_vec()), acc_rights);
    let mut call_args: Vec<Expression> = Vec::new();
    call_args.push(plus_one(names::i_name_vec()));
    call_args.push(grown);
    let mut go_rights: Vec<OperationRight> = Vec::new();
    go_rights.push(OperationRight::Call(call_args));
    let r = opchain(Primary::Variable(names::go_name_vec()), go_rights);
    proof {
        assert(go_step_element(r) == elem);
    }
    r
}

/// A routine of the shape
/// `(a, b) => { go: (i, acc) => if i < seq.count step acc, go(0, []) }`:
/// the shared accumulator loop of the filter, map and values routines.
fn accumulator_routine(
    param0: Vec<u8>,
    param1: Vec<u8>,
    seq_name: Vec<u8>,
    step: Expression,
) -> (r: Expression)
    ensures
        is_accumulator(r, param0@, param1@, seq_name@),
        accumulator_step(r) == step,
{
    let ghost the_step = step;
    let go_body = Expression::If {
        cond: Box::new(below_count(names::i_name_vec(), seq_name)),
        cons: Box::new(step),
        alt: Box::new(evar(names::acc_name_vec())),
    };
    let mut go_params: Vec<Vec<u8>> = Vec::new();
    go_params.push(names::i_name_vec());
    go_params.push(names::acc_name_vec());
    let go_fn = primary_expression(Primary::Function(go_params, Box::new(go_body)));
    let mut start_args: Vec<Expression> = Vec::new();
    start_args.push(enumber(0));
    start_args.push(primary_expression(Primary::List(Vec::new())));
    let mut start_rights: Vec<OperationRight> = Vec::new();
    start_rights.push(OperationRight::Call(start_args));
    let start = opchain(Primary::Variable(names::go_name_vec()), start_rights);
    let mut defs: Vec<(Vec<u8>, Expression)> = Vec::new();
    defs.push((names::go_name_vec(), go_fn));
    let stmt = Statement { definitions: defs, body: start };
    let mut params: Vec<Vec<u8>> = Vec::new();
    params.push(param0);
    params.push(param1);
    primary_expression(Primary::Function(
        params,
        Box::new(primary_expression(Primary::Block(Box::new(stmt)))),
    ))
}

/// The routine behind `l.filter(f)`: walks the list and keeps the
/// elements the predicate accepts.
pub fn filter_routine() -> (r: Expression)
    ensures
        is_filter_routine(r),
{
    let mut pred_args: Vec<Expression> = Vec::new();
    pred_args.push(index_var(names::l_name_vec(), names::i_name_vec()));
    let mut pred_rights: Vec<OperationRight> = Vec::new();
    pred_rights.push(OperationRight::Call(pred_args));
    let accepted = opchain(Primary::Variable(names::f_name_vec()), pred_rights);
    let step = Expression::If {
        cond: Box::new(accepted),
        cons: Box::new(go_step(index_var(names::l_name_vec(), names::i_name_vec()))),
        alt: Box::new(go_skip()),
    };
    accumulator_routine(
        names::l_name_vec(),
        names::f_name_vec(),
        names::l_name_vec(),
        step,
    )
}

/// The routine behind `l.map(f)`: walks the list and collects the
/// function's results.
pub fn map_routine() -> (r: Expression)
    ensures
        is_map_routine(r),
{
    let mut fn_args: Vec<Expression> = Vec::new();
    fn_args.push(index_var(names::l_name_vec(), names::i_name_vec()));
    let mut fn_rights: Vec<OperationRight> = Vec::new();
    fn_rights.push(OperationRight::Call(fn_args));
    let applied = opchain(Primary::Variable(names::f_name_vec()), fn_rights);
    let step = go_step(applied);
    accumulator_routine(
        names::l_name_vec(),
        names::f_name_vec(),
        names::l_name_vec(),
        step,
    )
}

/// The routine behind `Map.values(m)`: walks the key list and reads
/// each field of the block.
pub fn values_routine() -> (r: Expression)
    ensures
        is_values_routine(r),
{
    let mut m_rights: Vec<OperationRight> = Vec::new();
    m_rights.push(OperationRight::Index(Box::new(index_var(
        names::ks_name_vec(),
        names::i_name_vec(),
    ))));
    let field = opchain(Primary::Variable(names::m_name_vec()), m_rights);
    let step = go_step(field);
    accumulator_routine(
        names::m_name_vec(),
        names::ks_name_vec(),
        names::ks_name_vec(),
        step,
    )
}

/// The `Iterator` module: `from` turns a list into a linked iterator,
/// a block whose `next` field is a pair of the advanced iterator and
/// the element, or null at the end.
pub fn iterator_module() -> (r: Expression)
    ensures
        is_iterator_module(r),
{
    let mut pair: Vec<Expression> = Vec::new();
    let mut next_go_args: Vec<Expression> = Vec::new();
    next_go_args.push(plus_one(names::i_name_vec()));
    let mut next_go_rights: Vec<OperationRight> = Vec::new();
    next_go_rights.push(OperationRight::Call(next_go_args));
    pair.push(opchain(Primary::Variable(names::go_name_vec()), next_go_rights));
    pair.push(index_var(names::l_name_vec(), names::i_name_vec()));
    let next_field = Expression::If {
        cond: Box::new(below_count(names::i_name_vec(), names::l_name_vec())),
        cons: Box::new(primary_expression(Primary::List(pair))),
        alt: Box::new(primary_expression(Primary::Null)),
    };
    let mut cell_defs: Vec<(Vec<u8>, Expression)> = Vec::new();
    cell_defs.push((names::next_name_vec(), next_field));
    let cell = primary_expression(Primary::Struct(cell_defs));
    let mut go_params: Vec<Vec<u8>> = Vec::new();
    go_params.push(names::i_name_vec());
    let go_fn = primary_expression(Primary::Function(go_params, Box::new(cell)));
    let mut start_args: Vec<Expression> = Vec::new();
    start_args.push(enumber(0));
    let mut start_rights: Vec<OperationRight> = Vec::new();
    start_rights.push(OperationRight::Call(start_args));
    let start = opchain(Primary::Variable(names::go_name_vec()), start_rights);
    let mut stmt_defs: Vec<(Vec<u8>, Expression)> = Vec::new();
    stmt_defs.push((names::go_name_vec(), go_fn));
    let stmt = Statement { definitions: stmt_defs, body: start };
    let mut from_params: Vec<Vec<u8>> = Vec::new();
    from_params.push(names::l_name_vec());
    let from_fn = primary_expression(Primary::Function(
        from_params,
        Box::new(primary_expression(Primary::Block(Box::new(stmt)))),
    ));
    let mut module_defs: Vec<(Vec<u8>, Expression)> = Vec::new();
    module_defs.push((names::from_name_vec(), from_fn));
    primary_expression(Primary::Struct(module_defs))
}


/// The `List` module as a record-literal expression.
pub fn list_module_expression() -> (r: Expression)
    ensures
        is_module_of(
            r,
            seq![
                (names::range_name(), ForeignFunction(ForeignKind::ListRange)),
                (names::concat_name(), ForeignFunction(ForeignKind::ListConcat)),
            ],
        ),
{
    let table = ListModule::get_value();
    let ghost tm = table@.map_values(|p: (Vec<u8>, ForeignFunction)| (p.0@, p.1));
    let r = module_expression(table);
    proof {
        assert(tm =~= seq![
            (names::range_name(), ForeignFunction(ForeignKind::ListRange)),
            (names::concat_name(), ForeignFunction(ForeignKind::ListConcat)),
        ]);
    }
    r
}

/// The `String` module as a record-literal expression.
pub fn string_module_expression() -> (r: Expression)
    ensures
        is_module_of(
            r,
            seq![
                (names::concat_name(), ForeignFunction(ForeignKind::StringConcat)),
                (names::split_name(), ForeignFunction(ForeignKind::StringSplit)),
            ],
        ),
{
    let table = StringModule::get_value();
    let ghost tm = table@.map_values(|p: (Vec<u8>, ForeignFunction)| (p.0@, p.1));
    let r = module_expression(table);
    proof {
        assert(tm =~= seq![
            (names::concat_name(), ForeignFunction(ForeignKind::StringConcat)),
            (names::split_name(), ForeignFunction(ForeignKind::StringSplit)),
        ]);
    }
    r
}

/// The `Map` module as a record-literal expression.
pub fn map_module_expression() -> (r: Expression)
    ensures
        is_module_of(
            r,
            seq![
                (names::keys_name(), ForeignFunction(ForeignKind::MapKeys)),
                (names::values_name(), ForeignFunction(ForeignKind::MapValues)),
            ],
        ),
{
    let table = MapModule::get_value();
    let ghost tm = table@.map_values(|p: (Vec<u8>, ForeignFunction)| (p.0@, p.1));
    let r = module_expression(table);
    proof {
        assert(tm =~= seq![
            (names::keys_name(), ForeignFunction(ForeignKind::MapKeys)),
            (names::values_name(), ForeignFunction(ForeignKind::MapValues)),
        ]);
    }
    r
}

} // verus!
