//! Whole programs: built as syntax trees, lowered by the translator
//! with the seeded standard library, and run on the machine.

use spctr::ast::{
    Additive, AdditiveRight, Comparison, ComparisonRight, Expression, Multitive, MultitiveRight,
    Operation, OperationRight, Primary, Statement, primary_expression,
};
use spctr::translator::get_cmd;
use spctr::value::{RuntimeError, Value};
use spctr::vm::run;

fn name(s: &str) -> Vec<u8> {
    s.as_bytes().to_vec()
}

fn mult(p: Primary) -> Multitive {
    Multitive {
        left: Operation { left: p, rights: Vec::new() },
        rights: Vec::new(),
    }
}

fn additive(p: Primary) -> Additive {
    Additive { left: mult(p), rights: Vec::new() }
}

fn opx(left: Primary, rights: Vec<OperationRight>) -> Expression {
    Expression::Comparison(Comparison {
        left: Additive {
            left: Multitive {
                left: Operation { left, rights },
                rights: Vec::new(),
            },
            rights: Vec::new(),
        },
        rights: Vec::new(),
    })
}

fn num(n: i64) -> Expression {
    primary_expression(Primary::Number(n))
}

fn var(s: &str) -> Expression {
    primary_expression(Primary::Variable(name(s)))
}

fn text(s: &str) -> Expression {
    primary_expression(Primary::String(name(s)))
}

/// `a + b` over primaries.
fn addp(a: Primary, b: Primary) -> Expression {
    Expression::Comparison(Comparison {
        left: Additive { left: mult(a), rights: vec![AdditiveRight::Add(mult(b))] },
        rights: Vec::new(),
    })
}

/// `a - b` over primaries.
fn subp(a: Primary, b: Primary) -> Expression {
    Expression::Comparison(Comparison {
        left: Additive { left: mult(a), rights: vec![AdditiveRight::Sub(mult(b))] },
        rights: Vec::new(),
    })
}

fn stmt(defs: Vec<(&str, Expression)>, body: Expression) -> Statement {
    Statement {
        definitions: defs.into_iter().map(|(n, e)| (name(n), e)).collect(),
        body,
    }
}

fn eval(ast: Statement) -> Result<Value, RuntimeError> {
    let cmds = get_cmd(ast).expect("translation");
    run(&cmds, 10_000_000)
}

fn eval_number(ast: Statement) -> i64 {
    eval(ast).expect("run").into_number().expect("number")
}

fn eval_text(ast: Statement) -> Vec<u8> {
    (*eval(ast).expect("run").into_string().expect("string")).clone()
}

/// `[1, 3][1]` is the number 3.
#[test]
fn indexing_a_list_literal() {
    let list = Primary::List(vec![num(1), num(3)]);
    let ast = stmt(
        Vec::new(),
        opx(list, vec![OperationRight::Index(Box::new(num(1)))]),
    );
    assert_eq!(eval_number(ast), 3);
}

/// `hoge: { foo: "bar" }, key: "foo", hoge[key]` is the string "bar":
/// indexing a block with a string key reads the field it names.
#[test]
fn indexing_a_block_with_a_string_key() {
    let block = primary_expression(Primary::Struct(vec![(name("foo"), text("bar"))]));
    let ast = stmt(
        vec![("hoge", block), ("key", text("foo"))],
        opx(
            Primary::Variable(name("hoge")),
            vec![OperationRight::Index(Box::new(var("key")))],
        ),
    );
    assert_eq!(eval_text(ast), b"bar".to_vec());
}

/// `hoge: (fuga) => { fuga + 1 }, hoge(1)` is the number 2.
#[test]
fn calling_a_function_binding() {
    let body = primary_expression(Primary::Block(Box::new(stmt(
        Vec::new(),
        addp(Primary::Variable(name("fuga")), Primary::Number(1)),
    ))));
    let func = primary_expression(Primary::Function(vec![name("fuga")], Box::new(body)));
    let ast = stmt(
        vec![("hoge", func)],
        opx(
            Primary::Variable(name("hoge")),
            vec![OperationRight::Call(vec![num(1)])],
        ),
    );
    assert_eq!(eval_number(ast), 2);
}

/// `fn: (prefix) => { hoge: …, fuga: … }, obj: fn("prefix-"),
/// obj.hoge.concat(" ").concat(obj.fuga)` is "prefix-hoge prefix-fuga":
/// a returned block keeps its captured argument.
#[test]
fn returned_block_captures_the_argument() {
    let concat_with = |suffix: &str| {
        opx(
            Primary::Variable(name("prefix")),
            vec![
                OperationRight::Access(name("concat")),
                OperationRight::Call(vec![text(suffix)]),
            ],
        )
    };
    let record = primary_expression(Primary::Struct(vec![
        (name("hoge"), concat_with("hoge")),
        (name("fuga"), concat_with("fuga")),
    ]));
    let func = primary_expression(Primary::Function(vec![name("prefix")], Box::new(record)));
    let body = opx(
        Primary::Variable(name("obj")),
        vec![
            OperationRight::Access(name("hoge")),
            OperationRight::Access(name("concat")),
            OperationRight::Call(vec![text(" ")]),
            OperationRight::Access(name("concat")),
            OperationRight::Call(vec![opx(
                Primary::Variable(name("obj")),
                vec![OperationRight::Access(name("fuga"))],
            )]),
        ],
    );
    let ast = stmt(
        vec![
            ("fn", func),
            (
                "obj",
                opx(
                    Primary::Variable(name("fn")),
                    vec![OperationRight::Call(vec![text("prefix-")])],
                ),
            ),
        ],
        body,
    );
    assert_eq!(eval_text(ast), b"prefix-hoge prefix-fuga".to_vec());
}

/// `hoge: { foo: 12, bar: 23, baz: foo + bar }, hoge.baz` is 35:
/// sibling bindings of a block see one another through the scope
/// chain.
#[test]
fn block_fields_cross_reference() {
    let record = primary_expression(Primary::Struct(vec![
        (name("foo"), num(12)),
        (name("bar"), num(23)),
        (
            name("baz"),
            addp(Primary::Variable(name("foo")), Primary::Variable(name("bar"))),
        ),
    ]));
    let ast = stmt(
        vec![("hoge", record)],
        opx(
            Primary::Variable(name("hoge")),
            vec![OperationRight::Access(name("baz"))],
        ),
    );
    assert_eq!(eval_number(ast), 35);
}

/// `l: List.range(1, 11), l.filter((i) => i % 3 = 0).count` is 3:
/// closures, the seeded filter routine, and the built-in bridge.
#[test]
fn filtering_a_range() {
    let range = opx(
        Primary::Variable(name("List")),
        vec![
            OperationRight::Access(name("range")),
            OperationRight::Call(vec![num(1), num(11)]),
        ],
    );
    // (i) => i % 3 = 0
    let rem = Multitive {
        left: Operation { left: Primary::Variable(name("i")), rights: Vec::new() },
        rights: vec![MultitiveRight::Surplus(Operation {
            left: Primary::Number(3),
            rights: Vec::new(),
        })],
    };
    let pred_body = Expression::Comparison(Comparison {
        left: Additive { left: rem, rights: Vec::new() },
        rights: vec![ComparisonRight::Equal(additive(Primary::Number(0)))],
    });
    let pred = primary_expression(Primary::Function(vec![name("i")], Box::new(pred_body)));
    let ast = stmt(
        vec![("l", range)],
        opx(
            Primary::Variable(name("l")),
            vec![
                OperationRight::Access(name("filter")),
                OperationRight::Call(vec![pred]),
                OperationRight::Access(name("count")),
            ],
        ),
    );
    assert_eq!(eval_number(ast), 3);
}

/// `l: List.range(1, 11), l.count` is 10.
#[test]
fn test_count() {
    let range = opx(
        Primary::Variable(name("List")),
        vec![
            OperationRight::Access(name("range")),
            OperationRight::Call(vec![num(1), num(11)]),
        ],
    );
    let ast = stmt(
        vec![("l", range)],
        opx(
            Primary::Variable(name("l")),
            vec![OperationRight::Access(name("count"))],
        ),
    );
    assert_eq!(eval_number(ast), 10);
}

/// `hoge: "HOGE,hoge", hoge.split(",")` is the list ["HOGE", "hoge"].
#[test]
fn test_split() {
    let ast = stmt(
        vec![("hoge", text("HOGE,hoge"))],
        opx(
            Primary::Variable(name("hoge")),
            vec![
                OperationRight::Access(name("split")),
                OperationRight::Call(vec![text(",")]),
            ],
        ),
    );
    let pieces = eval(ast).expect("run").into_list().expect("list");
    assert_eq!(pieces.len(), 2);
    assert_eq!(
        *pieces[0].duplicate().into_string().expect("string"),
        b"HOGE".to_vec(),
    );
    assert_eq!(
        *pieces[1].duplicate().into_string().expect("string"),
        b"hoge".to_vec(),
    );
}

/// `map: { "hoge": "HOGE" }, Map.keys(map)[0]` is "hoge".
#[test]
fn test_keys() {
    let record = primary_expression(Primary::Struct(vec![(name("hoge"), text("HOGE"))]));
    let keys_first = opx(
        Primary::Variable(name("Map")),
        vec![
            OperationRight::Access(name("keys")),
            OperationRight::Call(vec![var("map")]),
            OperationRight::Index(Box::new(num(0))),
        ],
    );
    let ast = stmt(vec![("map", record)], keys_first);
    assert_eq!(eval_text(ast), b"hoge".to_vec());
}

/// `map: { "hoge": "HOGE" }, Map.values(map)[0]` is "HOGE".
#[test]
fn test_values() {
    let record = primary_expression(Primary::Struct(vec![(name("hoge"), text("HOGE"))]));
    let values = opx(
        Primary::Variable(name("Map")),
        vec![
            OperationRight::Access(name("values")),
            OperationRight::Call(vec![var("map")]),
            OperationRight::Index(Box::new(num(0))),
        ],
    );
    let ast = stmt(vec![("map", record)], values);
    assert_eq!(eval_text(ast), b"HOGE".to_vec());
}

/// `loop: (n) => if n = 0 0 loop(n - 1), loop(2000)` runs a deep
/// self-recursion whose call sits in tail position, and ends at 0.
#[test]
fn tail_recursion_runs_deep() {
    let cond = Expression::Comparison(Comparison {
        left: additive(Primary::Variable(name("n"))),
        rights: vec![ComparisonRight::Equal(additive(Primary::Number(0)))],
    });
    let recurse = opx(
        Primary::Variable(name("loop")),
        vec![OperationRight::Call(vec![subp(
            Primary::Variable(name("n")),
            Primary::Number(1),
        )])],
    );
    let body = Expression::If {
        cond: Box::new(cond),
        cons: Box::new(num(0)),
        alt: Box::new(recurse),
    };
    let func = primary_expression(Primary::Function(vec![name("n")], Box::new(body)));
    let ast = stmt(
        vec![("loop", func)],
        opx(
            Primary::Variable(name("loop")),
            vec![OperationRight::Call(vec![num(2000)])],
        ),
    );
    assert_eq!(eval_number(ast), 0);
}

/// `Iterator.from([7, 9]).next[1]` is 7: the seeded iterator yields
/// its elements through linked `next` cells.
#[test]
fn iterator_yields_elements() {
    let it = opx(
        Primary::Variable(name("Iterator")),
        vec![
            OperationRight::Access(name("from")),
            OperationRight::Call(vec![primary_expression(Primary::List(vec![
                num(7),
                num(9),
            ]))]),
            OperationRight::Access(name("next")),
            OperationRight::Index(Box::new(num(1))),
        ],
    );
    let ast = stmt(Vec::new(), it);
    assert_eq!(eval_number(ast), 7);
}

/// `l: List.range(1, 4), l.map((i) => i * 10)[2]` is 30: the seeded
/// map routine applies the function to every element in order.
#[test]
fn mapping_a_range() {
    let range = opx(
        Primary::Variable(name("List")),
        vec![
            OperationRight::Access(name("range")),
            OperationRight::Call(vec![num(1), num(4)]),
        ],
    );
    // (i) => i * 10
    let times_ten = Expression::Comparison(Comparison {
        left: Additive {
            left: Multitive {
                left: Operation { left: Primary::Variable(name("i")), rights: Vec::new() },
                rights: vec![MultitiveRight::Mul(Operation {
                    left: Primary::Number(10),
                    rights: Vec::new(),
                })],
            },
            rights: Vec::new(),
        },
        rights: Vec::new(),
    });
    let func = primary_expression(Primary::Function(vec![name("i")], Box::new(times_ten)));
    let ast = stmt(
        vec![("l", range)],
        opx(
            Primary::Variable(name("l")),
            vec![
                OperationRight::Access(name("map")),
                OperationRight::Call(vec![func]),
                OperationRight::Index(Box::new(num(2))),
            ],
        ),
    );
    assert_eq!(eval_number(ast), 30);
}

/// `Iterator.from([7, 9]).next[0].next[1]` is 9: the advanced
/// iterator yields the second element.
#[test]
fn iterator_advances() {
    let it = opx(
        Primary::Variable(name("Iterator")),
        vec![
            OperationRight::Access(name("from")),
            OperationRight::Call(vec![primary_expression(Primary::List(vec![
                num(7),
                num(9),
            ]))]),
            OperationRight::Access(name("next")),
            OperationRight::Index(Box::new(num(0))),
            OperationRight::Access(name("next")),
            OperationRight::Index(Box::new(num(1))),
        ],
    );
    let ast = stmt(Vec::new(), it);
    assert_eq!(eval_number(ast), 9);
}

/// An unbound identifier is rejected at translation with its name.
#[test]
fn undefined_identifier_is_a_translation_error() {
    let ast = stmt(Vec::new(), var("nowhere"));
    match get_cmd(ast) {
        Err(spctr::translator::TransError::UndefinedName(n)) => {
            assert_eq!(n, b"nowhere".to_vec());
        },
        _ => panic!("expected an undefined-name error"),
    }
}
