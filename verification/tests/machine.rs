//! Running small programs on the machine.

use spctr::vm::{run, Cmd};
use spctr::value::{Value, RuntimeError, value_eq};
use std::rc::Rc;

#[test]
fn number_program_returns_its_constant() {
    let program = vec![Cmd::NumberConst(41), Cmd::NumberConst(1), Cmd::Add];
    let v = run(&program, 100).unwrap();
    assert_eq!(v.into_number().unwrap(), 42);
}

#[test]
fn list_indexing_returns_the_element() {
    let program = vec![
        Cmd::NumberConst(1),
        Cmd::NumberConst(3),
        Cmd::ConstructList(2),
        Cmd::NumberConst(1),
        Cmd::Index,
    ];
    let v = run(&program, 100).unwrap();
    assert_eq!(v.into_number().unwrap(), 3);
}

#[test]
fn division_by_zero_is_reported() {
    let program = vec![Cmd::NumberConst(1), Cmd::NumberConst(0), Cmd::Div];
    assert_eq!(run(&program, 100).unwrap_err(), RuntimeError::DivisionByZero);
}

#[test]
fn equality_is_structural_on_strings() {
    let a = Value::String(Rc::new(b"hoge".to_vec()));
    let b = Value::String(Rc::new(b"hoge".to_vec()));
    let c = Value::String(Rc::new(b"fuga".to_vec()));
    assert!(value_eq(&a, &b));
    assert!(!value_eq(&a, &c));
}

#[test]
fn out_of_fuel_is_reported() {
    let program = vec![Cmd::JumpRel(0)];
    assert_eq!(run(&program, 50).unwrap_err(), RuntimeError::OutOfFuel);
}
