//! Tests of evaluation, read-back and definitional equality.

use std::sync::Arc;

use fathom::elaborate::core_globals;
use fathom::integer::IntValue;
use fathom::semantics::{equal, eval, normalize, read_back, term_eq};
use fathom::term::{Branches, Constant, Elim, GlobalEntry, Globals, Head, Item, Term, Value};
use fathom::Range;

fn rng(start: usize, end: usize) -> Range {
    Range { start, end }
}

fn int_term(n: u64) -> Term {
    Term::Constant(rng(0, 0), Constant::Int(IntValue::from_u64(n)))
}

fn global(name: &str) -> Term {
    Term::Global(rng(0, 0), String::from(name))
}

fn no_items() -> Vec<Item> {
    Vec::new()
}

#[test]
fn bool_elim_reduces_on_true() {
    let globals = core_globals();
    let items = no_items();
    let term = Term::BoolElim(
        rng(0, 9),
        Arc::new(global("true")),
        Arc::new(int_term(1)),
        Arc::new(int_term(2)),
    );
    let value = eval(&globals, &items, &term);
    let back = read_back(&value);
    assert!(term_eq(&back, &int_term(1)));
}

#[test]
fn bool_elim_reduces_on_false() {
    let globals = core_globals();
    let items = no_items();
    let term = Term::BoolElim(
        rng(0, 9),
        Arc::new(global("false")),
        Arc::new(int_term(1)),
        Arc::new(int_term(2)),
    );
    let value = eval(&globals, &items, &term);
    let back = read_back(&value);
    assert!(term_eq(&back, &int_term(2)));
}

#[test]
fn bool_elim_on_abstract_global_extends_spine() {
    // `x` is an abstract global of type Bool: the eliminator sticks.
    let mut globals = core_globals();
    globals.entries.push((
        String::from("x"),
        GlobalEntry { ty: Arc::new(global("Bool")), term: None },
    ));
    let items = no_items();
    let term = Term::BoolElim(
        rng(0, 9),
        Arc::new(global("x")),
        Arc::new(int_term(1)),
        Arc::new(int_term(2)),
    );
    let value = eval(&globals, &items, &term);
    match &value {
        Value::Neutral(Head::Global(_, name), elims) => {
            assert_eq!(name.as_str(), "x");
            assert_eq!(elims.len(), 1);
            assert!(matches!(elims[0], Elim::Bool(_, _, _)));
        }
        other => panic!("expected a neutral value, got {:?}", other),
    }
}

#[test]
fn int_elim_dispatches_on_matching_key() {
    let globals = core_globals();
    let items = no_items();
    let mut branches: Branches = Vec::new();
    branches.push((IntValue::from_u64(1), int_term(10)));
    branches.push((IntValue::from_u64(3), int_term(30)));
    let term = Term::IntElim(
        rng(0, 9),
        Arc::new(int_term(3)),
        Arc::new(branches),
        Arc::new(int_term(99)),
    );
    let value = eval(&globals, &items, &term);
    assert!(term_eq(&read_back(&value), &int_term(30)));
}

#[test]
fn int_elim_falls_back_to_default() {
    let globals = core_globals();
    let items = no_items();
    let mut branches: Branches = Vec::new();
    branches.push((IntValue::from_u64(1), int_term(10)));
    branches.push((IntValue::from_u64(3), int_term(30)));
    let term = Term::IntElim(
        rng(0, 9),
        Arc::new(int_term(2)),
        Arc::new(branches),
        Arc::new(int_term(99)),
    );
    let value = eval(&globals, &items, &term);
    assert!(term_eq(&read_back(&value), &int_term(99)));
}

#[test]
fn int_elim_with_no_branches_evaluates_to_default() {
    let globals = core_globals();
    let items = no_items();
    let term = Term::IntElim(
        rng(0, 9),
        Arc::new(int_term(7)),
        Arc::new(Vec::new()),
        Arc::new(int_term(42)),
    );
    let value = eval(&globals, &items, &term);
    assert!(term_eq(&read_back(&value), &int_term(42)));
}

#[test]
fn alias_items_evaluate_to_their_bodies() {
    let globals = core_globals();
    let mut items = no_items();
    items.push(Item::Alias(fathom::term::Alias {
        range: rng(0, 5),
        name: String::from("three"),
        doc: Vec::new(),
        ty: None,
        term: Arc::new(int_term(3)),
    }));
    let term = Term::Item(rng(6, 11), String::from("three"));
    let value = eval(&globals, &items, &term);
    assert!(term_eq(&read_back(&value), &int_term(3)));
}

#[test]
fn unbound_references_evaluate_to_errors() {
    let globals = core_globals();
    let items = no_items();
    let value = eval(&globals, &items, &Term::Global(rng(3, 8), String::from("missing")));
    assert!(matches!(value, Value::Error(_)));
    let value = eval(&globals, &items, &Term::Item(rng(3, 8), String::from("missing")));
    assert!(matches!(value, Value::Error(_)));
}

#[test]
fn error_is_equal_to_everything() {
    let globals = core_globals();
    let items = no_items();
    let err = Value::Error(rng(0, 1));
    let one = eval(&globals, &items, &int_term(1));
    assert!(equal(&err, &one));
    assert!(equal(&one, &err));
    assert!(equal(&err, &err));
}

#[test]
fn float_constants_compare_by_bit_pattern() {
    // -0.0 and 0.0 have distinct bit patterns; a NaN equals itself.
    let minus_zero = Value::Constant(rng(0, 1), Constant::F32(0x8000_0000));
    let plus_zero = Value::Constant(rng(0, 1), Constant::F32(0));
    let nan = Value::Constant(rng(0, 1), Constant::F64(0x7FF8_0000_0000_0001));
    assert!(!equal(&minus_zero, &plus_zero));
    assert!(equal(&nan, &nan));
    assert!(equal(&minus_zero, &minus_zero));
}

#[test]
fn equality_is_reflexive_and_symmetric_on_samples() {
    let globals = core_globals();
    let items = no_items();
    let samples = vec![
        eval(&globals, &items, &global("U8")),
        eval(&globals, &items, &int_term(5)),
        eval(
            &globals,
            &items,
            &Term::FunctionType(rng(0, 5), Arc::new(global("U8")), Arc::new(global("Bool"))),
        ),
        Value::Error(rng(0, 1)),
    ];
    for a in &samples {
        assert!(equal(a, a));
        for b in &samples {
            assert_eq!(equal(a, b), equal(b, a));
        }
    }
}

#[test]
fn normalization_is_idempotent_on_samples() {
    let globals = core_globals();
    let items = no_items();
    let mut branches: Branches = Vec::new();
    branches.push((IntValue::from_u64(1), int_term(10)));
    let samples = vec![
        global("U8"),
        int_term(7),
        Term::Ann(rng(0, 3), Arc::new(int_term(7)), Arc::new(global("Int"))),
        Term::BoolElim(
            rng(0, 9),
            Arc::new(global("true")),
            Arc::new(int_term(1)),
            Arc::new(int_term(2)),
        ),
        Term::IntElim(
            rng(0, 9),
            Arc::new(int_term(1)),
            Arc::new(branches),
            Arc::new(int_term(99)),
        ),
        Term::FunctionType(rng(0, 5), Arc::new(global("U8")), Arc::new(global("Bool"))),
        Term::Error(rng(0, 2)),
    ];
    for t in &samples {
        let once = normalize(&globals, &items, t);
        let twice = normalize(&globals, &items, &once);
        assert!(term_eq(&once, &twice));
    }
}

#[test]
fn function_elim_extends_neutral_spines() {
    let globals = core_globals();
    let items = no_items();
    let term = Term::FunctionElim(rng(0, 9), Arc::new(global("U8")), Arc::new(int_term(1)));
    let value = eval(&globals, &items, &term);
    match &value {
        Value::Neutral(Head::Global(_, name), elims) => {
            assert_eq!(name.as_str(), "U8");
            assert_eq!(elims.len(), 1);
            assert!(matches!(elims[0], Elim::Function(_, _)));
        }
        other => panic!("expected a neutral value, got {:?}", other),
    }
}

#[test]
fn function_elim_on_non_neutral_is_an_error() {
    let globals = core_globals();
    let items = no_items();
    let term = Term::FunctionElim(rng(0, 9), Arc::new(int_term(1)), Arc::new(int_term(2)));
    let value = eval(&globals, &items, &term);
    assert!(matches!(value, Value::Error(_)));
}

#[test]
fn struct_items_evaluate_to_neutral_references() {
    let globals = core_globals();
    let mut items = no_items();
    items.push(Item::Struct(fathom::term::StructType {
        range: rng(0, 5),
        name: String::from("Byte"),
        doc: Vec::new(),
        fields: Vec::new(),
    }));
    let term = Term::Item(rng(6, 11), String::from("Byte"));
    let value = eval(&globals, &items, &term);
    match &value {
        Value::Neutral(Head::Item(_, name), elims) => {
            assert_eq!(name.as_str(), "Byte");
            assert_eq!(elims.len(), 0);
        }
        other => panic!("expected a neutral item reference, got {:?}", other),
    }
}
