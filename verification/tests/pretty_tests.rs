//! Tests of the document model and the core pretty printer.

use std::sync::Arc;

use fathom::core_to_pretty::{from_constant, from_module, from_term, from_term_prec, paren, Prec};
use fathom::integer::IntValue;
use fathom::pretty::{render, Doc, ToDoc};
use fathom::term::{Alias, Branches, Constant, Item, Module, StructType, Term, TypeField};
use fathom::Range;

fn rng(start: usize, end: usize) -> Range {
    Range { start, end }
}

fn global(name: &str) -> Term {
    Term::Global(rng(0, 0), String::from(name))
}

fn int_term(n: u64) -> Term {
    Term::Constant(rng(0, 0), Constant::Int(IntValue::from_u64(n)))
}

#[test]
fn terms_print_with_their_keywords() {
    assert_eq!(render(&from_term(&global("U8"))), "global U8");
    assert_eq!(render(&from_term(&Term::Item(rng(0, 3), String::from("Byte")))), "item Byte");
    assert_eq!(render(&from_term(&Term::Universe(rng(0, 4), 0))), "Type");
    assert_eq!(render(&from_term(&Term::Universe(rng(0, 6), 2))), "Type 2");
    assert_eq!(render(&from_term(&Term::FormatType(rng(0, 6)))), "Format");
    assert_eq!(render(&from_term(&Term::Error(rng(0, 1)))), "!");
}

#[test]
fn constants_print_with_their_kind() {
    assert_eq!(render(&from_constant(&Constant::Int(IntValue::from_u64(42)))), "int 42");
    assert_eq!(
        render(&from_constant(&Constant::Int(IntValue::neg_from_u64(7)))),
        "int -7"
    );
    assert_eq!(render(&from_constant(&Constant::F32(5))), "f32 bits 5");
    assert_eq!(render(&from_constant(&Constant::F64(9))), "f64 bits 9");
}

#[test]
fn arrows_and_applications_parenthesize_by_precedence() {
    let arrow = Term::FunctionType(rng(0, 9), Arc::new(global("U8")), Arc::new(global("Bool")));
    assert_eq!(render(&from_term(&arrow)), "global U8 -> global Bool");
    // In an atomic position the arrow takes parentheses.
    assert_eq!(
        render(&from_term_prec(&arrow, Prec::Atomic)),
        "(global U8 -> global Bool)"
    );
    let app = Term::FunctionElim(rng(0, 9), Arc::new(global("f")), Arc::new(global("x")));
    assert_eq!(render(&from_term(&app)), "global f global x");
    assert_eq!(render(&from_term_prec(&app, Prec::Atomic)), "(global f global x)");
}

#[test]
fn eliminators_print_their_branches_in_storage_order() {
    let ife = Term::BoolElim(
        rng(0, 9),
        Arc::new(global("true")),
        Arc::new(int_term(1)),
        Arc::new(int_term(2)),
    );
    assert_eq!(render(&from_term(&ife)), "bool_elim global true { int 1, int 2 }");
    let mut branches: Branches = Vec::new();
    branches.push((IntValue::from_u64(1), int_term(10)));
    branches.push((IntValue::from_u64(3), int_term(30)));
    let m = Term::IntElim(
        rng(0, 9),
        Arc::new(int_term(1)),
        Arc::new(branches),
        Arc::new(int_term(99)),
    );
    assert_eq!(
        render(&from_term(&m)),
        "int_elim int 1 { 1 => int 10, 3 => int 30, int 99 }"
    );
}

#[test]
fn modules_print_their_items_with_struct_fields_indented() {
    let module = Module {
        doc: vec![String::from(" One byte.")],
        items: vec![
            Item::Alias(Alias {
                range: rng(0, 10),
                name: String::from("byte"),
                doc: Vec::new(),
                ty: None,
                term: Arc::new(global("U8")),
            }),
            Item::Struct(StructType {
                range: rng(12, 40),
                name: String::from("Byte"),
                doc: Vec::new(),
                fields: vec![TypeField {
                    range: rng(26, 37),
                    name: String::from("inner"),
                    doc: Vec::new(),
                    term: Arc::new(global("U8")),
                }],
            }),
        ],
    };
    let out = render(&from_module(&module));
    assert_eq!(
        out,
        "//! One byte.\n\nbyte = global U8;\n\nstruct Byte {\n    inner : global U8,\n}\n"
    );
}

#[test]
fn paren_wraps_only_when_asked() {
    let doc = Doc::text("x");
    assert_eq!(render(&paren(false, doc)), "x");
    let doc = Doc::text("x");
    assert_eq!(render(&paren(true, doc)), "(x)");
}

#[test]
fn documents_nest_their_line_breaks() {
    let doc = Doc::text("a").append(
        Doc::hardline().append(Doc::text("b")).nest(4),
    ).append(Doc::hardline()).append(Doc::text("c"));
    assert_eq!(render(&doc), "a\n    b\nc");
}

#[test]
fn terms_convert_to_documents() {
    let t = global("U8");
    assert_eq!(render(&t.to_doc()), "global U8");
    let c = Constant::Int(IntValue::from_u64(3));
    assert_eq!(render(&c.to_doc()), "int 3");
}
