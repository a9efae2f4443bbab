//! Tests of the target emitter and the integer machinery it rests on.

use fathom::emit::{emit_i64, emit_module, emit_term, emit_ty, emit_u64};
use fathom::integer::IntValue;
use fathom::target::{Alias, Const, Function, Item, Module, RtType, StructType, Term, Type,
    TypeField};

fn text_of_term(t: &Term) -> String {
    let mut out = String::new();
    emit_term(&mut out, t);
    out
}

fn text_of_ty(t: &Type) -> String {
    let mut out = String::new();
    emit_ty(&mut out, t);
    out
}

#[test]
fn decimal_text_of_machine_integers() {
    let mut out = String::new();
    emit_u64(&mut out, 0);
    assert_eq!(out, "0");
    let mut out = String::new();
    emit_u64(&mut out, 18446744073709551615);
    assert_eq!(out, "18446744073709551615");
    let mut out = String::new();
    emit_i64(&mut out, -123);
    assert_eq!(out, "-123");
    let mut out = String::new();
    emit_i64(&mut out, i64::MIN);
    assert_eq!(out, "-9223372036854775808");
}

#[test]
fn terms_emit_with_type_suffixes() {
    assert_eq!(text_of_term(&Term::U8(7)), "7u8");
    assert_eq!(text_of_term(&Term::I32(-5)), "-5i32");
    assert_eq!(text_of_term(&Term::Bool(true)), "true");
    assert_eq!(text_of_term(&Term::F32(1069547520)), "f32::from_bits(1069547520u32)");
    let cond = Term::If(
        Box::new(Term::Var(String::from("flag"))),
        Box::new(Term::U8(1)),
        Box::new(Term::U8(2)),
    );
    assert_eq!(text_of_term(&cond), "if flag { 1u8 } else { 2u8 }");
    assert_eq!(
        text_of_term(&Term::Call(Box::new(Term::Var(String::from("f"))))),
        "f()"
    );
}

#[test]
fn types_emit_with_runtime_paths() {
    assert_eq!(text_of_ty(&Type::U16), "u16");
    assert_eq!(text_of_ty(&Type::Rt(RtType::U16Be)), "ddl_rt::U16Be");
    let cond = Type::If(
        Box::new(Term::Var(String::from("flag"))),
        Box::new(Type::U32),
        Box::new(Type::U32),
    );
    assert_eq!(text_of_ty(&cond), "ddl_rt::If<u32, u32>");
}

#[test]
fn modules_emit_their_items_in_order() {
    let module = Module {
        doc: vec![String::from(" Sample layout.")],
        items: vec![
            Item::Const(Const {
                name: String::from("limit"),
                doc: Vec::new(),
                ty: Type::U16,
                term: Term::U16(500),
            }),
            Item::Function(Function {
                name: String::from("pick"),
                doc: Vec::new(),
                is_const: true,
                ty: Type::U8,
                term: Term::If(
                    Box::new(Term::Bool(true)),
                    Box::new(Term::U8(1)),
                    Box::new(Term::U8(2)),
                ),
            }),
            Item::Alias(Alias {
                name: String::from("byte"),
                doc: Vec::new(),
                ty: Type::U8,
            }),
            Item::Struct(StructType {
                name: String::from("Pair"),
                doc: Vec::new(),
                derives: vec![String::from("Copy"), String::from("Clone")],
                fields: vec![
                    TypeField {
                        name: String::from("first"),
                        doc: Vec::new(),
                        host_ty: Type::U8,
                        format_ty: Type::Rt(RtType::U8),
                    },
                    TypeField {
                        name: String::from("second"),
                        doc: Vec::new(),
                        host_ty: Type::U16,
                        format_ty: Type::Rt(RtType::U16Le),
                    },
                ],
            }),
        ],
    };
    let mut out = String::new();
    emit_module(&mut out, &module);
    assert!(out.starts_with(
        "// This file is automatically @generated by fathom 0.1.0\n// It is not intended for manual editing.\n\n//! Sample layout.\n"
    ));
    assert!(out.contains("pub const limit: u16 = 500u16;"));
    assert!(out.contains("pub const fn pick() -> u8 {\n    if true { 1u8 } else { 2u8 }\n}"));
    assert!(out.contains("pub type byte = u8;"));
    assert!(out.contains("#[derive(Copy, Clone)]\npub struct Pair {"));
    assert!(out.contains("        let first = ctxt.read::<ddl_rt::U8>()?;"));
    assert!(out.contains("        let second = ctxt.read::<ddl_rt::U16Le>()?;"));
    let limit_at = out.find("pub const limit").unwrap();
    let pair_at = out.find("pub struct Pair").unwrap();
    assert!(limit_at < pair_at);
}

#[test]
fn integer_values_compare_numerically() {
    let three = IntValue::from_u64(3);
    let thirty = IntValue::from_u64(30);
    let minus_three = IntValue::neg_from_u64(3);
    assert!(three.lt_value(&thirty));
    assert!(!thirty.lt_value(&three));
    assert!(minus_three.lt_value(&three));
    assert!(three.eq_value(&IntValue::from_u64(3)));
    assert!(!three.eq_value(&thirty));
    assert!(!minus_three.eq_value(&three));
}

#[test]
fn reserved_words_are_quoted_in_identifier_positions() {
    let module = Module {
        doc: Vec::new(),
        items: vec![
            Item::Alias(Alias {
                name: String::from("type"),
                doc: Vec::new(),
                ty: Type::U8,
            }),
            Item::Struct(StructType {
                name: String::from("match"),
                doc: Vec::new(),
                derives: Vec::new(),
                fields: vec![TypeField {
                    name: String::from("loop"),
                    doc: Vec::new(),
                    host_ty: Type::U8,
                    format_ty: Type::Rt(RtType::U8),
                }],
            }),
        ],
    };
    let mut out = String::new();
    emit_module(&mut out, &module);
    assert!(out.contains("pub type r#type = u8;"));
    assert!(out.contains("pub struct r#match {"));
    assert!(out.contains("    pub r#loop: u8,"));
    assert!(out.contains("        let r#loop = ctxt.read::<ddl_rt::U8>()?;"));
    assert!(out.contains("impl ddl_rt::Binary for r#match {\n    type Host = r#match;\n}"));
}

#[test]
fn ordinary_names_are_not_quoted() {
    let mut out = String::new();
    emit_term(&mut out, &Term::Var(String::from("flag")));
    assert_eq!(out, "flag");
    let mut out = String::new();
    emit_term(&mut out, &Term::Var(String::from("r")));
    assert_eq!(out, "r");
}
