//! Tests of the whole pipeline: surface module, elaboration, lowering, and
//! emission of target source text.

use fathom::elaborate::{core_globals, Context, MessageKind};
use fathom::emit::emit_module;
use fathom::integer::IntValue;
use fathom::lower::compile_module;
use fathom::surface::{SField, SItem, SModule, STerm};
use fathom::Range;

fn rng(start: usize, end: usize) -> Range {
    Range { start, end }
}

fn name(start: usize, n: &str) -> STerm {
    STerm::Name(rng(start, start + n.len()), String::from(n))
}

fn check_module(module: &SModule) -> (fathom::term::Module, Vec<fathom::elaborate::Message>) {
    let mut ctx = Context::new(core_globals());
    let checked = ctx.check_module(module);
    let messages = ctx.drain_messages();
    (checked, messages)
}

fn emit_text(module: &SModule) -> String {
    let (checked, messages) = check_module(module);
    assert!(messages.is_empty(), "unexpected diagnostics: {:?}", messages);
    let globals = core_globals();
    let target = compile_module(&globals, &checked);
    let mut out = String::new();
    emit_module(&mut out, &target);
    out
}

#[test]
fn singleton_struct_emits_a_field_and_a_reader() {
    // struct Byte { inner: U8 }
    let module = SModule {
        doc: Vec::new(),
        items: vec![SItem::Struct {
            range: rng(0, 30),
            name: String::from("Byte"),
            doc: Vec::new(),
            fields: vec![SField {
                range: rng(14, 25),
                name: String::from("inner"),
                doc: Vec::new(),
                term: name(22, "U8"),
            }],
        }],
    };
    let out = emit_text(&module);
    assert!(out.contains("pub struct Byte {"));
    assert!(out.contains("    pub inner: u8,"));
    assert!(out.contains("impl ddl_rt::Binary for Byte {\n    type Host = Byte;\n}"));
    assert!(out.contains("        let inner = ctxt.read::<ddl_rt::U8>()?;"));
    assert!(out.contains("        Ok(Byte {\n            inner,\n        })"));
}

#[test]
fn empty_struct_emits_a_trivial_reader() {
    let module = SModule {
        doc: Vec::new(),
        items: vec![SItem::Struct {
            range: rng(0, 16),
            name: String::from("Empty"),
            doc: Vec::new(),
            fields: Vec::new(),
        }],
    };
    let out = emit_text(&module);
    assert!(out.contains("pub struct Empty {}"));
    assert!(out.contains("Ok(Empty {})"));
}

#[test]
fn emitted_output_is_identical_across_runs() {
    let module = SModule {
        doc: vec![String::from(" A module of one byte.")],
        items: vec![SItem::Struct {
            range: rng(0, 30),
            name: String::from("Byte"),
            doc: Vec::new(),
            fields: vec![SField {
                range: rng(14, 25),
                name: String::from("inner"),
                doc: Vec::new(),
                term: name(22, "U8"),
            }],
        }],
    };
    let first = emit_text(&module);
    let second = emit_text(&module);
    assert_eq!(first, second);
    assert!(first.starts_with("// This file is automatically @generated by fathom 0.1.0\n"));
}

#[test]
fn conditional_format_lowers_to_a_conditional_reader() {
    // alias flag : Bool = true;
    // struct Sample { data: if flag then U32Le else U32Be }
    let module = SModule {
        doc: Vec::new(),
        items: vec![
            SItem::Alias {
                range: rng(0, 19),
                name: String::from("flag"),
                doc: Vec::new(),
                ty: Some(Box::new(name(13, "Bool"))),
                term: Box::new(STerm::BooleanLiteral(rng(20, 24), true)),
            },
            SItem::Struct {
                range: rng(26, 80),
                name: String::from("Sample"),
                doc: Vec::new(),
                fields: vec![SField {
                    range: rng(42, 78),
                    name: String::from("data"),
                    doc: Vec::new(),
                    term: STerm::If(
                        rng(50, 78),
                        Box::new(name(53, "flag")),
                        Box::new(name(60, "U32Le")),
                        Box::new(name(70, "U32Be")),
                    ),
                }],
            },
        ],
    };
    let out = emit_text(&module);
    assert!(out.contains("pub const flag: bool = true;"));
    assert!(out.contains("pub data: ddl_rt::If<u32, u32>,"));
    assert!(out.contains(
        "let data = if flag {ctxt.read::<ddl_rt::U32Le>()?} else {ctxt.read::<ddl_rt::U32Be>()?};"
    ));
}

#[test]
fn alias_of_a_format_emits_a_type_synonym() {
    // alias byte = U8;   -- the alias's type is synthesized
    let module = SModule {
        doc: Vec::new(),
        items: vec![SItem::Alias {
            range: rng(0, 16),
            name: String::from("byte"),
            doc: Vec::new(),
            ty: None,
            term: Box::new(name(14, "U8")),
        }],
    };
    let out = emit_text(&module);
    assert!(out.contains("pub type byte = u8;"));
}

#[test]
fn integer_constants_lower_with_their_host_suffix() {
    // alias limit : U16Le = 500;
    let module = SModule {
        doc: Vec::new(),
        items: vec![SItem::Alias {
            range: rng(0, 26),
            name: String::from("limit"),
            doc: Vec::new(),
            ty: Some(Box::new(name(14, "U16Le"))),
            term: Box::new(STerm::NumberLiteral(rng(22, 25), IntValue::from_u64(500))),
        }],
    };
    let out = emit_text(&module);
    assert!(out.contains("pub const limit: u16 = 500u16;"));
}

#[test]
fn duplicate_match_keys_are_reported_once_at_the_second_arm() {
    // alias pick : U8 = match 1 { 3 => 7, 3 => 8, _ => 9 };
    let module = SModule {
        doc: Vec::new(),
        items: vec![SItem::Alias {
            range: rng(0, 54),
            name: String::from("pick"),
            doc: Vec::new(),
            ty: Some(Box::new(name(13, "U8"))),
            term: Box::new(STerm::Match(
                rng(18, 53),
                Box::new(STerm::NumberLiteral(rng(24, 25), IntValue::from_u64(1))),
                vec![
                    (rng(28, 34), IntValue::from_u64(3), STerm::NumberLiteral(rng(33, 34), IntValue::from_u64(7))),
                    (rng(36, 42), IntValue::from_u64(3), STerm::NumberLiteral(rng(41, 42), IntValue::from_u64(8))),
                ],
                Box::new(STerm::NumberLiteral(rng(49, 50), IntValue::from_u64(9))),
            )),
        }],
    };
    let (checked, messages) = check_module(&module);
    let dups: Vec<_> = messages
        .iter()
        .filter(|m| m.kind == MessageKind::DuplicateIntBranch)
        .collect();
    assert_eq!(dups.len(), 1);
    assert_eq!(dups[0].range, rng(36, 42));
    // the offending item's body elaborates to the error placeholder
    match &checked.items[0] {
        fathom::term::Item::Alias(a) => {
            assert!(matches!(&*a.term, fathom::term::Term::Error(_)));
        }
        other => panic!("expected an alias item, got {:?}", other),
    }
}

#[test]
fn out_of_range_literal_is_a_mismatch() {
    // alias big : U8 = 256;
    let module = SModule {
        doc: Vec::new(),
        items: vec![SItem::Alias {
            range: rng(0, 21),
            name: String::from("big"),
            doc: Vec::new(),
            ty: Some(Box::new(name(12, "U8"))),
            term: Box::new(STerm::NumberLiteral(rng(17, 20), IntValue::from_u64(256))),
        }],
    };
    let (_checked, messages) = check_module(&module);
    assert!(messages.iter().any(|m| m.kind == MessageKind::MismatchedType));
}

#[test]
fn unbound_names_are_reported() {
    let module = SModule {
        doc: Vec::new(),
        items: vec![SItem::Alias {
            range: rng(0, 14),
            name: String::from("bad"),
            doc: Vec::new(),
            ty: None,
            term: Box::new(name(12, "ghost")),
        }],
    };
    let (_checked, messages) = check_module(&module);
    assert!(messages.iter().any(|m| m.kind == MessageKind::UnboundName));
}

#[test]
fn drained_messages_are_sorted_by_start_offset() {
    let mut ctx = Context::new(core_globals());
    // Two failures, reported in reverse source order inside one module.
    let module = SModule {
        doc: Vec::new(),
        items: vec![
            SItem::Alias {
                range: rng(40, 54),
                name: String::from("late"),
                doc: Vec::new(),
                ty: None,
                term: Box::new(name(52, "ghostly")),
            },
            SItem::Alias {
                range: rng(0, 14),
                name: String::from("early"),
                doc: Vec::new(),
                ty: None,
                term: Box::new(name(12, "phantom")),
            },
        ],
    };
    let _checked = ctx.check_module(&module);
    let messages = ctx.drain_messages();
    assert_eq!(messages.len(), 2);
    for w in messages.windows(2) {
        assert!(w[0].range.start <= w[1].range.start);
    }
}

#[test]
fn arrow_types_synthesize_the_larger_universe() {
    // alias arrow : Type 1 = (Type 0) -> (Type 0)    -- wrapped via Ann
    let mut ctx = Context::new(core_globals());
    let term = STerm::FunctionType(
        rng(0, 20),
        Box::new(STerm::Universe(rng(1, 7), 0)),
        Box::new(STerm::Universe(rng(12, 18), 0)),
    );
    let (core, ty) = ctx.synth(&term);
    let messages = ctx.drain_messages();
    assert!(messages.is_empty());
    assert!(matches!(core, fathom::term::Term::FunctionType(_, _, _)));
    match &*ty {
        fathom::term::Value::Universe(_, level) => assert_eq!(*level, 1),
        other => panic!("expected a universe, got {:?}", other),
    }
}

#[test]
fn boolean_literals_synthesize_the_bool_type() {
    let mut ctx = Context::new(core_globals());
    let (core, ty) = ctx.synth(&STerm::BooleanLiteral(rng(0, 4), true));
    assert!(ctx.drain_messages().is_empty());
    match &core {
        fathom::term::Term::Global(_, n) => assert_eq!(n.as_str(), "true"),
        other => panic!("expected the true global, got {:?}", other),
    }
    match &*ty {
        fathom::term::Value::Neutral(fathom::term::Head::Global(_, n), _) => {
            assert_eq!(n.as_str(), "Bool")
        }
        other => panic!("expected the Bool type, got {:?}", other),
    }
}

#[test]
fn ambiguous_literals_are_reported_in_synthesis_mode() {
    let mut ctx = Context::new(core_globals());
    let (core, _ty) = ctx.synth(&STerm::NumberLiteral(rng(0, 1), IntValue::from_u64(3)));
    let messages = ctx.drain_messages();
    assert!(messages.iter().any(|m| m.kind == MessageKind::AmbiguousLiteral));
    assert!(matches!(core, fathom::term::Term::Error(_)));
}
