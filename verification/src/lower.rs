//! Lowering of a checked core module to the target representation: host
//! types, runtime format descriptors, constants and readers.
//!
//! Lowering of format terms is syntax-directed over the checked core terms,
//! following a fixed table: machine formats map to their host primitives and
//! runtime descriptors, a reference to a sibling item maps to the named host
//! type, a boolean eliminator maps to a conditional format, and anything
//! else maps to the invalid-description sentinel.

use vstd::prelude::*;

use crate::integer::{digits_value, digits_wf, IntValue};
use crate::semantics::{eval, wf_globals, wf_items};
use crate::target::{RtType, Type};
use crate::term::{Constant, Globals, Head, Item, Term, Value};

verus! {

broadcast use vstd::std_specs::vec::group_vec_axioms, vstd::seq::group_seq_axioms;

/// A prefix of a digit sequence denotes at most the whole sequence's value.
pub proof fn lemma_digits_value_prefix(s: Seq<u8>, i: int)
    requires
        forall|j: int| 0 <= j < s.len() ==> s[j] < 10,
        0 <= i <= s.len(),
    ensures
        digits_value(s.take(i)) <= digits_value(s),
    decreases s.len(),
{
    if i < s.len() {
        crate::integer::lemma_digits_value_nonneg(s.drop_last());
        assert(s.take(i) =~= s.drop_last().take(i));
        lemma_digits_value_prefix(s.drop_last(), i);
        assert(digits_value(s) == digits_value(s.drop_last()) * 10 + s.last());
        assert(digits_value(s.drop_last()) * 10 >= digits_value(s.drop_last())) by (nonlinear_arith)
            requires
                digits_value(s.drop_last()) >= 0,
        ;
    } else {
        assert(s.take(i) =~= s);
    }
}

/// Fold a digit sequence into a machine word, reporting whether it fits.
pub fn digits_to_u64(digits: &Vec<u8>) -> (r: Option<u64>)
    requires
        digits_wf(digits@),
    ensures
        r matches Some(n) ==> n as int == digits_value(digits@),
        r is None ==> digits_value(digits@) > u64::MAX,
{
    let mut acc: u64 = 0;
    let mut i: usize = 0;
    while i < digits.len()
        invariant
            digits_wf(digits@),
            0 <= i <= digits@.len(),
            acc as int == digits_value(digits@.take(i as int)),
        decreases digits@.len() - i,
    {
        let d = digits[i];
        proof {
            assert(digits@[i as int] < 10);
        }
        if acc > (u64::MAX - d as u64) / 10 {
            proof {
                assert(digits@.take(i as int + 1).drop_last() =~= digits@.take(i as int));
                assert(digits_value(digits@.take(i as int + 1)) == acc as int * 10 + d);
                assert(acc as int * 10 + d > u64::MAX) by (nonlinear_arith)
                    requires
                        acc as int > (u64::MAX as int - d) / 10,
                        0 <= d < 10,
                        acc as int >= 0,
                ;
                lemma_digits_value_prefix(digits@, i as int + 1);
            }
            return None;
        }
        proof {
            assert(acc as int * 10 + d <= u64::MAX) by (nonlinear_arith)
                requires
                    acc as int <= (u64::MAX as int - d) / 10,
                    0 <= d < 10,
                    acc as int >= 0,
            ;
            assert(digits@.take(i as int + 1).drop_last() =~= digits@.take(i as int));
        }
        acc = acc * 10 + d as u64;
        i += 1;
    }
    proof {
        assert(digits@.take(digits@.len() as int) =~= digits@);
    }
    Some(acc)
}

/// The magnitude-and-sign reading of an integer as an unsigned machine
/// word: defined exactly when the integer is non-negative and fits.
pub fn int_value_to_u64(v: &IntValue) -> (r: Option<u64>)
    requires
        v.wf(),
    ensures
        r matches Some(n) ==> n as int == v.value(),
        r is None ==> v.value() < 0 || v.value() > u64::MAX,
{
    proof {
        crate::integer::lemma_digits_value_nonneg(v.digits@);
    }
    if v.neg {
        return None;
    }
    digits_to_u64(&v.digits)
}

/// The reading of an integer as a signed machine word: defined exactly when
/// the integer fits.
pub fn int_value_to_i64(v: &IntValue) -> (r: Option<i64>)
    requires
        v.wf(),
    ensures
        r matches Some(n) ==> n as int == v.value(),
        r is None ==> v.value() < i64::MIN || v.value() > i64::MAX,
{
    proof {
        crate::integer::lemma_digits_value_nonneg(v.digits@);
    }
    match digits_to_u64(&v.digits) {
        None => None,
        Some(mag) => {
            if v.neg {
                if mag > 9223372036854775808u64 {
                    None
                } else if mag == 9223372036854775808u64 {
                    Some(i64::MIN)
                } else {
                    Some(-(mag as i64))
                }
            } else {
                if mag > i64::MAX as u64 {
                    None
                } else {
                    Some(mag as i64)
                }
            }
        },
    }
}

/// The host primitive and runtime descriptor of a global format name; names
/// that are no machine format map to the invalid-description sentinel, and
/// `Bool` contributes only a host type.
pub open spec fn prim_lowering(n: Seq<char>) -> (Type, Type) {
    if n == "U8"@ {
        (Type::U8, Type::Rt(RtType::U8))
    } else if n == "U16Le"@ {
        (Type::U16, Type::Rt(RtType::U16Le))
    } else if n == "U16Be"@ {
        (Type::U16, Type::Rt(RtType::U16Be))
    } else if n == "U32Le"@ {
        (Type::U32, Type::Rt(RtType::U32Le))
    } else if n == "U32Be"@ {
        (Type::U32, Type::Rt(RtType::U32Be))
    } else if n == "U64Le"@ {
        (Type::U64, Type::Rt(RtType::U64Le))
    } else if n == "U64Be"@ {
        (Type::U64, Type::Rt(RtType::U64Be))
    } else if n == "I8"@ {
        (Type::I8, Type::Rt(RtType::I8))
    } else if n == "I16Le"@ {
        (Type::I16, Type::Rt(RtType::I16Le))
    } else if n == "I16Be"@ {
        (Type::I16, Type::Rt(RtType::I16Be))
    } else if n == "I32Le"@ {
        (Type::I32, Type::Rt(RtType::I32Le))
    } else if n == "I32Be"@ {
        (Type::I32, Type::Rt(RtType::I32Be))
    } else if n == "I64Le"@ {
        (Type::I64, Type::Rt(RtType::I64Le))
    } else if n == "I64Be"@ {
        (Type::I64, Type::Rt(RtType::I64Be))
    } else if n == "F32Le"@ {
        (Type::F32, Type::Rt(RtType::F32Le))
    } else if n == "F32Be"@ {
        (Type::F32, Type::Rt(RtType::F32Be))
    } else if n == "F64Le"@ {
        (Type::F64, Type::Rt(RtType::F64Le))
    } else if n == "F64Be"@ {
        (Type::F64, Type::Rt(RtType::F64Be))
    } else if n == "Bool"@ {
        (Type::Bool, Type::Rt(RtType::InvalidDataDescription))
    } else {
        (
            Type::Rt(RtType::InvalidDataDescription),
            Type::Rt(RtType::InvalidDataDescription),
        )
    }
}

/// The lowering of a condition term to a target constant expression:
/// boolean globals become literals and item references become names.
pub open spec fn cond_rel(t: Term, res: crate::target::Term) -> bool {
    match t {
        Term::Global(_, n) => if n@ == "true"@ {
            res == crate::target::Term::Bool(true)
        } else if n@ == "false"@ {
            res == crate::target::Term::Bool(false)
        } else {
            res matches crate::target::Term::Var(m) && m@ == n@
        },
        Term::Item(_, n) => res matches crate::target::Term::Var(m) && m@ == n@,
        _ => res matches crate::target::Term::Var(m) && m@ == "false"@,
    }
}

/// The host type a format term lowers to, following the fixed table.
pub open spec fn lower_host_rel(t: Term, host: Type) -> bool
    decreases t,
{
    match t {
        Term::Global(_, n) => host == prim_lowering(n@).0,
        Term::Item(_, n) => host matches Type::Var(m) && m@ == n@,
        Term::Ann(_, inner, _) => lower_host_rel(*inner, host),
        Term::BoolElim(_, c, a, b) => host matches Type::If(ch, hl, hr) && cond_rel(*c, *ch)
            && lower_host_rel(*a, *hl) && lower_host_rel(*b, *hr),
        _ => host == Type::Rt(RtType::InvalidDataDescription),
    }
}

/// The runtime format descriptor a format term lowers to, following the
/// fixed table.
pub open spec fn lower_fmt_rel(t: Term, fmt: Type) -> bool
    decreases t,
{
    match t {
        Term::Global(_, n) => fmt == prim_lowering(n@).1,
        Term::Item(_, n) => fmt matches Type::Var(m) && m@ == n@,
        Term::Ann(_, inner, _) => lower_fmt_rel(*inner, fmt),
        Term::BoolElim(_, c, a, b) => fmt matches Type::If(cf, fl, fr) && cond_rel(*c, *cf)
            && lower_fmt_rel(*a, *fl) && lower_fmt_rel(*b, *fr),
        _ => fmt == Type::Rt(RtType::InvalidDataDescription),
    }
}

/// The lowering of a format term to its host type and its runtime format
/// descriptor, following the fixed table.
pub open spec fn lower_format_rel(t: Term, host: Type, fmt: Type) -> bool {
    lower_host_rel(t, host) && lower_fmt_rel(t, fmt)
}

/// Lower a condition term to a target constant expression.
pub fn lower_cond(t: &Term) -> (r: crate::target::Term)
    ensures
        cond_rel(*t, r),
{
    match t {
        Term::Global(_, n) => {
            let tname = crate::semantics::true_name();
            let fname = crate::semantics::false_name();
            if crate::term::string_eq(n, &tname) {
                crate::target::Term::Bool(true)
            } else if crate::term::string_eq(n, &fname) {
                crate::target::Term::Bool(false)
            } else {
                crate::target::Term::Var(n.clone())
            }
        },
        Term::Item(_, n) => crate::target::Term::Var(n.clone()),
        _ => crate::target::Term::Var(crate::semantics::false_name()),
    }
}

/// Lower a format term to its host type and runtime descriptor. Both are
/// usable in a reader position.
pub fn lower_format(t: &Term) -> (r: (Type, Type))
    ensures
        lower_format_rel(*t, r.0, r.1),
        crate::emit::readable_ty(r.1),
    decreases *t,
{
    match t {
        Term::Global(_, n) => lower_prim(n),
        Term::Item(_, n) => (Type::Var(n.clone()), Type::Var(n.clone())),
        Term::Ann(_, inner, _) => lower_format(&**inner),
        Term::BoolElim(_, c, a, b) => {
            let (ha, fa) = lower_format(&**a);
            let (hb, fb) = lower_format(&**b);
            let cond_h = lower_cond(&**c);
            let cond_f = lower_cond(&**c);
            (
                Type::If(Box::new(cond_h), Box::new(ha), Box::new(hb)),
                Type::If(Box::new(cond_f), Box::new(fa), Box::new(fb)),
            )
        },
        _ => (
            Type::Rt(RtType::InvalidDataDescription),
            Type::Rt(RtType::InvalidDataDescription),
        ),
    }
}

/// Lower a global format name to its host primitive and descriptor.
pub fn lower_prim(n: &String) -> (r: (Type, Type))
    ensures
        r == prim_lowering(n@),
        crate::emit::readable_ty(r.1),
{
    if crate::term::string_eq(n, &String::from_str("U8")) {
        (Type::U8, Type::Rt(RtType::U8))
    } else if crate::term::string_eq(n, &String::from_str("U16Le")) {
        (Type::U16, Type::Rt(RtType::U16Le))
    } else if crate::term::string_eq(n, &String::from_str("U16Be")) {
        (Type::U16, Type::Rt(RtType::U16Be))
    } else if crate::term::string_eq(n, &String::from_str("U32Le")) {
        (Type::U32, Type::Rt(RtType::U32Le))
    } else if crate::term::string_eq(n, &String::from_str("U32Be")) {
        (Type::U32, Type::Rt(RtType::U32Be))
    } else if crate::term::string_eq(n, &String::from_str("U64Le")) {
        (Type::U64, Type::Rt(RtType::U64Le))
    } else if crate::term::string_eq(n, &String::from_str("U64Be")) {
        (Type::U64, Type::Rt(RtType::U64Be))
    } else if crate::term::string_eq(n, &String::from_str("I8")) {
        (Type::I8, Type::Rt(RtType::I8))
    } else if crate::term::string_eq(n, &String::from_str("I16Le")) {
        (Type::I16, Type::Rt(RtType::I16Le))
    } else if crate::term::string_eq(n, &String::from_str("I16Be")) {
        (Type::I16, Type::Rt(RtType::I16Be))
    } else if crate::term::string_eq(n, &String::from_str("I32Le")) {
        (Type::I32, Type::Rt(RtType::I32Le))
    } else if crate::term::string_eq(n, &String::from_str("I32Be")) {
        (Type::I32, Type::Rt(RtType::I32Be))
    } else if crate::term::string_eq(n, &String::from_str("I64Le")) {
        (Type::I64, Type::Rt(RtType::I64Le))
    } else if crate::term::string_eq(n, &String::from_str("I64Be")) {
        (Type::I64, Type::Rt(RtType::I64Be))
    } else if crate::term::string_eq(n, &String::from_str("F32Le")) {
        (Type::F32, Type::Rt(RtType::F32Le))
    } else if crate::term::string_eq(n, &String::from_str("F32Be")) {
        (Type::F32, Type::Rt(RtType::F32Be))
    } else if crate::term::string_eq(n, &String::from_str("F64Le")) {
        (Type::F64, Type::Rt(RtType::F64Le))
    } else if crate::term::string_eq(n, &String::from_str("F64Be")) {
        (Type::F64, Type::Rt(RtType::F64Be))
    } else if crate::term::string_eq(n, &String::from_str("Bool")) {
        (Type::Bool, Type::Rt(RtType::InvalidDataDescription))
    } else {
        (
            Type::Rt(RtType::InvalidDataDescription),
            Type::Rt(RtType::InvalidDataDescription),
        )
    }
}

/// Whether a core term requires computation when lowered: it contains a
/// boolean or integer eliminator.
pub open spec fn spec_is_computation(t: Term) -> bool
    decreases t,
{
    match t {
        Term::Ann(_, inner, _) => spec_is_computation(*inner),
        Term::BoolElim(_, _, _, _) => true,
        Term::IntElim(_, _, _, _) => true,
        _ => false,
    }
}

/// Decide whether a lowered alias body requires computation.
pub fn is_computation(t: &Term) -> (r: bool)
    ensures
        r == spec_is_computation(*t),
    decreases *t,
{
    match t {
        Term::Ann(_, inner, _) => is_computation(&**inner),
        Term::BoolElim(_, _, _, _) => true,
        Term::IntElim(_, _, _, _) => true,
        _ => false,
    }
}

/// The lowering of a constant body at a host type.
pub open spec fn lower_term_rel(t: Term, host: Type, res: Option<crate::target::Term>) -> bool
    decreases t,
{
    match t {
        Term::Ann(_, inner, _) => lower_term_rel(*inner, host, res),
        Term::Constant(_, c) => match c {
            Constant::Int(v) => match host {
                Type::U8 => if 0 <= v.value() <= u8::MAX {
                    res matches Some(tt) && tt matches crate::target::Term::U8(n) && n == v.value()
                } else {
                    res is None
                },
                Type::U16 => if 0 <= v.value() <= u16::MAX {
                    res matches Some(tt) && tt matches crate::target::Term::U16(n) && n
                        == v.value()
                } else {
                    res is None
                },
                Type::U32 => if 0 <= v.value() <= u32::MAX {
                    res matches Some(tt) && tt matches crate::target::Term::U32(n) && n
                        == v.value()
                } else {
                    res is None
                },
                Type::U64 => if 0 <= v.value() <= u64::MAX {
                    res matches Some(tt) && tt matches crate::target::Term::U64(n) && n
                        == v.value()
                } else {
                    res is None
                },
                Type::I8 => if i8::MIN <= v.value() <= i8::MAX {
                    res matches Some(tt) && tt matches crate::target::Term::I8(n) && n == v.value()
                } else {
                    res is None
                },
                Type::I16 => if i16::MIN <= v.value() <= i16::MAX {
                    res matches Some(tt) && tt matches crate::target::Term::I16(n) && n
                        == v.value()
                } else {
                    res is None
                },
                Type::I32 => if i32::MIN <= v.value() <= i32::MAX {
                    res matches Some(tt) && tt matches crate::target::Term::I32(n) && n
                        == v.value()
                } else {
                    res is None
                },
                Type::I64 => if i64::MIN <= v.value() <= i64::MAX {
                    res matches Some(tt) && tt matches crate::target::Term::I64(n) && n
                        == v.value()
                } else {
                    res is None
                },
                _ => res is None,
            },
            Constant::F32(bits) => match host {
                Type::F32 => res matches Some(tt) && tt == crate::target::Term::F32(bits),
                _ => res is None,
            },
            Constant::F64(bits) => match host {
                Type::F64 => res matches Some(tt) && tt == crate::target::Term::F64(bits),
                _ => res is None,
            },
        },
        Term::Global(_, n) => if n@ == "true"@ || n@ == "false"@ {
            (host is Bool) ==> (res matches Some(tt) && tt == crate::target::Term::Bool(
                n@ == "true"@,
            ))
        } else {
            res is None
        },
        Term::Item(_, n) => res matches Some(tt) && (tt matches crate::target::Term::Var(m) && m@
            == n@),
        Term::BoolElim(_, c, a, b) => match res {
            Some(tt) => tt matches crate::target::Term::If(ch, tl, tr) && cond_rel(*c, *ch)
                && lower_term_rel(*a, host, Some(*tl)) && lower_term_rel(*b, host, Some(*tr)),
            None => lower_term_rel(*a, host, None) || lower_term_rel(*b, host, None),
        },
        _ => res is None,
    }
}

/// Lower a constant body at a host type; integer constants must fit the
/// host, booleans must be expected as booleans, and bodies that cannot be
/// expressed lower to nothing.
pub fn lower_term(t: &Term, host: &Type) -> (r: Option<crate::target::Term>)
    requires
        crate::semantics::term_ints_wf(*t),
    ensures
        lower_term_rel(*t, *host, r),
    decreases *t,
{
    match t {
        Term::Ann(_, inner, _) => lower_term(&**inner, host),
        Term::Constant(_, c) => match c {
            Constant::Int(v) => {
                match host {
                    Type::U8 => match int_value_to_u64(v) {
                        Some(n) if n <= u8::MAX as u64 => Some(
                            crate::target::Term::U8(n as u8),
                        ),
                        _ => None,
                    },
                    Type::U16 => match int_value_to_u64(v) {
                        Some(n) if n <= u16::MAX as u64 => Some(
                            crate::target::Term::U16(n as u16),
                        ),
                        _ => None,
                    },
                    Type::U32 => match int_value_to_u64(v) {
                        Some(n) if n <= u32::MAX as u64 => Some(
                            crate::target::Term::U32(n as u32),
                        ),
                        _ => None,
                    },
                    Type::U64 => match int_value_to_u64(v) {
                        Some(n) => Some(crate::target::Term::U64(n)),
                        _ => None,
                    },
                    Type::I8 => match int_value_to_i64(v) {
                        Some(n) if i8::MIN as i64 <= n && n <= i8::MAX as i64 => Some(
                            crate::target::Term::I8(n as i8),
                        ),
                        _ => None,
                    },
                    Type::I16 => match int_value_to_i64(v) {
                        Some(n) if i16::MIN as i64 <= n && n <= i16::MAX as i64 => Some(
                            crate::target::Term::I16(n as i16),
                        ),
                        _ => None,
                    },
                    Type::I32 => match int_value_to_i64(v) {
                        Some(n) if i32::MIN as i64 <= n && n <= i32::MAX as i64 => Some(
                            crate::target::Term::I32(n as i32),
                        ),
                        _ => None,
                    },
                    Type::I64 => match int_value_to_i64(v) {
                        Some(n) => Some(crate::target::Term::I64(n)),
                        _ => None,
                    },
                    _ => None,
                }
            },
            Constant::F32(bits) => match host {
                Type::F32 => Some(crate::target::Term::F32(*bits)),
                _ => None,
            },
            Constant::F64(bits) => match host {
                Type::F64 => Some(crate::target::Term::F64(*bits)),
                _ => None,
            },
        },
        Term::Global(_, n) => {
            let tname = crate::semantics::true_name();
            let fname = crate::semantics::false_name();
            if crate::term::string_eq(n, &tname) || crate::term::string_eq(n, &fname) {
                match host {
                    Type::Bool => Some(
                        crate::target::Term::Bool(crate::term::string_eq(n, &tname)),
                    ),
                    _ => {
                        proof {
                            crate::semantics::proof_strlits();
                        }
                        None
                    },
                }
            } else {
                None
            }
        },
        Term::Item(_, n) => Some(crate::target::Term::Var(n.clone())),
        Term::BoolElim(_, c, a, b) => {
            let cond = lower_cond(&**c);
            let ta = lower_term(&**a, host);
            let tb = lower_term(&**b, host);
            match (ta, tb) {
                (Some(tl), Some(tr)) => Some(
                    crate::target::Term::If(Box::new(cond), Box::new(tl), Box::new(tr)),
                ),
                _ => None,
            }
        },
        _ => None,
    }
}

} // verus!

verus! {

/// Every alias body in the table carries canonical integer constants.
pub open spec fn items_ints_wf(items: Seq<Item>) -> bool {
    forall|j: int|
        0 <= j < items.len() ==> match #[trigger] items[j] {
            Item::Alias(a) => crate::semantics::term_ints_wf(*a.term),
            Item::Struct(_) => true,
        }
}

/// Whether a host type may type a lowered constant: a plain machine
/// primitive or `Bool`, never a descriptor, a conditional, or a named type.
pub open spec fn const_host_usable(host: Type) -> bool {
    match host {
        Type::Rt(_) => false,
        Type::If(_, _, _) => false,
        Type::Var(_) => false,
        _ => true,
    }
}

/// What lowering an alias yields, given the value of its declared type: a
/// format- or universe-typed alias becomes a type synonym carrying its
/// body's host type; an alias at a machine primitive or at `Bool` becomes a
/// constant, or a function when its body computes, the body's lowering
/// fixing the emitted term; anything else is skipped.
pub open spec fn alias_lowering(a: crate::term::Alias, tyv: Value, r: Option<crate::target::Item>) -> bool {
    match tyv {
        Value::FormatType(_) => r matches Some(ti) && (ti matches crate::target::Item::Alias(ta)
            && ta.name@ == a.name@ && lower_host_rel(*a.term, ta.ty)),
        Value::Universe(_, _) => r matches Some(ti) && (ti matches crate::target::Item::Alias(ta)
            && ta.name@ == a.name@ && lower_host_rel(*a.term, ta.ty)),
        Value::Neutral(h, es) => {
            if es@.len() == 0 && (h matches Head::Global(_, n) && const_host_usable(
                prim_lowering(n@).0,
            )) {
                h matches Head::Global(_, n) && {
                    let host = prim_lowering(n@).0;
                    match r {
                        Some(ti) => if spec_is_computation(*a.term) {
                            ti matches crate::target::Item::Function(tf) && tf.name@ == a.name@
                                && tf.ty == host && lower_term_rel(*a.term, host, Some(tf.term))
                        } else {
                            ti matches crate::target::Item::Const(tc) && tc.name@ == a.name@
                                && tc.ty == host && lower_term_rel(*a.term, host, Some(tc.term))
                        },
                        None => lower_term_rel(*a.term, host, None),
                    }
                }
            } else {
                r is None
            }
        },
        _ => r is None,
    }
}

/// Everything `lower_item` promises of one item and its lowering.
pub open spec fn lowered_of(g: Globals, items: Seq<Item>, it: Item, r: Option<
    crate::target::Item,
>) -> bool {
    &&& (r matches Some(ti) ==> crate::emit::item_readable(ti))
    &&& (it matches Item::Struct(s) ==> (r matches Some(ti) && (
    ti matches crate::target::Item::Struct(ts) && ts.name@ == s.name@ && ts.derives@.len() == 0
        && ts.fields@.len() == s.fields@.len() && (forall|i: int|
        0 <= i < s.fields@.len() ==> {
            &&& (#[trigger] ts.fields@[i]).name@ == s.fields@[i].name@
            &&& lower_format_rel(
                *s.fields@[i].term,
                ts.fields@[i].host_ty,
                ts.fields@[i].format_ty,
            )
        }))))
    &&& (it matches Item::Alias(a) ==> (match a.ty {
        None => r is None,
        Some(ty) => exists|tyv: Value|
            #[trigger] crate::semantics::head_val_mark(tyv) && crate::semantics::eval_rel(
                g,
                items,
                *ty,
                tyv,
            ) && alias_lowering(a, tyv, r),
    }))
}

/// The items the `Some` entries of a lowering sequence carry, in order.
pub open spec fn flatten_lowered(rs: Seq<Option<crate::target::Item>>) -> Seq<
    crate::target::Item,
>
    decreases rs.len(),
{
    if rs.len() == 0 {
        Seq::empty()
    } else {
        flatten_lowered(rs.drop_last()) + (match rs.last() {
            Some(x) => seq![x],
            None => Seq::<crate::target::Item>::empty(),
        })
    }
}

/// Lower one checked item to a target item, or nothing where the item
/// cannot be expressed: a struct becomes a struct with its fields' host
/// types and readers, an alias of a format or of a type becomes a type
/// synonym, and an alias at a machine format or at `Bool` becomes a
/// constant, or a function when its body computes.
pub fn lower_item(globals: &Globals, items: &Vec<Item>, item: &Item) -> (r: Option<
    crate::target::Item,
>)
    requires
        wf_globals(*globals),
        wf_items(items@),
        item matches Item::Alias(a) ==> crate::semantics::term_ints_wf(*a.term),
    ensures
        lowered_of(*globals, items@, *item, r),
{
    match item {
        Item::Struct(s) => {
            let mut out_fields: Vec<crate::target::TypeField> = Vec::new();
            let mut i: usize = 0;
            while i < s.fields.len()
                invariant
                    0 <= i <= s.fields@.len(),
                    out_fields@.len() == i,
                    forall|q: int|
                        0 <= q < i ==> {
                            &&& (#[trigger] out_fields@[q]).name@ == s.fields@[q].name@
                            &&& lower_format_rel(
                                *s.fields@[q].term,
                                out_fields@[q].host_ty,
                                out_fields@[q].format_ty,
                            )
                            &&& crate::emit::readable_ty(out_fields@[q].format_ty)
                        },
                decreases s.fields@.len() - i,
            {
                let fld = &s.fields[i];
                let (host, fmt) = lower_format(&*fld.term);
                out_fields.push(
                    crate::target::TypeField {
                        name: fld.name.clone(),
                        doc: crate::elaborate::clone_strings(&fld.doc),
                        host_ty: host,
                        format_ty: fmt,
                    },
                );
                i += 1;
            }
            Some(
                crate::target::Item::Struct(
                    crate::target::StructType {
                        name: s.name.clone(),
                        doc: crate::elaborate::clone_strings(&s.doc),
                        derives: Vec::new(),
                        fields: out_fields,
                    },
                ),
            )
        },
        Item::Alias(a) => {
            let tyv = match &a.ty {
                Some(t) => eval(globals, items, &**t),
                None => {
                    return None;
                },
            };
            let res: Option<crate::target::Item> = match &tyv {
                Value::FormatType(_) => {
                    let (host, _) = lower_format(&*a.term);
                    Some(
                        crate::target::Item::Alias(
                            crate::target::Alias {
                                name: a.name.clone(),
                                doc: crate::elaborate::clone_strings(&a.doc),
                                ty: host,
                            },
                        ),
                    )
                },
                Value::Universe(_, _) => {
                    let (host, _) = lower_format(&*a.term);
                    Some(
                        crate::target::Item::Alias(
                            crate::target::Alias {
                                name: a.name.clone(),
                                doc: crate::elaborate::clone_strings(&a.doc),
                                ty: host,
                            },
                        ),
                    )
                },
                Value::Neutral(Head::Global(_, n), es) => {
                    if es.len() != 0 {
                        None
                    } else {
                        let (host, _) = lower_prim(n);
                        let usable = match &host {
                            Type::Rt(_) => false,
                            Type::If(_, _, _) => false,
                            Type::Var(_) => false,
                            _ => true,
                        };
                        if !usable {
                            None
                        } else {
                            match lower_term(&*a.term, &host) {
                                Some(tt) => {
                                    if is_computation(&*a.term) {
                                        Some(
                                            crate::target::Item::Function(
                                                crate::target::Function {
                                                    name: a.name.clone(),
                                                    doc: crate::elaborate::clone_strings(&a.doc),
                                                    is_const: true,
                                                    ty: host,
                                                    term: tt,
                                                },
                                            ),
                                        )
                                    } else {
                                        Some(
                                            crate::target::Item::Const(
                                                crate::target::Const {
                                                    name: a.name.clone(),
                                                    doc: crate::elaborate::clone_strings(&a.doc),
                                                    ty: host,
                                                    term: tt,
                                                },
                                            ),
                                        )
                                    }
                                },
                                None => None,
                            }
                        }
                    }
                },
                _ => None,
            };
            proof {
                assert(crate::semantics::head_val_mark(tyv));
                if let Some(t) = &a.ty {
                    assert(crate::semantics::eval_rel(*globals, items@, **t, tyv));
                }
                assert(alias_lowering(*a, tyv, res));
            }
            res
        },
    }
}

/// Lower a checked module to a target module: the doc lines are kept, and
/// the items are, in source order, exactly what `lower_item` yields of each
/// checked item, with the inexpressible ones skipped. Every emitted reader
/// position is readable, so the result can be serialized.
pub fn compile_module(globals: &Globals, module: &crate::term::Module) -> (r:
    crate::target::Module)
    requires
        wf_globals(*globals),
        wf_items(module.items@),
        items_ints_wf(module.items@),
    ensures
        r.doc@.len() == module.doc@.len(),
        forall|i: int| 0 <= i < module.doc@.len() ==> (#[trigger] r.doc@[i])@ == module.doc@[i]@,
        exists|rs: Seq<Option<crate::target::Item>>|
            {
                &&& #[trigger] flatten_lowered(rs) == r.items@
                &&& rs.len() == module.items@.len()
                &&& forall|i: int|
                    0 <= i < rs.len() ==> lowered_of(
                        *globals,
                        module.items@,
                        module.items@[i],
                        #[trigger] rs[i],
                    )
            },
        forall|i: int|
            0 <= i < r.items@.len() ==> crate::emit::item_readable(#[trigger] r.items@[i]),
{
    let mut out_items: Vec<crate::target::Item> = Vec::new();
    let ghost mut rs: Seq<Option<crate::target::Item>> = Seq::empty();
    proof {
        assert(flatten_lowered(rs) =~= out_items@);
    }
    let mut i: usize = 0;
    while i < module.items.len()
        invariant
            wf_globals(*globals),
            wf_items(module.items@),
            items_ints_wf(module.items@),
            0 <= i <= module.items@.len(),
            rs.len() == i,
            forall|q: int|
                0 <= q < rs.len() ==> lowered_of(
                    *globals,
                    module.items@,
                    module.items@[q],
                    #[trigger] rs[q],
                ),
            out_items@ == flatten_lowered(rs),
            forall|q: int|
                0 <= q < out_items@.len() ==> crate::emit::item_readable(
                    #[trigger] out_items@[q],
                ),
        decreases module.items@.len() - i,
    {
        proof {
            assert(items_ints_wf(module.items@));
            assert(module.items@[i as int] matches Item::Alias(a)
                ==> crate::semantics::term_ints_wf(*a.term));
        }
        let res = lower_item(globals, &module.items, &module.items[i]);
        let ghost gres = res;
        match res {
            Some(ti) => {
                out_items.push(ti);
            },
            None => {
            },
        }
        i += 1;
        proof {
            let rs_old = rs;
            rs = rs.push(gres);
            assert(rs.drop_last() =~= rs_old);
            assert(rs.last() == gres);
            assert(out_items@ =~= flatten_lowered(rs));
        }
    }
    let r = crate::target::Module {
        doc: crate::elaborate::clone_strings(&module.doc),
        items: out_items,
    };
    proof {
        assert(flatten_lowered(rs) == r.items@);
        assert(rs.len() == module.items@.len());
    }
    r
}

} // verus!
