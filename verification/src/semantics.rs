//! Operational semantics of the core language: evaluation of terms to weak
//! head normal values, read-back of values into the term syntax, and
//! definitional equality.
//!
//! Evaluation recurses through the globals table and the item map, so it
//! terminates only on well-formed tables: global definitions may refer to
//! earlier globals and to no items, and an item may refer to items bound
//! before it. `wf_globals` and `wf_items` state exactly that, and every
//! public operation here requires them.

use std::sync::Arc;
use vstd::prelude::*;
use vstd::string::StringExecFns;

use crate::integer::IntValue;
use crate::term::{
    arc_clone, branch_index, global_index, item_index, lookup_branch, lookup_item, string_eq,
    Constant, Elim, Globals, Head, Item, Term, Value,
};

verus! {

broadcast use vstd::std_specs::vec::group_vec_axioms, vstd::seq::group_seq_axioms;

/// No `Item` reference in `t` resolves to an item at index `k` or later.
/// With `k == 0`, no `Item` reference of `t` resolves at all.
pub open spec fn term_items_below(items: Seq<Item>, t: Term, k: int) -> bool
    decreases t,
{
    match t {
        Term::Global(_, _) => true,
        Term::Item(_, n) => item_index(items, n@) < k,
        Term::Ann(_, t1, t2) => term_items_below(items, *t1, k) && term_items_below(
            items,
            *t2,
            k,
        ),
        Term::Universe(_, _) => true,
        Term::FormatType(_) => true,
        Term::FunctionType(_, t1, t2) => term_items_below(items, *t1, k) && term_items_below(
            items,
            *t2,
            k,
        ),
        Term::FunctionElim(_, t1, t2) => term_items_below(items, *t1, k) && term_items_below(
            items,
            *t2,
            k,
        ),
        Term::Constant(_, _) => true,
        Term::BoolElim(_, h, t1, t2) => term_items_below(items, *h, k) && term_items_below(
            items,
            *t1,
            k,
        ) && term_items_below(items, *t2, k),
        Term::IntElim(_, h, bs, d) => term_items_below(items, *h, k) && term_items_below(
            items,
            *d,
            k,
        ) && (forall|i: int|
            0 <= i < bs@.len() ==> term_items_below(items, #[trigger] bs@[i].1, k)),
        Term::Error(_) => true,
    }
}

/// `t` contains no `Item` reference at all.
pub open spec fn term_no_items(t: Term) -> bool
    decreases t,
{
    match t {
        Term::Global(_, _) => true,
        Term::Item(_, _) => false,
        Term::Ann(_, t1, t2) => term_no_items(*t1) && term_no_items(*t2),
        Term::Universe(_, _) => true,
        Term::FormatType(_) => true,
        Term::FunctionType(_, t1, t2) => term_no_items(*t1) && term_no_items(*t2),
        Term::FunctionElim(_, t1, t2) => term_no_items(*t1) && term_no_items(*t2),
        Term::Constant(_, _) => true,
        Term::BoolElim(_, h, t1, t2) => term_no_items(*h) && term_no_items(*t1) && term_no_items(
            *t2,
        ),
        Term::IntElim(_, h, bs, d) => term_no_items(*h) && term_no_items(*d) && (forall|i: int|
            0 <= i < bs@.len() ==> term_no_items(#[trigger] bs@[i].1)),
        Term::Error(_) => true,
    }
}

/// Every reference of `t` to a *defined* global resolves below index `gb`.
pub open spec fn term_globals_below(g: Globals, t: Term, gb: int) -> bool
    decreases t,
{
    match t {
        Term::Global(_, n) => {
            let m = global_index(g.entries@, n@);
            (m >= 0 && g.entries@[m].1.term is Some) ==> m < gb
        },
        Term::Item(_, _) => true,
        Term::Ann(_, t1, t2) => term_globals_below(g, *t1, gb) && term_globals_below(g, *t2, gb),
        Term::Universe(_, _) => true,
        Term::FormatType(_) => true,
        Term::FunctionType(_, t1, t2) => term_globals_below(g, *t1, gb) && term_globals_below(
            g,
            *t2,
            gb,
        ),
        Term::FunctionElim(_, t1, t2) => term_globals_below(g, *t1, gb) && term_globals_below(
            g,
            *t2,
            gb,
        ),
        Term::Constant(_, _) => true,
        Term::BoolElim(_, h, t1, t2) => term_globals_below(g, *h, gb) && term_globals_below(
            g,
            *t1,
            gb,
        ) && term_globals_below(g, *t2, gb),
        Term::IntElim(_, h, bs, d) => term_globals_below(g, *h, gb) && term_globals_below(
            g,
            *d,
            gb,
        ) && (forall|i: int|
            0 <= i < bs@.len() ==> term_globals_below(g, #[trigger] bs@[i].1, gb)),
        Term::Error(_) => true,
    }
}

/// A well-formed globals table: each definition refers only to globals bound
/// strictly before it, and to no module items.
pub open spec fn wf_globals(g: Globals) -> bool {
    forall|m: int|
        0 <= m < g.entries@.len() ==> ((#[trigger] g.entries@[m]).1.term matches Some(d)
            ==> term_no_items(*d) && term_globals_below(g, *d, m))
}

/// A well-formed item map: each item refers only to items bound strictly
/// before it (in its body, its declared type, and its field formats).
pub open spec fn wf_items(items: Seq<Item>) -> bool {
    forall|j: int|
        0 <= j < items.len() ==> match #[trigger] items[j] {
            Item::Alias(a) => term_items_below(items, *a.term, j) && (a.ty matches Some(ty)
                ==> term_items_below(items, *ty, j)),
            Item::Struct(s) => forall|f: int|
                0 <= f < s.fields@.len() ==> term_items_below(
                    items,
                    *(#[trigger] s.fields@[f]).term,
                    j,
                ),
        }
}

/// A term without item references is below any bound.
pub proof fn lemma_no_items_below(items: Seq<Item>, t: &Term, k: int)
    requires
        term_no_items(*t),
        0 <= k,
    ensures
        term_items_below(items, *t, k),
    decreases *t,
{
    match t {
        Term::Ann(_, t1, t2) => {
            lemma_no_items_below(items, &**t1, k);
            lemma_no_items_below(items, &**t2, k);
        },
        Term::FunctionType(_, t1, t2) => {
            lemma_no_items_below(items, &**t1, k);
            lemma_no_items_below(items, &**t2, k);
        },
        Term::FunctionElim(_, t1, t2) => {
            lemma_no_items_below(items, &**t1, k);
            lemma_no_items_below(items, &**t2, k);
        },
        Term::BoolElim(_, h, t1, t2) => {
            lemma_no_items_below(items, &**h, k);
            lemma_no_items_below(items, &**t1, k);
            lemma_no_items_below(items, &**t2, k);
        },
        Term::IntElim(_, h, bs, d) => {
            lemma_no_items_below(items, &**h, k);
            lemma_no_items_below(items, &**d, k);
            assert forall|i: int|
                0 <= i < bs@.len() implies term_items_below(items, #[trigger] bs@[i].1, k) by {
                lemma_no_items_below(items, &bs@[i].1, k);
            }
        },
        _ => {},
    }
}

/// Every term is below the full length of the item map.
pub proof fn lemma_items_below_full(items: Seq<Item>, t: &Term)
    ensures
        term_items_below(items, *t, items.len() as int),
    decreases *t,
{
    match t {
        Term::Item(_, n) => {
            crate::term::lemma_item_index(items, n@);
        },
        Term::Ann(_, t1, t2) => {
            lemma_items_below_full(items, &**t1);
            lemma_items_below_full(items, &**t2);
        },
        Term::FunctionType(_, t1, t2) => {
            lemma_items_below_full(items, &**t1);
            lemma_items_below_full(items, &**t2);
        },
        Term::FunctionElim(_, t1, t2) => {
            lemma_items_below_full(items, &**t1);
            lemma_items_below_full(items, &**t2);
        },
        Term::BoolElim(_, h, t1, t2) => {
            lemma_items_below_full(items, &**h);
            lemma_items_below_full(items, &**t1);
            lemma_items_below_full(items, &**t2);
        },
        Term::IntElim(_, h, bs, d) => {
            lemma_items_below_full(items, &**h);
            lemma_items_below_full(items, &**d);
            assert forall|i: int|
                0 <= i < bs@.len() implies term_items_below(
                items,
                #[trigger] bs@[i].1,
                items.len() as int,
            ) by {
                lemma_items_below_full(items, &bs@[i].1);
            }
        },
        _ => {},
    }
}

/// Every term has its defined-global references below the full length of
/// the globals table.
pub proof fn lemma_globals_below_full(g: &Globals, t: &Term)
    ensures
        term_globals_below(*g, *t, g.entries@.len() as int),
    decreases *t,
{
    match t {
        Term::Global(_, n) => {
            crate::term::lemma_global_index(g.entries@, n@);
        },
        Term::Ann(_, t1, t2) => {
            lemma_globals_below_full(g, &**t1);
            lemma_globals_below_full(g, &**t2);
        },
        Term::FunctionType(_, t1, t2) => {
            lemma_globals_below_full(g, &**t1);
            lemma_globals_below_full(g, &**t2);
        },
        Term::FunctionElim(_, t1, t2) => {
            lemma_globals_below_full(g, &**t1);
            lemma_globals_below_full(g, &**t2);
        },
        Term::BoolElim(_, h, t1, t2) => {
            lemma_globals_below_full(g, &**h);
            lemma_globals_below_full(g, &**t1);
            lemma_globals_below_full(g, &**t2);
        },
        Term::IntElim(_, h, bs, d) => {
            lemma_globals_below_full(g, &**h);
            lemma_globals_below_full(g, &**d);
            assert forall|i: int|
                0 <= i < bs@.len() implies term_globals_below(
                *g,
                #[trigger] bs@[i].1,
                g.entries@.len() as int,
            ) by {
                lemma_globals_below_full(g, &bs@[i].1);
            }
        },
        _ => {},
    }
}

/// Every integer constant and branch key in a term is in canonical form.
pub open spec fn term_ints_wf(t: Term) -> bool
    decreases t,
{
    match t {
        Term::Constant(_, c) => match c {
            Constant::Int(v) => v.wf(),
            _ => true,
        },
        Term::Ann(_, t1, t2) => term_ints_wf(*t1) && term_ints_wf(*t2),
        Term::FunctionType(_, t1, t2) => term_ints_wf(*t1) && term_ints_wf(*t2),
        Term::FunctionElim(_, t1, t2) => term_ints_wf(*t1) && term_ints_wf(*t2),
        Term::BoolElim(_, h, t1, t2) => term_ints_wf(*h) && term_ints_wf(*t1) && term_ints_wf(*t2),
        Term::IntElim(_, h, bs, d) => term_ints_wf(*h) && term_ints_wf(*d) && (forall|i: int|
            0 <= i < bs@.len() ==> (#[trigger] bs@[i]).0.wf() && term_ints_wf(bs@[i].1)),
        _ => true,
    }
}

/// Marks the intermediate value of an eliminator's head, so that proofs can
/// recover it from the evaluation relation.
pub open spec fn head_val_mark(hv: Value) -> bool {
    true
}

/// The evaluation relation, indexed by bounds `k` on reachable items and
/// `gb` on reachable defined globals; these indices only serve the
/// termination argument. `eval_rel` below ties them to the table sizes.
pub open spec fn eval_rel_at(
    g: Globals,
    items: Seq<Item>,
    t: Term,
    res: Value,
    k: int,
    gb: int,
) -> bool
    decreases k, gb, t, 1int,
        when 0 <= k && 0 <= gb && term_items_below(items, t, k) && term_globals_below(g, t, gb)
{
    match t {
        Term::Global(r, n) => {
            let m = global_index(g.entries@, n@);
            if m < 0 {
                res == Value::Error(r)
            } else {
                match g.entries@[m].1.term {
                    Some(d) => eval_rel_at(g, items, *d, res, 0, m),
                    None => res matches Value::Neutral(h, es) && h == Head::Global(r, n)
                        && es@.len() == 0,
                }
            }
        },
        Term::Item(r, n) => {
            let m = item_index(items, n@);
            if m < 0 {
                res == Value::Error(r)
            } else {
                match items[m] {
                    Item::Alias(a) => eval_rel_at(g, items, *a.term, res, m, g.entries@.len() as int),
                    Item::Struct(_) => res matches Value::Neutral(h, es) && h == Head::Item(r, n)
                        && es@.len() == 0,
                }
            }
        },
        Term::Ann(_, t1, _) => eval_rel_at(g, items, *t1, res, k, gb),
        Term::Universe(r, l) => res == Value::Universe(r, l),
        Term::FormatType(r) => res == Value::FormatType(r),
        Term::FunctionType(r, p, b) => res matches Value::FunctionType(r2, pv, bv) && r2 == r
            && eval_rel_at(g, items, *p, *pv, k, gb) && eval_rel_at(g, items, *b, *bv, k, gb),
        Term::FunctionElim(_, h, _) => exists|hv: Value|
            #[trigger] head_val_mark(hv) && eval_rel_at(g, items, *h, hv, k, gb) && app_step(
                g,
                items,
                t,
                hv,
                res,
                k,
                gb,
            ),
        Term::Constant(r, c) => res matches Value::Constant(r2, c2) && r2 == r && const_eq_spec(c2, c),
        Term::BoolElim(_, h, _, _) => exists|hv: Value|
            #[trigger] head_val_mark(hv) && eval_rel_at(g, items, *h, hv, k, gb) && bool_step(
                g,
                items,
                t,
                hv,
                res,
                k,
                gb,
            ),
        Term::IntElim(_, h, _, _) => exists|hv: Value|
            #[trigger] head_val_mark(hv) && eval_rel_at(g, items, *h, hv, k, gb) && int_step(
                g,
                items,
                t,
                hv,
                res,
                k,
                gb,
            ),
        Term::Error(r) => res == Value::Error(r),
    }
}

/// How a function eliminator with the components of `t` acts on the value
/// `hv` of its head: a neutral head gains a `Function` eliminator carrying
/// the argument's value; anything else is an error, since the only
/// introducers of function values are neutral heads.
pub open spec fn app_step(
    g: Globals,
    items: Seq<Item>,
    t: Term,
    hv: Value,
    res: Value,
    k: int,
    gb: int,
) -> bool
    decreases k, gb, t, 0int,
        when 0 <= k && 0 <= gb && term_items_below(items, t, k) && term_globals_below(g, t, gb)
{
    t matches Term::FunctionElim(r, h, a) && match hv {
        Value::Neutral(hh, es) => res matches Value::Neutral(rh, res_es) && rh == hh
            && res_es@.len() == es@.len() + 1 && res_es@.drop_last() =~= es@ && (res_es@.last()
            matches Elim::Function(r2, av) && r2 == r && eval_rel_at(g, items, *a, *av, k, gb)),
        _ => res == Value::Error(r),
    }
}

/// How a boolean eliminator with the components of `t` acts on the value
/// `hv` of its scrutinee: the bare `true` and `false` globals select a
/// branch, any other neutral has its spine extended, and anything else
/// becomes a neutral with an error head.
pub open spec fn bool_step(
    g: Globals,
    items: Seq<Item>,
    t: Term,
    hv: Value,
    res: Value,
    k: int,
    gb: int,
) -> bool
    decreases k, gb, t, 0int,
        when 0 <= k && 0 <= gb && term_items_below(items, t, k) && term_globals_below(g, t, gb)
{
    t matches Term::BoolElim(r, h, tt, ff) && match hv {
        Value::Neutral(hh, es) => {
            if es@.len() == 0 && (hh matches Head::Global(_, n) && (n@ == "true"@ || n@
                == "false"@)) {
                (hh matches Head::Global(_, n) && if n@ == "true"@ {
                    eval_rel_at(g, items, *tt, res, k, gb)
                } else {
                    eval_rel_at(g, items, *ff, res, k, gb)
                })
            } else {
                res matches Value::Neutral(rh, res_es) && rh == hh && res_es@.len() == es@.len()
                    + 1 && res_es@.drop_last() =~= es@ && (res_es@.last() matches Elim::Bool(
                    r2,
                    t2,
                    f2,
                ) && r2 == r && t2 == tt && f2 == ff)
            }
        },
        _ => res matches Value::Neutral(rh, res_es) && rh == Head::Error((*h).spec_range())
            && res_es@.len() == 1 && (res_es@[0] matches Elim::Bool(r2, t2, f2) && r2 == r && t2
            == tt && f2 == ff),
    }
}

/// How an integer eliminator with the components of `t` acts on the value
/// `hv` of its scrutinee: an integer constant selects the matching branch
/// or the default, a neutral has its spine extended, and anything else
/// becomes a neutral with an error head.
pub open spec fn int_step(
    g: Globals,
    items: Seq<Item>,
    t: Term,
    hv: Value,
    res: Value,
    k: int,
    gb: int,
) -> bool
    decreases k, gb, t, 0int,
        when 0 <= k && 0 <= gb && term_items_below(items, t, k) && term_globals_below(g, t, gb)
{
    t matches Term::IntElim(r, h, bs, d) && match hv {
        Value::Constant(_, c) => match c {
            Constant::Int(key) => {
                let bi = branch_index(bs@, key);
                if 0 <= bi < bs@.len() {
                    eval_rel_at(g, items, bs@[bi].1, res, k, gb)
                } else {
                    eval_rel_at(g, items, *d, res, k, gb)
                }
            },
            _ => res matches Value::Neutral(rh, res_es) && rh == Head::Error((*h).spec_range())
                && res_es@.len() == 1 && (res_es@[0] matches Elim::Int(r2, bs2, d2) && r2 == r
                && bs2 == bs && d2 == d),
        },
        Value::Neutral(hh, es) => res matches Value::Neutral(rh, res_es) && rh == hh
            && res_es@.len() == es@.len() + 1 && res_es@.drop_last() =~= es@ && (res_es@.last()
            matches Elim::Int(r2, bs2, d2) && r2 == r && bs2 == bs && d2 == d),
        _ => res matches Value::Neutral(rh, res_es) && rh == Head::Error((*h).spec_range())
            && res_es@.len() == 1 && (res_es@[0] matches Elim::Int(r2, bs2, d2) && r2 == r && bs2
            == bs && d2 == d),
    }
}

/// `res` is the value of `t` under the given globals and items.
pub open spec fn eval_rel(g: Globals, items: Seq<Item>, t: Term, res: Value) -> bool {
    eval_rel_at(g, items, t, res, items.len() as int, g.entries@.len() as int)
}

/// Evaluate a term into a semantic value. Total: any undefined reference
/// yields `Value::Error` rather than an exception.
pub fn eval(globals: &Globals, items: &Vec<Item>, term: &Term) -> (res: Value)
    requires
        wf_globals(*globals),
        wf_items(items@),
    ensures
        eval_rel(*globals, items@, *term, res),
{
    proof {
        lemma_items_below_full(items@, term);
        lemma_globals_below_full(globals, term);
    }
    eval_at(
        globals,
        items,
        term,
        Ghost(items@.len() as int),
        Ghost(globals.entries@.len() as int),
    )
}

fn eval_at(
    globals: &Globals,
    items: &Vec<Item>,
    term: &Term,
    Ghost(k): Ghost<int>,
    Ghost(gb): Ghost<int>,
) -> (res: Value)
    requires
        wf_globals(*globals),
        wf_items(items@),
        0 <= k,
        0 <= gb,
        term_items_below(items@, *term, k),
        term_globals_below(*globals, *term, gb),
    ensures
        eval_rel_at(*globals, items@, *term, res, k, gb),
    decreases k, gb, *term,
{
    match term {
        Term::Global(r, n) => {
            proof {
                crate::term::lemma_global_index(globals.entries@, n@);
            }
            match globals.get(n) {
                None => Value::Error(*r),
                Some(entry) => {
                    let ghost m = global_index(globals.entries@, n@);
                    match &entry.term {
                        Some(d) => {
                            proof {
                                lemma_no_items_below(items@, &**d, 0);
                            }
                            eval_at(globals, items, &**d, Ghost(0), Ghost(m))
                        },
                        None => Value::Neutral(Head::Global(*r, n.clone()), Vec::new()),
                    }
                },
            }
        },
        Term::Item(r, n) => {
            proof {
                crate::term::lemma_item_index(items@, n@);
            }
            match lookup_item(items, n) {
                None => Value::Error(*r),
                Some(it) => {
                    let ghost m = item_index(items@, n@);
                    match it {
                        Item::Alias(a) => {
                            proof {
                                lemma_globals_below_full(globals, &*a.term);
                            }
                            eval_at(globals, items, &*a.term, Ghost(m), Ghost(globals.entries@.len() as int))
                        },
                        Item::Struct(_) => Value::Neutral(Head::Item(*r, n.clone()), Vec::new()),
                    }
                },
            }
        },
        Term::Ann(_, t1, _) => eval_at(globals, items, &**t1, Ghost(k), Ghost(gb)),
        Term::Universe(r, l) => Value::Universe(*r, *l),
        Term::FormatType(r) => Value::FormatType(*r),
        Term::FunctionType(r, p, b) => {
            let pv = eval_at(globals, items, &**p, Ghost(k), Ghost(gb));
            let bv = eval_at(globals, items, &**b, Ghost(k), Ghost(gb));
            Value::FunctionType(*r, Arc::new(pv), Arc::new(bv))
        },
        Term::FunctionElim(r, h, a) => {
            let hv = eval_at(globals, items, &**h, Ghost(k), Ghost(gb));
            let ghost hv0 = hv;
            match hv {
                Value::Neutral(hh, mut es) => {
                    let av = eval_at(globals, items, &**a, Ghost(k), Ghost(gb));
                    let ghost es0 = es@;
                    es.push(Elim::Function(*r, Arc::new(av)));
                    let res = Value::Neutral(hh, es);
                    proof {
                        assert(es@.drop_last() =~= es0);
                        assert(head_val_mark(hv0));
                        assert(eval_rel_at(*globals, items@, **h, hv0, k, gb));
                        assert(app_step(*globals, items@, *term, hv0, res, k, gb));
                        assert(exists|hv: Value|
                            head_val_mark(hv) && eval_rel_at(*globals, items@, **h, hv, k, gb)
                                && app_step(*globals, items@, *term, hv, res, k, gb));
                    }
                    res
                },
                _ => {
                    let res = Value::Error(*r);
                    proof {
                        assert(head_val_mark(hv0));
                        assert(eval_rel_at(*globals, items@, **h, hv0, k, gb));
                        assert(app_step(*globals, items@, *term, hv0, res, k, gb));
                    }
                    res
                },
            }
        },
        Term::Constant(r, c) => Value::Constant(*r, const_copy(c)),
        Term::BoolElim(r, h, tt, ff) => {
            let hv = eval_at(globals, items, &**h, Ghost(k), Ghost(gb));
            match hv {
                Value::Neutral(hh, mut es) => {
                    let is_empty = es.len() == 0;
                    let mut reduced: u8 = 0;
                    if is_empty {
                        if let Head::Global(_, n) = &hh {
                            let tlit: String = true_name();
                            let flit: String = false_name();
                            if string_eq(n, &tlit) {
                                reduced = 1;
                            } else if string_eq(n, &flit) {
                                reduced = 2;
                            }
                        }
                    }
                    if reduced == 1 {
                        proof {
                            assert(head_val_mark(Value::Neutral(hh, es)) && eval_rel_at(*globals, items@, **h, Value::Neutral(hh, es), k, gb));
                        }
                        let res = eval_at(globals, items, &**tt, Ghost(k), Ghost(gb));
                        proof {
                            let hv2 = Value::Neutral(hh, es);
                            assert(head_val_mark(hv2));
                            assert(eval_rel_at(*globals, items@, **h, hv2, k, gb));
                            assert(bool_step(*globals, items@, *term, hv2, res, k, gb));
                            assert(exists|hv3: Value|
                                head_val_mark(hv3) && eval_rel_at(*globals, items@, **h, hv3, k, gb)
                                    && bool_step(*globals, items@, *term, hv3, res, k, gb));
                        }
                        res
                    } else if reduced == 2 {
                        let res = eval_at(globals, items, &**ff, Ghost(k), Ghost(gb));
                        proof {
                            proof_strlits();
                            let hv2 = Value::Neutral(hh, es);
                            assert(head_val_mark(hv2));
                            assert(eval_rel_at(*globals, items@, **h, hv2, k, gb));
                            assert(bool_step(*globals, items@, *term, hv2, res, k, gb));
                            assert(exists|hv3: Value|
                                head_val_mark(hv3) && eval_rel_at(*globals, items@, **h, hv3, k, gb)
                                    && bool_step(*globals, items@, *term, hv3, res, k, gb));
                        }
                        res
                    } else {
                        let ghost es0 = es@;
                        let ghost hv2 = Value::Neutral(hh, es);
                        es.push(Elim::Bool(*r, arc_clone(tt), arc_clone(ff)));
                        let res = Value::Neutral(hh, es);
                        proof {
                            assert(es@.drop_last() =~= es0);
                            proof_strlits();
                            assert(head_val_mark(hv2));
                            assert(eval_rel_at(*globals, items@, **h, hv2, k, gb));
                            assert(bool_step(*globals, items@, *term, hv2, res, k, gb));
                            assert(exists|hv3: Value|
                                head_val_mark(hv3) && eval_rel_at(*globals, items@, **h, hv3, k, gb)
                                    && bool_step(*globals, items@, *term, hv3, res, k, gb));
                        }
                        res
                    }
                },
                _ => {
                    let ghost hv2 = hv;
                    let hr = (&**h).range();
                    let mut es: Vec<Elim> = Vec::new();
                    es.push(Elim::Bool(*r, arc_clone(tt), arc_clone(ff)));
                    let res = Value::Neutral(Head::Error(hr), es);
                    proof {
                        assert(head_val_mark(hv2));
                        assert(eval_rel_at(*globals, items@, **h, hv2, k, gb));
                        assert(bool_step(*globals, items@, *term, hv2, res, k, gb));
                        assert(exists|hv3: Value|
                        head_val_mark(hv3) && eval_rel_at(*globals, items@, **h, hv3, k, gb)
                            && bool_step(*globals, items@, *term, hv3, res, k, gb));
                    }
                    res
                },
            }
        },
        Term::IntElim(r, h, bs, d) => {
            let hv = eval_at(globals, items, &**h, Ghost(k), Ghost(gb));
            match hv {
                Value::Constant(cr, c) => {
                    match &c {
                        Constant::Int(key) => {
                            let ghost hv2 = Value::Constant(cr, c);
                            match lookup_branch(&**bs, key) {
                                Some(bt) => {
                                    let ghost bi = branch_index(bs@, *key);
                                    proof {
                                        crate::term::lemma_branch_index(bs@, *key);
                                        assert(term_items_below(items@, bs@[bi].1, k));
                                        assert(term_globals_below(*globals, bs@[bi].1, gb));
                                    }
                                    let res = eval_at(globals, items, bt, Ghost(k), Ghost(gb));
                                    proof {
                                        assert(head_val_mark(hv2));
                                        assert(eval_rel_at(*globals, items@, **h, hv2, k, gb));
                                        assert(int_step(*globals, items@, *term, hv2, res, k, gb));
                                        assert(exists|hv3: Value|
                                head_val_mark(hv3) && eval_rel_at(*globals, items@, **h, hv3, k, gb)
                                    && int_step(*globals, items@, *term, hv3, res, k, gb));
                                    }
                                    res
                                },
                                None => {
                                    let res = eval_at(globals, items, &**d, Ghost(k), Ghost(gb));
                                    proof {
                                        crate::term::lemma_branch_index(bs@, *key);
                                        assert(head_val_mark(hv2));
                                        assert(eval_rel_at(*globals, items@, **h, hv2, k, gb));
                                        assert(int_step(*globals, items@, *term, hv2, res, k, gb));
                                        assert(exists|hv3: Value|
                                head_val_mark(hv3) && eval_rel_at(*globals, items@, **h, hv3, k, gb)
                                    && int_step(*globals, items@, *term, hv3, res, k, gb));
                                    }
                                    res
                                },
                            }
                        },
                        _ => {
                            let ghost hv2 = Value::Constant(cr, c);
                            let mut es: Vec<Elim> = Vec::new();
                            es.push(Elim::Int(*r, arc_clone(bs), arc_clone(d)));
                            let res = Value::Neutral(Head::Error((&**h).range()), es);
                            proof {
                                assert(head_val_mark(hv2));
                                assert(eval_rel_at(*globals, items@, **h, hv2, k, gb));
                                assert(int_step(*globals, items@, *term, hv2, res, k, gb));
                                assert(exists|hv3: Value|
                        head_val_mark(hv3) && eval_rel_at(*globals, items@, **h, hv3, k, gb)
                            && int_step(*globals, items@, *term, hv3, res, k, gb));
                            }
                            res
                        },
                    }
                },
                Value::Neutral(hh, mut es) => {
                    let ghost es0 = es@;
                    let ghost hv2 = Value::Neutral(hh, es);
                    es.push(Elim::Int(*r, arc_clone(bs), arc_clone(d)));
                    let res = Value::Neutral(hh, es);
                    proof {
                        assert(es@.drop_last() =~= es0);
                        assert(head_val_mark(hv2));
                        assert(eval_rel_at(*globals, items@, **h, hv2, k, gb));
                        assert(int_step(*globals, items@, *term, hv2, res, k, gb));
                        assert(exists|hv3: Value|
                        head_val_mark(hv3) && eval_rel_at(*globals, items@, **h, hv3, k, gb)
                            && int_step(*globals, items@, *term, hv3, res, k, gb));
                    }
                    res
                },
                _ => {
                    let ghost hv2 = hv;
                    let mut es: Vec<Elim> = Vec::new();
                    es.push(Elim::Int(*r, arc_clone(bs), arc_clone(d)));
                    let res = Value::Neutral(Head::Error((&**h).range()), es);
                    proof {
                        assert(head_val_mark(hv2));
                        assert(eval_rel_at(*globals, items@, **h, hv2, k, gb));
                        assert(int_step(*globals, items@, *term, hv2, res, k, gb));
                        assert(exists|hv3: Value|
                        head_val_mark(hv3) && eval_rel_at(*globals, items@, **h, hv3, k, gb)
                            && int_step(*globals, items@, *term, hv3, res, k, gb));
                    }
                    res
                },
            }
        },
        Term::Error(r) => Value::Error(*r),
    }
}

/// The name of the distinguished true constant.
pub fn true_name() -> (r: String)
    ensures
        r@ == "true"@,
{
    String::from_str("true")
}

/// The name of the distinguished false constant.
pub fn false_name() -> (r: String)
    ensures
        r@ == "false"@,
{
    String::from_str("false")
}

/// The character sequences of the two boolean names differ.
pub proof fn proof_strlits()
    ensures
        "true"@ != "false"@,
{
    reveal_strlit("true");
    reveal_strlit("false");
    assert("true"@.len() == 4);
    assert("false"@.len() == 5);
}

} // verus!

verus! {

/// Structural equality of constants: integers by sign and digits, floats by
/// bit pattern (so `-0.0` and `0.0` differ and a NaN equals itself).
pub open spec fn const_eq_spec(c1: Constant, c2: Constant) -> bool {
    match (c1, c2) {
        (Constant::Int(a), Constant::Int(b)) => a.neg == b.neg && a.digits@ == b.digits@,
        (Constant::F32(a), Constant::F32(b)) => a == b,
        (Constant::F64(a), Constant::F64(b)) => a == b,
        _ => false,
    }
}

/// Structural equality of terms, ignoring source ranges.
pub open spec fn term_eq_spec(t1: Term, t2: Term) -> bool
    decreases t1,
{
    match (t1, t2) {
        (Term::Global(_, n1), Term::Global(_, n2)) => n1@ == n2@,
        (Term::Item(_, n1), Term::Item(_, n2)) => n1@ == n2@,
        (Term::Ann(_, a1, b1), Term::Ann(_, a2, b2)) => term_eq_spec(*a1, *a2) && term_eq_spec(
            *b1,
            *b2,
        ),
        (Term::Universe(_, l1), Term::Universe(_, l2)) => l1 == l2,
        (Term::FormatType(_), Term::FormatType(_)) => true,
        (Term::FunctionType(_, p1, b1), Term::FunctionType(_, p2, b2)) => term_eq_spec(*p1, *p2)
            && term_eq_spec(*b1, *b2),
        (Term::FunctionElim(_, h1, a1), Term::FunctionElim(_, h2, a2)) => term_eq_spec(*h1, *h2)
            && term_eq_spec(*a1, *a2),
        (Term::Constant(_, c1), Term::Constant(_, c2)) => const_eq_spec(c1, c2),
        (Term::BoolElim(_, h1, t1b, f1), Term::BoolElim(_, h2, t2b, f2)) => term_eq_spec(*h1, *h2)
            && term_eq_spec(*t1b, *t2b) && term_eq_spec(*f1, *f2),
        (Term::IntElim(_, h1, bs1, d1), Term::IntElim(_, h2, bs2, d2)) => term_eq_spec(*h1, *h2)
            && term_eq_spec(*d1, *d2) && bs1@.len() == bs2@.len() && (forall|i: int|
            0 <= i < bs1@.len() ==> {
                &&& (#[trigger] bs1@[i]).0.neg == bs2@[i].0.neg
                &&& bs1@[i].0.digits@ == bs2@[i].0.digits@
                &&& term_eq_spec(bs1@[i].1, bs2@[i].1)
            }),
        (Term::Error(_), Term::Error(_)) => true,
        _ => false,
    }
}

/// Equality of neutral heads, ignoring source ranges.
pub open spec fn head_eq_spec(h1: Head, h2: Head) -> bool {
    match (h1, h2) {
        (Head::Global(_, n1), Head::Global(_, n2)) => n1@ == n2@,
        (Head::Item(_, n1), Head::Item(_, n2)) => n1@ == n2@,
        (Head::Error(_), Head::Error(_)) => true,
        _ => false,
    }
}

/// Equality of the read-backs of two values: the terms they quote to are
/// structurally equal, ignoring ranges. Unlike definitional equality this
/// does not absorb errors, because the term syntax compares `Error` nodes
/// structurally.
pub open spec fn value_rb_eq(v1: Value, v2: Value) -> bool
    decreases v1,
{
    match (v1, v2) {
        (Value::Neutral(h1, es1), Value::Neutral(h2, es2)) => head_eq_spec(h1, h2) && es1@.len()
            == es2@.len() && (forall|i: int|
            0 <= i < es1@.len() ==> elim_eq_spec(#[trigger] es1@[i], es2@[i])),
        (Value::Universe(_, l1), Value::Universe(_, l2)) => l1 == l2,
        (Value::FormatType(_), Value::FormatType(_)) => true,
        (Value::FunctionType(_, p1, b1), Value::FunctionType(_, p2, b2)) => value_rb_eq(*p1, *p2)
            && value_rb_eq(*b1, *b2),
        (Value::Constant(_, c1), Value::Constant(_, c2)) => const_eq_spec(c1, c2),
        (Value::Error(_), Value::Error(_)) => true,
        _ => false,
    }
}

/// Equality of eliminators as they read back, ignoring ranges.
pub open spec fn elim_eq_spec(e1: Elim, e2: Elim) -> bool
    decreases e1,
{
    match (e1, e2) {
        (Elim::Function(_, a1), Elim::Function(_, a2)) => value_rb_eq(*a1, *a2),
        (Elim::Bool(_, t1, f1), Elim::Bool(_, t2, f2)) => term_eq_spec(*t1, *t2) && term_eq_spec(
            *f1,
            *f2,
        ),
        (Elim::Int(_, bs1, d1), Elim::Int(_, bs2, d2)) => term_eq_spec(*d1, *d2) && bs1@.len()
            == bs2@.len() && (forall|i: int|
            0 <= i < bs1@.len() ==> {
                &&& (#[trigger] bs1@[i]).0.neg == bs2@[i].0.neg
                &&& bs1@[i].0.digits@ == bs2@[i].0.digits@
                &&& term_eq_spec(bs1@[i].1, bs2@[i].1)
            }),
        _ => false,
    }
}

/// Definitional equality of values: neutrals compare by their read-backs,
/// universes by level, function types componentwise, constants by
/// `const_eq_spec`, and `Error` is equal to everything on either side.
/// Function-type parameters may be compared in either orientation: the
/// relation is symmetric, which the laws prove.
pub open spec fn equal_spec(v1: Value, v2: Value) -> bool
    decreases v1,
{
    match (v1, v2) {
        (Value::Error(_), _) => true,
        (_, Value::Error(_)) => true,
        (Value::Neutral(h1, es1), Value::Neutral(h2, es2)) => head_eq_spec(h1, h2) && es1@.len()
            == es2@.len() && (forall|i: int|
            0 <= i < es1@.len() ==> elim_eq_spec(#[trigger] es1@[i], es2@[i])),
        (Value::Universe(_, l1), Value::Universe(_, l2)) => l1 == l2,
        (Value::FormatType(_), Value::FormatType(_)) => true,
        (Value::FunctionType(_, p1, b1), Value::FunctionType(_, p2, b2)) => equal_spec(*p1, *p2)
            && equal_spec(*b1, *b2),
        (Value::Constant(_, c1), Value::Constant(_, c2)) => const_eq_spec(c1, c2),
        _ => false,
    }
}

/// Decide structural equality of constants.
pub fn const_eq(c1: &Constant, c2: &Constant) -> (r: bool)
    ensures
        r == const_eq_spec(*c1, *c2),
{
    match (c1, c2) {
        (Constant::Int(a), Constant::Int(b)) => a.neg == b.neg && crate::term::vec_u8_eq(
            &a.digits,
            &b.digits,
        ),
        (Constant::F32(a), Constant::F32(b)) => *a == *b,
        (Constant::F64(a), Constant::F64(b)) => *a == *b,
        _ => false,
    }
}

/// Copy a constant; the copy is structurally equal to the original.
pub fn const_copy(c: &Constant) -> (r: Constant)
    ensures
        const_eq_spec(r, *c),
        const_eq_spec(*c, r),
{
    match c {
        Constant::Int(v) => Constant::Int(v.duplicate()),
        Constant::F32(b) => Constant::F32(*b),
        Constant::F64(b) => Constant::F64(*b),
    }
}

/// Decide structural equality of terms, ignoring source ranges.
#[verifier::loop_isolation(false)]
pub fn term_eq(t1: &Term, t2: &Term) -> (r: bool)
    ensures
        r == term_eq_spec(*t1, *t2),
    decreases *t1,
{
    match (t1, t2) {
        (Term::Global(_, n1), Term::Global(_, n2)) => string_eq(n1, n2),
        (Term::Item(_, n1), Term::Item(_, n2)) => string_eq(n1, n2),
        (Term::Ann(_, a1, b1), Term::Ann(_, a2, b2)) => term_eq(&*a1, &*a2) && term_eq(&*b1, &*b2),
        (Term::Universe(_, l1), Term::Universe(_, l2)) => *l1 == *l2,
        (Term::FormatType(_), Term::FormatType(_)) => true,
        (Term::FunctionType(_, p1, b1), Term::FunctionType(_, p2, b2)) => term_eq(&*p1, &*p2)
            && term_eq(&*b1, &*b2),
        (Term::FunctionElim(_, h1, a1), Term::FunctionElim(_, h2, a2)) => term_eq(&*h1, &*h2)
            && term_eq(&*a1, &*a2),
        (Term::Constant(_, c1), Term::Constant(_, c2)) => const_eq(c1, c2),
        (Term::BoolElim(_, h1, t1b, f1), Term::BoolElim(_, h2, t2b, f2)) => term_eq(&*h1, &*h2)
            && term_eq(&*t1b, &*t2b) && term_eq(&*f1, &*f2),
        (Term::IntElim(_, h1, bs1, d1), Term::IntElim(_, h2, bs2, d2)) => {
            if !term_eq(&*h1, &*h2) {
                return false;
            }
            if !term_eq(&*d1, &*d2) {
                return false;
            }
            if bs1.len() != bs2.len() {
                return false;
            }
            let mut i: usize = 0;
            while i < bs1.len()
                invariant
                    0 <= i <= bs1@.len(),
                    bs1@.len() == bs2@.len(),
                    forall|j: int|
                        0 <= j < i ==> {
                            &&& (#[trigger] bs1@[j]).0.neg == bs2@[j].0.neg
                            &&& bs1@[j].0.digits@ == bs2@[j].0.digits@
                            &&& term_eq_spec(bs1@[j].1, bs2@[j].1)
                        },
                decreases bs1@.len() - i,
            {
                let k1 = &bs1[i].0;
                let k2 = &bs2[i].0;
                if k1.neg != k2.neg || !crate::term::vec_u8_eq(&k1.digits, &k2.digits) {
                    return false;
                }
                if !term_eq(&bs1[i].1, &bs2[i].1) {
                    return false;
                }
                i += 1;
            }
            true
        },
        (Term::Error(_), Term::Error(_)) => true,
        _ => false,
    }
}

/// Decide whether the read-backs of two values coincide.
#[verifier::loop_isolation(false)]
pub fn value_rb_equal(v1: &Value, v2: &Value) -> (r: bool)
    ensures
        r == value_rb_eq(*v1, *v2),
    decreases *v1,
{
    match (v1, v2) {
        (Value::Neutral(h1, es1), Value::Neutral(h2, es2)) => {
            if !head_equal(h1, h2) {
                return false;
            }
            if es1.len() != es2.len() {
                return false;
            }
            let mut i: usize = 0;
            while i < es1.len()
                invariant
                    0 <= i <= es1@.len(),
                    es1@.len() == es2@.len(),
                    forall|j: int| 0 <= j < i ==> elim_eq_spec(#[trigger] es1@[j], es2@[j]),
                decreases es1@.len() - i,
            {
                if !elim_equal(&es1[i], &es2[i]) {
                    return false;
                }
                i += 1;
            }
            true
        },
        (Value::Universe(_, l1), Value::Universe(_, l2)) => *l1 == *l2,
        (Value::FormatType(_), Value::FormatType(_)) => true,
        (Value::FunctionType(_, p1, b1), Value::FunctionType(_, p2, b2)) => value_rb_equal(
            &*p1,
            &*p2,
        ) && value_rb_equal(&*b1, &*b2),
        (Value::Constant(_, c1), Value::Constant(_, c2)) => const_eq(c1, c2),
        (Value::Error(_), Value::Error(_)) => true,
        _ => false,
    }
}

/// Decide equality of eliminators as they read back.
#[verifier::loop_isolation(false)]
fn elim_equal(e1: &Elim, e2: &Elim) -> (r: bool)
    ensures
        r == elim_eq_spec(*e1, *e2),
    decreases *e1,
{
    match (e1, e2) {
        (Elim::Function(_, a1), Elim::Function(_, a2)) => value_rb_equal(&*a1, &*a2),
        (Elim::Bool(_, t1, f1), Elim::Bool(_, t2, f2)) => term_eq(&*t1, &*t2) && term_eq(
            &*f1,
            &*f2,
        ),
        (Elim::Int(_, bs1, d1), Elim::Int(_, bs2, d2)) => {
            if !term_eq(&*d1, &*d2) {
                return false;
            }
            if bs1.len() != bs2.len() {
                return false;
            }
            let mut i: usize = 0;
            while i < bs1.len()
                invariant
                    0 <= i <= bs1@.len(),
                    bs1@.len() == bs2@.len(),
                    forall|j: int|
                        0 <= j < i ==> {
                            &&& (#[trigger] bs1@[j]).0.neg == bs2@[j].0.neg
                            &&& bs1@[j].0.digits@ == bs2@[j].0.digits@
                            &&& term_eq_spec(bs1@[j].1, bs2@[j].1)
                        },
                decreases bs1@.len() - i,
            {
                let k1 = &bs1[i].0;
                let k2 = &bs2[i].0;
                if k1.neg != k2.neg || !crate::term::vec_u8_eq(&k1.digits, &k2.digits) {
                    return false;
                }
                if !term_eq(&bs1[i].1, &bs2[i].1) {
                    return false;
                }
                i += 1;
            }
            true
        },
        _ => false,
    }
}

/// Decide equality of heads, ignoring ranges.
pub fn head_equal(h1: &Head, h2: &Head) -> (r: bool)
    ensures
        r == head_eq_spec(*h1, *h2),
{
    match (h1, h2) {
        (Head::Global(_, n1), Head::Global(_, n2)) => string_eq(n1, n2),
        (Head::Item(_, n1), Head::Item(_, n2)) => string_eq(n1, n2),
        (Head::Error(_), Head::Error(_)) => true,
        _ => false,
    }
}

/// Check that two values are definitionally equal.
#[verifier::loop_isolation(false)]
pub fn equal(val1: &Value, val2: &Value) -> (r: bool)
    ensures
        r == equal_spec(*val1, *val2),
    decreases *val1,
{
    match (val1, val2) {
        (Value::Error(_), _) => true,
        (_, Value::Error(_)) => true,
        (Value::Neutral(h1, es1), Value::Neutral(h2, es2)) => {
            if !head_equal(h1, h2) {
                return false;
            }
            if es1.len() != es2.len() {
                return false;
            }
            let mut i: usize = 0;
            while i < es1.len()
                invariant
                    0 <= i <= es1@.len(),
                    es1@.len() == es2@.len(),
                    forall|j: int| 0 <= j < i ==> elim_eq_spec(#[trigger] es1@[j], es2@[j]),
                decreases es1@.len() - i,
            {
                if !elim_equal(&es1[i], &es2[i]) {
                    return false;
                }
                i += 1;
            }
            true
        },
        (Value::Universe(_, l1), Value::Universe(_, l2)) => *l1 == *l2,
        (Value::FormatType(_), Value::FormatType(_)) => true,
        (Value::FunctionType(_, p1, b1), Value::FunctionType(_, p2, b2)) => equal(&*p1, &*p2)
            && equal(&*b1, &*b2),
        (Value::Constant(_, c1), Value::Constant(_, c2)) => const_eq(c1, c2),
        _ => false,
    }
}

/// `t` is the read-back of the neutral with head `h` and spine `es`: the
/// head's term form wrapped in the term eliminators of the spine, outermost
/// last, each keeping its remembered range.
pub open spec fn rbn_rel(h: Head, es: Seq<Elim>, t: Term) -> bool
    decreases es,
{
    if es.len() == 0 {
        match h {
            Head::Global(r, n) => t matches Term::Global(r2, n2) && r2 == r && n2 == n,
            Head::Item(r, n) => t matches Term::Item(r2, n2) && r2 == r && n2 == n,
            Head::Error(r) => t == Term::Error(r),
        }
    } else {
        match es.last() {
            Elim::Function(r, a) => t matches Term::FunctionElim(r2, ht, at) && r2 == r && rbn_rel(
                h,
                es.drop_last(),
                *ht,
            ) && rb_rel(*a, *at),
            Elim::Bool(r, tt, ff) => t matches Term::BoolElim(r2, ht, t2, f2) && r2 == r && rbn_rel(
                h,
                es.drop_last(),
                *ht,
            ) && t2 == tt && f2 == ff,
            Elim::Int(r, bs, d) => t matches Term::IntElim(r2, ht, bs2, d2) && r2 == r && rbn_rel(
                h,
                es.drop_last(),
                *ht,
            ) && bs2 == bs && d2 == d,
        }
    }
}

/// `t` is the read-back of the value `v`.
pub open spec fn rb_rel(v: Value, t: Term) -> bool
    decreases v,
{
    match v {
        Value::Neutral(h, es) => rbn_rel(h, es@, t),
        Value::Universe(r, l) => t == Term::Universe(r, l),
        Value::FormatType(r) => t == Term::FormatType(r),
        Value::FunctionType(r, p, b) => t matches Term::FunctionType(r2, pt, bt) && r2 == r
            && rb_rel(*p, *pt) && rb_rel(*b, *bt),
        Value::Constant(r, c) => t matches Term::Constant(r2, c2) && r2 == r && const_eq_spec(c2, c),
        Value::Error(r) => t == Term::Error(r),
    }
}

/// Read a neutral term back into the term syntax.
#[verifier::loop_isolation(false)]
pub fn read_back_neutral(head: &Head, elims: &Vec<Elim>) -> (r: Term)
    ensures
        rbn_rel(*head, elims@, r),
    decreases elims@,
{
    let mut t = match head {
        Head::Global(r, n) => Term::Global(*r, n.clone()),
        Head::Item(r, n) => Term::Item(*r, n.clone()),
        Head::Error(r) => Term::Error(*r),
    };
    let mut i: usize = 0;
    proof {
        assert(elims@.take(0) =~= Seq::<Elim>::empty());
    }
    while i < elims.len()
        invariant
            0 <= i <= elims@.len(),
            rbn_rel(*head, elims@.take(i as int), t),
        decreases elims@.len() - i,
    {
        let ghost prefix = elims@.take(i as int);
        match &elims[i] {
            Elim::Function(r, a) => {
                let at = read_back(&*a);
                t = Term::FunctionElim(*r, Arc::new(t), Arc::new(at));
            },
            Elim::Bool(r, tt, ff) => {
                t = Term::BoolElim(*r, Arc::new(t), arc_clone(tt), arc_clone(ff));
            },
            Elim::Int(r, bs, d) => {
                t = Term::IntElim(*r, Arc::new(t), arc_clone(bs), arc_clone(d));
            },
        }
        i += 1;
        proof {
            assert(elims@.take(i as int).drop_last() =~= prefix);
            assert(elims@.take(i as int).last() == elims@[i - 1]);
        }
    }
    proof {
        assert(elims@.take(elims@.len() as int) =~= elims@);
    }
    t
}

/// Read a value back into the term syntax.
pub fn read_back(value: &Value) -> (r: Term)
    ensures
        rb_rel(*value, r),
    decreases *value,
{
    match value {
        Value::Neutral(head, elims) => read_back_neutral(head, elims),
        Value::Universe(r, l) => Term::Universe(*r, *l),
        Value::FormatType(r) => Term::FormatType(*r),
        Value::FunctionType(r, p, b) => {
            let pt = read_back(&*p);
            let bt = read_back(&*b);
            Term::FunctionType(*r, Arc::new(pt), Arc::new(bt))
        },
        Value::Constant(r, c) => Term::Constant(*r, const_copy(c)),
        Value::Error(r) => Term::Error(*r),
    }
}

/// Evaluate a term and read the result back: the normal form of a term.
pub fn normalize(globals: &Globals, items: &Vec<Item>, term: &Term) -> (r: Term)
    requires
        wf_globals(*globals),
        wf_items(items@),
    ensures
        exists|v: Value| #[trigger]
            eval_rel(*globals, items@, *term, v) && rb_rel(v, r),
{
    let v = eval(globals, items, term);
    read_back(&v)
}

} // verus!
