//! Laws of the semantics: definitional equality is reflexive and symmetric
//! (and transitive away from errors), errors absorb every comparison,
//! evaluation is deterministic, and the boundary behaviours of the
//! eliminators hold.

use vstd::prelude::*;

use crate::term::{branch_index, global_index, item_index, Constant, Elim, Globals, Head, Item,
    Term, Value};
use crate::semantics::{app_step, bool_step, const_eq_spec, elim_eq_spec, equal_spec, eval_rel,
    eval_rel_at, head_eq_spec, int_step, lemma_globals_below_full, lemma_items_below_full,
    lemma_no_items_below, term_eq_spec, term_globals_below, term_items_below, term_no_items,
    value_rb_eq, wf_globals, wf_items};

verus! {

broadcast use vstd::std_specs::vec::group_vec_axioms, vstd::seq::group_seq_axioms;

/// Error absorption: an `Error` value is definitionally equal to every
/// value, on either side.
pub proof fn lemma_error_absorbs(r: crate::Range, v: &Value)
    ensures
        equal_spec(Value::Error(r), *v),
        equal_spec(*v, Value::Error(r)),
{
}

/// Structural term equality is reflexive.
pub proof fn lemma_term_eq_refl(t: &Term)
    ensures
        term_eq_spec(*t, *t),
    decreases *t,
{
    match t {
        Term::Ann(_, a, b) => {
            lemma_term_eq_refl(&**a);
            lemma_term_eq_refl(&**b);
        },
        Term::FunctionType(_, a, b) => {
            lemma_term_eq_refl(&**a);
            lemma_term_eq_refl(&**b);
        },
        Term::FunctionElim(_, a, b) => {
            lemma_term_eq_refl(&**a);
            lemma_term_eq_refl(&**b);
        },
        Term::BoolElim(_, h, a, b) => {
            lemma_term_eq_refl(&**h);
            lemma_term_eq_refl(&**a);
            lemma_term_eq_refl(&**b);
        },
        Term::IntElim(_, h, bs, d) => {
            lemma_term_eq_refl(&**h);
            lemma_term_eq_refl(&**d);
            assert forall|i: int| 0 <= i < bs@.len() implies {
                &&& (#[trigger] bs@[i]).0.neg == bs@[i].0.neg
                &&& bs@[i].0.digits@ == bs@[i].0.digits@
                &&& term_eq_spec(bs@[i].1, bs@[i].1)
            } by {
                lemma_term_eq_refl(&bs@[i].1);
            }
        },
        _ => {},
    }
}

/// Read-back equality of values is reflexive.
pub proof fn lemma_value_rb_eq_refl(v: &Value)
    ensures
        value_rb_eq(*v, *v),
    decreases *v,
{
    match v {
        Value::Neutral(h, es) => {
            assert forall|i: int| 0 <= i < es@.len() implies elim_eq_spec(
                #[trigger] es@[i],
                es@[i],
            ) by {
                lemma_elim_eq_refl(&es@[i]);
            }
        },
        Value::FunctionType(_, p, b) => {
            lemma_value_rb_eq_refl(&**p);
            lemma_value_rb_eq_refl(&**b);
        },
        _ => {},
    }
}

proof fn lemma_elim_eq_refl(e: &Elim)
    ensures
        elim_eq_spec(*e, *e),
    decreases *e,
{
    match e {
        Elim::Function(_, a) => {
            lemma_value_rb_eq_refl(&**a);
        },
        Elim::Bool(_, t, f) => {
            lemma_term_eq_refl(&**t);
            lemma_term_eq_refl(&**f);
        },
        Elim::Int(_, bs, d) => {
            lemma_term_eq_refl(&**d);
            assert forall|i: int| 0 <= i < bs@.len() implies {
                &&& (#[trigger] bs@[i]).0.neg == bs@[i].0.neg
                &&& bs@[i].0.digits@ == bs@[i].0.digits@
                &&& term_eq_spec(bs@[i].1, bs@[i].1)
            } by {
                lemma_term_eq_refl(&bs@[i].1);
            }
        },
    }
}

/// Definitional equality is reflexive: every value equals itself.
pub proof fn lemma_equal_refl(v: &Value)
    ensures
        equal_spec(*v, *v),
    decreases *v,
{
    match v {
        Value::Neutral(h, es) => {
            assert forall|i: int| 0 <= i < es@.len() implies elim_eq_spec(
                #[trigger] es@[i],
                es@[i],
            ) by {
                lemma_elim_eq_refl(&es@[i]);
            }
        },
        Value::FunctionType(_, p, b) => {
            lemma_equal_refl(&**p);
            lemma_equal_refl(&**b);
        },
        _ => {},
    }
}

/// Structural term equality is symmetric.
pub proof fn lemma_term_eq_sym(t1: &Term, t2: &Term)
    ensures
        term_eq_spec(*t1, *t2) == term_eq_spec(*t2, *t1),
    decreases *t1,
{
    match (t1, t2) {
        (Term::Ann(_, a1, b1), Term::Ann(_, a2, b2)) => {
            lemma_term_eq_sym(&**a1, &**a2);
            lemma_term_eq_sym(&**b1, &**b2);
        },
        (Term::FunctionType(_, a1, b1), Term::FunctionType(_, a2, b2)) => {
            lemma_term_eq_sym(&**a1, &**a2);
            lemma_term_eq_sym(&**b1, &**b2);
        },
        (Term::FunctionElim(_, a1, b1), Term::FunctionElim(_, a2, b2)) => {
            lemma_term_eq_sym(&**a1, &**a2);
            lemma_term_eq_sym(&**b1, &**b2);
        },
        (Term::BoolElim(_, h1, a1, b1), Term::BoolElim(_, h2, a2, b2)) => {
            lemma_term_eq_sym(&**h1, &**h2);
            lemma_term_eq_sym(&**a1, &**a2);
            lemma_term_eq_sym(&**b1, &**b2);
        },
        (Term::IntElim(_, h1, bs1, d1), Term::IntElim(_, h2, bs2, d2)) => {
            lemma_term_eq_sym(&**h1, &**h2);
            lemma_term_eq_sym(&**d1, &**d2);
            if bs1@.len() == bs2@.len() {
                assert forall|i: int| 0 <= i < bs1@.len() implies term_eq_spec(
                    (#[trigger] bs1@[i]).1,
                    bs2@[i].1,
                ) == term_eq_spec(bs2@[i].1, bs1@[i].1) by {
                    lemma_term_eq_sym(&bs1@[i].1, &bs2@[i].1);
                }
            }
        },
        _ => {},
    }
}

/// Read-back equality of values is symmetric.
pub proof fn lemma_value_rb_eq_sym(v1: &Value, v2: &Value)
    ensures
        value_rb_eq(*v1, *v2) == value_rb_eq(*v2, *v1),
    decreases *v1,
{
    match (v1, v2) {
        (Value::Neutral(h1, es1), Value::Neutral(h2, es2)) => {
            if es1@.len() == es2@.len() {
                assert forall|i: int| 0 <= i < es1@.len() implies elim_eq_spec(
                    #[trigger] es1@[i],
                    es2@[i],
                ) == elim_eq_spec(es2@[i], es1@[i]) by {
                    lemma_elim_eq_sym(&es1@[i], &es2@[i]);
                }
            }
        },
        (Value::FunctionType(_, p1, b1), Value::FunctionType(_, p2, b2)) => {
            lemma_value_rb_eq_sym(&**p1, &**p2);
            lemma_value_rb_eq_sym(&**b1, &**b2);
        },
        _ => {},
    }
}

proof fn lemma_elim_eq_sym(e1: &Elim, e2: &Elim)
    ensures
        elim_eq_spec(*e1, *e2) == elim_eq_spec(*e2, *e1),
    decreases *e1,
{
    match (e1, e2) {
        (Elim::Function(_, a1), Elim::Function(_, a2)) => {
            lemma_value_rb_eq_sym(&**a1, &**a2);
        },
        (Elim::Bool(_, t1, f1), Elim::Bool(_, t2, f2)) => {
            lemma_term_eq_sym(&**t1, &**t2);
            lemma_term_eq_sym(&**f1, &**f2);
        },
        (Elim::Int(_, bs1, d1), Elim::Int(_, bs2, d2)) => {
            lemma_term_eq_sym(&**d1, &**d2);
            if bs1@.len() == bs2@.len() {
                assert forall|i: int| 0 <= i < bs1@.len() implies term_eq_spec(
                    (#[trigger] bs1@[i]).1,
                    bs2@[i].1,
                ) == term_eq_spec(bs2@[i].1, bs1@[i].1) by {
                    lemma_term_eq_sym(&bs1@[i].1, &bs2@[i].1);
                }
            }
        },
        _ => {},
    }
}

/// Definitional equality is symmetric.
pub proof fn lemma_equal_sym(v1: &Value, v2: &Value)
    ensures
        equal_spec(*v1, *v2) == equal_spec(*v2, *v1),
    decreases *v1,
{
    match (v1, v2) {
        (Value::Neutral(h1, es1), Value::Neutral(h2, es2)) => {
            if es1@.len() == es2@.len() {
                assert forall|i: int| 0 <= i < es1@.len() implies elim_eq_spec(
                    #[trigger] es1@[i],
                    es2@[i],
                ) == elim_eq_spec(es2@[i], es1@[i]) by {
                    lemma_elim_eq_sym(&es1@[i], &es2@[i]);
                }
            }
        },
        (Value::FunctionType(_, p1, b1), Value::FunctionType(_, p2, b2)) => {
            lemma_equal_sym(&**p1, &**p2);
            lemma_equal_sym(&**b1, &**b2);
        },
        _ => {},
    }
}

/// Two values are similar when they agree everywhere except possibly in the
/// identity of the vectors that carry neutral spines: same heads, same
/// ranges, same shared subtrees, and similar eliminators pairwise. Distinct
/// runs of evaluation agree up to this relation.
pub open spec fn value_sim(v1: Value, v2: Value) -> bool
    decreases v1,
{
    match (v1, v2) {
        (Value::Neutral(h1, es1), Value::Neutral(h2, es2)) => h1 == h2 && es1@.len() == es2@.len()
            && (forall|i: int| 0 <= i < es1@.len() ==> elim_sim(#[trigger] es1@[i], es2@[i])),
        (Value::FunctionType(r1, p1, b1), Value::FunctionType(r2, p2, b2)) => r1 == r2 && value_sim(
            *p1,
            *p2,
        ) && value_sim(*b1, *b2),
        (Value::Constant(r1, c1), Value::Constant(r2, c2)) => r1 == r2 && const_eq_spec(c1, c2),
        _ => v1 == v2,
    }
}

/// Similarity of eliminators: equal except possibly inside function
/// argument values.
pub open spec fn elim_sim(e1: Elim, e2: Elim) -> bool
    decreases e1,
{
    match (e1, e2) {
        (Elim::Function(r1, a1), Elim::Function(r2, a2)) => r1 == r2 && value_sim(*a1, *a2),
        _ => e1 == e2,
    }
}

/// Similarity of eliminators is symmetric.
proof fn lemma_elim_sim_sym(e1: &Elim, e2: &Elim)
    ensures
        elim_sim(*e1, *e2) == elim_sim(*e2, *e1),
    decreases *e1,
{
    match (e1, e2) {
        (Elim::Function(_, a1), Elim::Function(_, a2)) => {
            lemma_value_sim_sym(&**a1, &**a2);
        },
        _ => {},
    }
}

/// Similarity of values is symmetric.
pub proof fn lemma_value_sim_sym(v1: &Value, v2: &Value)
    ensures
        value_sim(*v1, *v2) == value_sim(*v2, *v1),
    decreases *v1,
{
    match (v1, v2) {
        (Value::Neutral(h1, es1), Value::Neutral(h2, es2)) => {
            if es1@.len() == es2@.len() {
                assert forall|i: int| 0 <= i < es1@.len() implies elim_sim(
                    #[trigger] es1@[i],
                    es2@[i],
                ) == elim_sim(es2@[i], es1@[i]) by {
                    lemma_elim_sim_sym(&es1@[i], &es2@[i]);
                }
            }
        },
        (Value::FunctionType(_, p1, b1), Value::FunctionType(_, p2, b2)) => {
            lemma_value_sim_sym(&**p1, &**p2);
            lemma_value_sim_sym(&**b1, &**b2);
        },
        _ => {},
    }
}


/// Pointwise equal eliminator vectors of length one, rebuilt from their
/// accessors, are similar.
proof fn lemma_singleton_elim_sim(res_es1: Seq<Elim>, res_es2: Seq<Elim>)
    requires
        res_es1.len() == 1,
        res_es2.len() == 1,
        res_es1[0] == res_es2[0],
    ensures
        forall|i: int| 0 <= i < res_es1.len() ==> elim_sim(#[trigger] res_es1[i], res_es2[i]),
{
    assert forall|i: int| 0 <= i < res_es1.len() implies elim_sim(
        #[trigger] res_es1[i],
        res_es2[i],
    ) by {
        lemma_elim_sim_refl(&res_es1[i]);
    }
}

/// Similarity of eliminators is reflexive.
proof fn lemma_elim_sim_refl(e: &Elim)
    ensures
        elim_sim(*e, *e),
    decreases *e,
{
    match e {
        Elim::Function(_, a) => {
            lemma_value_sim_refl(&**a);
        },
        _ => {},
    }
}

/// Similarity of values is reflexive.
pub proof fn lemma_value_sim_refl(v: &Value)
    ensures
        value_sim(*v, *v),
    decreases *v,
{
    match v {
        Value::Neutral(h, es) => {
            assert forall|i: int| 0 <= i < es@.len() implies elim_sim(
                #[trigger] es@[i],
                es@[i],
            ) by {
                lemma_elim_sim_refl(&es@[i]);
            }
        },
        Value::FunctionType(_, p, b) => {
            lemma_value_sim_refl(&**p);
            lemma_value_sim_refl(&**b);
        },
        _ => {},
    }
}

/// Evaluation is deterministic: two values of the same term under the same
/// tables are similar.
pub proof fn lemma_eval_det(
    g: &Globals,
    items: Seq<Item>,
    t: &Term,
    v1: &Value,
    v2: &Value,
    k: int,
    gb: int,
)
    requires
        0 <= k,
        0 <= gb,
        wf_globals(*g),
        wf_items(items),
        term_items_below(items, *t, k),
        term_globals_below(*g, *t, gb),
        eval_rel_at(*g, items, *t, *v1, k, gb),
        eval_rel_at(*g, items, *t, *v2, k, gb),
    ensures
        value_sim(*v1, *v2),
    decreases k, gb, *t,
{
    match t {
        Term::Global(r, n) => {
            let m = global_index(g.entries@, n@);
            if m >= 0 {
                crate::term::lemma_global_index(g.entries@, n@);
                if let Some(d) = g.entries@[m].1.term {
                    assert(term_no_items(*d) && term_globals_below(*g, *d, m));
                    lemma_no_items_below(items, &*d, 0);
                    lemma_eval_det(g, items, &*d, v1, v2, 0, m);
                }
            }
        },
        Term::Item(r, n) => {
            let m = item_index(items, n@);
            if m >= 0 {
                crate::term::lemma_item_index(items, n@);
                if let Item::Alias(a) = items[m] {
                    assert(term_items_below(items, *a.term, m));
                    lemma_globals_below_full(g, &*a.term);
                    lemma_eval_det(g, items, &*a.term, v1, v2, m, g.entries@.len() as int);
                }
            }
        },
        Term::Ann(_, t1, _) => {
            lemma_eval_det(g, items, &**t1, v1, v2, k, gb);
        },
        Term::FunctionType(_, p, b) => {
            if let Value::FunctionType(_, pv1, bv1) = v1 {
                if let Value::FunctionType(_, pv2, bv2) = v2 {
                    lemma_eval_det(g, items, &**p, &**pv1, &**pv2, k, gb);
                    lemma_eval_det(g, items, &**b, &**bv1, &**bv2, k, gb);
                }
            }
        },
        Term::FunctionElim(r, h, a) => {
            let hv1 = choose|hv: Value|
                #[trigger] crate::semantics::head_val_mark(hv) && eval_rel_at(*g, items, **h, hv, k, gb) && app_step(
                    *g,
                    items,
                    *t,
                    hv,
                    *v1,
                    k,
                    gb,
                );
            let hv2 = choose|hv: Value|
                #[trigger] crate::semantics::head_val_mark(hv) && eval_rel_at(*g, items, **h, hv, k, gb) && app_step(
                    *g,
                    items,
                    *t,
                    hv,
                    *v2,
                    k,
                    gb,
                );
            lemma_eval_det(g, items, &**h, &hv1, &hv2, k, gb);
            if let Value::Neutral(hh1, es1) = &hv1 {
                if let Value::Neutral(hh2, es2) = &hv2 {
                    if let Value::Neutral(rh1, res_es1) = v1 {
                        if let Value::Neutral(rh2, res_es2) = v2 {
                            let ghost e1last = res_es1@.last();
                            let ghost e2last = res_es2@.last();
                            if let Elim::Function(_, av1) = e1last {
                                if let Elim::Function(_, av2) = e2last {
                                    lemma_eval_det(g, items, &**a, &*av1, &*av2, k, gb);
                                    assert forall|i: int|
                                        0 <= i < res_es1@.len() implies elim_sim(
                                        #[trigger] res_es1@[i],
                                        res_es2@[i],
                                    ) by {
                                        if i < res_es1@.len() - 1 {
                                            assert(res_es1@[i] == res_es1@.drop_last()[i]);
                                            assert(res_es2@[i] == res_es2@.drop_last()[i]);
                                            assert(elim_sim(es1@[i], es2@[i]));
                                        } else {
                                            assert(res_es1@[i] == e1last);
                                            assert(res_es2@[i] == e2last);
                                        }
                                    }
                                }
                            }
                        }
                    }
                }
            }
        },
        Term::BoolElim(r, h, tt, ff) => {
            let hv1 = choose|hv: Value|
                #[trigger] crate::semantics::head_val_mark(hv) && eval_rel_at(*g, items, **h, hv, k, gb) && bool_step(
                    *g,
                    items,
                    *t,
                    hv,
                    *v1,
                    k,
                    gb,
                );
            let hv2 = choose|hv: Value|
                #[trigger] crate::semantics::head_val_mark(hv) && eval_rel_at(*g, items, **h, hv, k, gb) && bool_step(
                    *g,
                    items,
                    *t,
                    hv,
                    *v2,
                    k,
                    gb,
                );
            lemma_eval_det(g, items, &**h, &hv1, &hv2, k, gb);
            if let Value::Neutral(hh1, es1) = &hv1 {
                if let Value::Neutral(hh2, es2) = &hv2 {
                    if es1@.len() == 0 && (*hh1 matches Head::Global(_, n) && (n@ == "true"@ || n@
                        == "false"@)) {
                        if *hh1 matches Head::Global(_, n) && n@ == "true"@ {
                            lemma_eval_det(g, items, &**tt, v1, v2, k, gb);
                        } else {
                            lemma_eval_det(g, items, &**ff, v1, v2, k, gb);
                        }
                    } else {
                        if let Value::Neutral(rh1, res_es1) = v1 {
                            if let Value::Neutral(rh2, res_es2) = v2 {
                                assert forall|i: int|
                                    0 <= i < res_es1@.len() implies elim_sim(
                                    #[trigger] res_es1@[i],
                                    res_es2@[i],
                                ) by {
                                    if i < res_es1@.len() - 1 {
                                        assert(res_es1@[i] == res_es1@.drop_last()[i]);
                                        assert(res_es2@[i] == res_es2@.drop_last()[i]);
                                        assert(elim_sim(es1@[i], es2@[i]));
                                    } else {
                                        assert(res_es1@[i] == res_es1@.last());
                                        assert(res_es2@[i] == res_es2@.last());
                                    }
                                }
                            }
                        }
                    }
                }
            } else {
                if let Value::Neutral(rh1, res_es1) = v1 {
                    if let Value::Neutral(rh2, res_es2) = v2 {
                        assert(res_es1@[0] == res_es2@[0]);
                        lemma_singleton_elim_sim(res_es1@, res_es2@);
                    }
                }
            }
        },
        Term::IntElim(r, h, bs, d) => {
            let hv1 = choose|hv: Value|
                #[trigger] crate::semantics::head_val_mark(hv) && eval_rel_at(*g, items, **h, hv, k, gb) && int_step(
                    *g,
                    items,
                    *t,
                    hv,
                    *v1,
                    k,
                    gb,
                );
            let hv2 = choose|hv: Value|
                #[trigger] crate::semantics::head_val_mark(hv) && eval_rel_at(*g, items, **h, hv, k, gb) && int_step(
                    *g,
                    items,
                    *t,
                    hv,
                    *v2,
                    k,
                    gb,
                );
            lemma_eval_det(g, items, &**h, &hv1, &hv2, k, gb);
            if hv1 matches Value::Constant(_, c1) && c1 matches Constant::Int(key2) {
                if let Value::Constant(_, c2b) = &hv2 {
                    if let Constant::Int(key2b) = c2b {
                        if let Value::Constant(_, c1c) = &hv1 {
                            if let Constant::Int(key1c) = c1c {
                                crate::term::lemma_branch_index_congruent(bs@, *key1c, *key2b);
                            }
                        }
                    }
                }
                if let Value::Constant(_, c1b) = &hv1 {
                    if let Constant::Int(key) = c1b {
                        let bi = branch_index(bs@, *key);
                        if bi >= 0 {
                            crate::term::lemma_branch_index(bs@, *key);
                            assert(term_items_below(items, bs@[bi].1, k));
                            assert(term_globals_below(*g, bs@[bi].1, gb));
                            lemma_eval_det(g, items, &bs@[bi].1, v1, v2, k, gb);
                        } else {
                            lemma_eval_det(g, items, &**d, v1, v2, k, gb);
                        }
                    }
                }
            } else {
                if let Value::Neutral(hh1, es1) = &hv1 {
                    if let Value::Neutral(hh2, es2) = &hv2 {
                        if let Value::Neutral(rh1, res_es1) = v1 {
                            if let Value::Neutral(rh2, res_es2) = v2 {
                                assert forall|i: int|
                                    0 <= i < res_es1@.len() implies elim_sim(
                                    #[trigger] res_es1@[i],
                                    res_es2@[i],
                                ) by {
                                    if i < res_es1@.len() - 1 {
                                        assert(res_es1@[i] == res_es1@.drop_last()[i]);
                                        assert(res_es2@[i] == res_es2@.drop_last()[i]);
                                        assert(elim_sim(es1@[i], es2@[i]));
                                    } else {
                                        assert(res_es1@[i] == res_es1@.last());
                                        assert(res_es2@[i] == res_es2@.last());
                                    }
                                }
                            }
                        }
                    }
                } else {
                    if let Value::Neutral(rh1, res_es1) = v1 {
                        if let Value::Neutral(rh2, res_es2) = v2 {
                            assert(res_es1@[0] == res_es2@[0]);
                            lemma_singleton_elim_sim(res_es1@, res_es2@);
                        }
                    }
                }
            }
        },
        _ => {},
    }
}

/// An integer eliminator whose scrutinee evaluates to an integer constant
/// matching none of its branches evaluates to its default; in particular,
/// with no branches at all it always evaluates to the default.
pub proof fn lemma_int_elim_default(
    g: &Globals,
    items: Seq<Item>,
    t: &Term,
    hv: &Value,
    res: &Value,
    dres: &Value,
)
    requires
        wf_globals(*g),
        wf_items(items),
        *t matches Term::IntElim(r, h, bs, d) && {
            &&& eval_rel(*g, items, *h, *hv)
            &&& (*hv matches Value::Constant(_, c) && c matches Constant::Int(key)
                && branch_index(bs@, key) == -1)
            &&& eval_rel(*g, items, *d, *dres)
        },
        eval_rel(*g, items, *t, *res),
    ensures
        value_sim(*res, *dres),
{
    let k = items.len() as int;
    let gb = g.entries@.len() as int;
    lemma_items_below_full(items, t);
    lemma_globals_below_full(g, t);
    if let Term::IntElim(r, h, bs, d) = t {
        lemma_items_below_full(items, &**d);
        lemma_globals_below_full(g, &**d);
        lemma_items_below_full(items, &**h);
        lemma_globals_below_full(g, &**h);
        let hv2 = choose|hvx: Value|
            #[trigger] crate::semantics::head_val_mark(hvx) && eval_rel_at(*g, items, **h, hvx, k, gb) && int_step(
                *g,
                items,
                *t,
                hvx,
                *res,
                k,
                gb,
            );
        lemma_eval_det(g, items, &**h, hv, &hv2, k, gb);
        if let Value::Constant(_, c1) = hv {
            if let Constant::Int(key1) = c1 {
                if let Value::Constant(_, c2) = &hv2 {
                    if let Constant::Int(key2) = c2 {
                        crate::term::lemma_branch_index_congruent(bs@, *key1, *key2);
                    }
                }
            }
        }
        lemma_eval_det(g, items, &**d, res, dres, k, gb);
    }
}

/// A boolean eliminator on a neutral scrutinee that is not the bare `true`
/// or `false` global extends the spine and performs no reduction.
pub proof fn lemma_bool_elim_extends(
    g: &Globals,
    items: Seq<Item>,
    t: &Term,
    hv: &Value,
    res: &Value,
)
    requires
        wf_globals(*g),
        wf_items(items),
        *t matches Term::BoolElim(r, h, tt, ff) && eval_rel(*g, items, *h, *hv),
        *hv matches Value::Neutral(hh, es) && !(es@.len() == 0 && (hh matches Head::Global(_, n)
            && (n@ == "true"@ || n@ == "false"@))),
        eval_rel(*g, items, *t, *res),
    ensures
        *t matches Term::BoolElim(r, h, tt, ff) && (*hv matches Value::Neutral(hh, es) && (
        *res matches Value::Neutral(rh, res_es) && rh == hh && res_es@.len() == es@.len() + 1 && (
        forall|i: int| 0 <= i < es@.len() ==> elim_sim(#[trigger] res_es@[i], es@[i])) && (
        res_es@.last() matches Elim::Bool(r2, t2, f2) && r2 == r && t2 == tt && f2 == ff))),
{
    let k = items.len() as int;
    let gb = g.entries@.len() as int;
    lemma_items_below_full(items, t);
    lemma_globals_below_full(g, t);
    if let Term::BoolElim(r, h, tt, ff) = t {
        lemma_items_below_full(items, &**h);
        lemma_globals_below_full(g, &**h);
        let hv2 = choose|hvx: Value|
            #[trigger] crate::semantics::head_val_mark(hvx) && eval_rel_at(*g, items, **h, hvx, k, gb) && bool_step(
                *g,
                items,
                *t,
                hvx,
                *res,
                k,
                gb,
            );
        lemma_eval_det(g, items, &**h, hv, &hv2, k, gb);
        if let Value::Neutral(hh, es) = hv {
            if let Value::Neutral(hh2, es2) = &hv2 {
                if let Value::Neutral(rh, res_es) = res {
                    assert forall|i: int| 0 <= i < es@.len() implies elim_sim(
                        #[trigger] res_es@[i],
                        es@[i],
                    ) by {
                        assert(res_es@[i] == res_es@.drop_last()[i]);
                        assert(elim_sim(es@[i], es2@[i]));
                        lemma_elim_sim_sym(&es@[i], &es2@[i]);
                    }
                }
            }
        }
    }
}

} // verus!

verus! {

/// The values evaluation can produce: every neutral head resolves the way
/// evaluation resolves it (an abstract global, or a struct item), an error
/// head carries at least one eliminator that is not an application, the
/// distinguished boolean globals never carry a boolean eliminator first,
/// and every function argument in a spine is itself such a value.
pub open spec fn image_value(g: Globals, items: Seq<Item>, v: Value) -> bool
    decreases v,
{
    match v {
        Value::Neutral(h, es) => {
            &&& head_image(g, items, h, es@)
            &&& forall|i: int| 0 <= i < es@.len() ==> image_elim(g, items, #[trigger] es@[i])
        },
        Value::FunctionType(_, p, b) => image_value(g, items, *p) && image_value(g, items, *b),
        _ => true,
    }
}

/// The conditions evaluation guarantees of a neutral's head and the front
/// of its spine.
pub open spec fn head_image(g: Globals, items: Seq<Item>, h: Head, es: Seq<Elim>) -> bool {
    match h {
        Head::Global(_, n) => {
            let m = global_index(g.entries@, n@);
            &&& m >= 0
            &&& g.entries@[m].1.term is None
            &&& ((n@ == "true"@ || n@ == "false"@) && es.len() >= 1 ==> !(es[0] is Bool))
        },
        Head::Item(_, n) => {
            let m = item_index(items, n@);
            m >= 0 && items[m] is Struct
        },
        Head::Error(_) => es.len() >= 1 && !(es[0] is Function),
    }
}

/// The source range a head carries.
pub open spec fn head_range(h: Head) -> crate::Range {
    match h {
        Head::Global(r, _) => r,
        Head::Item(r, _) => r,
        Head::Error(r) => r,
    }
}

/// Eliminators of values evaluation can produce.
pub open spec fn image_elim(g: Globals, items: Seq<Item>, e: Elim) -> bool
    decreases e,
{
    match e {
        Elim::Function(_, a) => image_value(g, items, *a),
        _ => true,
    }
}

/// Every value evaluation produces is in the image.
pub proof fn lemma_eval_image(
    g: &Globals,
    items: Seq<Item>,
    t: &Term,
    v: &Value,
    k: int,
    gb: int,
)
    requires
        0 <= k,
        0 <= gb,
        wf_globals(*g),
        wf_items(items),
        term_items_below(items, *t, k),
        term_globals_below(*g, *t, gb),
        eval_rel_at(*g, items, *t, *v, k, gb),
    ensures
        image_value(*g, items, *v),
    decreases k, gb, *t,
{
    match t {
        Term::Global(r, n) => {
            let m = global_index(g.entries@, n@);
            if m >= 0 {
                crate::term::lemma_global_index(g.entries@, n@);
                if let Some(d) = g.entries@[m].1.term {
                    assert(term_no_items(*d) && term_globals_below(*g, *d, m));
                    lemma_no_items_below(items, &*d, 0);
                    lemma_eval_image(g, items, &*d, v, 0, m);
                }
            }
        },
        Term::Item(r, n) => {
            let m = item_index(items, n@);
            if m >= 0 {
                crate::term::lemma_item_index(items, n@);
                if let Item::Alias(a) = items[m] {
                    assert(term_items_below(items, *a.term, m));
                    lemma_globals_below_full(g, &*a.term);
                    lemma_eval_image(g, items, &*a.term, v, m, g.entries@.len() as int);
                }
            }
        },
        Term::Ann(_, t1, _) => {
            lemma_eval_image(g, items, &**t1, v, k, gb);
        },
        Term::FunctionType(_, p, b) => {
            if let Value::FunctionType(_, pv, bv) = v {
                lemma_eval_image(g, items, &**p, &**pv, k, gb);
                lemma_eval_image(g, items, &**b, &**bv, k, gb);
            }
        },
        Term::FunctionElim(r, h, a) => {
            let hv = choose|hvx: Value|
                #[trigger] crate::semantics::head_val_mark(hvx) && eval_rel_at(
                    *g,
                    items,
                    **h,
                    hvx,
                    k,
                    gb,
                ) && app_step(*g, items, *t, hvx, *v, k, gb);
            lemma_eval_image(g, items, &**h, &hv, k, gb);
            if let Value::Neutral(hh, es0) = &hv {
                if let Value::Neutral(rh, res_es) = v {
                    if let Elim::Function(_, av) = res_es@.last() {
                        lemma_eval_image(g, items, &**a, &*av, k, gb);
                        assert forall|i: int|
                            0 <= i < res_es@.len() implies image_elim(
                            *g,
                            items,
                            #[trigger] res_es@[i],
                        ) by {
                            if i < res_es@.len() - 1 {
                                assert(res_es@[i] == res_es@.drop_last()[i]);
                                assert(image_elim(*g, items, es0@[i]));
                            } else {
                                assert(res_es@[i] == res_es@.last());
                            }
                        }
                        if es0@.len() >= 1 {
                            assert(res_es@[0] == res_es@.drop_last()[0]);
                        }
                    }
                }
            }
        },
        Term::BoolElim(r, h, tt, ff) => {
            let hv = choose|hvx: Value|
                #[trigger] crate::semantics::head_val_mark(hvx) && eval_rel_at(
                    *g,
                    items,
                    **h,
                    hvx,
                    k,
                    gb,
                ) && bool_step(*g, items, *t, hvx, *v, k, gb);
            lemma_eval_image(g, items, &**h, &hv, k, gb);
            if let Value::Neutral(hh, es0) = &hv {
                if es0@.len() == 0 && (*hh matches Head::Global(_, n) && (n@ == "true"@ || n@
                    == "false"@)) {
                    if *hh matches Head::Global(_, n) && n@ == "true"@ {
                        lemma_eval_image(g, items, &**tt, v, k, gb);
                    } else {
                        lemma_eval_image(g, items, &**ff, v, k, gb);
                    }
                } else {
                    if let Value::Neutral(rh, res_es) = v {
                        assert forall|i: int|
                            0 <= i < res_es@.len() implies image_elim(
                            *g,
                            items,
                            #[trigger] res_es@[i],
                        ) by {
                            if i < res_es@.len() - 1 {
                                assert(res_es@[i] == res_es@.drop_last()[i]);
                                assert(image_elim(*g, items, es0@[i]));
                            } else {
                                assert(res_es@[i] == res_es@.last());
                            }
                        }
                        if es0@.len() >= 1 {
                            assert(res_es@[0] == res_es@.drop_last()[0]);
                        }
                    }
                }
            } else {
                if let Value::Neutral(rh, res_es) = v {
                    assert forall|i: int|
                        0 <= i < res_es@.len() implies image_elim(
                        *g,
                        items,
                        #[trigger] res_es@[i],
                    ) by {
                        assert(res_es@[i] == res_es@[0]);
                    }
                }
            }
        },
        Term::IntElim(r, h, bs, d) => {
            let hv = choose|hvx: Value|
                #[trigger] crate::semantics::head_val_mark(hvx) && eval_rel_at(
                    *g,
                    items,
                    **h,
                    hvx,
                    k,
                    gb,
                ) && int_step(*g, items, *t, hvx, *v, k, gb);
            lemma_eval_image(g, items, &**h, &hv, k, gb);
            match &hv {
                Value::Constant(_, c) => {
                    if let Constant::Int(key) = c {
                        let bi = branch_index(bs@, *key);
                        if 0 <= bi < bs@.len() {
                            assert(term_items_below(items, bs@[bi].1, k));
                            assert(term_globals_below(*g, bs@[bi].1, gb));
                            lemma_eval_image(g, items, &bs@[bi].1, v, k, gb);
                        } else {
                            lemma_eval_image(g, items, &**d, v, k, gb);
                        }
                    } else {
                        if let Value::Neutral(rh, res_es) = v {
                            assert forall|i: int|
                                0 <= i < res_es@.len() implies image_elim(
                                *g,
                                items,
                                #[trigger] res_es@[i],
                            ) by {
                                assert(res_es@[i] == res_es@[0]);
                            }
                        }
                    }
                },
                Value::Neutral(hh, es0) => {
                    if let Value::Neutral(rh, res_es) = v {
                        assert forall|i: int|
                            0 <= i < res_es@.len() implies image_elim(
                            *g,
                            items,
                            #[trigger] res_es@[i],
                        ) by {
                            if i < res_es@.len() - 1 {
                                assert(res_es@[i] == res_es@.drop_last()[i]);
                                assert(image_elim(*g, items, es0@[i]));
                            } else {
                                assert(res_es@[i] == res_es@.last());
                            }
                        }
                        if es0@.len() >= 1 {
                            assert(res_es@[0] == res_es@.drop_last()[0]);
                        }
                    }
                },
                _ => {
                    if let Value::Neutral(rh, res_es) = v {
                        assert forall|i: int|
                            0 <= i < res_es@.len() implies image_elim(
                            *g,
                            items,
                            #[trigger] res_es@[i],
                        ) by {
                            assert(res_es@[i] == res_es@[0]);
                        }
                    }
                },
            }
        },
        _ => {},
    }
}

} // verus!

verus! {

/// `w` is a neutral with the given head whose first `n` eliminators are
/// similar to the given ones.
pub open spec fn sim_spine_prefix(w: Value, h: Head, es: Seq<Elim>, n: int) -> bool {
    w matches Value::Neutral(hh, wes) && hh == h && wes@.len() == n && (forall|i: int|
        0 <= i < n ==> elim_sim(#[trigger] wes@[i], es[i]))
}

/// Evaluating the read-back of the first `n` eliminators of an image
/// neutral rebuilds that prefix of the spine, up to similarity; the empty
/// read-back of an error head evaluates to the error value itself.
proof fn lemma_eval_of_rbn(
    g: &Globals,
    items: Seq<Item>,
    h: &Head,
    es: Seq<Elim>,
    n: int,
    t1: &Term,
    v2: &Value,
)
    requires
        wf_globals(*g),
        wf_items(items),
        head_image(*g, items, *h, es),
        forall|i: int| 0 <= i < es.len() ==> image_elim(*g, items, #[trigger] es[i]),
        0 <= n <= es.len(),
        crate::semantics::rbn_rel(*h, es.take(n), *t1),
        eval_rel(*g, items, *t1, *v2),
    ensures
        if n == 0 && *h is Error {
            *v2 == Value::Error(head_range(*h))
        } else {
            sim_spine_prefix(*v2, *h, es, n)
        },
    decreases es, n,
{
    let k = items.len() as int;
    let gb = g.entries@.len() as int;
    lemma_items_below_full(items, t1);
    lemma_globals_below_full(g, t1);
    if n == 0 {
        assert(es.take(0) =~= Seq::<Elim>::empty());
        match h {
            Head::Global(hr, hn) => {
                if let Term::Global(r2, n2) = t1 {
                    crate::term::lemma_global_index(g.entries@, n2@);
                    assert(n2@ == hn@);
                    assert(global_index(g.entries@, n2@) == global_index(g.entries@, hn@));
                    if let Value::Neutral(hh2, es2) = v2 {
                        assert(*h == Head::Global(*hr, *hn));
                        assert(*hh2 == Head::Global(*r2, *n2));
                    }
                }
            },
            Head::Item(hr, hn) => {
                if let Term::Item(r2, n2) = t1 {
                    crate::term::lemma_item_index(items, n2@);
                    assert(n2@ == hn@);
                    assert(item_index(items, n2@) == item_index(items, hn@));
                    if let Value::Neutral(hh2, es2) = v2 {
                        assert(*h == Head::Item(*hr, *hn));
                        assert(*hh2 == Head::Item(*r2, *n2));
                    }
                }
            },
            Head::Error(hr) => {
            },
        }
    } else {
        assert(es.take(n).last() == es[n - 1]);
        assert(es.take(n).drop_last() =~= es.take(n - 1));
        match es[n - 1] {
            Elim::Function(r, a) => {
                if let Term::FunctionElim(r2, ht, at) = t1 {
                    let hv = choose|hvx: Value|
                        #[trigger] crate::semantics::head_val_mark(hvx) && eval_rel_at(
                            *g,
                            items,
                            **ht,
                            hvx,
                            k,
                            gb,
                        ) && app_step(*g, items, *t1, hvx, *v2, k, gb);
                    lemma_items_below_full(items, &**ht);
                    lemma_globals_below_full(g, &**ht);
                    lemma_eval_of_rbn(g, items, h, es, n - 1, &**ht, &hv);
                    if n - 1 == 0 && *h is Error {
                        assert(es[0] is Function);
                        assert(false);
                    }
                    if let Value::Neutral(hh, wes) = &hv {
                        if let Value::Neutral(rh, res_es) = v2 {
                            if let Elim::Function(r3, av) = res_es@.last() {
                                assert(image_elim(*g, items, es[n - 1]));
                                lemma_eval_of_rb(g, items, &*a, &**at, &*av);
                                assert forall|i: int|
                                    0 <= i < n implies elim_sim(
                                    #[trigger] res_es@[i],
                                    es[i],
                                ) by {
                                    if i < n - 1 {
                                        assert(res_es@[i] == res_es@.drop_last()[i]);
                                        assert(elim_sim(wes@[i], es[i]));
                                    } else {
                                        assert(res_es@[i] == res_es@.last());
                                    }
                                }
                            }
                        }
                    }
                }
            },
            Elim::Bool(r, tt, ff) => {
                if let Term::BoolElim(r2, ht, t2, f2) = t1 {
                    let hv = choose|hvx: Value|
                        #[trigger] crate::semantics::head_val_mark(hvx) && eval_rel_at(
                            *g,
                            items,
                            **ht,
                            hvx,
                            k,
                            gb,
                        ) && bool_step(*g, items, *t1, hvx, *v2, k, gb);
                    lemma_items_below_full(items, &**ht);
                    lemma_globals_below_full(g, &**ht);
                    lemma_eval_of_rbn(g, items, h, es, n - 1, &**ht, &hv);
                    if n - 1 == 0 && *h is Error {
                        if let Head::Error(hr) = h {
                            assert(hv == Value::Error(*hr));
                            assert(crate::semantics::rbn_rel(*h, es.take(0), **ht));
                            assert(es.take(0) =~= Seq::<Elim>::empty());
                            assert(**ht == Term::Error(*hr));
                            if let Value::Neutral(rh, res_es) = v2 {
                                assert(*rh == Head::Error((*ht).spec_range()));
                                assert(*h == Head::Error(*hr));
                                assert(res_es@.len() == 1);
                                assert forall|i: int|
                                    0 <= i < n implies elim_sim(
                                    #[trigger] res_es@[i],
                                    es[i],
                                ) by {
                                    assert(res_es@[0] matches Elim::Bool(r4, t4, f4) && r4 == *r2
                                        && t4 == *t2 && f4 == *f2);
                                    assert(es[0] == Elim::Bool(r, tt, ff));
                                    assert(res_es@[0] == Elim::Bool(r, tt, ff));
                                }
                            }
                        }
                    } else {
                        if let Value::Neutral(hh, wes) = &hv {
                            if wes@.len() == 0 && (*hh matches Head::Global(_, nn) && (nn@
                                == "true"@ || nn@ == "false"@)) {
                                assert(n - 1 == 0);
                                assert(*hh == *h);
                                assert(es[0] is Bool);
                                assert(false);
                            }
                            if let Value::Neutral(rh, res_es) = v2 {
                                assert forall|i: int|
                                    0 <= i < n implies elim_sim(
                                    #[trigger] res_es@[i],
                                    es[i],
                                ) by {
                                    if i < n - 1 {
                                        assert(res_es@[i] == res_es@.drop_last()[i]);
                                        assert(elim_sim(wes@[i], es[i]));
                                    } else {
                                        assert(res_es@[i] == res_es@.last());
                                        assert(res_es@.last() matches Elim::Bool(r4, t4, f4)
                                            && r4 == *r2 && t4 == *t2 && f4 == *f2);
                                        assert(es[i] == Elim::Bool(r, tt, ff));
                                        assert(res_es@[i] == Elim::Bool(r, tt, ff));
                                    }
                                }
                            }
                        }
                    }
                }
            },
            Elim::Int(r, bs, d) => {
                if let Term::IntElim(r2, ht, bs2, d2) = t1 {
                    let hv = choose|hvx: Value|
                        #[trigger] crate::semantics::head_val_mark(hvx) && eval_rel_at(
                            *g,
                            items,
                            **ht,
                            hvx,
                            k,
                            gb,
                        ) && int_step(*g, items, *t1, hvx, *v2, k, gb);
                    lemma_items_below_full(items, &**ht);
                    lemma_globals_below_full(g, &**ht);
                    lemma_eval_of_rbn(g, items, h, es, n - 1, &**ht, &hv);
                    if n - 1 == 0 && *h is Error {
                        if let Head::Error(hr) = h {
                            assert(hv == Value::Error(*hr));
                            assert(crate::semantics::rbn_rel(*h, es.take(0), **ht));
                            assert(es.take(0) =~= Seq::<Elim>::empty());
                            assert(**ht == Term::Error(*hr));
                            if let Value::Neutral(rh, res_es) = v2 {
                                assert(*rh == Head::Error((*ht).spec_range()));
                                assert(res_es@.len() == 1);
                                assert forall|i: int|
                                    0 <= i < n implies elim_sim(
                                    #[trigger] res_es@[i],
                                    es[i],
                                ) by {
                                    assert(res_es@[0] matches Elim::Int(r4, b4, d4) && r4 == *r2
                                        && b4 == *bs2 && d4 == *d2);
                                    assert(es[0] == Elim::Int(r, bs, d));
                                    assert(res_es@[0] == Elim::Int(r, bs, d));
                                }
                            }
                        }
                    } else {
                        if let Value::Neutral(hh, wes) = &hv {
                            if let Value::Neutral(rh, res_es) = v2 {
                                assert forall|i: int|
                                    0 <= i < n implies elim_sim(
                                    #[trigger] res_es@[i],
                                    es[i],
                                ) by {
                                    if i < n - 1 {
                                        assert(res_es@[i] == res_es@.drop_last()[i]);
                                        assert(elim_sim(wes@[i], es[i]));
                                    } else {
                                        assert(res_es@[i] == res_es@.last());
                                        assert(res_es@.last() matches Elim::Int(r4, b4, d4) && r4
                                            == *r2 && b4 == *bs2 && d4 == *d2);
                                        assert(es[i] == Elim::Int(r, bs, d));
                                        assert(res_es@[i] == Elim::Int(r, bs, d));
                                    }
                                }
                            }
                        }
                    }
                }
            },
        }
    }
}

/// Evaluating the read-back of an image value rebuilds that value, up to
/// similarity: normalisation is idempotent at the level of values.
pub proof fn lemma_eval_of_rb(
    g: &Globals,
    items: Seq<Item>,
    v1: &Value,
    t1: &Term,
    v2: &Value,
)
    requires
        wf_globals(*g),
        wf_items(items),
        image_value(*g, items, *v1),
        crate::semantics::rb_rel(*v1, *t1),
        eval_rel(*g, items, *t1, *v2),
    ensures
        value_sim(*v2, *v1),
    decreases *v1, 0int,
{
    let k = items.len() as int;
    let gb = g.entries@.len() as int;
    lemma_items_below_full(items, t1);
    lemma_globals_below_full(g, t1);
    match v1 {
        Value::Neutral(h, esv) => {
            assert(esv@.take(esv@.len() as int) =~= esv@);
            lemma_eval_of_rbn(g, items, h, esv@, esv@.len() as int, t1, v2);
            if esv@.len() == 0 && *h is Error {
                assert(false);
            }
        },
        Value::Universe(r, l) => {
            assert(*v1 == Value::Universe(*r, *l));
        },
        Value::FormatType(r) => {
            assert(*v1 == Value::FormatType(*r));
        },
        Value::FunctionType(r, p, b) => {
            if let Term::FunctionType(r2, pt, bt) = t1 {
                if let Value::FunctionType(r3, pv, bv) = v2 {
                    lemma_eval_of_rb(g, items, &**p, &**pt, &**pv);
                    lemma_eval_of_rb(g, items, &**b, &**bt, &**bv);
                }
            }
        },
        Value::Constant(r, c) => {
        },
        Value::Error(r) => {
            assert(*v1 == Value::Error(*r));
        },
    }
}

} // verus!

verus! {

/// Reading back two similar spines over one head gives structurally equal
/// terms.
proof fn lemma_rbn_sim_congruence(
    h: &Head,
    esa: Seq<Elim>,
    esb: Seq<Elim>,
    ta: &Term,
    tb: &Term,
)
    requires
        esa.len() == esb.len(),
        forall|i: int| 0 <= i < esa.len() ==> elim_sim(#[trigger] esa[i], esb[i]),
        crate::semantics::rbn_rel(*h, esa, *ta),
        crate::semantics::rbn_rel(*h, esb, *tb),
    ensures
        term_eq_spec(*ta, *tb),
    decreases esa, 0int,
{
    if esa.len() == 0 {
    } else {
        assert(elim_sim(esa.last(), esb.last()));
        match esa.last() {
            Elim::Function(r, aa) => {
                if let Elim::Function(r2, ab) = esb.last() {
                    if let Term::FunctionElim(r3, hta, ata) = ta {
                        if let Term::FunctionElim(r4, htb, atb) = tb {
                            lemma_rbn_sim_congruence(
                                h,
                                esa.drop_last(),
                                esb.drop_last(),
                                &**hta,
                                &**htb,
                            );
                            lemma_rb_sim_congruence(&*aa, &*ab, &**ata, &**atb);
                        }
                    }
                }
            },
            Elim::Bool(r, tt, ff) => {
                if let Term::BoolElim(r3, hta, t2a, f2a) = ta {
                    if let Term::BoolElim(r4, htb, t2b, f2b) = tb {
                        lemma_rbn_sim_congruence(
                            h,
                            esa.drop_last(),
                            esb.drop_last(),
                            &**hta,
                            &**htb,
                        );
                        assert(esb.last() == esa.last());
                        lemma_term_eq_refl(&**t2a);
                        lemma_term_eq_refl(&**f2a);
                        assert(*t2a == *t2b && *f2a == *f2b);
                    }
                }
            },
            Elim::Int(r, bs, d) => {
                if let Term::IntElim(r3, hta, bsa, da) = ta {
                    if let Term::IntElim(r4, htb, bsb, db) = tb {
                        lemma_rbn_sim_congruence(
                            h,
                            esa.drop_last(),
                            esb.drop_last(),
                            &**hta,
                            &**htb,
                        );
                        assert(esb.last() == esa.last());
                        assert(*bsa == *bsb && *da == *db);
                        lemma_term_eq_refl(&**da);
                        assert forall|i: int| 0 <= i < bsa@.len() implies {
                            &&& (#[trigger] bsa@[i]).0.neg == bsb@[i].0.neg
                            &&& bsa@[i].0.digits@ == bsb@[i].0.digits@
                            &&& term_eq_spec(bsa@[i].1, bsb@[i].1)
                        } by {
                            lemma_term_eq_refl(&bsa@[i].1);
                        }
                    }
                }
            },
        }
    }
}

/// Reading back two similar values gives structurally equal terms.
pub proof fn lemma_rb_sim_congruence(va: &Value, vb: &Value, ta: &Term, tb: &Term)
    requires
        value_sim(*va, *vb),
        crate::semantics::rb_rel(*va, *ta),
        crate::semantics::rb_rel(*vb, *tb),
    ensures
        term_eq_spec(*ta, *tb),
    decreases *va, 1int,
{
    match va {
        Value::Neutral(ha, esa) => {
            if let Value::Neutral(hb, esb) = vb {
                assert(*ha == *hb);
                lemma_rbn_sim_congruence(ha, esa@, esb@, ta, tb);
            }
        },
        Value::FunctionType(r, pa, ba) => {
            if let Value::FunctionType(r2, pb, bb) = vb {
                if let Term::FunctionType(r3, pta, bta) = ta {
                    if let Term::FunctionType(r4, ptb, btb) = tb {
                        lemma_rb_sim_congruence(&**pa, &**pb, &**pta, &**ptb);
                        lemma_rb_sim_congruence(&**ba, &**bb, &**bta, &**btb);
                    }
                }
            }
        },
        _ => {},
    }
}

/// Read-back round trip: the read-back of a term's value evaluates back to
/// that same value, up to similarity, so the read-back of an evaluation
/// result is already in normal form.
pub proof fn lemma_read_back_round_trip(
    g: &Globals,
    items: Seq<Item>,
    t: &Term,
    v: &Value,
    t1: &Term,
    v2: &Value,
)
    requires
        wf_globals(*g),
        wf_items(items),
        eval_rel(*g, items, *t, *v),
        crate::semantics::rb_rel(*v, *t1),
        eval_rel(*g, items, *t1, *v2),
    ensures
        value_sim(*v2, *v),
{
    lemma_items_below_full(items, t);
    lemma_globals_below_full(g, t);
    lemma_eval_image(g, items, t, v, items.len() as int, g.entries@.len() as int);
    lemma_eval_of_rb(g, items, v, t1, v2);
}

/// Idempotence of normalisation: evaluating and reading back a term twice
/// gives a term structurally equal to evaluating and reading back once.
pub proof fn lemma_normalize_idempotent(
    g: &Globals,
    items: Seq<Item>,
    t: &Term,
    v1: &Value,
    t1: &Term,
    v2: &Value,
    t2: &Term,
)
    requires
        wf_globals(*g),
        wf_items(items),
        eval_rel(*g, items, *t, *v1),
        crate::semantics::rb_rel(*v1, *t1),
        eval_rel(*g, items, *t1, *v2),
        crate::semantics::rb_rel(*v2, *t2),
    ensures
        term_eq_spec(*t2, *t1),
{
    lemma_read_back_round_trip(g, items, t, v1, t1, v2);
    lemma_rb_sim_congruence(v2, v1, t2, t1);
}

} // verus!

verus! {

/// Structural term equality is transitive.
pub proof fn lemma_term_eq_trans(t1: &Term, t2: &Term, t3: &Term)
    requires
        term_eq_spec(*t1, *t2),
        term_eq_spec(*t2, *t3),
    ensures
        term_eq_spec(*t1, *t3),
    decreases *t1,
{
    match (t1, t2, t3) {
        (Term::Ann(_, a1, b1), Term::Ann(_, a2, b2), Term::Ann(_, a3, b3)) => {
            lemma_term_eq_trans(&**a1, &**a2, &**a3);
            lemma_term_eq_trans(&**b1, &**b2, &**b3);
        },
        (
            Term::FunctionType(_, a1, b1),
            Term::FunctionType(_, a2, b2),
            Term::FunctionType(_, a3, b3),
        ) => {
            lemma_term_eq_trans(&**a1, &**a2, &**a3);
            lemma_term_eq_trans(&**b1, &**b2, &**b3);
        },
        (
            Term::FunctionElim(_, a1, b1),
            Term::FunctionElim(_, a2, b2),
            Term::FunctionElim(_, a3, b3),
        ) => {
            lemma_term_eq_trans(&**a1, &**a2, &**a3);
            lemma_term_eq_trans(&**b1, &**b2, &**b3);
        },
        (
            Term::BoolElim(_, h1, a1, b1),
            Term::BoolElim(_, h2, a2, b2),
            Term::BoolElim(_, h3, a3, b3),
        ) => {
            lemma_term_eq_trans(&**h1, &**h2, &**h3);
            lemma_term_eq_trans(&**a1, &**a2, &**a3);
            lemma_term_eq_trans(&**b1, &**b2, &**b3);
        },
        (
            Term::IntElim(_, h1, bs1, d1),
            Term::IntElim(_, h2, bs2, d2),
            Term::IntElim(_, h3, bs3, d3),
        ) => {
            lemma_term_eq_trans(&**h1, &**h2, &**h3);
            lemma_term_eq_trans(&**d1, &**d2, &**d3);
            assert forall|i: int| 0 <= i < bs1@.len() implies {
                &&& (#[trigger] bs1@[i]).0.neg == bs3@[i].0.neg
                &&& bs1@[i].0.digits@ == bs3@[i].0.digits@
                &&& term_eq_spec(bs1@[i].1, bs3@[i].1)
            } by {
                assert((#[trigger] bs1@[i]).0.neg == bs2@[i].0.neg && bs1@[i].0.digits@
                    == bs2@[i].0.digits@ && term_eq_spec(bs1@[i].1, bs2@[i].1));
                assert((#[trigger] bs2@[i]).0.neg == bs3@[i].0.neg && bs2@[i].0.digits@
                    == bs3@[i].0.digits@ && term_eq_spec(bs2@[i].1, bs3@[i].1));
                lemma_term_eq_trans(&bs1@[i].1, &bs2@[i].1, &bs3@[i].1);
            }
        },
        _ => {},
    }
}

/// Read-back equality of values is transitive.
pub proof fn lemma_value_rb_eq_trans(v1: &Value, v2: &Value, v3: &Value)
    requires
        value_rb_eq(*v1, *v2),
        value_rb_eq(*v2, *v3),
    ensures
        value_rb_eq(*v1, *v3),
    decreases *v1,
{
    match (v1, v2, v3) {
        (Value::Neutral(h1, es1), Value::Neutral(h2, es2), Value::Neutral(h3, es3)) => {
            assert forall|i: int| 0 <= i < es1@.len() implies elim_eq_spec(
                #[trigger] es1@[i],
                es3@[i],
            ) by {
                assert(elim_eq_spec(es1@[i], es2@[i]));
                assert(elim_eq_spec(es2@[i], es3@[i]));
                lemma_elim_eq_trans(&es1@[i], &es2@[i], &es3@[i]);
            }
        },
        (
            Value::FunctionType(_, p1, b1),
            Value::FunctionType(_, p2, b2),
            Value::FunctionType(_, p3, b3),
        ) => {
            lemma_value_rb_eq_trans(&**p1, &**p2, &**p3);
            lemma_value_rb_eq_trans(&**b1, &**b2, &**b3);
        },
        _ => {},
    }
}

proof fn lemma_elim_eq_trans(e1: &Elim, e2: &Elim, e3: &Elim)
    requires
        elim_eq_spec(*e1, *e2),
        elim_eq_spec(*e2, *e3),
    ensures
        elim_eq_spec(*e1, *e3),
    decreases *e1,
{
    match (e1, e2, e3) {
        (Elim::Function(_, a1), Elim::Function(_, a2), Elim::Function(_, a3)) => {
            lemma_value_rb_eq_trans(&**a1, &**a2, &**a3);
        },
        (Elim::Bool(_, t1, f1), Elim::Bool(_, t2, f2), Elim::Bool(_, t3, f3)) => {
            lemma_term_eq_trans(&**t1, &**t2, &**t3);
            lemma_term_eq_trans(&**f1, &**f2, &**f3);
        },
        (Elim::Int(_, bs1, d1), Elim::Int(_, bs2, d2), Elim::Int(_, bs3, d3)) => {
            lemma_term_eq_trans(&**d1, &**d2, &**d3);
            assert forall|i: int| 0 <= i < bs1@.len() implies {
                &&& (#[trigger] bs1@[i]).0.neg == bs3@[i].0.neg
                &&& bs1@[i].0.digits@ == bs3@[i].0.digits@
                &&& term_eq_spec(bs1@[i].1, bs3@[i].1)
            } by {
                assert((#[trigger] bs1@[i]).0.neg == bs2@[i].0.neg && bs1@[i].0.digits@
                    == bs2@[i].0.digits@ && term_eq_spec(bs1@[i].1, bs2@[i].1));
                assert((#[trigger] bs2@[i]).0.neg == bs3@[i].0.neg && bs2@[i].0.digits@
                    == bs3@[i].0.digits@ && term_eq_spec(bs2@[i].1, bs3@[i].1));
                lemma_term_eq_trans(&bs1@[i].1, &bs2@[i].1, &bs3@[i].1);
            }
        },
        _ => {},
    }
}

/// A value away from errors: no `Error` value stands where definitional
/// equality would absorb it. Neutral spines are compared structurally, so
/// only the positions equality recurses through count.
pub open spec fn equal_regular(v: Value) -> bool
    decreases v,
{
    match v {
        Value::Error(_) => false,
        Value::FunctionType(_, p, b) => equal_regular(*p) && equal_regular(*b),
        _ => true,
    }
}

/// Definitional equality is transitive on values away from errors; with an
/// error anywhere among them absorption can break the chain.
pub proof fn lemma_equal_trans(v1: &Value, v2: &Value, v3: &Value)
    requires
        equal_regular(*v1),
        equal_regular(*v2),
        equal_regular(*v3),
        equal_spec(*v1, *v2),
        equal_spec(*v2, *v3),
    ensures
        equal_spec(*v1, *v3),
    decreases *v1,
{
    match (v1, v2, v3) {
        (Value::Neutral(h1, es1), Value::Neutral(h2, es2), Value::Neutral(h3, es3)) => {
            assert forall|i: int| 0 <= i < es1@.len() implies elim_eq_spec(
                #[trigger] es1@[i],
                es3@[i],
            ) by {
                assert(elim_eq_spec(es1@[i], es2@[i]));
                assert(elim_eq_spec(es2@[i], es3@[i]));
                lemma_elim_eq_trans(&es1@[i], &es2@[i], &es3@[i]);
            }
        },
        (
            Value::FunctionType(_, p1, b1),
            Value::FunctionType(_, p2, b2),
            Value::FunctionType(_, p3, b3),
        ) => {
            lemma_equal_trans(&**p1, &**p2, &**p3);
            lemma_equal_trans(&**b1, &**b2, &**b3);
        },
        _ => {},
    }
}

} // verus!

verus! {

/// No neutral with an error head and an empty spine occurs in the value;
/// evaluation never produces one, since an error head always arises
/// together with the eliminator that got stuck.
pub open spec fn no_bare_error(v: Value) -> bool
    decreases v,
{
    match v {
        Value::Neutral(h, es) => (h is Error ==> es@.len() >= 1) && (forall|i: int|
            0 <= i < es@.len() ==> no_bare_error_elim(#[trigger] es@[i])),
        Value::FunctionType(_, p, b) => no_bare_error(*p) && no_bare_error(*b),
        _ => true,
    }
}

/// No bare error-headed neutral inside an eliminator's argument.
pub open spec fn no_bare_error_elim(e: Elim) -> bool
    decreases e,
{
    match e {
        Elim::Function(_, a) => no_bare_error(*a),
        _ => true,
    }
}

/// Every image value is free of bare error-headed neutrals.
pub proof fn lemma_image_no_bare(g: &Globals, items: Seq<Item>, v: &Value)
    requires
        image_value(*g, items, *v),
    ensures
        no_bare_error(*v),
    decreases *v, 1int,
{
    match v {
        Value::Neutral(h, es) => {
            assert forall|i: int| 0 <= i < es@.len() implies no_bare_error_elim(
                #[trigger] es@[i],
            ) by {
                assert(image_elim(*g, items, es@[i]));
                lemma_image_no_bare_elim(g, items, &es@[i]);
            }
        },
        Value::FunctionType(_, p, b) => {
            lemma_image_no_bare(g, items, &**p);
            lemma_image_no_bare(g, items, &**b);
        },
        _ => {},
    }
}

proof fn lemma_image_no_bare_elim(g: &Globals, items: Seq<Item>, e: &Elim)
    requires
        image_elim(*g, items, *e),
    ensures
        no_bare_error_elim(*e),
    decreases *e, 0int,
{
    match e {
        Elim::Function(_, a) => {
            lemma_image_no_bare(g, items, &**a);
        },
        _ => {},
    }
}

/// Read-back equality of spines coincides with structural equality of the
/// read-back terms.
proof fn lemma_rbn_eq_characterization(
    h1: &Head,
    es1: Seq<Elim>,
    h2: &Head,
    es2: Seq<Elim>,
    t1: &Term,
    t2: &Term,
)
    requires
        forall|i: int| 0 <= i < es1.len() ==> no_bare_error_elim(#[trigger] es1[i]),
        forall|i: int| 0 <= i < es2.len() ==> no_bare_error_elim(#[trigger] es2[i]),
        crate::semantics::rbn_rel(*h1, es1, *t1),
        crate::semantics::rbn_rel(*h2, es2, *t2),
    ensures
        (head_eq_spec(*h1, *h2) && es1.len() == es2.len() && (forall|i: int|
            0 <= i < es1.len() ==> elim_eq_spec(#[trigger] es1[i], es2[i]))) == term_eq_spec(
            *t1,
            *t2,
        ),
    decreases es1, 0int,
{
    if es1.len() == 0 && es2.len() == 0 {
    } else if es1.len() == 0 || es2.len() == 0 {
    } else {
        match (es1.last(), es2.last()) {
            (Elim::Function(r1, a1), Elim::Function(r2, a2)) => {
                if let Term::FunctionElim(_, ht1, at1) = t1 {
                    if let Term::FunctionElim(_, ht2, at2) = t2 {
                        assert forall|i: int|
                            0 <= i < es1.drop_last().len() implies no_bare_error_elim(
                            #[trigger] es1.drop_last()[i],
                        ) by {
                            assert(es1.drop_last()[i] == es1[i]);
                        }
                        assert forall|i: int|
                            0 <= i < es2.drop_last().len() implies no_bare_error_elim(
                            #[trigger] es2.drop_last()[i],
                        ) by {
                            assert(es2.drop_last()[i] == es2[i]);
                        }
                        lemma_rbn_eq_characterization(
                            h1,
                            es1.drop_last(),
                            h2,
                            es2.drop_last(),
                            &**ht1,
                            &**ht2,
                        );
                        assert(es1[es1.len() - 1] == es1.last());
                        assert(es2[es2.len() - 1] == es2.last());
                        lemma_rb_eq_characterization(&*a1, &*a2, &**at1, &**at2);
                        if head_eq_spec(*h1, *h2) && es1.len() == es2.len() && (forall|i: int|
                            0 <= i < es1.len() ==> elim_eq_spec(#[trigger] es1[i], es2[i])) {
                            assert forall|i: int|
                                0 <= i < es1.drop_last().len() implies elim_eq_spec(
                                #[trigger] es1.drop_last()[i],
                                es2.drop_last()[i],
                            ) by {
                                assert(es1.drop_last()[i] == es1[i]);
                                assert(es2.drop_last()[i] == es2[i]);
                            }
                            assert(elim_eq_spec(es1.last(), es2.last()));
                        }
                        if term_eq_spec(*t1, *t2) {
                            assert forall|i: int|
                                0 <= i < es1.len() implies elim_eq_spec(
                                #[trigger] es1[i],
                                es2[i],
                            ) by {
                                if i < es1.len() - 1 {
                                    assert(es1[i] == es1.drop_last()[i]);
                                    assert(es2[i] == es2.drop_last()[i]);
                                } else {
                                    assert(es1[i] == es1.last());
                                    assert(es2[i] == es2.last());
                                }
                            }
                        }
                    }
                }
            },
            (Elim::Bool(r1, tt1, ff1), Elim::Bool(r2, tt2, ff2)) => {
                if let Term::BoolElim(_, ht1, t2a, f2a) = t1 {
                    if let Term::BoolElim(_, ht2, t2b, f2b) = t2 {
                        assert forall|i: int|
                            0 <= i < es1.drop_last().len() implies no_bare_error_elim(
                            #[trigger] es1.drop_last()[i],
                        ) by {
                            assert(es1.drop_last()[i] == es1[i]);
                        }
                        assert forall|i: int|
                            0 <= i < es2.drop_last().len() implies no_bare_error_elim(
                            #[trigger] es2.drop_last()[i],
                        ) by {
                            assert(es2.drop_last()[i] == es2[i]);
                        }
                        assert forall|i: int|
                            0 <= i < es1.drop_last().len() implies no_bare_error_elim(
                            #[trigger] es1.drop_last()[i],
                        ) by {
                            assert(es1.drop_last()[i] == es1[i]);
                        }
                        assert forall|i: int|
                            0 <= i < es2.drop_last().len() implies no_bare_error_elim(
                            #[trigger] es2.drop_last()[i],
                        ) by {
                            assert(es2.drop_last()[i] == es2[i]);
                        }
                        lemma_rbn_eq_characterization(
                            h1,
                            es1.drop_last(),
                            h2,
                            es2.drop_last(),
                            &**ht1,
                            &**ht2,
                        );
                        if head_eq_spec(*h1, *h2) && es1.len() == es2.len() && (forall|i: int|
                            0 <= i < es1.len() ==> elim_eq_spec(#[trigger] es1[i], es2[i])) {
                            assert forall|i: int|
                                0 <= i < es1.drop_last().len() implies elim_eq_spec(
                                #[trigger] es1.drop_last()[i],
                                es2.drop_last()[i],
                            ) by {
                                assert(es1.drop_last()[i] == es1[i]);
                                assert(es2.drop_last()[i] == es2[i]);
                            }
                            assert(elim_eq_spec(es1.last(), es2.last()));
                        }
                        if term_eq_spec(*t1, *t2) {
                            assert forall|i: int|
                                0 <= i < es1.len() implies elim_eq_spec(
                                #[trigger] es1[i],
                                es2[i],
                            ) by {
                                if i < es1.len() - 1 {
                                    assert(es1[i] == es1.drop_last()[i]);
                                    assert(es2[i] == es2.drop_last()[i]);
                                } else {
                                    assert(es1[i] == es1.last());
                                    assert(es2[i] == es2.last());
                                }
                            }
                        }
                    }
                }
            },
            (Elim::Int(r1, bs1, d1), Elim::Int(r2, bs2, d2)) => {
                if let Term::IntElim(_, ht1, bsa, da) = t1 {
                    if let Term::IntElim(_, ht2, bsb, db) = t2 {
                        lemma_rbn_eq_characterization(
                            h1,
                            es1.drop_last(),
                            h2,
                            es2.drop_last(),
                            &**ht1,
                            &**ht2,
                        );
                        if head_eq_spec(*h1, *h2) && es1.len() == es2.len() && (forall|i: int|
                            0 <= i < es1.len() ==> elim_eq_spec(#[trigger] es1[i], es2[i])) {
                            assert forall|i: int|
                                0 <= i < es1.drop_last().len() implies elim_eq_spec(
                                #[trigger] es1.drop_last()[i],
                                es2.drop_last()[i],
                            ) by {
                                assert(es1.drop_last()[i] == es1[i]);
                                assert(es2.drop_last()[i] == es2[i]);
                            }
                            assert(elim_eq_spec(es1.last(), es2.last()));
                        }
                        if term_eq_spec(*t1, *t2) {
                            assert forall|i: int|
                                0 <= i < es1.len() implies elim_eq_spec(
                                #[trigger] es1[i],
                                es2[i],
                            ) by {
                                if i < es1.len() - 1 {
                                    assert(es1[i] == es1.drop_last()[i]);
                                    assert(es2[i] == es2.drop_last()[i]);
                                } else {
                                    assert(es1[i] == es1.last());
                                    assert(es2[i] == es2.last());
                                }
                            }
                        }
                    }
                }
            },
            _ => {
                if es1.len() == es2.len() {
                    assert(!elim_eq_spec(es1.last(), es2.last()));
                    assert(!(forall|i: int|
                        0 <= i < es1.len() ==> elim_eq_spec(#[trigger] es1[i], es2[i]))) by {
                        assert(es1[es1.len() - 1] == es1.last());
                        assert(es2[es1.len() - 1] == es2.last());
                    }
                }
            },
        }
    }
}

/// Read-back equality of values coincides with structural equality of the
/// read-back terms: comparing values is comparing their quotations.
pub proof fn lemma_rb_eq_characterization(v1: &Value, v2: &Value, t1: &Term, t2: &Term)
    requires
        no_bare_error(*v1),
        no_bare_error(*v2),
        crate::semantics::rb_rel(*v1, *t1),
        crate::semantics::rb_rel(*v2, *t2),
    ensures
        value_rb_eq(*v1, *v2) == term_eq_spec(*t1, *t2),
    decreases *v1, 1int,
{
    match (v1, v2) {
        (Value::Neutral(h1, es1), Value::Neutral(h2, es2)) => {
            lemma_rbn_eq_characterization(h1, es1@, h2, es2@, t1, t2);
        },
        (Value::FunctionType(_, p1, b1), Value::FunctionType(_, p2, b2)) => {
            if let Term::FunctionType(_, pt1, bt1) = t1 {
                if let Term::FunctionType(_, pt2, bt2) = t2 {
                    lemma_rb_eq_characterization(&**p1, &**p2, &**pt1, &**pt2);
                    lemma_rb_eq_characterization(&**b1, &**b2, &**bt1, &**bt2);
                }
            }
        },
        (Value::Constant(_, c1), Value::Constant(_, c2)) => {
            if let Term::Constant(_, c1b) = t1 {
                if let Term::Constant(_, c2b) = t2 {
                    if const_eq_spec(*c1, *c2) {
                        lemma_const_eq_trans(c1b, c1, c2);
                        lemma_const_eq_sym(c2b, c2);
                        lemma_const_eq_trans(c1b, c2, c2b);
                    }
                    if const_eq_spec(*c1b, *c2b) {
                        lemma_const_eq_sym(c1b, c1);
                        lemma_const_eq_trans(c1, c1b, c2b);
                        lemma_const_eq_trans(c1, c2b, c2);
                    }
                }
            }
        },
        (Value::Neutral(h1, es1), _) => {
            lemma_rbn_shape(h1, es1@, t1);
        },
        (_, Value::Neutral(h2, es2)) => {
            lemma_rbn_shape(h2, es2@, t2);
        },
        _ => {},
    }
}

/// The shape a spine reads back to: the head's own term form for an empty
/// spine, and an eliminator node otherwise.
proof fn lemma_rbn_shape(h: &Head, es: Seq<Elim>, t: &Term)
    requires
        crate::semantics::rbn_rel(*h, es, *t),
    ensures
        es.len() == 0 ==> match *h {
            Head::Global(_, _) => *t is Global,
            Head::Item(_, _) => *t is Item,
            Head::Error(_) => *t is Error,
        },
        es.len() >= 1 ==> (*t is FunctionElim || *t is BoolElim || *t is IntElim),
{
    if es.len() >= 1 {
        match es.last() {
            Elim::Function(_, _) => {},
            Elim::Bool(_, _, _) => {},
            Elim::Int(_, _, _) => {},
        }
    }
}

/// Structural equality of constants is symmetric.
proof fn lemma_const_eq_sym(a: &Constant, b: &Constant)
    ensures
        const_eq_spec(*a, *b) == const_eq_spec(*b, *a),
{
}

/// Structural equality of constants is transitive.
proof fn lemma_const_eq_trans(a: &Constant, b: &Constant, c: &Constant)
    requires
        const_eq_spec(*a, *b),
        const_eq_spec(*b, *c),
    ensures
        const_eq_spec(*a, *c),
{
}

/// On neutral values, definitional equality is exactly structural equality
/// of the read-back terms, as the comparator is specified.
pub proof fn lemma_equal_neutrals_via_read_back(v1: &Value, v2: &Value, t1: &Term, t2: &Term)
    requires
        *v1 is Neutral,
        *v2 is Neutral,
        no_bare_error(*v1),
        no_bare_error(*v2),
        crate::semantics::rb_rel(*v1, *t1),
        crate::semantics::rb_rel(*v2, *t2),
    ensures
        equal_spec(*v1, *v2) == term_eq_spec(*t1, *t2),
{
    lemma_rb_eq_characterization(v1, v2, t1, t2);
}

} // verus!
