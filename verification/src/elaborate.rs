//! Bidirectional elaboration from surface syntax to the core calculus, and
//! the module checker that drives it over items in source order.
//!
//! Elaboration accumulates diagnostics and continues: any failure emits a
//! message and produces `Term::Error` at that node. The tables of globals
//! and already-checked items are never changed by `synth` and `check`, and
//! every `Item` reference a produced term contains resolves in the item
//! table, which is what lets the module checker keep its well-formedness
//! invariant as it pushes checked items.

use std::sync::Arc;
use vstd::prelude::*;
use vstd::string::StringExecFns;
use vstd::multiset::Multiset;

use crate::Range;
use crate::integer::IntValue;
use crate::semantics::{eval, wf_globals, wf_items};
use crate::surface::{SItem, SModule, STerm};
use crate::term::{
    arc_clone, global_index, item_index, lookup_item, string_eq, Alias, Branches, Constant, GlobalEntry, Globals,
    Head, Item, Module, StructType, Term, TypeField, Value,
};

verus! {

broadcast use vstd::std_specs::vec::group_vec_axioms, vstd::seq::group_seq_axioms, vstd::seq_lib::group_to_multiset_ensures;

/// How severe a diagnostic is; `Error` or worse renders a module unchecked.
#[derive(Clone, Copy, Debug, PartialEq, Eq, Structural)]
pub enum Severity {
    Bug,
    Error,
    Warning,
    Note,
    Help,
}

/// What went wrong, by kind.
#[derive(Clone, Copy, Debug, PartialEq, Eq, Structural)]
pub enum MessageKind {
    /// A name with no binding among the globals or the checked items.
    UnboundName,
    /// The inferred and expected types are not definitionally equal.
    MismatchedType,
    /// An application whose head is not of function type.
    NotAFunction,
    /// An integer eliminator with a repeated branch key.
    DuplicateIntBranch,
    /// A numeric literal in a position that fixes no target type.
    AmbiguousLiteral,
    /// A format position filled by something that is no format.
    InvalidFormat,
}

/// A structured diagnostic: where, and what kind of failure.
#[derive(Clone, Copy, Debug, PartialEq, Eq, Structural)]
pub struct Message {
    pub range: Range,
    pub kind: MessageKind,
}

impl Message {
    /// The severity of this message; every kind here renders the module
    /// unchecked.
    pub fn severity(&self) -> (r: Severity)
        ensures
            r == Severity::Error,
    {
        Severity::Error
    }

    /// A short description of the message kind.
    pub fn label(&self) -> (r: &'static str)
        ensures
            self.kind == MessageKind::UnboundName ==> r@ == "unbound name"@,
            self.kind == MessageKind::MismatchedType ==> r@ == "mismatched types"@,
            self.kind == MessageKind::NotAFunction ==> r@ == "not a function"@,
            self.kind == MessageKind::DuplicateIntBranch ==> r@ == "duplicate branch key"@,
            self.kind == MessageKind::AmbiguousLiteral ==> r@ == "ambiguous numeric literal"@,
            self.kind == MessageKind::InvalidFormat ==> r@ == "invalid format description"@,
    {
        match self.kind {
            MessageKind::UnboundName => "unbound name",
            MessageKind::MismatchedType => "mismatched types",
            MessageKind::NotAFunction => "not a function",
            MessageKind::DuplicateIntBranch => "duplicate branch key",
            MessageKind::AmbiguousLiteral => "ambiguous numeric literal",
            MessageKind::InvalidFormat => "invalid format description",
        }
    }
}

/// The elaboration context: the ambient globals, the items checked so far,
/// and the accumulated diagnostics.
#[derive(Debug)]
pub struct Context {
    pub globals: Globals,
    pub items: Vec<Item>,
    pub messages: Vec<Message>,
}

/// Every `Item` reference in `t` resolves in the item table.
pub open spec fn term_items_found(items: Seq<Item>, t: Term) -> bool
    decreases t,
{
    match t {
        Term::Item(_, n) => item_index(items, n@) >= 0,
        Term::Ann(_, t1, t2) => term_items_found(items, *t1) && term_items_found(items, *t2),
        Term::FunctionType(_, t1, t2) => term_items_found(items, *t1) && term_items_found(
            items,
            *t2,
        ),
        Term::FunctionElim(_, t1, t2) => term_items_found(items, *t1) && term_items_found(
            items,
            *t2,
        ),
        Term::BoolElim(_, h, t1, t2) => term_items_found(items, *h) && term_items_found(items, *t1)
            && term_items_found(items, *t2),
        Term::IntElim(_, h, bs, d) => term_items_found(items, *h) && term_items_found(items, *d)
            && (forall|i: int| 0 <= i < bs@.len() ==> term_items_found(items, #[trigger] bs@[i].1)),
        _ => true,
    }
}

/// Extending the item table does not move the items already found.
pub proof fn lemma_item_index_extend(s: Seq<Item>, x: Item, n: Seq<char>)
    requires
        item_index(s, n) >= 0,
    ensures
        item_index(s.push(x), n) == item_index(s, n),
    decreases s.len(),
{
    assert(s.push(x)[0] == s[0]);
    if s[0].spec_name() != n {
        lemma_item_index_extend(s.drop_first(), x, n);
        assert(s.push(x).drop_first() =~= s.drop_first().push(x));
    }
}

/// A term whose item references all resolve keeps them below the table's
/// length when one more item is pushed.
pub proof fn lemma_items_below_push(items: Seq<Item>, t: &Term, x: Item)
    requires
        term_items_found(items, *t),
    ensures
        crate::semantics::term_items_below(items.push(x), *t, items.len() as int),
    decreases *t,
{
    match t {
        Term::Item(_, n) => {
            crate::term::lemma_item_index(items, n@);
            lemma_item_index_extend(items, x, n@);
        },
        Term::Ann(_, t1, t2) => {
            lemma_items_below_push(items, &**t1, x);
            lemma_items_below_push(items, &**t2, x);
        },
        Term::FunctionType(_, t1, t2) => {
            lemma_items_below_push(items, &**t1, x);
            lemma_items_below_push(items, &**t2, x);
        },
        Term::FunctionElim(_, t1, t2) => {
            lemma_items_below_push(items, &**t1, x);
            lemma_items_below_push(items, &**t2, x);
        },
        Term::BoolElim(_, h, t1, t2) => {
            lemma_items_below_push(items, &**h, x);
            lemma_items_below_push(items, &**t1, x);
            lemma_items_below_push(items, &**t2, x);
        },
        Term::IntElim(_, h, bs, d) => {
            lemma_items_below_push(items, &**h, x);
            lemma_items_below_push(items, &**d, x);
            assert forall|i: int|
                0 <= i < bs@.len() implies crate::semantics::term_items_below(
                items.push(x),
                #[trigger] bs@[i].1,
                items.len() as int,
            ) by {
                lemma_items_below_push(items, &bs@[i].1, x);
            }
        },
        _ => {},
    }
}

/// Branch keys in strictly ascending numeric order.
pub open spec fn branches_sorted(bs: Seq<(IntValue, Term)>) -> bool {
    forall|i: int, j: int|
        0 <= i < j < bs.len() ==> (#[trigger] bs[i]).0.value() < (#[trigger] bs[j]).0.value()
}

/// Messages in non-decreasing source start offset.
pub open spec fn messages_sorted(ms: Seq<Message>) -> bool {
    forall|i: int, j: int|
        0 <= i < j < ms.len() ==> (#[trigger] ms[i]).range.start <= (#[trigger] ms[j]).range.start
}

/// The standard globals table: `Bool` with its two constructors, and the
/// `Int` and machine-format universes of binary descriptors. Every entry is
/// abstract (declared, not defined), so the table is trivially well formed.
pub fn core_globals() -> (r: Globals)
    ensures
        wf_globals(r),
        r.entries@.len() == 22,
        forall|m: int| 0 <= m < r.entries@.len() ==> (#[trigger] r.entries@[m]).1.term is None,
        r.entries@[0].0@ == "Bool"@,
        r.entries@[1].0@ == "true"@,
        r.entries@[2].0@ == "false"@,
        r.entries@[3].0@ == "Int"@,
        r.entries@[4].0@ == "U8"@,
        r.entries@[5].0@ == "U16Le"@,
        r.entries@[6].0@ == "U16Be"@,
        r.entries@[7].0@ == "U32Le"@,
        r.entries@[8].0@ == "U32Be"@,
        r.entries@[9].0@ == "U64Le"@,
        r.entries@[10].0@ == "U64Be"@,
        r.entries@[11].0@ == "I8"@,
        r.entries@[12].0@ == "I16Le"@,
        r.entries@[13].0@ == "I16Be"@,
        r.entries@[14].0@ == "I32Le"@,
        r.entries@[15].0@ == "I32Be"@,
        r.entries@[16].0@ == "I64Le"@,
        r.entries@[17].0@ == "I64Be"@,
        r.entries@[18].0@ == "F32Le"@,
        r.entries@[19].0@ == "F32Be"@,
        r.entries@[20].0@ == "F64Le"@,
        r.entries@[21].0@ == "F64Be"@,
        *r.entries@[0].1.ty == Term::Universe(Range { start: 0, end: 0 }, 0),
        (*r.entries@[1].1.ty) matches Term::Global(_, bn) && bn@ == "Bool"@,
        (*r.entries@[2].1.ty) matches Term::Global(_, bn) && bn@ == "Bool"@,
        forall|m: int| 3 <= m < 22 ==> (*(#[trigger] r.entries@[m]).1.ty) is FormatType,
{
    let rng = Range { start: 0, end: 0 };
    let type0 = Arc::new(Term::Universe(rng, 0));
    let boolty = Arc::new(Term::Global(rng, String::from_str("Bool")));
    let format = Arc::new(Term::FormatType(rng));
    let mut entries: Vec<(String, GlobalEntry)> = Vec::new();
    entries.push(
        (String::from_str("Bool"), GlobalEntry { ty: arc_clone(&type0), term: None }),
    );
    entries.push(
        (String::from_str("true"), GlobalEntry { ty: arc_clone(&boolty), term: None }),
    );
    entries.push(
        (String::from_str("false"), GlobalEntry { ty: arc_clone(&boolty), term: None }),
    );
    entries.push((String::from_str("Int"), GlobalEntry { ty: arc_clone(&format), term: None }));
    entries.push((String::from_str("U8"), GlobalEntry { ty: arc_clone(&format), term: None }));
    entries.push((String::from_str("U16Le"), GlobalEntry { ty: arc_clone(&format), term: None }));
    entries.push((String::from_str("U16Be"), GlobalEntry { ty: arc_clone(&format), term: None }));
    entries.push((String::from_str("U32Le"), GlobalEntry { ty: arc_clone(&format), term: None }));
    entries.push((String::from_str("U32Be"), GlobalEntry { ty: arc_clone(&format), term: None }));
    entries.push((String::from_str("U64Le"), GlobalEntry { ty: arc_clone(&format), term: None }));
    entries.push((String::from_str("U64Be"), GlobalEntry { ty: arc_clone(&format), term: None }));
    entries.push((String::from_str("I8"), GlobalEntry { ty: arc_clone(&format), term: None }));
    entries.push((String::from_str("I16Le"), GlobalEntry { ty: arc_clone(&format), term: None }));
    entries.push((String::from_str("I16Be"), GlobalEntry { ty: arc_clone(&format), term: None }));
    entries.push((String::from_str("I32Le"), GlobalEntry { ty: arc_clone(&format), term: None }));
    entries.push((String::from_str("I32Be"), GlobalEntry { ty: arc_clone(&format), term: None }));
    entries.push((String::from_str("I64Le"), GlobalEntry { ty: arc_clone(&format), term: None }));
    entries.push((String::from_str("I64Be"), GlobalEntry { ty: arc_clone(&format), term: None }));
    entries.push((String::from_str("F32Le"), GlobalEntry { ty: arc_clone(&format), term: None }));
    entries.push((String::from_str("F32Be"), GlobalEntry { ty: arc_clone(&format), term: None }));
    entries.push((String::from_str("F64Le"), GlobalEntry { ty: arc_clone(&format), term: None }));
    entries.push((String::from_str("F64Be"), GlobalEntry { ty: arc_clone(&format), term: None }));
    let r = Globals { entries };
    proof {
        assert forall|m: int|
            0 <= m < r.entries@.len() implies ((#[trigger] r.entries@[m]).1.term matches Some(d)
            ==> crate::semantics::term_no_items(*d) && crate::semantics::term_globals_below(
            r,
            *d,
            m,
        )) by {
            assert(r.entries@[m].1.term is None);
        }
    }
    r
}

impl Context {
    /// A fresh context over a globals table, with no items checked yet and
    /// no messages.
    pub fn new(globals: Globals) -> (r: Context)
        ensures
            r.globals == globals,
            r.items@.len() == 0,
            r.messages@.len() == 0,
    {
        Context { globals, items: Vec::new(), messages: Vec::new() }
    }

    /// Record a diagnostic.
    fn report(&mut self, range: Range, kind: MessageKind)
        ensures
            final(self).globals == old(self).globals,
            final(self).items == old(self).items,
            final(self).messages@ == old(self).messages@.push(Message { range, kind }),
    {
        self.messages.push(Message { range, kind });
    }

    /// Drain the accumulated diagnostics, in non-decreasing source start
    /// offset; what comes out is a reordering of what was reported.
    pub fn drain_messages(&mut self) -> (r: Vec<Message>)
        ensures
            final(self).globals == old(self).globals,
            final(self).items == old(self).items,
            final(self).messages@.len() == 0,
            messages_sorted(r@),
            r@.to_multiset() == old(self).messages@.to_multiset(),
            exists|src: Seq<int>|
                {
                    &&& #[trigger] src.len() == r@.len()
                    &&& (forall|p: int|
                        0 <= p < src.len() ==> 0 <= #[trigger] src[p] < old(
                            self,
                        ).messages@.len() && r@[p] == old(self).messages@[src[p]])
                    &&& (forall|p: int, q: int|
                        0 <= p < q < src.len() ==> #[trigger] src[p] != #[trigger] src[q])
                    &&& (forall|p: int, q: int|
                        0 <= p < q < src.len() && (#[trigger] r@[p]).range.start == (
                        #[trigger] r@[q]).range.start ==> src[p] < src[q])
                },
    {
        let mut out: Vec<Message> = Vec::new();
        let ghost orig = self.messages@;
        let ghost mut src: Seq<int> = Seq::empty();
        proof {
            assert(orig.take(0) =~= Seq::<Message>::empty());
            assert(out@ =~= Seq::<Message>::empty());
            assert(out@.to_multiset() =~= orig.take(0).to_multiset());
        }
        let mut i: usize = 0;
        while i < self.messages.len()
            invariant
                0 <= i <= self.messages@.len(),
                self.messages@ == orig,
                messages_sorted(out@),
                out@.to_multiset() == orig.take(i as int).to_multiset(),
                src.len() == out@.len(),
                forall|p: int|
                    0 <= p < src.len() ==> 0 <= #[trigger] src[p] < i && out@[p] == orig[src[p]],
                forall|p: int, q: int|
                    0 <= p < q < src.len() ==> #[trigger] src[p] != #[trigger] src[q],
                forall|p: int, q: int|
                    0 <= p < q < src.len() && (#[trigger] out@[p]).range.start == (
                    #[trigger] out@[q]).range.start ==> src[p] < src[q],
            decreases self.messages@.len() - i,
        {
            let m = self.messages[i];
            let mut j: usize = out.len();
            while j > 0 && out[j - 1].range.start > m.range.start
                invariant
                    0 <= j <= out@.len(),
                    messages_sorted(out@),
                    forall|q: int|
                        j <= q < out@.len() ==> m.range.start < (#[trigger] out@[q]).range.start,
                decreases j,
            {
                j -= 1;
            }
            let ghost out_before = out@;
            let ghost src_before = src;
            out.insert(j, m);
            i += 1;
            proof {
                src = src_before.take(j as int) + seq![i - 1] + src_before.skip(j as int);
                assert(out@ =~= out_before.take(j as int) + seq![m] + out_before.skip(j as int));
                lemma_insert_multiset(out_before, j as int, m);
                assert(orig.take(i as int).drop_last() =~= orig.take(i as int - 1));
                assert(orig.take(i as int).last() == m);
                assert(orig.take(i as int) =~= orig.take(i as int - 1).push(m));
                assert(orig.take(i as int - 1).push(m).to_multiset() =~= orig.take(
                    i as int - 1,
                ).to_multiset().insert(m));
                assert(out@.to_multiset() =~= orig.take(i as int).to_multiset());
                assert forall|p: int, q: int|
                    0 <= p < q < out@.len() implies (#[trigger] out@[p]).range.start <= (
                #[trigger] out@[q]).range.start by {
                    if q < j {
                    } else if p < j && q == j {
                    } else if p == j {
                    } else if p > j {
                    }
                }
                assert(src.len() == out@.len());
                assert forall|p: int|
                    0 <= p < src.len() implies 0 <= #[trigger] src[p] < i && out@[p] == orig[
                src[p]] by {
                    if p < j {
                        assert(src[p] == src_before[p]);
                        assert(out@[p] == out_before[p]);
                    } else if p == j {
                        assert(src[p] == i - 1);
                        assert(out@[p] == m);
                    } else {
                        assert(src[p] == src_before[p - 1]);
                        assert(out@[p] == out_before[p - 1]);
                    }
                }
                assert forall|p: int, q: int|
                    0 <= p < q < src.len() implies #[trigger] src[p] != #[trigger] src[q] by {
                    if q < j {
                        assert(src[p] == src_before[p] && src[q] == src_before[q]);
                    } else if p < j && q == j {
                        assert(src[p] == src_before[p] && src[q] == i - 1);
                        assert(src_before[p] < i - 1);
                    } else if p == j && q > j {
                        assert(src[p] == i - 1 && src[q] == src_before[q - 1]);
                        assert(src_before[q - 1] < i - 1);
                    } else if p < j && q > j {
                        assert(src[p] == src_before[p] && src[q] == src_before[q - 1]);
                    } else {
                        assert(src[p] == src_before[p - 1] && src[q] == src_before[q - 1]);
                    }
                }
                assert forall|p: int, q: int|
                    0 <= p < q < src.len() && (#[trigger] out@[p]).range.start == (
                #[trigger] out@[q]).range.start implies src[p] < src[q] by {
                    if q < j {
                        assert(src[p] == src_before[p] && src[q] == src_before[q]);
                        assert(out@[p] == out_before[p] && out@[q] == out_before[q]);
                    } else if p < j && q == j {
                        assert(src[p] == src_before[p] && src[q] == i - 1);
                        assert(src_before[p] < i - 1);
                    } else if p == j && q > j {
                        assert(out@[q] == out_before[q - 1]);
                        assert(m.range.start < out_before[q - 1].range.start);
                    } else if p < j && q > j {
                        assert(src[p] == src_before[p] && src[q] == src_before[q - 1]);
                        assert(out@[p] == out_before[p] && out@[q] == out_before[q - 1]);
                    } else {
                        assert(src[p] == src_before[p - 1] && src[q] == src_before[q - 1]);
                        assert(out@[p] == out_before[p - 1] && out@[q] == out_before[q - 1]);
                    }
                }
            }
        }
        proof {
            assert(orig.take(orig.len() as int) =~= orig);
        }
        self.messages = Vec::new();
        out
    }
}

/// Inserting an element into a sequence adds it to the sequence's multiset.
proof fn lemma_insert_multiset(s: Seq<Message>, j: int, m: Message)
    requires
        0 <= j <= s.len(),
    ensures
        (s.take(j) + seq![m] + s.skip(j)).to_multiset() == s.to_multiset().insert(m),
{
    vstd::seq_lib::lemma_multiset_commutative(s.take(j) + seq![m], s.skip(j));
    vstd::seq_lib::lemma_multiset_commutative(s.take(j), seq![m]);
    vstd::seq_lib::lemma_multiset_commutative(s.take(j), s.skip(j));
    assert(s.take(j) + s.skip(j) =~= s);
    assert(seq![m] =~= Seq::<Message>::empty().push(m));
    assert(Seq::<Message>::empty().push(m).to_multiset() =~= Seq::<
        Message,
    >::empty().to_multiset().insert(m));
    assert(Seq::<Message>::empty().to_multiset() =~= Multiset::<Message>::empty());
    assert((s.take(j) + seq![m] + s.skip(j)).to_multiset() =~= s.to_multiset().insert(m));
}

} // verus!

verus! {

/// Integer literals in a surface term are in canonical form.
pub open spec fn surface_wf(t: STerm) -> bool
    decreases t,
{
    match t {
        STerm::NumberLiteral(_, v) => v.wf(),
        STerm::Ann(_, a, b) => surface_wf(*a) && surface_wf(*b),
        STerm::FunctionType(_, a, b) => surface_wf(*a) && surface_wf(*b),
        STerm::App(_, a, b) => surface_wf(*a) && surface_wf(*b),
        STerm::If(_, c, a, b) => surface_wf(*c) && surface_wf(*a) && surface_wf(*b),
        STerm::Match(_, h, arms, d) => surface_wf(*h) && surface_wf(*d) && (forall|i: int|
            0 <= i < arms@.len() ==> (#[trigger] arms@[i]).1.wf() && surface_wf(arms@[i].2)),
        _ => true,
    }
}

/// Every item reference of an item's own terms resolves in the table.
pub open spec fn item_found(items: Seq<Item>, it: Item) -> bool {
    match it {
        Item::Alias(a) => term_items_found(items, *a.term) && (a.ty matches Some(ty)
            ==> term_items_found(items, *ty)),
        Item::Struct(s) => forall|f: int|
            0 <= f < s.fields@.len() ==> term_items_found(items, *(#[trigger] s.fields@[f]).term),
    }
}

/// Every item of the table resolves its references within the table.
pub open spec fn items_found_all(items: Seq<Item>) -> bool {
    forall|j: int| 0 <= j < items.len() ==> item_found(items, #[trigger] items[j])
}

/// Resolving references stay resolved when the table grows.
pub proof fn lemma_found_push(items: Seq<Item>, t: &Term, x: Item)
    requires
        term_items_found(items, *t),
    ensures
        term_items_found(items.push(x), *t),
    decreases *t,
{
    match t {
        Term::Item(_, n) => {
            lemma_item_index_extend(items, x, n@);
        },
        Term::Ann(_, t1, t2) => {
            lemma_found_push(items, &**t1, x);
            lemma_found_push(items, &**t2, x);
        },
        Term::FunctionType(_, t1, t2) => {
            lemma_found_push(items, &**t1, x);
            lemma_found_push(items, &**t2, x);
        },
        Term::FunctionElim(_, t1, t2) => {
            lemma_found_push(items, &**t1, x);
            lemma_found_push(items, &**t2, x);
        },
        Term::BoolElim(_, h, t1, t2) => {
            lemma_found_push(items, &**h, x);
            lemma_found_push(items, &**t1, x);
            lemma_found_push(items, &**t2, x);
        },
        Term::IntElim(_, h, bs, d) => {
            lemma_found_push(items, &**h, x);
            lemma_found_push(items, &**d, x);
            assert forall|i: int|
                0 <= i < bs@.len() implies term_items_found(items.push(x), #[trigger] bs@[i].1) by {
                lemma_found_push(items, &bs@[i].1, x);
            }
        },
        _ => {},
    }
}

/// A term that resolves all its references and keeps them below `j` still
/// keeps them below `j` when the table grows.
pub proof fn lemma_below_push_found(items: Seq<Item>, t: &Term, x: Item, j: int)
    requires
        term_items_found(items, *t),
        crate::semantics::term_items_below(items, *t, j),
    ensures
        crate::semantics::term_items_below(items.push(x), *t, j),
    decreases *t,
{
    match t {
        Term::Item(_, n) => {
            lemma_item_index_extend(items, x, n@);
        },
        Term::Ann(_, t1, t2) => {
            lemma_below_push_found(items, &**t1, x, j);
            lemma_below_push_found(items, &**t2, x, j);
        },
        Term::FunctionType(_, t1, t2) => {
            lemma_below_push_found(items, &**t1, x, j);
            lemma_below_push_found(items, &**t2, x, j);
        },
        Term::FunctionElim(_, t1, t2) => {
            lemma_below_push_found(items, &**t1, x, j);
            lemma_below_push_found(items, &**t2, x, j);
        },
        Term::BoolElim(_, h, t1, t2) => {
            lemma_below_push_found(items, &**h, x, j);
            lemma_below_push_found(items, &**t1, x, j);
            lemma_below_push_found(items, &**t2, x, j);
        },
        Term::IntElim(_, h, bs, d) => {
            lemma_below_push_found(items, &**h, x, j);
            lemma_below_push_found(items, &**d, x, j);
            assert forall|i: int|
                0 <= i < bs@.len() implies crate::semantics::term_items_below(
                items.push(x),
                #[trigger] bs@[i].1,
                j,
            ) by {
                lemma_below_push_found(items, &bs@[i].1, x, j);
            }
        },
        _ => {},
    }
}

/// Pushing an item whose references resolve preserves the table's
/// well-formedness and resolution.
pub proof fn lemma_wf_push(items: Seq<Item>, x: Item)
    requires
        wf_items(items),
        items_found_all(items),
        item_found(items, x),
    ensures
        wf_items(items.push(x)),
        items_found_all(items.push(x)),
{
    let pushed = items.push(x);
    assert forall|j: int| 0 <= j < pushed.len() implies match #[trigger] pushed[j] {
        Item::Alias(a) => crate::semantics::term_items_below(pushed, *a.term, j) && (
        a.ty matches Some(ty) ==> crate::semantics::term_items_below(pushed, *ty, j)),
        Item::Struct(s) => forall|f: int|
            0 <= f < s.fields@.len() ==> crate::semantics::term_items_below(
                pushed,
                *(#[trigger] s.fields@[f]).term,
                j,
            ),
    } by {
        if j < items.len() {
            assert(pushed[j] == items[j]);
            assert(item_found(items, items[j]));
            match items[j] {
                Item::Alias(a) => {
                    lemma_below_push_found(items, &*a.term, x, j);
                    if let Some(ty) = &a.ty {
                        lemma_below_push_found(items, &**ty, x, j);
                    }
                },
                Item::Struct(s) => {
                    assert forall|f: int|
                        0 <= f < s.fields@.len() implies crate::semantics::term_items_below(
                        pushed,
                        *(#[trigger] s.fields@[f]).term,
                        j,
                    ) by {
                        lemma_below_push_found(items, &*s.fields@[f].term, x, j);
                    }
                },
            }
        } else {
            assert(pushed[j] == x);
            match x {
                Item::Alias(a) => {
                    lemma_items_below_push(items, &*a.term, x);
                    if let Some(ty) = &a.ty {
                        lemma_items_below_push(items, &**ty, x);
                    }
                },
                Item::Struct(s) => {
                    assert forall|f: int|
                        0 <= f < s.fields@.len() implies crate::semantics::term_items_below(
                        pushed,
                        *(#[trigger] s.fields@[f]).term,
                        j,
                    ) by {
                        lemma_items_below_push(items, &*s.fields@[f].term, x);
                    }
                },
            }
        }
    }
    assert forall|j: int| 0 <= j < pushed.len() implies item_found(pushed, #[trigger] pushed[j]) by {
        let it = pushed[j];
        let base_found = if j < items.len() {
            items[j]
        } else {
            x
        };
        assert(it == base_found);
        assert(item_found(items, it));
        match it {
            Item::Alias(a) => {
                lemma_found_push(items, &*a.term, x);
                if let Some(ty) = &a.ty {
                    lemma_found_push(items, &**ty, x);
                }
            },
            Item::Struct(s) => {
                assert forall|f: int|
                    0 <= f < s.fields@.len() implies term_items_found(
                    pushed,
                    *(#[trigger] s.fields@[f]).term,
                ) by {
                    lemma_found_push(items, &*s.fields@[f].term, x);
                }
            },
        }
    }
}

/// Every integer eliminator in a term stores its branches in strictly
/// ascending key order.
pub open spec fn term_branches_sorted(t: Term) -> bool
    decreases t,
{
    match t {
        Term::Ann(_, t1, t2) => term_branches_sorted(*t1) && term_branches_sorted(*t2),
        Term::FunctionType(_, t1, t2) => term_branches_sorted(*t1) && term_branches_sorted(*t2),
        Term::FunctionElim(_, t1, t2) => term_branches_sorted(*t1) && term_branches_sorted(*t2),
        Term::BoolElim(_, h, t1, t2) => term_branches_sorted(*h) && term_branches_sorted(*t1)
            && term_branches_sorted(*t2),
        Term::IntElim(_, h, bs, d) => term_branches_sorted(*h) && term_branches_sorted(*d)
            && branches_sorted(bs@) && (forall|i: int|
            0 <= i < bs@.len() ==> term_branches_sorted((#[trigger] bs@[i]).1)),
        _ => true,
    }
}

/// Arm `j` repeats the key of an earlier arm.
pub open spec fn arm_dup_at(arms: Seq<(Range, IntValue, STerm)>, j: int) -> bool {
    exists|i: int| 0 <= i < j && (#[trigger] arms[i]).1.value() == arms[j].1.value()
}

/// Some arm repeats an earlier arm's key.
pub open spec fn arms_have_dup(arms: Seq<(Range, IntValue, STerm)>) -> bool {
    exists|j: int| 0 <= j < arms.len() && #[trigger] arm_dup_at(arms, j)
}

/// The key of some branch denotes the given integer.
pub open spec fn key_present(bs: Seq<(IntValue, Term)>, kv: int) -> bool {
    exists|b: int| 0 <= b < bs.len() && (#[trigger] bs[b]).0.value() == kv
}

/// Some arm before position `i` carries a key denoting the given integer.
pub open spec fn key_from_arm(arms: Seq<(Range, IntValue, STerm)>, i: int, kv: int) -> bool {
    exists|q: int| 0 <= q < i && (#[trigger] arms[q]).1.value() == kv
}

/// What checking an integer match yields. Without repeated keys: an integer
/// eliminator at the match's range, one branch per arm, keys strictly
/// ascending. With a repeated key: the `Error` term, and among the appended
/// diagnostics a `DuplicateIntBranch` message carrying the range of an arm
/// that repeats an earlier key.
pub open spec fn match_elab(
    rr: Range,
    arms: Seq<(Range, IntValue, STerm)>,
    r: Term,
    msgs_old: Seq<Message>,
    msgs_new: Seq<Message>,
) -> bool {
    &&& !arms_have_dup(arms) ==> (r matches Term::IntElim(r2, _, bs, _) && r2 == rr
        && branches_sorted(bs@) && bs@.len() == arms.len())
    &&& arms_have_dup(arms) ==> {
        &&& r == Term::Error(rr)
        &&& exists|j: int|
            0 <= j < arms.len() && #[trigger] arm_dup_at(arms, j) && (exists|p: int|
                msgs_old.len() <= p < msgs_new.len() && (#[trigger] msgs_new[p]) == Message {
                    range: arms[j].0,
                    kind: MessageKind::DuplicateIntBranch,
                })
    }
}

/// Whether the boolean type is definitionally equal to an expected type:
/// the error value absorbs, and otherwise only the bare `Bool` global.
pub open spec fn expects_bool(expected: Value) -> bool {
    match expected {
        Value::Error(_) => true,
        Value::Neutral(h, es) => es@.len() == 0 && (h matches Head::Global(_, n) && n@
            == "Bool"@),
        _ => false,
    }
}

impl Context {
    /// The type of booleans, as a value.
    fn bool_type(&self, range: Range) -> (r: Value)
        ensures
            r matches Value::Neutral(h, es) && es@.len() == 0 && (h matches Head::Global(r2, n)
                && r2 == range && n@ == "Bool"@),
    {
        Value::Neutral(Head::Global(range, String::from_str("Bool")), Vec::new())
    }

    /// The format of unbounded integers, as a value.
    fn int_type(&self, range: Range) -> (r: Value)
        ensures
            r matches Value::Neutral(h, es) && es@.len() == 0 && (h matches Head::Global(r2, n)
                && r2 == range && n@ == "Int"@),
    {
        Value::Neutral(Head::Global(range, String::from_str("Int")), Vec::new())
    }

    /// Infer a term's type, elaborating it to the core language. The tables
    /// are never changed; diagnostics are only appended; every item
    /// reference in the produced term resolves.
    #[verifier::rlimit(60)]
    #[verifier::spinoff_prover]
    pub fn synth(&mut self, term: &STerm) -> (r: (Term, Arc<Value>))
        requires
            wf_globals(old(self).globals),
            wf_items(old(self).items@),
            surface_wf(*term),
        ensures
            final(self).globals == old(self).globals,
            final(self).items == old(self).items,
            old(self).messages@.is_prefix_of(final(self).messages@),
            term_items_found(final(self).items@, r.0),
            term_branches_sorted(r.0),
            r.0 is Error ==> final(self).messages@.len() > old(self).messages@.len(),
            *term matches STerm::Name(rr, n) ==> {
                let ii = item_index(old(self).items@, n@);
                let gi = global_index(old(self).globals.entries@, n@);
                &&& ii >= 0 ==> (r.0 matches Term::Item(r2, n2) && r2 == rr && n2@ == n@)
                &&& ii >= 0 ==> match old(self).items@[ii] {
                    Item::Alias(a) => match a.ty {
                        Some(ty) => crate::semantics::eval_rel(
                            old(self).globals,
                            old(self).items@,
                            *ty,
                            *r.1,
                        ),
                        None => *r.1 == Value::Error(rr),
                    },
                    Item::Struct(_) => *r.1 == Value::FormatType(rr),
                }
                &&& (ii < 0 && gi >= 0) ==> (r.0 matches Term::Global(r2, n2) && r2 == rr && n2@
                    == n@ && crate::semantics::eval_rel(
                    old(self).globals,
                    old(self).items@,
                    *old(self).globals.entries@[gi].1.ty,
                    *r.1,
                ))
                &&& (ii < 0 && gi < 0) ==> (r.0 == Term::Error(rr) && final(self).messages@
                    == old(self).messages@.push(
                    Message { range: rr, kind: MessageKind::UnboundName },
                ))
            },
            *term matches STerm::Ann(rr, _, _) ==> ((r.0 matches Term::Ann(r2, _, _) && r2 == rr)
                || r.0 == Term::Error(rr)),
            *term matches STerm::FunctionType(rr, _, _) ==> ((r.0 matches Term::FunctionType(
                r2,
                _,
                _,
            ) && r2 == rr) || r.0 == Term::Error(rr)),
            *term matches STerm::App(rr, _, _) ==> ((r.0 matches Term::FunctionElim(r2, _, _)
                && r2 == rr) || r.0 == Term::Error(rr)),
            *term matches STerm::If(rr, _, _, _) ==> (r.0 matches Term::BoolElim(r2, _, _, _)
                && r2 == rr),
            *term matches STerm::Match(rr, _, arms, _) ==> match_elab(
                rr,
                arms@,
                r.0,
                old(self).messages@,
                final(self).messages@,
            ),
            *term matches STerm::Universe(rr, l) ==> {
                &&& r.0 == Term::Universe(rr, l as u32)
                &&& *r.1 == Value::Universe(rr, (l + 1) as u32)
                &&& final(self).messages@ == old(self).messages@
            },
            *term matches STerm::BooleanLiteral(rr, b) ==> {
                &&& (r.0 matches Term::Global(r2, n) && r2 == rr && n@ == (if b {
                    "true"@
                } else {
                    "false"@
                }))
                &&& (*r.1 matches Value::Neutral(h, es) && es@.len() == 0 && (
                h matches Head::Global(_, bn) && bn@ == "Bool"@))
                &&& final(self).messages@ == old(self).messages@
            },
            *term matches STerm::NumberLiteral(rr, v) ==> {
                &&& r.0 == Term::Error(rr)
                &&& final(self).messages@ == old(self).messages@.push(
                    Message { range: rr, kind: MessageKind::AmbiguousLiteral },
                )
            },
        decreases *term, 1int,
    {
        match term {
            STerm::Name(r, n) => {
                match lookup_item(&self.items, n) {
                    Some(it) => {
                        match it {
                            Item::Alias(a) => {
                                match &a.ty {
                                    Some(ty_term) => {
                                        let tyv = eval(&self.globals, &self.items, &*ty_term);
                                        (Term::Item(*r, n.clone()), Arc::new(tyv))
                                    },
                                    None => (Term::Item(*r, n.clone()), Arc::new(Value::Error(*r))),
                                }
                            },
                            Item::Struct(_) => (
                                Term::Item(*r, n.clone()),
                                Arc::new(Value::FormatType(*r)),
                            ),
                        }
                    },
                    None => {
                        match self.globals.get(n) {
                            Some(entry) => {
                                let ty = arc_clone(&entry.ty);
                                let tyv = eval(&self.globals, &self.items, &*ty);
                                (Term::Global(*r, n.clone()), Arc::new(tyv))
                            },
                            None => {
                                self.report(*r, MessageKind::UnboundName);
                                (Term::Error(*r), Arc::new(Value::Error(*r)))
                            },
                        }
                    },
                }
            },
            STerm::Ann(r, inner, ty) => {
                let (ty_core, ty_sort) = self.synth(&*ty);
                let sort_ok = match &*ty_sort {
                    Value::Universe(_, _) => true,
                    Value::FormatType(_) => true,
                    Value::Error(_) => true,
                    _ => false,
                };
                if !sort_ok {
                    self.report(ty.range(), MessageKind::MismatchedType);
                    return (Term::Error(*r), Arc::new(Value::Error(*r)));
                }
                let tyv = eval(&self.globals, &self.items, &ty_core);
                let inner_core = self.check(&*inner, &tyv);
                (
                    Term::Ann(*r, Arc::new(inner_core), Arc::new(ty_core)),
                    Arc::new(tyv),
                )
            },
            STerm::Universe(r, l) => {
                let lvl: u32 = *l as u32;
                (Term::Universe(*r, lvl), Arc::new(Value::Universe(*r, lvl + 1)))
            },
            STerm::FunctionType(r, a, b) => {
                let (a_core, a_ty) = self.synth(&*a);
                let (b_core, b_ty) = self.synth(&*b);
                let la = match &*a_ty {
                    Value::Universe(_, l) => Some(*l),
                    _ => None,
                };
                let lb = match &*b_ty {
                    Value::Universe(_, l) => Some(*l),
                    _ => None,
                };
                match (la, lb) {
                    (Some(l1), Some(l2)) => {
                        let lmax = if l1 >= l2 {
                            l1
                        } else {
                            l2
                        };
                        (
                            Term::FunctionType(*r, Arc::new(a_core), Arc::new(b_core)),
                            Arc::new(Value::Universe(*r, lmax)),
                        )
                    },
                    _ => {
                        let absorb = match (&*a_ty, &*b_ty) {
                            (Value::Error(_), _) => true,
                            (_, Value::Error(_)) => true,
                            _ => false,
                        };
                        if absorb {
                            // an upstream failure: keep the node, let the
                            // error type absorb, and add no new diagnostic
                            (
                                Term::FunctionType(*r, Arc::new(a_core), Arc::new(b_core)),
                                Arc::new(Value::Error(*r)),
                            )
                        } else {
                            self.report(*r, MessageKind::MismatchedType);
                            (Term::Error(*r), Arc::new(Value::Error(*r)))
                        }
                    },
                }
            },
            STerm::App(r, f, x) => {
                let (f_core, f_ty) = self.synth(&*f);
                match &*f_ty {
                    Value::FunctionType(_, p, b) => {
                        let x_core = self.check(&*x, &*p);
                        (
                            Term::FunctionElim(*r, Arc::new(f_core), Arc::new(x_core)),
                            arc_clone(b),
                        )
                    },
                    Value::Error(er) => {
                        // an upstream failure: keep the node and absorb
                        let err_ty = Value::Error(*er);
                        let x_core = self.check(&*x, &err_ty);
                        (
                            Term::FunctionElim(*r, Arc::new(f_core), Arc::new(x_core)),
                            Arc::new(Value::Error(*r)),
                        )
                    },
                    _ => {
                        self.report(f.range(), MessageKind::NotAFunction);
                        (Term::Error(*r), Arc::new(Value::Error(*r)))
                    },
                }
            },
            STerm::NumberLiteral(r, _) => {
                self.report(*r, MessageKind::AmbiguousLiteral);
                (Term::Error(*r), Arc::new(Value::Error(*r)))
            },
            STerm::BooleanLiteral(r, value) => {
                let name = if *value {
                    crate::semantics::true_name()
                } else {
                    crate::semantics::false_name()
                };
                (Term::Global(*r, name), Arc::new(self.bool_type(*r)))
            },
            STerm::If(r, c, t, e) => {
                let bool_ty = self.bool_type(c.range());
                let c_core = self.check(&*c, &bool_ty);
                let (t_core, t_ty) = self.synth(&*t);
                let e_core = self.check(&*e, &*t_ty);
                (
                    Term::BoolElim(*r, Arc::new(c_core), Arc::new(t_core), Arc::new(e_core)),
                    t_ty,
                )
            },
            STerm::Match(_, _, _, dflt) => {
                let (d_core, d_ty) = self.synth(&*dflt);
                let t = self.check_match(term, d_core, &*d_ty);
                (t, d_ty)
            },
        }
    }

    /// Check a term against an expected type, elaborating it to the core
    /// language. The tables are never changed; diagnostics are only
    /// appended; every item reference in the produced term resolves.
    #[verifier::rlimit(60)]
    #[verifier::spinoff_prover]
    pub fn check(&mut self, term: &STerm, expected: &Value) -> (r: Term)
        requires
            wf_globals(old(self).globals),
            wf_items(old(self).items@),
            surface_wf(*term),
        ensures
            final(self).globals == old(self).globals,
            final(self).items == old(self).items,
            old(self).messages@.is_prefix_of(final(self).messages@),
            term_items_found(final(self).items@, r),
            term_branches_sorted(r),
            r is Error ==> final(self).messages@.len() > old(self).messages@.len(),
            *term matches STerm::If(rr, _, _, _) ==> (r matches Term::BoolElim(r2, _, _, _) && r2
                == rr),
            *term matches STerm::Match(rr, _, arms, _) ==> match_elab(
                rr,
                arms@,
                r,
                old(self).messages@,
                final(self).messages@,
            ),
            *term matches STerm::BooleanLiteral(rr, b) ==> (if expects_bool(*expected) {
                r matches Term::Global(r2, n) && r2 == rr && n@ == (if b {
                    "true"@
                } else {
                    "false"@
                })
            } else {
                r == Term::Error(rr) && final(self).messages@ == old(self).messages@.push(
                    Message { range: rr, kind: MessageKind::MismatchedType },
                )
            }),
            *term matches STerm::Universe(rr, l) ==> (if (*expected matches Value::Universe(_, l2)
                && l2 == l as u32 + 1) || *expected is Error {
                r == Term::Universe(rr, l as u32)
            } else {
                r == Term::Error(rr) && final(self).messages@ == old(self).messages@.push(
                    Message { range: rr, kind: MessageKind::MismatchedType },
                )
            }),
            *term matches STerm::NumberLiteral(rr, v) ==> (*expected matches Value::Neutral(
                h,
                es,
            ) ==> (h matches Head::Global(_, n) ==> (es@.len() == 0 ==> {
                &&& literal_fits_spec(v, n@) ==> (r matches Term::Constant(r2, c) && r2 == rr && (
                c matches Constant::Int(v2) && v2.neg == v.neg && v2.digits@ == v.digits@))
                &&& !literal_fits_spec(v, n@) ==> (r == Term::Error(rr)
                    && final(self).messages@ == old(self).messages@.push(
                    Message { range: rr, kind: MessageKind::MismatchedType },
                ))
            }))),
        decreases *term, 2int,
    {
        match term {
            STerm::NumberLiteral(r, v) => {
                match expected {
                    Value::Neutral(Head::Global(_, n), es) => {
                        if es.len() != 0 {
                            self.report(*r, MessageKind::MismatchedType);
                            return Term::Error(*r);
                        }
                        if literal_fits(v, n) {
                            Term::Constant(*r, Constant::Int(v.duplicate()))
                        } else {
                            self.report(*r, MessageKind::MismatchedType);
                            Term::Error(*r)
                        }
                    },
                    Value::Error(_) => Term::Constant(*r, Constant::Int(v.duplicate())),
                    _ => {
                        self.report(*r, MessageKind::MismatchedType);
                        Term::Error(*r)
                    },
                }
            },
            STerm::If(r, c, t, e) => {
                let bool_ty = self.bool_type(c.range());
                let c_core = self.check(&*c, &bool_ty);
                let t_core = self.check(&*t, expected);
                let e_core = self.check(&*e, expected);
                Term::BoolElim(*r, Arc::new(c_core), Arc::new(t_core), Arc::new(e_core))
            },
            STerm::Match(_, _, _, dflt) => {
                let d_core = self.check(&*dflt, expected);
                self.check_match(term, d_core, expected)
            },
            _ => {
                let (t_core, inferred) = self.synth(term);
                let ok = crate::semantics::equal(&*inferred, expected);
                proof {
                    if *term is BooleanLiteral {
                        match expected {
                            Value::Neutral(h2, es2) => {
                                assert(ok == expects_bool(*expected));
                            },
                            _ => {
                                assert(ok == expects_bool(*expected));
                            },
                        }
                    }
                }
                if ok {
                    t_core
                } else {
                    self.report(term.range(), MessageKind::MismatchedType);
                    Term::Error(term.range())
                }
            },
        }
    }

    /// Check an integer match: the scrutinee against `Int`, each arm's body
    /// against the expected type, assembling branches in strictly ascending
    /// key order. A repeated key is a `DuplicateIntBranch` diagnostic at the
    /// repeated arm's range, and the whole term elaborates to `Error`.
    #[verifier::rlimit(100)]
    #[verifier::spinoff_prover]
    fn check_match(&mut self, term: &STerm, d_core: Term, expected: &Value) -> (r: Term)
        requires
            wf_globals(old(self).globals),
            wf_items(old(self).items@),
            surface_wf(*term),
            *term is Match,
            term_items_found(old(self).items@, d_core),
            term_branches_sorted(d_core),
        ensures
            final(self).globals == old(self).globals,
            final(self).items == old(self).items,
            old(self).messages@.is_prefix_of(final(self).messages@),
            term_items_found(final(self).items@, r),
            term_branches_sorted(r),
            r is Error ==> final(self).messages@.len() > old(self).messages@.len(),
            *term matches STerm::Match(rr, _, arms, _) ==> match_elab(
                rr,
                arms@,
                r,
                old(self).messages@,
                final(self).messages@,
            ),
        decreases *term, 0int,
    {
        let (range, scrut, arms) = match term {
            STerm::Match(r, scrut, arms, _) => (*r, &**scrut, arms),
            _ => {
                return Term::Error(term.range());
            },
        };
        let int_ty = self.int_type(scrut.range());
        let h_core = self.check(scrut, &int_ty);
        let mut branches: Branches = Vec::new();
        let mut duplicate = false;
        let mut i: usize = 0;
        while i < arms.len()
            invariant
                0 <= i <= arms@.len(),
                wf_globals(self.globals),
                wf_items(self.items@),
                self.globals == old(self).globals,
                self.items == old(self).items,
                old(self).messages@.is_prefix_of(self.messages@),
                surface_wf(*term),
                *term matches STerm::Match(r2, s2, a2, d2) && a2 == arms,
                forall|q: int| 0 <= q < branches@.len() ==> (#[trigger] branches@[q]).0.wf(),
                branches_sorted(branches@),
                forall|q: int|
                    0 <= q < branches@.len() ==> term_items_found(
                        self.items@,
                        (#[trigger] branches@[q]).1,
                    ),
                forall|q: int|
                    0 <= q < branches@.len() ==> term_branches_sorted(
                        (#[trigger] branches@[q]).1,
                    ),
                forall|q: int|
                    0 <= q < i ==> key_present(branches@, (#[trigger] arms@[q]).1.value()),
                forall|b: int|
                    0 <= b < branches@.len() ==> key_from_arm(
                        arms@,
                        i as int,
                        (#[trigger] branches@[b]).0.value(),
                    ),
                duplicate <==> (exists|j: int| 0 <= j < i && #[trigger] arm_dup_at(arms@, j)),
                duplicate ==> (exists|j: int|
                    0 <= j < i && #[trigger] arm_dup_at(arms@, j) && (exists|p: int|
                        old(self).messages@.len() <= p < self.messages@.len() && (
                        #[trigger] self.messages@[p]) == Message {
                            range: arms@[j].0,
                            kind: MessageKind::DuplicateIntBranch,
                        })),
                !duplicate ==> branches@.len() == i,
            decreases arms@.len() - i,
        {
            let arm_range = arms[i].0;
            let key = arms[i].1.duplicate();
            proof {
                assert(surface_wf(*term));
                assert((#[trigger] arms@[i as int]).1.wf() && surface_wf(arms@[i as int].2));
            }
            let ghost msgs_before_body = self.messages@;
            let body = self.check(&arms[i].2, expected);
            let mut j: usize = 0;
            while j < branches.len() && branches[j].0.lt_value(&key)
                invariant
                    0 <= j <= branches@.len(),
                    key.wf(),
                    forall|q: int| 0 <= q < branches@.len() ==> (#[trigger] branches@[q]).0.wf(),
                    branches_sorted(branches@),
                    forall|q: int|
                        0 <= q < j ==> (#[trigger] branches@[q]).0.value() < key.value(),
                decreases branches@.len() - j,
            {
                j += 1;
            }
            let is_dup = j < branches.len() && branches[j].0.eq_value(&key);
            proof {
                // the spine of the argument: an equal key can only sit at
                // position j, so the probe decides key membership
                if !is_dup {
                    assert forall|b: int|
                        0 <= b < branches@.len() implies (#[trigger] branches@[b]).0.value()
                        != key.value() by {
                        if b < j {
                        } else if b == j {
                        } else {
                            assert(branches@[j as int].0.value() < branches@[b].0.value());
                        }
                    }
                }
                assert(key.value() == arms@[i as int].1.value());
                if is_dup {
                    assert(key_from_arm(arms@, i as int, key.value()));
                    assert(arm_dup_at(arms@, i as int));
                } else {
                    if arm_dup_at(arms@, i as int) {
                        let ghost kvi = arms@[i as int].1.value();
                        let q = choose|q: int|
                            0 <= q < i && (#[trigger] arms@[q]).1.value() == kvi;
                        assert(key_present(branches@, arms@[q].1.value()));
                        assert(false);
                    }
                }
            }
            if is_dup {
                let ghost msgs_before_report = self.messages@;
                self.report(arm_range, MessageKind::DuplicateIntBranch);
                duplicate = true;
                proof {
                    assert(self.messages@[msgs_before_report.len() as int] == Message {
                        range: arms@[i as int].0,
                        kind: MessageKind::DuplicateIntBranch,
                    });
                    assert(arm_dup_at(arms@, i as int));
                }
            } else {
                let ghost before = branches@;
                branches.insert(j, (key, body));
                proof {
                    assert(branches@ =~= before.take(j as int) + seq![branches@[j as int]]
                        + before.skip(j as int));
                    assert forall|p: int, q: int|
                        0 <= p < q < branches@.len() implies (#[trigger] branches@[p]).0.value()
                        < (#[trigger] branches@[q]).0.value() by {
                        if q < j {
                            assert(branches@[p] == before[p]);
                            assert(branches@[q] == before[q]);
                        } else if p < j && q == j {
                            assert(branches@[p] == before[p]);
                        } else if p == j && q > j {
                            assert(branches@[q] == before[q - 1]);
                            assert(before[q - 1].0.value() >= before[j as int].0.value());
                        } else if p < j && q > j {
                            assert(branches@[p] == before[p]);
                            assert(branches@[q] == before[q - 1]);
                        } else if p > j {
                            assert(branches@[p] == before[p - 1]);
                            assert(branches@[q] == before[q - 1]);
                        }
                    }
                    assert forall|q: int|
                        0 <= q < i + 1 implies key_present(
                        branches@,
                        (#[trigger] arms@[q]).1.value(),
                    ) by {
                        if q < i {
                            let b = choose|b: int|
                                0 <= b < before.len() && (#[trigger] before[b]).0.value()
                                    == arms@[q].1.value();
                            if b < j {
                                assert(branches@[b] == before[b]);
                            } else {
                                assert(branches@[b + 1] == before[b]);
                            }
                        } else {
                            assert(branches@[j as int].0.value() == arms@[i as int].1.value());
                        }
                    }
                    assert forall|b: int|
                        0 <= b < branches@.len() implies key_from_arm(
                        arms@,
                        i as int + 1,
                        (#[trigger] branches@[b]).0.value(),
                    ) by {
                        if b < j {
                            assert(branches@[b] == before[b]);
                            assert(key_from_arm(arms@, i as int, before[b].0.value()));
                        } else if b == j {
                            assert(branches@[b].0.value() == arms@[i as int].1.value());
                        } else {
                            assert(branches@[b] == before[b - 1]);
                            assert(key_from_arm(arms@, i as int, before[b - 1].0.value()));
                        }
                    }
                }
            }
            i += 1;
            proof {
                if duplicate {
                    let j0 = choose|j0: int|
                        0 <= j0 < i && #[trigger] arm_dup_at(arms@, j0) && (exists|p: int|
                            old(self).messages@.len() <= p < msgs_before_body.len() && (
                            #[trigger] msgs_before_body[p]) == Message {
                                range: arms@[j0].0,
                                kind: MessageKind::DuplicateIntBranch,
                            }) || (0 <= j0 < i && arm_dup_at(arms@, j0));
                }
            }
        }
        if duplicate {
            return Term::Error(range);
        }
        let r = Term::IntElim(
            range,
            Arc::new(h_core),
            Arc::new(branches),
            Arc::new(d_core),
        );
        r
    }
}

/// The bounds a format name imposes on an integer literal: `Int` is
/// unbounded, the machine formats carry their ranges, and no other name
/// accepts a literal.
pub open spec fn literal_fits_spec(v: IntValue, n: Seq<char>) -> bool {
    if n == "Int"@ {
        true
    } else if n == "U8"@ {
        0 <= v.value() <= 255
    } else if n == "U16Le"@ || n == "U16Be"@ {
        0 <= v.value() <= 65535
    } else if n == "U32Le"@ || n == "U32Be"@ {
        0 <= v.value() <= 4294967295
    } else if n == "U64Le"@ || n == "U64Be"@ {
        0 <= v.value() <= 18446744073709551615
    } else if n == "I8"@ {
        -128 <= v.value() <= 127
    } else if n == "I16Le"@ || n == "I16Be"@ {
        -32768 <= v.value() <= 32767
    } else if n == "I32Le"@ || n == "I32Be"@ {
        -2147483648 <= v.value() <= 2147483647
    } else if n == "I64Le"@ || n == "I64Be"@ {
        -9223372036854775808 <= v.value() <= 9223372036854775807
    } else {
        false
    }
}

/// A name that an integer literal may be checked against, together with the
/// bounds it imposes: `Int` is unbounded, the machine formats carry their
/// ranges.
pub fn literal_fits(v: &IntValue, name: &String) -> (r: bool)
    requires
        v.wf(),
    ensures
        r == literal_fits_spec(*v, name@),
{
    proof {
        crate::integer::lemma_digits_value_nonneg(v.digits@);
    }
    let int_name = String::from_str("Int");
    if string_eq(name, &int_name) {
        return true;
    }
    if string_eq(name, &String::from_str("U8")) {
        return !v.neg && !IntValue::from_u64(255).lt_value(v);
    }
    if string_eq(name, &String::from_str("U16Le")) || string_eq(name, &String::from_str("U16Be")) {
        return !v.neg && !IntValue::from_u64(65535).lt_value(v);
    }
    if string_eq(name, &String::from_str("U32Le")) || string_eq(name, &String::from_str("U32Be")) {
        return !v.neg && !IntValue::from_u64(4294967295).lt_value(v);
    }
    if string_eq(name, &String::from_str("U64Le")) || string_eq(name, &String::from_str("U64Be")) {
        return !v.neg && !IntValue::from_u64(18446744073709551615).lt_value(v);
    }
    if string_eq(name, &String::from_str("I8")) {
        return !v.lt_value(&IntValue::neg_from_u64(128)) && !IntValue::from_u64(127).lt_value(v);
    }
    if string_eq(name, &String::from_str("I16Le")) || string_eq(name, &String::from_str("I16Be")) {
        return !v.lt_value(&IntValue::neg_from_u64(32768)) && !IntValue::from_u64(
            32767,
        ).lt_value(v);
    }
    if string_eq(name, &String::from_str("I32Le")) || string_eq(name, &String::from_str("I32Be")) {
        return !v.lt_value(&IntValue::neg_from_u64(2147483648)) && !IntValue::from_u64(
            2147483647,
        ).lt_value(v);
    }
    if string_eq(name, &String::from_str("I64Le")) || string_eq(name, &String::from_str("I64Be")) {
        return !v.lt_value(&IntValue::neg_from_u64(9223372036854775808)) && !IntValue::from_u64(
            9223372036854775807,
        ).lt_value(v);
    }
    false
}

} // verus!

verus! {

/// Integer literals in a surface item are in canonical form.
pub open spec fn sitem_wf(it: SItem) -> bool {
    match it {
        SItem::Alias { range, name, doc, ty, term } => surface_wf(*term) && (ty matches Some(t)
            ==> surface_wf(*t)),
        SItem::Struct { range, name, doc, fields } => forall|f: int|
            0 <= f < fields@.len() ==> surface_wf((#[trigger] fields@[f]).term),
    }
}

/// The shape checking one surface item yields: an alias yields an alias
/// item of the same name and range, a struct yields a struct item of the
/// same name and range with one checked field per surface field, names
/// kept; every stored term keeps its integer branches sorted.
pub open spec fn item_elab_shape(sit: SItem, it: Item) -> bool {
    match sit {
        SItem::Alias { range, name, doc, ty, term } => it matches Item::Alias(a) && a.name@
            == name@ && a.range == range && term_branches_sorted(*a.term) && (ty is Some
            ==> a.ty is Some),
        SItem::Struct { range, name, doc, fields } => it matches Item::Struct(st) && st.name@
            == name@ && st.range == range && st.fields@.len() == fields@.len() && (forall|f: int|
            0 <= f < fields@.len() ==> {
                &&& (#[trigger] st.fields@[f]).name@ == fields@[f].name@
                &&& st.fields@[f].range == fields@[f].range
                &&& term_branches_sorted(*st.fields@[f].term)
            }),
    }
}

/// Integer literals in a surface module are in canonical form.
pub open spec fn smodule_wf(m: SModule) -> bool {
    forall|j: int| 0 <= j < m.items@.len() ==> sitem_wf(#[trigger] m.items@[j])
}

/// Decide whether every item reference in a term resolves in the table.
#[verifier::loop_isolation(false)]
pub fn term_resolves(items: &Vec<Item>, t: &Term) -> (r: bool)
    ensures
        r == term_items_found(items@, *t),
    decreases *t,
{
    match t {
        Term::Item(_, n) => lookup_item(items, n).is_some(),
        Term::Ann(_, t1, t2) => term_resolves(items, &**t1) && term_resolves(items, &**t2),
        Term::FunctionType(_, t1, t2) => term_resolves(items, &**t1) && term_resolves(
            items,
            &**t2,
        ),
        Term::FunctionElim(_, t1, t2) => term_resolves(items, &**t1) && term_resolves(
            items,
            &**t2,
        ),
        Term::BoolElim(_, h, t1, t2) => term_resolves(items, &**h) && term_resolves(items, &**t1)
            && term_resolves(items, &**t2),
        Term::IntElim(_, h, bs, d) => {
            if !term_resolves(items, &**h) {
                return false;
            }
            if !term_resolves(items, &**d) {
                return false;
            }
            let mut i: usize = 0;
            while i < bs.len()
                invariant
                    0 <= i <= bs@.len(),
                    forall|q: int|
                        0 <= q < i ==> term_items_found(items@, (#[trigger] bs@[q]).1),
                decreases bs@.len() - i,
            {
                if !term_resolves(items, &bs[i].1) {
                    return false;
                }
                i += 1;
            }
            true
        },
        _ => true,
    }
}

/// Copy a list of doc lines.
pub fn clone_strings(v: &Vec<String>) -> (r: Vec<String>)
    ensures
        r@.len() == v@.len(),
        forall|i: int| 0 <= i < v@.len() ==> (#[trigger] r@[i])@ == v@[i]@,
{
    let mut out: Vec<String> = Vec::new();
    let mut i: usize = 0;
    while i < v.len()
        invariant
            0 <= i <= v@.len(),
            out@.len() == i,
            forall|q: int| 0 <= q < i ==> (#[trigger] out@[q])@ == v@[q]@,
        decreases v@.len() - i,
    {
        out.push(v[i].clone());
        i += 1;
    }
    out
}

impl Context {
    /// Check a whole surface module: items in source order, an alias against
    /// its declared type (or with its type synthesized), a struct with every
    /// field checked against `FormatType`. The table of checked items stays
    /// well formed throughout, so the returned module can be evaluated.
    pub fn check_module(&mut self, module: &SModule) -> (r: Module)
        requires
            wf_globals(old(self).globals),
            wf_items(old(self).items@),
            items_found_all(old(self).items@),
            smodule_wf(*module),
        ensures
            final(self).globals == old(self).globals,
            old(self).messages@.is_prefix_of(final(self).messages@),
            wf_items(r.items@),
            items_found_all(r.items@),
            final(self).items@.len() == 0,
            r.doc@.len() == module.doc@.len(),
            forall|i: int|
                0 <= i < module.doc@.len() ==> (#[trigger] r.doc@[i])@ == module.doc@[i]@,
            r.items@.len() == old(self).items@.len() + module.items@.len(),
            r.items@.take(old(self).items@.len() as int) == old(self).items@,
            forall|i: int|
                0 <= i < module.items@.len() ==> item_elab_shape(
                    #[trigger] module.items@[i],
                    r.items@[old(self).items@.len() + i],
                ),
    {
        let ghost base_len = self.items@.len() as int;
        let mut i: usize = 0;
        while i < module.items.len()
            invariant
                0 <= i <= module.items@.len(),
                wf_globals(self.globals),
                self.globals == old(self).globals,
                old(self).messages@.is_prefix_of(self.messages@),
                wf_items(self.items@),
                items_found_all(self.items@),
                smodule_wf(*module),
                base_len == old(self).items@.len(),
                self.items@.len() == base_len + i,
                self.items@.take(base_len) == old(self).items@,
                forall|q: int|
                    0 <= q < i ==> item_elab_shape(
                        #[trigger] module.items@[q],
                        self.items@[base_len + q],
                    ),
            decreases module.items@.len() - i,
        {
            let ghost pre_items = self.items@;
            match &module.items[i] {
                SItem::Alias { range, name, doc, ty, term } => {
                    proof {
                        assert(sitem_wf(module.items@[i as int]));
                    }
                    let item = match ty {
                        Some(sty) => {
                            let (ty_core, ty_sort) = self.synth(&**sty);
                            let sort_ok = match &*ty_sort {
                                Value::Universe(_, _) => true,
                                Value::FormatType(_) => true,
                                Value::Error(_) => true,
                                _ => false,
                            };
                            if !sort_ok {
                                self.report(sty.range(), MessageKind::InvalidFormat);
                            }
                            let tyv = eval(&self.globals, &self.items, &ty_core);
                            let t_core = self.check(&**term, &tyv);
                            Alias {
                                range: *range,
                                name: name.clone(),
                                doc: clone_strings(doc),
                                ty: Some(Arc::new(ty_core)),
                                term: Arc::new(t_core),
                            }
                        },
                        None => {
                            let (t_core, inferred) = self.synth(&**term);
                            let ty_rb = crate::semantics::read_back(&*inferred);
                            let ty_opt = if term_resolves(&self.items, &ty_rb) {
                                Some(Arc::new(ty_rb))
                            } else {
                                None
                            };
                            Alias {
                                range: *range,
                                name: name.clone(),
                                doc: clone_strings(doc),
                                ty: ty_opt,
                                term: Arc::new(t_core),
                            }
                        },
                    };
                    let ghost items_before = self.items@;
                    let pushed = Item::Alias(item);
                    proof {
                        assert(item_found(items_before, pushed));
                        lemma_wf_push(items_before, pushed);
                    }
                    let ghost gpushed = pushed;
                    self.items.push(pushed);
                    proof {
                        assert(items_before == pre_items);
                        assert(items_before.len() == base_len + i);
                        assert(self.items@ == items_before.push(gpushed));
                        assert(self.items@.take(base_len) =~= items_before.take(base_len));
                        assert(item_elab_shape(module.items@[i as int], self.items@[base_len
                            + i as int]));
                        assert forall|q: int|
                            0 <= q < i + 1 implies item_elab_shape(
                            #[trigger] module.items@[q],
                            self.items@[base_len + q],
                        ) by {
                            if q < i {
                                assert(self.items@[base_len + q] == items_before[base_len + q]);
                            }
                        }
                    }
                },
                SItem::Struct { range, name, doc, fields } => {
                    proof {
                        assert(sitem_wf(module.items@[i as int]));
                    }
                    let mut out_fields: Vec<TypeField> = Vec::new();
                    let mut f: usize = 0;
                    while f < fields.len()
                        invariant
                            0 <= f <= fields@.len(),
                            wf_globals(self.globals),
                            self.globals == old(self).globals,
                            old(self).messages@.is_prefix_of(self.messages@),
                            wf_items(self.items@),
                            items_found_all(self.items@),
                            smodule_wf(*module),
                            forall|q: int|
                                0 <= q < fields@.len() ==> surface_wf(
                                    (#[trigger] fields@[q]).term,
                                ),
                            out_fields@.len() == f,
                            self.items@ == pre_items,
                            forall|q: int|
                                0 <= q < out_fields@.len() ==> term_items_found(
                                    self.items@,
                                    *(#[trigger] out_fields@[q]).term,
                                ),
                            forall|q: int|
                                0 <= q < out_fields@.len() ==> {
                                    &&& (#[trigger] out_fields@[q]).name@ == fields@[q].name@
                                    &&& out_fields@[q].range == fields@[q].range
                                    &&& term_branches_sorted(*out_fields@[q].term)
                                },
                        decreases fields@.len() - f,
                    {
                        let fld = &fields[f];
                        let expected = Value::FormatType(fld.range);
                        let t_core = self.check(&fld.term, &expected);
                        if let Term::Error(_) = &t_core {
                            self.report(fld.range, MessageKind::InvalidFormat);
                        }
                        out_fields.push(
                            TypeField {
                                range: fld.range,
                                name: fld.name.clone(),
                                doc: clone_strings(&fld.doc),
                                term: Arc::new(t_core),
                            },
                        );
                        f += 1;
                    }
                    let st = StructType {
                        range: *range,
                        name: name.clone(),
                        doc: clone_strings(doc),
                        fields: out_fields,
                    };
                    let ghost items_before = self.items@;
                    let pushed = Item::Struct(st);
                    proof {
                        assert(item_found(items_before, pushed));
                        lemma_wf_push(items_before, pushed);
                    }
                    let ghost gpushed = pushed;
                    self.items.push(pushed);
                    proof {
                        assert(items_before == pre_items);
                        assert(items_before.len() == base_len + i);
                        assert(self.items@ == items_before.push(gpushed));
                        assert(self.items@.take(base_len) =~= items_before.take(base_len));
                        assert(item_elab_shape(module.items@[i as int], self.items@[base_len
                            + i as int]));
                        assert forall|q: int|
                            0 <= q < i + 1 implies item_elab_shape(
                            #[trigger] module.items@[q],
                            self.items@[base_len + q],
                        ) by {
                            if q < i {
                                assert(self.items@[base_len + q] == items_before[base_len + q]);
                            }
                        }
                    }
                },
            }
            i += 1;
        }
        let mut out_items: Vec<Item> = Vec::new();
        std::mem::swap(&mut out_items, &mut self.items);
        let r = Module { doc: clone_strings(&module.doc), items: out_items };
        r
    }
}

} // verus!
