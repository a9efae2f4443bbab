//! Pretty printing of core terms and modules into documents: a display form
//! of the checked core language, with precedence-driven parenthesisation.
//!
//! The documents built here use hard line breaks only between items and
//! around struct fields, so a term's rendering does not depend on the
//! indentation it is printed at; the contracts state the rendered text
//! exactly.

use vstd::prelude::*;
use vstd::string::StringExecFns;

use crate::emit::{digits_text, nat_text};
use crate::integer::IntValue;
use crate::pretty::{doc_nest_sum, doc_render, Doc, ToDoc};
use crate::term::{Alias, Constant, Item, Module, StructType, Term, TypeField};

verus! {

broadcast use vstd::std_specs::vec::group_vec_axioms, vstd::seq::group_seq_axioms;

/// Binding strength of the context a term is printed in.
#[derive(Copy, Clone, Debug, PartialEq, Eq, Structural)]
pub enum Prec {
    Term,
    Arrow,
    App,
    Atomic,
}

/// The numeric strength of a precedence level.
pub open spec fn spec_prec_level(p: Prec) -> int {
    match p {
        Prec::Term => 0,
        Prec::Arrow => 1,
        Prec::App => 2,
        Prec::Atomic => 3,
    }
}

/// The numeric strength of a precedence level.
pub fn prec_level(p: Prec) -> (r: u8)
    ensures
        r as int == spec_prec_level(p),
{
    match p {
        Prec::Term => 0,
        Prec::Arrow => 1,
        Prec::App => 2,
        Prec::Atomic => 3,
    }
}

/// The text of an integer constant: its sign and decimal digits.
pub open spec fn int_value_text(v: IntValue) -> Seq<char> {
    (if v.neg {
        seq!['-']
    } else {
        Seq::<char>::empty()
    }) + digits_text(v.digits@)
}

/// The text of a constant. Floating-point constants are shown through their
/// IEEE 754 bit patterns, which is what the core carries for them.
pub open spec fn constant_text(c: Constant) -> Seq<char> {
    match c {
        Constant::Int(v) => "int "@ + int_value_text(v),
        Constant::F32(bits) => "f32 bits "@ + nat_text(bits as nat),
        Constant::F64(bits) => "f64 bits "@ + nat_text(bits as nat),
    }
}

/// Text wrapped in parentheses when `b` holds.
pub open spec fn paren_text(b: bool, inner: Seq<char>) -> Seq<char> {
    if b {
        "("@ + inner + ")"@
    } else {
        inner
    }
}

/// The text of a term printed at a precedence level.
pub open spec fn term_prec_text(t: Term, lvl: int) -> Seq<char>
    decreases t, 0int,
{
    match t {
        Term::Global(_, n) => "global "@ + n@,
        Term::Item(_, n) => "item "@ + n@,
        Term::Ann(_, inner, ty) => paren_text(
            lvl > 0,
            term_prec_text(*inner, 1) + " : "@ + term_prec_text(*ty, 0),
        ),
        Term::Universe(_, l) => if l == 0 {
            "Type"@
        } else {
            "Type "@ + nat_text(l as nat)
        },
        Term::FormatType(_) => "Format"@,
        Term::FunctionType(_, p, b) => paren_text(
            lvl > 1,
            term_prec_text(*p, 2) + " -> "@ + term_prec_text(*b, 1),
        ),
        Term::FunctionElim(_, h, a) => paren_text(
            lvl > 2,
            term_prec_text(*h, 3) + " "@ + term_prec_text(*a, 3),
        ),
        Term::Constant(_, c) => constant_text(c),
        Term::BoolElim(_, h, tt, ff) => "bool_elim "@ + term_prec_text(*h, 0) + " { "@
            + term_prec_text(*tt, 0) + ", "@ + term_prec_text(*ff, 0) + " }"@,
        Term::IntElim(_, h, bs, d) => "int_elim "@ + term_prec_text(*h, 0) + " {"@ + branches_text(
            bs@,
        ) + " "@ + term_prec_text(*d, 0) + " }"@,
        Term::Error(_) => "!"@,
    }
}

/// The text of integer branches, in the order they are stored; checked
/// terms keep them in ascending key order.
pub open spec fn branches_text(bs: Seq<(IntValue, Term)>) -> Seq<char>
    decreases bs, 0int,
{
    if bs.len() == 0 {
        Seq::empty()
    } else {
        branches_text(bs.drop_last()) + " "@ + int_value_text(bs.last().0) + " => "@
            + term_prec_text(bs.last().1, 0) + ","@
    }
}

/// The text of a term printed at the loosest precedence.
pub open spec fn term_pretty_text(t: Term) -> Seq<char> {
    term_prec_text(t, 0)
}

/// The opening text of an integer eliminator's printed form.
pub open spec fn int_elim_prefix_text(t: Term) -> Seq<char> {
    match t {
        Term::IntElim(_, h, _, _) => "int_elim "@ + term_prec_text(*h, 0) + " {"@,
        _ => Seq::empty(),
    }
}

/// Doc lines of an item or field, one `///` line per entry, each break
/// indented to the given column.
pub open spec fn pretty_doc_text(doc: Seq<String>, ind: nat) -> Seq<char>
    decreases doc.len(),
{
    if doc.len() == 0 {
        Seq::empty()
    } else {
        pretty_doc_text(doc.drop_last(), ind) + "///"@ + doc.last()@ + seq!['\n'] + crate::pretty::spaces(ind)
    }
}

/// The display text of an alias item.
pub open spec fn alias_pretty_text(a: Alias, ind: nat) -> Seq<char> {
    pretty_doc_text(a.doc@, ind) + a.name@ + " = "@ + term_prec_text(*a.term, 0) + ";"@
}

/// The display text of one struct field.
pub open spec fn field_pretty_text(f: TypeField, ind: nat) -> Seq<char> {
    pretty_doc_text(f.doc@, ind) + f.name@ + " : "@ + term_prec_text(*f.term, 0) + ","@
}

/// The display text of a struct's fields, one per line, indented.
pub open spec fn fields_pretty_text(fields: Seq<TypeField>, ind: nat) -> Seq<char>
    decreases fields.len(),
{
    if fields.len() == 0 {
        Seq::empty()
    } else {
        fields_pretty_text(fields.drop_last(), ind) + seq!['\n'] + crate::pretty::spaces(ind + 4)
            + field_pretty_text(fields.last(), ind + 4)
    }
}

/// The display text of a struct item.
pub open spec fn struct_pretty_text(s: StructType, ind: nat) -> Seq<char> {
    pretty_doc_text(s.doc@, ind) + "struct "@ + s.name@ + " "@ + (if s.fields@.len() == 0 {
        "{}"@
    } else {
        "{"@ + fields_pretty_text(s.fields@, ind) + seq!['\n'] + crate::pretty::spaces(ind) + "}"@
    })
}

/// The display text of one item.
pub open spec fn item_pretty_text(item: Item, ind: nat) -> Seq<char> {
    match item {
        Item::Alias(a) => alias_pretty_text(a, ind),
        Item::Struct(s) => struct_pretty_text(s, ind),
    }
}

/// Module doc lines, separated by line breaks.
pub open spec fn module_doc_text(doc: Seq<String>, ind: nat) -> Seq<char>
    decreases doc.len(),
{
    if doc.len() == 0 {
        Seq::empty()
    } else if doc.len() == 1 {
        "//!"@ + doc[0]@
    } else {
        module_doc_text(doc.drop_last(), ind) + seq!['\n'] + crate::pretty::spaces(ind) + "//!"@
            + doc.last()@
    }
}

/// The items of a module, separated by blank lines.
pub open spec fn items_pretty_text(items: Seq<Item>, first: bool, ind: nat) -> Seq<char>
    decreases items.len(),
{
    if items.len() == 0 {
        Seq::empty()
    } else {
        items_pretty_text(items.drop_last(), first, ind) + (if first && items.len() == 1 {
            Seq::<char>::empty()
        } else {
            seq!['\n'] + crate::pretty::spaces(ind) + seq!['\n'] + crate::pretty::spaces(ind)
        }) + item_pretty_text(items.last(), ind)
    }
}

/// The display text of a whole module: its doc lines, then its items,
/// separated by blank lines, with a final line break.
pub open spec fn module_pretty_text(m: Module, ind: nat) -> Seq<char> {
    (if m.doc@.len() == 0 {
        items_pretty_text(m.items@, true, ind)
    } else {
        module_doc_text(m.doc@, ind) + items_pretty_text(m.items@, false, ind)
    }) + seq!['\n'] + crate::pretty::spaces(ind)
}

} // verus!

verus! {

/// The sign and digits of an integer constant as a string.
pub fn int_value_string(v: &IntValue) -> (r: String)
    ensures
        r@ == int_value_text(*v),
{
    let mut out = String::new();
    if v.neg {
        proof {
            reveal_strlit("-");
            assert("-"@ =~= seq!['-']);
        }
        out.append("-");
    }
    crate::emit::emit_digits(&mut out, &v.digits);
    proof {
        assert(out@ =~= int_value_text(*v));
    }
    out
}

/// Wrap a document in parens.
pub fn paren(b: bool, doc: Doc) -> (r: Doc)
    ensures
        doc_nest_sum(r) == doc_nest_sum(doc),
        forall|ind: nat|
            #[trigger] doc_render(r, ind) == paren_text(b, doc_render(doc, ind)),
{
    if b {
        let r = Doc::text("(").append(doc).append(Doc::text(")"));
        proof {
            assert forall|ind: nat|
                #[trigger] doc_render(r, ind) == paren_text(b, doc_render(doc, ind)) by {
                assert(doc_render(r, ind) =~= paren_text(b, doc_render(doc, ind)));
            }
        }
        r
    } else {
        doc
    }
}

/// Convert a constant to a document.
pub fn from_constant(constant: &Constant) -> (r: Doc)
    ensures
        doc_nest_sum(r) == 0,
        forall|ind: nat| #[trigger] doc_render(r, ind) == constant_text(*constant),
{
    let r = match constant {
        Constant::Int(v) => Doc::text("int ").append(Doc::text_string(int_value_string(v))),
        Constant::F32(bits) => {
            let mut num = String::new();
            crate::emit::emit_u64(&mut num, *bits as u64);
            Doc::text("f32 bits ").append(Doc::text_string(num))
        },
        Constant::F64(bits) => {
            let mut num = String::new();
            crate::emit::emit_u64(&mut num, *bits);
            Doc::text("f64 bits ").append(Doc::text_string(num))
        },
    };
    proof {
        assert forall|ind: nat| #[trigger] doc_render(r, ind) == constant_text(*constant) by {
            assert(doc_render(r, ind) =~= constant_text(*constant));
        }
    }
    r
}

/// Convert a term to a document, at the loosest precedence.
pub fn from_term(term: &Term) -> (r: Doc)
    ensures
        doc_nest_sum(r) == 0,
        forall|ind: nat| #[trigger] doc_render(r, ind) == term_pretty_text(*term),
{
    from_term_prec(term, Prec::Term)
}

/// Convert a term to a document, parenthesising as the precedence of the
/// surrounding context demands. Integer branches print in the order they
/// are stored; the elaborator guarantees `term_branches_sorted` of every
/// term it produces, so checked terms print their keys in ascending order.
#[verifier::loop_isolation(false)]
#[verifier::rlimit(90)]
#[verifier::spinoff_prover]
pub fn from_term_prec(term: &Term, prec: Prec) -> (r: Doc)
    ensures
        doc_nest_sum(r) == 0,
        forall|ind: nat|
            #[trigger] doc_render(r, ind) == term_prec_text(*term, spec_prec_level(prec)),
    decreases *term,
{
    let lvl = prec_level(prec);
    let r = match term {
        Term::Global(_, n) => Doc::text("global ").append(Doc::text_string(n.clone())),
        Term::Item(_, n) => Doc::text("item ").append(Doc::text_string(n.clone())),
        Term::Ann(_, inner, ty) => paren(
            lvl > 0,
            from_term_prec(&*inner, Prec::Arrow).append(Doc::text(" : ")).append(
                from_term_prec(&*ty, Prec::Term),
            ),
        ),
        Term::Universe(_, l) => {
            if *l == 0 {
                Doc::text("Type")
            } else {
                let mut num = String::new();
                crate::emit::emit_u64(&mut num, *l as u64);
                Doc::text("Type ").append(Doc::text_string(num))
            }
        },
        Term::FormatType(_) => Doc::text("Format"),
        Term::FunctionType(_, p, b) => paren(
            lvl > 1,
            from_term_prec(&*p, Prec::App).append(Doc::text(" -> ")).append(
                from_term_prec(&*b, Prec::Arrow),
            ),
        ),
        Term::FunctionElim(_, h, a) => paren(
            lvl > 2,
            from_term_prec(&*h, Prec::Atomic).append(Doc::text(" ")).append(
                from_term_prec(&*a, Prec::Atomic),
            ),
        ),
        Term::Constant(_, c) => from_constant(c),
        Term::BoolElim(_, h, tt, ff) => Doc::text("bool_elim ").append(
            from_term_prec(&*h, Prec::Term),
        ).append(Doc::text(" { ")).append(from_term_prec(&*tt, Prec::Term)).append(
            Doc::text(", "),
        ).append(from_term_prec(&*ff, Prec::Term)).append(Doc::text(" }")),
        Term::IntElim(_, h, bs, d) => {
            let mut acc = Doc::text("int_elim ").append(from_term_prec(&*h, Prec::Term)).append(
                Doc::text(" {"),
            );
            proof {
                assert forall|ind: nat|
                    #[trigger] doc_render(acc, ind) == int_elim_prefix_text(*term)
                        + branches_text(bs@.take(0)) by {
                    assert(int_elim_prefix_text(*term) + branches_text(bs@.take(0)) =~= doc_render(
                        acc,
                        ind,
                    ));
                }
            }
            let mut i: usize = 0;
            while i < bs.len()
                invariant
                    0 <= i <= bs@.len(),
                    doc_nest_sum(acc) == 0,
                    forall|ind: nat|
                        #[trigger] doc_render(acc, ind) == int_elim_prefix_text(*term)
                            + branches_text(bs@.take(i as int)),
                decreases bs@.len() - i,
            {
                let key_text = int_value_string(&bs[i].0);
                acc = acc.append(Doc::text(" ")).append(Doc::text_string(key_text)).append(
                    Doc::text(" => "),
                ).append(from_term_prec(&bs[i].1, Prec::Term)).append(Doc::text(","));
                i += 1;
                proof {
                    assert(bs@.take(i as int).drop_last() =~= bs@.take(i as int - 1));
                    assert forall|ind: nat|
                        #[trigger] doc_render(acc, ind) == int_elim_prefix_text(*term)
                            + branches_text(bs@.take(i as int)) by {
                        assert(int_elim_prefix_text(*term) + branches_text(bs@.take(i as int))
                            =~= doc_render(acc, ind));
                    }
                }
            }
            proof {
                assert(bs@.take(bs@.len() as int) =~= bs@);
            }
            let racc = acc.append(Doc::text(" ")).append(from_term_prec(&*d, Prec::Term)).append(
                Doc::text(" }"),
            );
            proof {
                assert forall|ind: nat|
                    #[trigger] doc_render(racc, ind) == term_prec_text(
                        *term,
                        spec_prec_level(prec),
                    ) by {
                    assert(doc_render(acc, ind) == int_elim_prefix_text(*term) + branches_text(
                        bs@.take(i as int),
                    ));
                    assert(bs@.take(i as int) =~= bs@);
                    assert(doc_render(acc, ind) == int_elim_prefix_text(*term) + branches_text(
                        bs@,
                    ));
                    assert(doc_render(racc, ind) =~= term_prec_text(*term, spec_prec_level(prec)));
                }
            }
            racc
        },
        Term::Error(_) => Doc::text("!"),
    };
    proof {
        assert forall|ind: nat|
            #[trigger] doc_render(r, ind) == term_prec_text(*term, spec_prec_level(prec)) by {
            assert(doc_render(r, ind) =~= term_prec_text(*term, spec_prec_level(prec)));
        }
    }
    r
}

/// Convert doc lines to a document, one `///` line per entry.
fn from_doc_lines(doc: &Vec<String>) -> (r: Doc)
    ensures
        doc_nest_sum(r) == 0,
        forall|ind: nat| #[trigger] doc_render(r, ind) == pretty_doc_text(doc@, ind),
{
    let mut acc = Doc::nil();
    let mut i: usize = 0;
    while i < doc.len()
        invariant
            0 <= i <= doc@.len(),
            doc_nest_sum(acc) == 0,
            forall|ind: nat|
                #[trigger] doc_render(acc, ind) == pretty_doc_text(doc@.take(i as int), ind),
        decreases doc@.len() - i,
    {
        acc = acc.append(Doc::text("///")).append(Doc::text_string(doc[i].clone())).append(
            Doc::hardline(),
        );
        i += 1;
        proof {
            assert(doc@.take(i as int).drop_last() =~= doc@.take(i as int - 1));
            assert forall|ind: nat|
                #[trigger] doc_render(acc, ind) == pretty_doc_text(doc@.take(i as int), ind) by {
                assert(pretty_doc_text(doc@.take(i as int), ind) =~= doc_render(acc, ind));
            }
        }
    }
    proof {
        assert(doc@.take(doc@.len() as int) =~= doc@);
    }
    acc
}

/// Convert an alias item to a document.
pub fn from_alias(alias: &Alias) -> (r: Doc)
    ensures
        doc_nest_sum(r) == 0,
        forall|ind: nat| #[trigger] doc_render(r, ind) == alias_pretty_text(*alias, ind),
{
    let r = from_doc_lines(&alias.doc).append(Doc::text_string(alias.name.clone())).append(
        Doc::text(" = "),
    ).append(from_term_prec(&*alias.term, Prec::Term)).append(Doc::text(";"));
    proof {
        assert forall|ind: nat|
            #[trigger] doc_render(r, ind) == alias_pretty_text(*alias, ind) by {
            assert(doc_render(r, ind) =~= alias_pretty_text(*alias, ind));
        }
    }
    r
}

/// Convert one struct field to a document.
pub fn from_ty_field(ty_field: &TypeField) -> (r: Doc)
    ensures
        doc_nest_sum(r) == 0,
        forall|ind: nat| #[trigger] doc_render(r, ind) == field_pretty_text(*ty_field, ind),
{
    let r = from_doc_lines(&ty_field.doc).append(Doc::text_string(ty_field.name.clone())).append(
        Doc::text(" : "),
    ).append(from_term_prec(&*ty_field.term, Prec::Term)).append(Doc::text(","));
    proof {
        assert forall|ind: nat|
            #[trigger] doc_render(r, ind) == field_pretty_text(*ty_field, ind) by {
            assert(doc_render(r, ind) =~= field_pretty_text(*ty_field, ind));
        }
    }
    r
}

/// Convert a struct item to a document: its fields one per line, indented
/// four columns deeper.
#[verifier::rlimit(90)]
#[verifier::spinoff_prover]
pub fn from_struct_type(struct_type: &StructType) -> (r: Doc)
    ensures
        doc_nest_sum(r) <= 4,
        forall|ind: nat|
            ind + 4 <= usize::MAX ==> #[trigger] doc_render(r, ind) == struct_pretty_text(
                *struct_type,
                ind,
            ),
{
    let head = from_doc_lines(&struct_type.doc).append(Doc::text("struct ")).append(
        Doc::text_string(struct_type.name.clone()),
    ).append(Doc::text(" "));
    if struct_type.fields.len() == 0 {
        let r = head.append(Doc::text("{}"));
        proof {
            assert forall|ind: nat|
                ind + 4 <= usize::MAX implies #[trigger] doc_render(r, ind) == struct_pretty_text(
                *struct_type,
                ind,
            ) by {
                assert(doc_render(r, ind) =~= struct_pretty_text(*struct_type, ind));
            }
        }
        r
    } else {
        let mut acc = head.append(Doc::text("{"));
        let ghost head_text_of = |ind: nat|
            pretty_doc_text(struct_type.doc@, ind) + "struct "@ + struct_type.name@ + " "@ + "{"@;
        let mut i: usize = 0;
        while i < struct_type.fields.len()
            invariant
                0 <= i <= struct_type.fields@.len(),
                doc_nest_sum(acc) <= 4,
                forall|ind: nat|
                    ind + 4 <= usize::MAX ==> #[trigger] doc_render(acc, ind)
                        == pretty_doc_text(struct_type.doc@, ind) + "struct "@
                        + struct_type.name@ + " "@ + "{"@ + fields_pretty_text(
                        struct_type.fields@.take(i as int),
                        ind,
                    ),
            decreases struct_type.fields@.len() - i,
        {
            let field_doc = from_ty_field(&struct_type.fields[i]);
            acc = acc.append(Doc::hardline().append(field_doc).nest(4));
            i += 1;
            proof {
                assert(struct_type.fields@.take(i as int).drop_last() =~= struct_type.fields@.take(
                    i as int - 1,
                ));
                assert forall|ind: nat|
                    ind + 4 <= usize::MAX implies #[trigger] doc_render(acc, ind)
                    == pretty_doc_text(struct_type.doc@, ind) + "struct "@ + struct_type.name@
                    + " "@ + "{"@ + fields_pretty_text(struct_type.fields@.take(i as int), ind) by {
                    assert(pretty_doc_text(struct_type.doc@, ind) + "struct "@ + struct_type.name@
                        + " "@ + "{"@ + fields_pretty_text(struct_type.fields@.take(i as int), ind)
                        =~= doc_render(acc, ind));
                }
            }
        }
        proof {
            assert(struct_type.fields@.take(struct_type.fields@.len() as int)
                =~= struct_type.fields@);
        }
        let r = acc.append(Doc::hardline()).append(Doc::text("}"));
        proof {
            assert forall|ind: nat|
                ind + 4 <= usize::MAX implies #[trigger] doc_render(r, ind) == struct_pretty_text(
                *struct_type,
                ind,
            ) by {
                assert(doc_render(r, ind) =~= struct_pretty_text(*struct_type, ind));
            }
        }
        r
    }
}

/// Convert one module item to a document.
pub fn from_item(item: &Item) -> (r: Doc)
    ensures
        doc_nest_sum(r) <= 4,
        forall|ind: nat|
            ind + 4 <= usize::MAX ==> #[trigger] doc_render(r, ind) == item_pretty_text(
                *item,
                ind,
            ),
{
    match item {
        Item::Alias(alias) => from_alias(alias),
        Item::Struct(struct_type) => from_struct_type(struct_type),
    }
}

/// Convert a whole module to a document: its doc lines, then its items
/// separated by blank lines, with a final line break.
#[verifier::rlimit(90)]
#[verifier::spinoff_prover]
pub fn from_module(module: &Module) -> (r: Doc)
    ensures
        doc_nest_sum(r) <= 4,
        forall|ind: nat|
            ind + 4 <= usize::MAX ==> #[trigger] doc_render(r, ind) == module_pretty_text(
                *module,
                ind,
            ),
{
    let has_doc = module.doc.len() != 0;
    let mut acc = Doc::nil();
    let mut i: usize = 0;
    while i < module.doc.len()
        invariant
            0 <= i <= module.doc@.len(),
            doc_nest_sum(acc) == 0,
            forall|ind: nat|
                #[trigger] doc_render(acc, ind) == module_doc_text(module.doc@.take(i as int), ind),
        decreases module.doc@.len() - i,
    {
        if i == 0 {
            acc = acc.append(Doc::text("//!")).append(Doc::text_string(module.doc[i].clone()));
        } else {
            acc = acc.append(Doc::hardline()).append(Doc::text("//!")).append(
                Doc::text_string(module.doc[i].clone()),
            );
        }
        i += 1;
        proof {
            assert(module.doc@.take(i as int).drop_last() =~= module.doc@.take(i as int - 1));
            assert forall|ind: nat|
                #[trigger] doc_render(acc, ind) == module_doc_text(
                    module.doc@.take(i as int),
                    ind,
                ) by {
                assert(module_doc_text(module.doc@.take(i as int), ind) =~= doc_render(acc, ind));
            }
        }
    }
    proof {
        assert(module.doc@.take(module.doc@.len() as int) =~= module.doc@);
    }
    let mut j: usize = 0;
    while j < module.items.len()
        invariant
            0 <= j <= module.items@.len(),
            doc_nest_sum(acc) <= 4,
            has_doc == (module.doc@.len() != 0),
            forall|ind: nat|
                ind + 4 <= usize::MAX ==> #[trigger] doc_render(acc, ind) == module_doc_text(
                    module.doc@,
                    ind,
                ) + items_pretty_text(module.items@.take(j as int), !has_doc, ind),
        decreases module.items@.len() - j,
    {
        let item_doc = from_item(&module.items[j]);
        if j == 0 && !has_doc {
            acc = acc.append(item_doc);
        } else {
            acc = acc.append(Doc::hardline()).append(Doc::hardline()).append(item_doc);
        }
        j += 1;
        proof {
            assert(module.items@.take(j as int).drop_last() =~= module.items@.take(j as int - 1));
            assert forall|ind: nat|
                ind + 4 <= usize::MAX implies #[trigger] doc_render(acc, ind) == module_doc_text(
                module.doc@,
                ind,
            ) + items_pretty_text(module.items@.take(j as int), !has_doc, ind) by {
                assert(module_doc_text(module.doc@, ind) + items_pretty_text(
                    module.items@.take(j as int),
                    !has_doc,
                    ind,
                ) =~= doc_render(acc, ind));
            }
        }
    }
    proof {
        assert(module.items@.take(module.items@.len() as int) =~= module.items@);
    }
    let r = acc.append(Doc::hardline());
    proof {
        assert forall|ind: nat|
            ind + 4 <= usize::MAX implies #[trigger] doc_render(r, ind) == module_pretty_text(
            *module,
            ind,
        ) by {
            assert(doc_render(r, ind) =~= module_pretty_text(*module, ind));
        }
    }
    r
}

impl ToDoc for Term {
    fn to_doc(&self) -> Doc {
        from_term(self)
    }
}

impl ToDoc for Constant {
    fn to_doc(&self) -> Doc {
        from_constant(self)
    }
}

} // verus!
