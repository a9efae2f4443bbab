//! A small document model for pretty printing. A document is a tree of text
//! pieces, hard line breaks and indentation; rendering is a pure function of
//! the document, so printed output is reproducible.

use vstd::prelude::*;
use vstd::string::StringExecFns;

verus! {

broadcast use vstd::std_specs::vec::group_vec_axioms, vstd::seq::group_seq_axioms;

/// A pretty-printing document.
#[derive(Debug)]
pub enum Doc {
    /// The empty document.
    Nil,
    /// A piece of text without line breaks.
    Text(String),
    /// A hard line break, followed by the current indentation.
    HardLine,
    /// Two documents in sequence.
    Concat(Box<Doc>, Box<Doc>),
    /// A document whose line breaks indent by `n` more spaces.
    Nest(usize, Box<Doc>),
    /// A grouping hint; rendering is unaffected, the structure is kept for
    /// readers of the tree.
    Group(Box<Doc>),
}

/// `n` spaces.
pub open spec fn spaces(n: nat) -> Seq<char>
    decreases n,
{
    if n == 0 {
        Seq::empty()
    } else {
        spaces((n - 1) as nat) + seq![' ']
    }
}

/// The text a document renders to at a given indentation.
pub open spec fn doc_render(d: Doc, ind: nat) -> Seq<char>
    decreases d,
{
    match d {
        Doc::Nil => Seq::empty(),
        Doc::Text(s) => s@,
        Doc::HardLine => seq!['\n'] + spaces(ind),
        Doc::Concat(a, b) => doc_render(*a, ind) + doc_render(*b, ind),
        Doc::Nest(n, inner) => doc_render(*inner, (ind + n) as nat),
        Doc::Group(inner) => doc_render(*inner, ind),
    }
}

/// The largest total nesting the document can add to the indentation.
pub open spec fn doc_nest_sum(d: Doc) -> nat
    decreases d,
{
    match d {
        Doc::Concat(a, b) => {
            let na = doc_nest_sum(*a);
            let nb = doc_nest_sum(*b);
            if na >= nb {
                na
            } else {
                nb
            }
        },
        Doc::Nest(n, inner) => (n + doc_nest_sum(*inner)) as nat,
        Doc::Group(inner) => doc_nest_sum(*inner),
        _ => 0,
    }
}

impl Doc {
    /// The empty document.
    pub fn nil() -> (r: Doc)
        ensures
            doc_nest_sum(r) == 0,
            forall|ind: nat| #[trigger] doc_render(r, ind) == Seq::<char>::empty(),
    {
        Doc::Nil
    }

    /// A text piece.
    pub fn text(s: &str) -> (r: Doc)
        ensures
            doc_nest_sum(r) == 0,
            forall|ind: nat| #[trigger] doc_render(r, ind) == s@,
    {
        Doc::Text(String::from_str(s))
    }

    /// A text piece from an owned string.
    pub fn text_string(s: String) -> (r: Doc)
        ensures
            doc_nest_sum(r) == 0,
            forall|ind: nat| #[trigger] doc_render(r, ind) == s@,
    {
        Doc::Text(s)
    }

    /// A single space.
    pub fn space() -> (r: Doc)
        ensures
            doc_nest_sum(r) == 0,
            forall|ind: nat| #[trigger] doc_render(r, ind) == seq![' '],
    {
        proof {
            reveal_strlit(" ");
            assert(" "@ =~= seq![' ']);
        }
        Doc::Text(String::from_str(" "))
    }

    /// A hard line break.
    pub fn hardline() -> (r: Doc)
        ensures
            doc_nest_sum(r) == 0,
            forall|ind: nat| #[trigger] doc_render(r, ind) == seq!['\n'] + spaces(ind),
    {
        Doc::HardLine
    }

    /// This document followed by another.
    pub fn append(self, other: Doc) -> (r: Doc)
        ensures
            doc_nest_sum(r) == (if doc_nest_sum(self) >= doc_nest_sum(other) {
                doc_nest_sum(self)
            } else {
                doc_nest_sum(other)
            }),
            forall|ind: nat|
                #[trigger] doc_render(r, ind) == doc_render(self, ind) + doc_render(other, ind),
    {
        let ghost gself = self;
        let ghost gother = other;
        let r = Doc::Concat(Box::new(self), Box::new(other));
        proof {
            assert forall|ind: nat|
                #[trigger] doc_render(r, ind) == doc_render(gself, ind) + doc_render(
                    gother,
                    ind,
                ) by {}
        }
        r
    }

    /// This document with its line breaks indented by `n` more spaces.
    pub fn nest(self, n: usize) -> (r: Doc)
        ensures
            doc_nest_sum(r) == n + doc_nest_sum(self),
            forall|ind: nat| #[trigger] doc_render(r, ind) == doc_render(self, (ind + n) as nat),
    {
        let ghost gself = self;
        let r = Doc::Nest(n, Box::new(self));
        proof {
            assert forall|ind: nat|
                #[trigger] doc_render(r, ind) == doc_render(gself, (ind + n) as nat) by {}
        }
        r
    }

    /// This document as a group.
    pub fn group(self) -> (r: Doc)
        ensures
            doc_nest_sum(r) == doc_nest_sum(self),
            forall|ind: nat| #[trigger] doc_render(r, ind) == doc_render(self, ind),
    {
        let ghost gself = self;
        let r = Doc::Group(Box::new(self));
        proof {
            assert forall|ind: nat| #[trigger] doc_render(r, ind) == doc_render(gself, ind) by {}
        }
        r
    }
}

/// Render a document into text at the given indentation.
pub fn render_into(out: &mut String, d: &Doc, ind: usize)
    requires
        ind + doc_nest_sum(*d) <= usize::MAX,
    ensures
        final(out)@ == old(out)@ + doc_render(*d, ind as nat),
    decreases *d,
{
    match d {
        Doc::Nil => {
        },
        Doc::Text(s) => {
            out.append(s.as_str());
        },
        Doc::HardLine => {
            proof {
                reveal_strlit("\n");
                assert("\n"@ =~= seq!['\n']);
            }
            out.append("\n");
            let mut i: usize = 0;
            let ghost base = out@;
            while i < ind
                invariant
                    0 <= i <= ind,
                    out@ == base + spaces(i as nat),
                decreases ind - i,
            {
                proof {
                    reveal_strlit(" ");
                    assert(" "@ =~= seq![' ']);
                }
                out.append(" ");
                i += 1;
            }
            proof {
                assert(out@ =~= old(out)@ + doc_render(*d, ind as nat));
            }
        },
        Doc::Concat(a, b) => {
            render_into(out, &*a, ind);
            render_into(out, &*b, ind);
            proof {
                assert(out@ =~= old(out)@ + doc_render(*d, ind as nat));
            }
        },
        Doc::Nest(n, inner) => {
            render_into(out, &*inner, ind + *n);
        },
        Doc::Group(inner) => {
            render_into(out, &*inner, ind);
        },
    }
}

/// Render a document to a string, starting at column zero.
pub fn render(d: &Doc) -> (r: String)
    requires
        doc_nest_sum(*d) <= usize::MAX,
    ensures
        r@ == doc_render(*d, 0),
{
    let mut out = String::new();
    render_into(&mut out, d, 0);
    out
}

/// Conversion of a data type into a pretty-printable document.
pub trait ToDoc {
    /// The document this value prints as.
    fn to_doc(&self) -> Doc;
}

} // verus!
