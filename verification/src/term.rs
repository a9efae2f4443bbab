//! Core syntax of the data description language: terms, semantic values,
//! module items, and the ambient table of global bindings.
//!
//! Terms form a DAG: subtrees are shared through `Arc` and never mutated.
//! Every node carries the source range it came from; ranges never influence
//! definitional equality.

use std::sync::Arc;
use vstd::prelude::*;

use crate::Range;
use crate::integer::IntValue;

verus! {

broadcast use vstd::std_specs::vec::group_vec_axioms, vstd::seq::group_seq_axioms;

/// Relies on alloc::sync::Arc::clone: the clone shares the same immutable
/// referent, so the returned handle denotes the same value.
#[verifier::external_body]
pub(crate) fn arc_clone<T>(v: &Arc<T>) -> (res: Arc<T>)
    ensures
        res == *v,
{
    Arc::clone(v)
}

/// A constant of the core language. Floating-point constants are carried as
/// their IEEE 754 bit patterns, so equality of constants distinguishes the
/// two signed zeros and treats a NaN as equal to itself.
#[derive(Clone, Debug)]
pub enum Constant {
    Int(IntValue),
    F32(u32),
    F64(u64),
}

/// Branches of an integer eliminator: pairs of a key and the term chosen
/// when the scrutinee equals that key.
pub type Branches = Vec<(IntValue, Term)>;

/// A term of the core language.
#[derive(Debug)]
pub enum Term {
    /// A reference to a built-in binding.
    Global(Range, String),
    /// A reference to a sibling module item.
    Item(Range, String),
    /// A type ascription; it carries no runtime behaviour.
    Ann(Range, Arc<Term>, Arc<Term>),
    /// A universe: `Type` at the given level.
    Universe(Range, u32),
    /// The universe of binary format descriptions.
    FormatType(Range),
    /// A function type; parameter and body types (non-dependent).
    FunctionType(Range, Arc<Term>, Arc<Term>),
    /// Function application.
    FunctionElim(Range, Arc<Term>, Arc<Term>),
    /// A constant.
    Constant(Range, Constant),
    /// Boolean elimination: scrutinee, the `true` branch, the `false` branch.
    BoolElim(Range, Arc<Term>, Arc<Term>, Arc<Term>),
    /// Integer elimination: scrutinee, keyed branches, default.
    IntElim(Range, Arc<Term>, Arc<Branches>, Arc<Term>),
    /// A placeholder produced when elaboration fails; it propagates.
    Error(Range),
}

/// The head of a stuck computation.
#[derive(Debug)]
pub enum Head {
    Global(Range, String),
    Item(Range, String),
    Error(Range),
}

/// An eliminator waiting on a neutral head, remembering the range of the
/// expression that introduced it.
#[derive(Debug)]
pub enum Elim {
    Function(Range, Arc<Value>),
    Bool(Range, Arc<Term>, Arc<Term>),
    Int(Range, Arc<Branches>, Arc<Term>),
}

/// A semantic value: the result of evaluating a term to weak head normal
/// form.
#[derive(Debug)]
pub enum Value {
    /// A stuck computation: a head with its spine of eliminators, in
    /// application order.
    Neutral(Head, Vec<Elim>),
    Universe(Range, u32),
    FormatType(Range),
    FunctionType(Range, Arc<Value>, Arc<Value>),
    Constant(Range, Constant),
    Error(Range),
}

impl Term {
    /// The source range a term covers.
    pub fn range(&self) -> (r: Range)
        ensures
            r == self.spec_range(),
    {
        match self {
            Term::Global(range, _) => *range,
            Term::Item(range, _) => *range,
            Term::Ann(range, _, _) => *range,
            Term::Universe(range, _) => *range,
            Term::FormatType(range) => *range,
            Term::FunctionType(range, _, _) => *range,
            Term::FunctionElim(range, _, _) => *range,
            Term::Constant(range, _) => *range,
            Term::BoolElim(range, _, _, _) => *range,
            Term::IntElim(range, _, _, _) => *range,
            Term::Error(range) => *range,
        }
    }

    pub open spec fn spec_range(&self) -> Range {
        match self {
            Term::Global(range, _) => *range,
            Term::Item(range, _) => *range,
            Term::Ann(range, _, _) => *range,
            Term::Universe(range, _) => *range,
            Term::FormatType(range) => *range,
            Term::FunctionType(range, _, _) => *range,
            Term::FunctionElim(range, _, _) => *range,
            Term::Constant(range, _) => *range,
            Term::BoolElim(range, _, _, _) => *range,
            Term::IntElim(range, _, _, _) => *range,
            Term::Error(range) => *range,
        }
    }
}

/// An alias item: a name bound to a term, with an optional declared type.
#[derive(Debug)]
pub struct Alias {
    pub range: Range,
    pub name: String,
    pub doc: Vec<String>,
    pub ty: Option<Arc<Term>>,
    pub term: Arc<Term>,
}

/// One field of a struct item: its format term must inhabit `FormatType`.
#[derive(Debug)]
pub struct TypeField {
    pub range: Range,
    pub name: String,
    pub doc: Vec<String>,
    pub term: Arc<Term>,
}

/// A struct item: an ordered sequence of named format fields.
#[derive(Debug)]
pub struct StructType {
    pub range: Range,
    pub name: String,
    pub doc: Vec<String>,
    pub fields: Vec<TypeField>,
}

/// A module item.
#[derive(Debug)]
pub enum Item {
    Alias(Alias),
    Struct(StructType),
}

impl Item {
    /// The name an item binds.
    pub open spec fn spec_name(&self) -> Seq<char> {
        match self {
            Item::Alias(a) => a.name@,
            Item::Struct(s) => s.name@,
        }
    }

    pub fn name(&self) -> (r: &String)
        ensures
            r@ == self.spec_name(),
    {
        match self {
            Item::Alias(a) => &a.name,
            Item::Struct(s) => &s.name,
        }
    }
}

/// A checked module: items in source order. Lookup finds the first item of a
/// given name; well-formed modules bind each name once and only reference
/// items bound earlier.
#[derive(Debug)]
pub struct Module {
    pub doc: Vec<String>,
    pub items: Vec<Item>,
}

/// An entry of the globals table: the binding's type, and its definition if
/// it has one (entries without a definition are abstract).
#[derive(Debug)]
pub struct GlobalEntry {
    pub ty: Arc<Term>,
    pub term: Option<Arc<Term>>,
}

/// The ambient table of built-in bindings, in declaration order.
#[derive(Debug)]
pub struct Globals {
    pub entries: Vec<(String, GlobalEntry)>,
}

/// Index of the first globals entry with the given name, or `-1`.
pub open spec fn global_index(s: Seq<(String, GlobalEntry)>, n: Seq<char>) -> int
    decreases s.len(),
{
    if s.len() == 0 {
        -1
    } else if s[0].0@ == n {
        0
    } else {
        let r = global_index(s.drop_first(), n);
        if r < 0 {
            -1
        } else {
            r + 1
        }
    }
}

/// `global_index` finds the first matching entry.
pub proof fn lemma_global_index(s: Seq<(String, GlobalEntry)>, n: Seq<char>)
    ensures
        global_index(s, n) == -1 ==> (forall|j: int| 0 <= j < s.len() ==> s[j].0@ != n),
        global_index(s, n) >= 0 ==> {
            &&& global_index(s, n) < s.len()
            &&& s[global_index(s, n)].0@ == n
            &&& forall|j: int| 0 <= j < global_index(s, n) ==> s[j].0@ != n
        },
    decreases s.len(),
{
    if s.len() > 0 && s[0].0@ != n {
        lemma_global_index(s.drop_first(), n);
        assert forall|j: int| 1 <= j < s.len() implies #[trigger] s[j] == s.drop_first()[j - 1] by {}
    }
}

/// Index of the first item with the given name, or `-1`.
pub open spec fn item_index(s: Seq<Item>, n: Seq<char>) -> int
    decreases s.len(),
{
    if s.len() == 0 {
        -1
    } else if s[0].spec_name() == n {
        0
    } else {
        let r = item_index(s.drop_first(), n);
        if r < 0 {
            -1
        } else {
            r + 1
        }
    }
}

/// `item_index` finds the first matching item.
pub proof fn lemma_item_index(s: Seq<Item>, n: Seq<char>)
    ensures
        item_index(s, n) == -1 ==> (forall|j: int| 0 <= j < s.len() ==> s[j].spec_name() != n),
        item_index(s, n) >= 0 ==> {
            &&& item_index(s, n) < s.len()
            &&& s[item_index(s, n)].spec_name() == n
            &&& forall|j: int| 0 <= j < item_index(s, n) ==> s[j].spec_name() != n
        },
    decreases s.len(),
{
    if s.len() > 0 && s[0].spec_name() != n {
        lemma_item_index(s.drop_first(), n);
        assert forall|j: int| 1 <= j < s.len() implies #[trigger] s[j] == s.drop_first()[j - 1] by {}
    }
}

impl Globals {
    /// Find the entry bound to a name.
    pub fn get<'a>(&'a self, n: &String) -> (r: Option<&'a GlobalEntry>)
        ensures
            match r {
                Some(e) => {
                    &&& global_index(self.entries@, n@) >= 0
                    &&& *e == self.entries@[global_index(self.entries@, n@)].1
                },
                None => global_index(self.entries@, n@) == -1,
            },
    {
        proof {
            lemma_global_index(self.entries@, n@);
        }
        let mut i: usize = 0;
        while i < self.entries.len()
            invariant
                0 <= i <= self.entries.len(),
                forall|j: int| 0 <= j < i ==> self.entries@[j].0@ != n@,
            decreases self.entries.len() - i,
        {
            if string_eq(&self.entries[i].0, n) {
                proof {
                    lemma_global_index(self.entries@, n@);
                }
                return Some(&self.entries[i].1);
            }
            i += 1;
        }
        None
    }
}

/// Find the first item with the given name.
pub fn lookup_item<'a>(items: &'a Vec<Item>, n: &String) -> (r: Option<&'a Item>)
    ensures
        match r {
            Some(it) => {
                &&& item_index(items@, n@) >= 0
                &&& *it == items@[item_index(items@, n@)]
            },
            None => item_index(items@, n@) == -1,
        },
{
    proof {
        lemma_item_index(items@, n@);
    }
    let mut i: usize = 0;
    while i < items.len()
        invariant
            0 <= i <= items.len(),
            forall|j: int| 0 <= j < i ==> items@[j].spec_name() != n@,
        decreases items.len() - i,
    {
        if string_eq(items[i].name(), n) {
            proof {
                lemma_item_index(items@, n@);
            }
            return Some(&items[i]);
        }
        i += 1;
    }
    None
}

/// Index of the first branch whose key equals `k` structurally, or `-1`.
pub open spec fn branch_index(bs: Seq<(IntValue, Term)>, k: IntValue) -> int
    decreases bs.len(),
{
    if bs.len() == 0 {
        -1
    } else if bs[0].0.neg == k.neg && bs[0].0.digits@ == k.digits@ {
        0
    } else {
        let r = branch_index(bs.drop_first(), k);
        if r < 0 {
            -1
        } else {
            r + 1
        }
    }
}

/// `branch_index` finds the first matching branch.
pub proof fn lemma_branch_index(bs: Seq<(IntValue, Term)>, k: IntValue)
    ensures
        branch_index(bs, k) == -1 ==> (forall|j: int|
            0 <= j < bs.len() ==> !(bs[j].0.neg == k.neg && bs[j].0.digits@ == k.digits@)),
        branch_index(bs, k) >= 0 ==> {
            &&& branch_index(bs, k) < bs.len()
            &&& bs[branch_index(bs, k)].0.neg == k.neg
            &&& bs[branch_index(bs, k)].0.digits@ == k.digits@
            &&& forall|j: int|
                0 <= j < branch_index(bs, k) ==> !(bs[j].0.neg == k.neg && bs[j].0.digits@
                    == k.digits@)
        },
    decreases bs.len(),
{
    if bs.len() > 0 && !(bs[0].0.neg == k.neg && bs[0].0.digits@ == k.digits@) {
        lemma_branch_index(bs.drop_first(), k);
        assert forall|j: int| 1 <= j < bs.len() implies #[trigger] bs[j] == bs.drop_first()[j - 1] by {}
    }
}

/// `branch_index` only inspects the sign and digits of the key, so keys
/// with equal sign and digits index the same branch.
pub proof fn lemma_branch_index_congruent(bs: Seq<(IntValue, Term)>, k1: IntValue, k2: IntValue)
    requires
        k1.neg == k2.neg,
        k1.digits@ == k2.digits@,
    ensures
        branch_index(bs, k1) == branch_index(bs, k2),
    decreases bs.len(),
{
    if bs.len() > 0 {
        lemma_branch_index_congruent(bs.drop_first(), k1, k2);
    }
}

/// Find the branch for a scrutinee key.
pub fn lookup_branch<'a>(bs: &'a Branches, k: &IntValue) -> (r: Option<&'a Term>)
    ensures
        match r {
            Some(t) => {
                &&& branch_index(bs@, *k) >= 0
                &&& *t == bs@[branch_index(bs@, *k)].1
            },
            None => branch_index(bs@, *k) == -1,
        },
{
    proof {
        lemma_branch_index(bs@, *k);
    }
    let mut i: usize = 0;
    while i < bs.len()
        invariant
            0 <= i <= bs.len(),
            forall|j: int|
                0 <= j < i ==> !(bs@[j].0.neg == k.neg && bs@[j].0.digits@ == k.digits@),
        decreases bs.len() - i,
    {
        let key = &bs[i].0;
        if key.neg == k.neg && vec_u8_eq(&key.digits, &k.digits) {
            proof {
                lemma_branch_index(bs@, *k);
            }
            return Some(&bs[i].1);
        }
        i += 1;
    }
    None
}

/// Equality of names.
pub fn string_eq(a: &String, b: &String) -> (r: bool)
    ensures
        r == (a@ == b@),
{
    a.eq(b)
}

/// Byte-wise equality of digit vectors.
pub fn vec_u8_eq(a: &Vec<u8>, b: &Vec<u8>) -> (r: bool)
    ensures
        r == (a@ == b@),
{
    if a.len() != b.len() {
        return false;
    }
    let mut i: usize = 0;
    while i < a.len()
        invariant
            0 <= i <= a.len(),
            a.len() == b.len(),
            forall|j: int| 0 <= j < i ==> a@[j] == b@[j],
        decreases a.len() - i,
    {
        if a[i] != b[i] {
            return false;
        }
        i += 1;
    }
    proof {
        assert(a@ =~= b@);
    }
    true
}

} // verus!
