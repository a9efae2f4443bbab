//! The emitter: serializes a target module into host-language source text.
//!
//! Every function's contract pins the emitted text exactly, so the output is
//! byte-identical on every run over the same module: the emitter is a pure
//! writer, with no evaluation and no type checks.

use vstd::prelude::*;
use vstd::string::StringExecFns;

use crate::integer::{dec_digits, push_dec_digits};
use crate::target::{Alias, Const, Function, Item, Module, RtType, StructType, Term, Type,
    TypeField};


verus! {

broadcast use vstd::std_specs::vec::group_vec_axioms, vstd::seq::group_seq_axioms;

/// The decimal character for one digit.
pub open spec fn digit_char(d: u8) -> char {
    if d == 0 {
        '0'
    } else if d == 1 {
        '1'
    } else if d == 2 {
        '2'
    } else if d == 3 {
        '3'
    } else if d == 4 {
        '4'
    } else if d == 5 {
        '5'
    } else if d == 6 {
        '6'
    } else if d == 7 {
        '7'
    } else if d == 8 {
        '8'
    } else {
        '9'
    }
}

/// The characters of a digit sequence.
pub open spec fn digits_text(s: Seq<u8>) -> Seq<char>
    decreases s.len(),
{
    if s.len() == 0 {
        Seq::empty()
    } else {
        digits_text(s.drop_last()) + seq![digit_char(s.last())]
    }
}

/// The decimal text of a non-negative integer.
pub open spec fn nat_text(n: nat) -> Seq<char> {
    digits_text(dec_digits(n))
}

/// The decimal text of an integer, with a leading minus sign if negative.
pub open spec fn int_text(v: int) -> Seq<char> {
    if v < 0 {
        seq!['-'] + nat_text((-v) as nat)
    } else {
        nat_text(v as nat)
    }
}

/// Doc lines, each preceded by a prefix and followed by a newline.
pub open spec fn doc_text(doc: Seq<String>, prefix: Seq<char>) -> Seq<char>
    decreases doc.len(),
{
    if doc.len() == 0 {
        Seq::empty()
    } else {
        doc_text(doc.drop_last(), prefix) + prefix + doc.last()@ + seq!['\n']
    }
}

/// Parts joined by a comma and a space.
pub open spec fn join_text(parts: Seq<String>) -> Seq<char>
    decreases parts.len(),
{
    if parts.len() == 0 {
        Seq::empty()
    } else if parts.len() == 1 {
        parts[0]@
    } else {
        join_text(parts.drop_last()) + ", "@ + parts.last()@
    }
}

/// The target language's reserved words that an identifier position must
/// quote. The few path keywords that the target cannot quote at all are not
/// listed; a module with such a name cannot be emitted verbatim either way.
pub open spec fn rust_keyword(n: Seq<char>) -> bool {
    ||| n == "as"@
    ||| n == "break"@
    ||| n == "const"@
    ||| n == "continue"@
    ||| n == "do"@
    ||| n == "dyn"@
    ||| n == "else"@
    ||| n == "enum"@
    ||| n == "false"@
    ||| n == "fn"@
    ||| n == "for"@
    ||| n == "if"@
    ||| n == "impl"@
    ||| n == "in"@
    ||| n == "let"@
    ||| n == "loop"@
    ||| n == "match"@
    ||| n == "mod"@
    ||| n == "move"@
    ||| n == "mut"@
    ||| n == "pub"@
    ||| n == "ref"@
    ||| n == "return"@
    ||| n == "static"@
    ||| n == "struct"@
    ||| n == "trait"@
    ||| n == "true"@
    ||| n == "type"@
    ||| n == "unsafe"@
    ||| n == "use"@
    ||| n == "where"@
    ||| n == "while"@
    ||| n == "yield"@
}

/// An identifier as emitted: reserved words are quoted with the raw prefix.
pub open spec fn ident_text(n: Seq<char>) -> Seq<char> {
    if rust_keyword(n) {
        "r#"@ + n
    } else {
        n
    }
}

/// Decide whether a name is a reserved word of the target language.
pub fn is_rust_keyword(name: &String) -> (r: bool)
    ensures
        r == rust_keyword(name@),
{
    let s = name.as_str();
    string_eq_str(s, "as") || string_eq_str(s, "break") || string_eq_str(s, "const")
        || string_eq_str(s, "continue") || string_eq_str(s, "do") || string_eq_str(s, "dyn")
        || string_eq_str(s, "else") || string_eq_str(s, "enum") || string_eq_str(s, "false")
        || string_eq_str(s, "fn") || string_eq_str(s, "for") || string_eq_str(s, "if")
        || string_eq_str(s, "impl") || string_eq_str(s, "in") || string_eq_str(s, "let")
        || string_eq_str(s, "loop") || string_eq_str(s, "match") || string_eq_str(s, "mod")
        || string_eq_str(s, "move") || string_eq_str(s, "mut") || string_eq_str(s, "pub")
        || string_eq_str(s, "ref") || string_eq_str(s, "return") || string_eq_str(s, "static")
        || string_eq_str(s, "struct") || string_eq_str(s, "trait") || string_eq_str(s, "true")
        || string_eq_str(s, "type") || string_eq_str(s, "unsafe") || string_eq_str(s, "use")
        || string_eq_str(s, "where") || string_eq_str(s, "while") || string_eq_str(s, "yield")
}

/// Equality of a string slice against a literal.
fn string_eq_str(a: &str, b: &str) -> (r: bool)
    ensures
        r == (a@ == b@),
{
    let sa = String::from_str(a);
    let sb = String::from_str(b);
    crate::term::string_eq(&sa, &sb)
}

/// Write a name as an identifier, quoting reserved words.
pub fn emit_ident(out: &mut String, name: &String)
    ensures
        final(out)@ == old(out)@ + ident_text(name@),
{
    if is_rust_keyword(name) {
        out.append("r#");
    }
    out.append(name.as_str());
    proof {
        assert(out@ =~= old(out)@ + ident_text(name@));
    }
}

/// The name of a runtime format descriptor type.
pub open spec fn rt_ty_text(ty: RtType) -> Seq<char> {
    match ty {
        RtType::U8 => "U8"@,
        RtType::U16Le => "U16Le"@,
        RtType::U16Be => "U16Be"@,
        RtType::U32Le => "U32Le"@,
        RtType::U32Be => "U32Be"@,
        RtType::U64Le => "U64Le"@,
        RtType::U64Be => "U64Be"@,
        RtType::I8 => "I8"@,
        RtType::I16Le => "I16Le"@,
        RtType::I16Be => "I16Be"@,
        RtType::I32Le => "I32Le"@,
        RtType::I32Be => "I32Be"@,
        RtType::I64Le => "I64Le"@,
        RtType::I64Be => "I64Be"@,
        RtType::F32Le => "F32Le"@,
        RtType::F32Be => "F32Be"@,
        RtType::F64Le => "F64Le"@,
        RtType::F64Be => "F64Be"@,
        RtType::InvalidDataDescription => "InvalidDataDescription"@,
    }
}

/// The text of a constant expression.
pub open spec fn term_text(term: Term) -> Seq<char>
    decreases term,
{
    match term {
        Term::Var(name) => ident_text(name@),
        Term::Bool(value) => if value {
            "true"@
        } else {
            "false"@
        },
        Term::U8(value) => nat_text(value as nat) + "u8"@,
        Term::U16(value) => nat_text(value as nat) + "u16"@,
        Term::U32(value) => nat_text(value as nat) + "u32"@,
        Term::U64(value) => nat_text(value as nat) + "u64"@,
        Term::I8(value) => int_text(value as int) + "i8"@,
        Term::I16(value) => int_text(value as int) + "i16"@,
        Term::I32(value) => int_text(value as int) + "i32"@,
        Term::I64(value) => int_text(value as int) + "i64"@,
        Term::F32(bits) => "f32::from_bits("@ + nat_text(bits as nat) + "u32)"@,
        Term::F64(bits) => "f64::from_bits("@ + nat_text(bits as nat) + "u64)"@,
        Term::Call(inner) => term_text(*inner) + "()"@,
        Term::If(c, t, f) => "if "@ + term_text(*c) + " { "@ + term_text(*t) + " } else { "@
            + term_text(*f) + " }"@,
    }
}

/// The text of a host type.
pub open spec fn ty_text(ty: Type) -> Seq<char>
    decreases ty,
{
    match ty {
        Type::Var(name) => ident_text(name@),
        Type::U8 => "u8"@,
        Type::U16 => "u16"@,
        Type::U32 => "u32"@,
        Type::U64 => "u64"@,
        Type::I8 => "i8"@,
        Type::I16 => "i16"@,
        Type::I32 => "i32"@,
        Type::I64 => "i64"@,
        Type::F32 => "f32"@,
        Type::F64 => "f64"@,
        Type::Bool => "bool"@,
        Type::Rt(rt) => "ddl_rt::"@ + rt_ty_text(rt),
        Type::If(_, lhs, rhs) => "ddl_rt::If<"@ + ty_text(*lhs) + ", "@ + ty_text(*rhs) + ">"@,
    }
}

/// A type may stand in a read position when it is a named format, a runtime
/// format, or a conditional between two readable formats.
pub open spec fn readable_ty(ty: Type) -> bool
    decreases ty,
{
    match ty {
        Type::Var(_) => true,
        Type::Rt(_) => true,
        Type::If(_, lhs, rhs) => readable_ty(*lhs) && readable_ty(*rhs),
        _ => false,
    }
}

/// The text of the reader expression for a format type.
pub open spec fn ty_read_text(ty: Type) -> Seq<char>
    decreases ty,
{
    match ty {
        Type::Var(name) => "ctxt.read::<"@ + ident_text(name@) + ">()?"@,
        Type::Rt(rt) => "ctxt.read::<ddl_rt::"@ + rt_ty_text(rt) + ">()?"@,
        Type::If(cond, lhs, rhs) => "if "@ + term_text(*cond) + " {"@ + ty_read_text(*lhs)
            + "} else {"@ + ty_read_text(*rhs) + "}"@,
        _ => Seq::empty(),
    }
}

/// The text of a constant item.
pub open spec fn const_text(c: Const) -> Seq<char> {
    seq!['\n'] + doc_text(c.doc@, "///"@) + "pub const "@ + ident_text(c.name@) + ": "@ + ty_text(c.ty)
        + " = "@ + term_text(c.term) + ";\n"@
}

/// The text of a function item.
pub open spec fn function_text(f: Function) -> Seq<char> {
    seq!['\n'] + doc_text(f.doc@, "///"@) + "pub "@ + (if f.is_const {
        "const "@
    } else {
        Seq::<char>::empty()
    }) + "fn "@ + ident_text(f.name@) + "() -> "@ + ty_text(f.ty) + " {\n    "@ + term_text(f.term) + "\n}\n"@
}

/// The text of a type alias item.
pub open spec fn alias_text(a: Alias) -> Seq<char> {
    seq!['\n'] + doc_text(a.doc@, "///"@) + "pub type "@ + ident_text(a.name@) + " = "@ + ty_text(a.ty)
        + ";\n"@
}

/// The declaration lines of a struct's fields.
pub open spec fn fields_decl_text(fields: Seq<TypeField>) -> Seq<char>
    decreases fields.len(),
{
    if fields.len() == 0 {
        Seq::empty()
    } else {
        fields_decl_text(fields.drop_last()) + doc_text(fields.last().doc@, "    ///"@)
            + "    pub "@ + ident_text(fields.last().name@) + ": "@ + ty_text(
            fields.last().host_ty,
        ) + ",\n"@
    }
}

/// The reader binding lines of a struct's fields.
pub open spec fn fields_read_text(fields: Seq<TypeField>) -> Seq<char>
    decreases fields.len(),
{
    if fields.len() == 0 {
        Seq::empty()
    } else {
        fields_read_text(fields.drop_last()) + "        let "@ + ident_text(fields.last().name@)
            + " = "@
            + ty_read_text(fields.last().format_ty) + ";\n"@
    }
}

/// The construction lines of a struct's fields.
pub open spec fn fields_ok_text(fields: Seq<TypeField>) -> Seq<char>
    decreases fields.len(),
{
    if fields.len() == 0 {
        Seq::empty()
    } else {
        fields_ok_text(fields.drop_last()) + "            "@ + ident_text(fields.last().name@)
            + ",\n"@
    }
}

/// The text of a struct's declaration: its doc lines, its derives, and the
/// data declaration with its fields.
pub open spec fn struct_decl_text(s: StructType) -> Seq<char> {
    seq!['\n'] + doc_text(s.doc@, "///"@) + (if s.derives@.len() == 0 {
        Seq::<char>::empty()
    } else {
        "#[derive("@ + join_text(s.derives@) + ")]\n"@
    }) + (if s.fields@.len() == 0 {
        "pub struct "@ + ident_text(s.name@) + " {}\n"@
    } else {
        "pub struct "@ + ident_text(s.name@) + " {\n"@ + fields_decl_text(s.fields@) + "}\n"@
    })
}

/// The marker that the struct is a binary format whose host is itself.
pub open spec fn struct_binary_text(s: StructType) -> Seq<char> {
    "\n"@ + "impl ddl_rt::Binary for "@ + ident_text(s.name@) + " {\n    type Host = "@
        + ident_text(s.name@) + ";\n}\n\n"@
}

/// The reader implementation: reads the fields in declaration order, then
/// constructs the host value; with no fields it reads nothing and succeeds.
pub open spec fn struct_read_text(s: StructType) -> Seq<char> {
    "impl<'data> ddl_rt::ReadBinary<'data> for "@ + ident_text(s.name@) + " {\n"@ + (
    if s.fields@.len() == 0 {
        "    fn read(_: &mut ddl_rt::ReadCtxt<'data>) -> Result<"@ + ident_text(s.name@)
            + ", ddl_rt::ReadError> {\n        Ok("@ + ident_text(s.name@) + " {})\n    }\n"@
    } else {
        "    fn read(ctxt: &mut ddl_rt::ReadCtxt<'data>) -> Result<"@ + ident_text(s.name@)
            + ", ddl_rt::ReadError> {\n"@ + fields_read_text(s.fields@) + "\n        Ok("@
            + ident_text(s.name@) + " {\n"@ + fields_ok_text(s.fields@)
            + "        })\n    }\n"@
    }) + "}\n"@
}

/// The text of a struct item: its declaration, the marker that the type is
/// a binary format whose host is itself, and its reader.
pub open spec fn struct_ty_text(s: StructType) -> Seq<char> {
    struct_decl_text(s) + struct_binary_text(s) + struct_read_text(s)
}

/// Whether every read position of an item is readable.
pub open spec fn item_readable(item: Item) -> bool {
    match item {
        Item::Struct(s) => forall|i: int|
            0 <= i < s.fields@.len() ==> readable_ty((#[trigger] s.fields@[i]).format_ty),
        _ => true,
    }
}

/// The text of one item.
pub open spec fn item_text(item: Item) -> Seq<char> {
    match item {
        Item::Const(c) => const_text(c),
        Item::Function(f) => function_text(f),
        Item::Alias(a) => alias_text(a),
        Item::Struct(s) => struct_ty_text(s),
    }
}

/// The text of a module's items.
pub open spec fn items_text(items: Seq<Item>) -> Seq<char>
    decreases items.len(),
{
    if items.len() == 0 {
        Seq::empty()
    } else {
        items_text(items.drop_last()) + item_text(items.last())
    }
}

/// The full text of a module: the generator header, the module doc lines,
/// then each item in source order.
pub open spec fn module_text(m: Module) -> Seq<char> {
    "// This file is automatically @generated by fathom 0.1.0\n"@
        + "// It is not intended for manual editing.\n"@ + (if m.doc@.len() == 0 {
        Seq::<char>::empty()
    } else {
        seq!['\n'] + doc_text(m.doc@, "//!"@)
    }) + items_text(m.items@)
}

/// Join parts with a comma and a space between consecutive items.
fn join_comma(parts: &Vec<String>) -> (r: String)
    ensures
        r@ == join_text(parts@),
{
    let mut out = String::new();
    let mut i: usize = 0;
    while i < parts.len()
        invariant
            0 <= i <= parts@.len(),
            out@ == join_text(parts@.take(i as int)),
        decreases parts@.len() - i,
    {
        if i > 0 {
            out.append(", ");
        }
        out.append(parts[i].as_str());
        i += 1;
        proof {
            assert(parts@.take(i as int).drop_last() =~= parts@.take(i as int - 1));
            assert(parts@.take(i as int).last() == parts@[i - 1]);
            if i == 1 {
                assert(out@ =~= join_text(parts@.take(1)));
            } else {
                assert(out@ =~= join_text(parts@.take(i as int)));
            }
        }
    }
    proof {
        assert(parts@.take(parts@.len() as int) =~= parts@);
    }
    out
}

/// Append one decimal digit; ten or more prints as the largest digit.
pub fn push_digit(out: &mut String, d: u8)
    ensures
        final(out)@ == old(out)@ + seq![digit_char(d)],
{
    proof {
        reveal_strlit("0");
        reveal_strlit("1");
        reveal_strlit("2");
        reveal_strlit("3");
        reveal_strlit("4");
        reveal_strlit("5");
        reveal_strlit("6");
        reveal_strlit("7");
        reveal_strlit("8");
        reveal_strlit("9");
    }
    match d {
        0 => out.append("0"),
        1 => out.append("1"),
        2 => out.append("2"),
        3 => out.append("3"),
        4 => out.append("4"),
        5 => out.append("5"),
        6 => out.append("6"),
        7 => out.append("7"),
        8 => out.append("8"),
        _ => out.append("9"),
    }
    proof {
        assert(out@ =~= old(out)@ + seq![digit_char(d)]);
    }
}

/// Append the characters of a digit sequence.
pub fn emit_digits(out: &mut String, digits: &Vec<u8>)
    ensures
        final(out)@ == old(out)@ + digits_text(digits@),
{
    let mut i: usize = 0;
    while i < digits.len()
        invariant
            0 <= i <= digits@.len(),
            out@ == old(out)@ + digits_text(digits@.take(i as int)),
        decreases digits@.len() - i,
    {
        push_digit(out, digits[i]);
        i += 1;
        proof {
            assert(digits@.take(i as int).drop_last() =~= digits@.take(i as int - 1));
            assert(out@ =~= old(out)@ + digits_text(digits@.take(i as int)));
        }
    }
    proof {
        assert(digits@.take(digits@.len() as int) =~= digits@);
    }
}

/// Append the decimal text of a non-negative machine integer.
pub fn emit_u64(out: &mut String, n: u64)
    ensures
        final(out)@ == old(out)@ + nat_text(n as nat),
{
    let mut digits: Vec<u8> = Vec::new();
    push_dec_digits(n, &mut digits);
    proof {
        crate::integer::lemma_dec_digits_wf(n as nat);
        assert(digits@ =~= dec_digits(n as nat));
    }
    emit_digits(out, &digits);
}

/// Append the decimal text of a signed machine integer.
pub fn emit_i64(out: &mut String, n: i64)
    ensures
        final(out)@ == old(out)@ + int_text(n as int),
{
    if n >= 0 {
        emit_u64(out, n as u64);
    } else {
        proof {
            reveal_strlit("-");
        }
        out.append("-");
        proof {
            assert("-"@ =~= seq!['-']);
        }
        let m: u64 = if n == i64::MIN {
            9223372036854775808u64
        } else {
            (-n) as u64
        };
        emit_u64(out, m);
        proof {
            assert(out@ =~= old(out)@ + int_text(n as int));
        }
    }
}

/// Append doc lines, each under the given prefix.
fn emit_doc(out: &mut String, doc: &Vec<String>, prefix: &str)
    ensures
        final(out)@ == old(out)@ + doc_text(doc@, prefix@),
{
    let mut i: usize = 0;
    while i < doc.len()
        invariant
            0 <= i <= doc@.len(),
            out@ == old(out)@ + doc_text(doc@.take(i as int), prefix@),
        decreases doc@.len() - i,
    {
        out.append(prefix);
        out.append(doc[i].as_str());
        out.append("\n");
        i += 1;
        proof {
            reveal_strlit("\n");
            assert(doc@.take(i as int).drop_last() =~= doc@.take(i as int - 1));
            assert("\n"@ =~= seq!['\n']);
            assert(out@ =~= old(out)@ + doc_text(doc@.take(i as int), prefix@));
        }
    }
    proof {
        assert(doc@.take(doc@.len() as int) =~= doc@);
    }
}

/// Write the name of a runtime format descriptor type.
pub fn emit_rt_ty(out: &mut String, ty: &RtType)
    ensures
        final(out)@ == old(out)@ + rt_ty_text(*ty),
{
    match ty {
        RtType::U8 => out.append("U8"),
        RtType::U16Le => out.append("U16Le"),
        RtType::U16Be => out.append("U16Be"),
        RtType::U32Le => out.append("U32Le"),
        RtType::U32Be => out.append("U32Be"),
        RtType::U64Le => out.append("U64Le"),
        RtType::U64Be => out.append("U64Be"),
        RtType::I8 => out.append("I8"),
        RtType::I16Le => out.append("I16Le"),
        RtType::I16Be => out.append("I16Be"),
        RtType::I32Le => out.append("I32Le"),
        RtType::I32Be => out.append("I32Be"),
        RtType::I64Le => out.append("I64Le"),
        RtType::I64Be => out.append("I64Be"),
        RtType::F32Le => out.append("F32Le"),
        RtType::F32Be => out.append("F32Be"),
        RtType::F64Le => out.append("F64Le"),
        RtType::F64Be => out.append("F64Be"),
        RtType::InvalidDataDescription => out.append("InvalidDataDescription"),
    }
}

/// Write a constant expression.
pub fn emit_term(out: &mut String, term: &Term)
    ensures
        final(out)@ == old(out)@ + term_text(*term),
    decreases *term,
{
    match term {
        Term::Var(name) => emit_ident(out, name),
        Term::Bool(value) => {
            if *value {
                out.append("true");
            } else {
                out.append("false");
            }
        },
        Term::U8(value) => {
            emit_u64(out, *value as u64);
            out.append("u8");
        },
        Term::U16(value) => {
            emit_u64(out, *value as u64);
            out.append("u16");
        },
        Term::U32(value) => {
            emit_u64(out, *value as u64);
            out.append("u32");
        },
        Term::U64(value) => {
            emit_u64(out, *value);
            out.append("u64");
        },
        Term::I8(value) => {
            emit_i64(out, *value as i64);
            out.append("i8");
        },
        Term::I16(value) => {
            emit_i64(out, *value as i64);
            out.append("i16");
        },
        Term::I32(value) => {
            emit_i64(out, *value as i64);
            out.append("i32");
        },
        Term::I64(value) => {
            emit_i64(out, *value);
            out.append("i64");
        },
        Term::F32(bits) => {
            out.append("f32::from_bits(");
            emit_u64(out, *bits as u64);
            out.append("u32)");
        },
        Term::F64(bits) => {
            out.append("f64::from_bits(");
            emit_u64(out, *bits);
            out.append("u64)");
        },
        Term::Call(inner) => {
            emit_term(out, &*inner);
            out.append("()");
        },
        Term::If(c, t, f) => {
            out.append("if ");
            emit_term(out, &*c);
            out.append(" { ");
            emit_term(out, &*t);
            out.append(" } else { ");
            emit_term(out, &*f);
            out.append(" }");
        },
    }
    proof {
        assert(out@ =~= old(out)@ + term_text(*term));
    }
}

/// Write a host type.
pub fn emit_ty(out: &mut String, ty: &Type)
    ensures
        final(out)@ == old(out)@ + ty_text(*ty),
    decreases *ty,
{
    match ty {
        Type::Var(name) => emit_ident(out, name),
        Type::U8 => out.append("u8"),
        Type::U16 => out.append("u16"),
        Type::U32 => out.append("u32"),
        Type::U64 => out.append("u64"),
        Type::I8 => out.append("i8"),
        Type::I16 => out.append("i16"),
        Type::I32 => out.append("i32"),
        Type::I64 => out.append("i64"),
        Type::F32 => out.append("f32"),
        Type::F64 => out.append("f64"),
        Type::Bool => out.append("bool"),
        Type::Rt(rt) => {
            out.append("ddl_rt::");
            emit_rt_ty(out, rt);
        },
        Type::If(_, lhs, rhs) => {
            out.append("ddl_rt::If<");
            emit_ty(out, &*lhs);
            out.append(", ");
            emit_ty(out, &*rhs);
            out.append(">");
        },
    }
    proof {
        assert(out@ =~= old(out)@ + ty_text(*ty));
    }
}

/// Write the reader expression for a format type.
pub fn emit_ty_read(out: &mut String, ty: &Type)
    requires
        readable_ty(*ty),
    ensures
        final(out)@ == old(out)@ + ty_read_text(*ty),
    decreases *ty,
{
    match ty {
        Type::Var(name) => {
            out.append("ctxt.read::<");
            emit_ident(out, name);
            out.append(">()?");
        },
        Type::Rt(rt) => {
            out.append("ctxt.read::<ddl_rt::");
            emit_rt_ty(out, rt);
            out.append(">()?");
        },
        Type::If(cond, lhs, rhs) => {
            out.append("if ");
            emit_term(out, &*cond);
            out.append(" {");
            emit_ty_read(out, &*lhs);
            out.append("} else {");
            emit_ty_read(out, &*rhs);
            out.append("}");
        },
        _ => {
        },
    }
    proof {
        assert(out@ =~= old(out)@ + ty_read_text(*ty));
    }
}

/// Write a constant item.
pub fn emit_const(out: &mut String, c: &Const)
    ensures
        final(out)@ == old(out)@ + const_text(*c),
{
    proof {
        reveal_strlit("\n");
        assert("\n"@ =~= seq!['\n']);
    }
    out.append("\n");
    emit_doc(out, &c.doc, "///");
    out.append("pub const ");
    emit_ident(out, &c.name);
    out.append(": ");
    emit_ty(out, &c.ty);
    out.append(" = ");
    emit_term(out, &c.term);
    out.append(";\n");
    proof {
        assert(out@ =~= old(out)@ + const_text(*c));
    }
}

/// Write a function item.
pub fn emit_function(out: &mut String, f: &Function)
    ensures
        final(out)@ == old(out)@ + function_text(*f),
{
    proof {
        reveal_strlit("\n");
        assert("\n"@ =~= seq!['\n']);
    }
    out.append("\n");
    emit_doc(out, &f.doc, "///");
    out.append("pub ");
    if f.is_const {
        out.append("const ");
    }
    out.append("fn ");
    emit_ident(out, &f.name);
    out.append("() -> ");
    emit_ty(out, &f.ty);
    out.append(" {\n    ");
    emit_term(out, &f.term);
    out.append("\n}\n");
    proof {
        assert(out@ =~= old(out)@ + function_text(*f));
    }
}

/// Write a type alias item.
pub fn emit_alias(out: &mut String, a: &Alias)
    ensures
        final(out)@ == old(out)@ + alias_text(*a),
{
    proof {
        reveal_strlit("\n");
        assert("\n"@ =~= seq!['\n']);
    }
    out.append("\n");
    emit_doc(out, &a.doc, "///");
    out.append("pub type ");
    emit_ident(out, &a.name);
    out.append(" = ");
    emit_ty(out, &a.ty);
    out.append(";\n");
    proof {
        assert(out@ =~= old(out)@ + alias_text(*a));
    }
}

/// Write a struct item: the data declaration, the marker that the type is a
/// binary format with host equal to itself, and the reader that reads the
/// fields in declaration order. A struct with no fields reads nothing and
/// succeeds.
#[verifier::rlimit(90)]
#[verifier::spinoff_prover]
fn emit_struct_decl(out: &mut String, s: &StructType)
    ensures
        final(out)@ == old(out)@ + struct_decl_text(*s),
{
    proof {
        reveal_strlit("\n");
        assert("\n"@ =~= seq!['\n']);
    }
    out.append("\n");
    emit_doc(out, &s.doc, "///");
    if s.derives.len() != 0 {
        out.append("#[derive(");
        let joined = join_comma(&s.derives);
        out.append(joined.as_str());
        out.append(")]\n");
    }
    if s.fields.len() == 0 {
        out.append("pub struct ");
        emit_ident(out, &s.name);
        out.append(" {}\n");
    } else {
        out.append("pub struct ");
        emit_ident(out, &s.name);
        out.append(" {\n");
        let ghost decl_base = out@;
        let mut i: usize = 0;
        while i < s.fields.len()
            invariant
                0 <= i <= s.fields@.len(),
                out@ == decl_base + fields_decl_text(s.fields@.take(i as int)),
            decreases s.fields@.len() - i,
        {
            emit_doc(out, &s.fields[i].doc, "    ///");
            out.append("    pub ");
            emit_ident(out, &s.fields[i].name);
            out.append(": ");
            emit_ty(out, &s.fields[i].host_ty);
            out.append(",\n");
            i += 1;
            proof {
                assert(s.fields@.take(i as int).drop_last() =~= s.fields@.take(i as int - 1));
                assert(out@ =~= decl_base + fields_decl_text(s.fields@.take(i as int)));
            }
        }
        proof {
            assert(s.fields@.take(s.fields@.len() as int) =~= s.fields@);
        }
        out.append("}\n");
    }
    proof {
        assert(out@ =~= old(out)@ + struct_decl_text(*s));
    }
}

#[verifier::rlimit(90)]
#[verifier::spinoff_prover]
fn emit_struct_read(out: &mut String, s: &StructType)
    requires
        item_readable(Item::Struct(*s)),
    ensures
        final(out)@ == old(out)@ + struct_read_text(*s),
{
    out.append("impl<'data> ddl_rt::ReadBinary<'data> for ");
    emit_ident(out, &s.name);
    out.append(" {\n");
    if s.fields.len() == 0 {
        out.append("    fn read(_: &mut ddl_rt::ReadCtxt<'data>) -> Result<");
        emit_ident(out, &s.name);
        out.append(", ddl_rt::ReadError> {\n        Ok(");
        emit_ident(out, &s.name);
        out.append(" {})\n    }\n");
    } else {
        out.append("    fn read(ctxt: &mut ddl_rt::ReadCtxt<'data>) -> Result<");
        emit_ident(out, &s.name);
        out.append(", ddl_rt::ReadError> {\n");
        let ghost read_base = out@;
        let mut i: usize = 0;
        while i < s.fields.len()
            invariant
                item_readable(Item::Struct(*s)),
                0 <= i <= s.fields@.len(),
                out@ == read_base + fields_read_text(s.fields@.take(i as int)),
            decreases s.fields@.len() - i,
        {
            out.append("        let ");
            emit_ident(out, &s.fields[i].name);
            out.append(" = ");
            emit_ty_read(out, &s.fields[i].format_ty);
            out.append(";\n");
            i += 1;
            proof {
                assert(s.fields@.take(i as int).drop_last() =~= s.fields@.take(i as int - 1));
                assert(out@ =~= read_base + fields_read_text(s.fields@.take(i as int)));
            }
        }
        proof {
            assert(s.fields@.take(s.fields@.len() as int) =~= s.fields@);
        }
        out.append("\n        Ok(");
        emit_ident(out, &s.name);
        out.append(" {\n");
        let ghost ok_base = out@;
        let mut i: usize = 0;
        while i < s.fields.len()
            invariant
                0 <= i <= s.fields@.len(),
                out@ == ok_base + fields_ok_text(s.fields@.take(i as int)),
            decreases s.fields@.len() - i,
        {
            out.append("            ");
            emit_ident(out, &s.fields[i].name);
            out.append(",\n");
            i += 1;
            proof {
                assert(s.fields@.take(i as int).drop_last() =~= s.fields@.take(i as int - 1));
                assert(out@ =~= ok_base + fields_ok_text(s.fields@.take(i as int)));
            }
        }
        proof {
            assert(s.fields@.take(s.fields@.len() as int) =~= s.fields@);
        }
        out.append("        })\n    }\n");
    }
    out.append("}\n");
    proof {
        assert(out@ =~= old(out)@ + struct_read_text(*s));
    }
}

/// Write a struct item: the data declaration, the marker that the type is a
/// binary format with host equal to itself, and the reader that reads the
/// fields in declaration order. A struct with no fields reads nothing and
/// succeeds.
pub fn emit_struct_ty(out: &mut String, s: &StructType)
    requires
        item_readable(Item::Struct(*s)),
    ensures
        final(out)@ == old(out)@ + struct_ty_text(*s),
{
    emit_struct_decl(out, s);
    out.append("\n");
    out.append("impl ddl_rt::Binary for ");
    emit_ident(out, &s.name);
    out.append(" {\n    type Host = ");
    emit_ident(out, &s.name);
    out.append(";\n}\n\n");
    proof {
        assert(out@ =~= old(out)@ + struct_decl_text(*s) + struct_binary_text(*s));
    }
    emit_struct_read(out, s);
    proof {
        assert(out@ =~= old(out)@ + struct_ty_text(*s));
    }
}

/// Write one item.
pub fn emit_item(out: &mut String, item: &Item)
    requires
        item_readable(*item),
    ensures
        final(out)@ == old(out)@ + item_text(*item),
{
    match item {
        Item::Const(c) => emit_const(out, c),
        Item::Function(f) => emit_function(out, f),
        Item::Alias(a) => emit_alias(out, a),
        Item::Struct(s) => emit_struct_ty(out, s),
    }
}

/// Write a whole module: the generator header, the module doc lines, then
/// each item in source order. The output is a pure function of the module,
/// so it is byte-identical across runs on the same input.
pub fn emit_module(out: &mut String, module: &Module)
    requires
        forall|i: int| 0 <= i < module.items@.len() ==> item_readable(#[trigger] module.items@[i]),
    ensures
        final(out)@ == old(out)@ + module_text(*module),
{
    proof {
        reveal_strlit("\n");
        assert("\n"@ =~= seq!['\n']);
    }
    out.append("// This file is automatically @generated by fathom 0.1.0\n");
    out.append("// It is not intended for manual editing.\n");
    if module.doc.len() != 0 {
        out.append("\n");
        emit_doc(out, &module.doc, "//!");
    }
    let ghost items_base = out@;
    let mut i: usize = 0;
    while i < module.items.len()
        invariant
            forall|j: int|
                0 <= j < module.items@.len() ==> item_readable(#[trigger] module.items@[j]),
            0 <= i <= module.items@.len(),
            out@ == items_base + items_text(module.items@.take(i as int)),
        decreases module.items@.len() - i,
    {
        emit_item(out, &module.items[i]);
        i += 1;
        proof {
            assert(module.items@.take(i as int).drop_last() =~= module.items@.take(i as int - 1));
            assert(out@ =~= items_base + items_text(module.items@.take(i as int)));
        }
    }
    proof {
        assert(module.items@.take(module.items@.len() as int) =~= module.items@);
        assert(out@ =~= old(out)@ + module_text(*module));
    }
}

} // verus!
