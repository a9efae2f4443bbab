//! The target intermediate representation: host types, runtime format
//! descriptors, constant expressions, and the items of an emitted module.

use vstd::prelude::*;

verus! {

/// A runtime format descriptor type of the emitted reader library.
#[derive(Clone, Copy, Debug, PartialEq, Eq, Structural)]
pub enum RtType {
    U8,
    U16Le,
    U16Be,
    U32Le,
    U32Be,
    U64Le,
    U64Be,
    I8,
    I16Le,
    I16Be,
    I32Le,
    I32Be,
    I64Le,
    I64Be,
    F32Le,
    F32Be,
    F64Le,
    F64Be,
    /// The sentinel for a format position that could not be described.
    InvalidDataDescription,
}

/// A type of the emitted host language. Floating-point types exist only in
/// the emitted text; no value of them is ever held here.
#[derive(Debug)]
pub enum Type {
    /// A named type defined elsewhere in the emitted module.
    Var(String),
    U8,
    U16,
    U32,
    U64,
    I8,
    I16,
    I32,
    I64,
    F32,
    F64,
    Bool,
    /// A runtime format descriptor type.
    Rt(RtType),
    /// A conditional format: the condition term, then the types read when
    /// it is true and when it is false.
    If(Box<Term>, Box<Type>, Box<Type>),
}

/// A constant expression of the emitted host language. Floating-point
/// constants carry their IEEE 754 bit patterns and are emitted as
/// bit-preserving conversions.
#[derive(Debug)]
pub enum Term {
    Var(String),
    Bool(bool),
    U8(u8),
    U16(u16),
    U32(u32),
    U64(u64),
    I8(i8),
    I16(i16),
    I32(i32),
    I64(i64),
    F32(u32),
    F64(u64),
    /// A call of a named nullary function.
    Call(Box<Term>),
    If(Box<Term>, Box<Term>, Box<Term>),
}

/// A constant item.
#[derive(Debug)]
pub struct Const {
    pub name: String,
    pub doc: Vec<String>,
    pub ty: Type,
    pub term: Term,
}

/// A nullary function item, for aliases whose body requires computation.
#[derive(Debug)]
pub struct Function {
    pub name: String,
    pub doc: Vec<String>,
    pub is_const: bool,
    pub ty: Type,
    pub term: Term,
}

/// A type alias item.
#[derive(Debug)]
pub struct Alias {
    pub name: String,
    pub doc: Vec<String>,
    pub ty: Type,
}

/// One field of an emitted struct: its host type and the format descriptor
/// its reader uses.
#[derive(Debug)]
pub struct TypeField {
    pub name: String,
    pub doc: Vec<String>,
    pub host_ty: Type,
    pub format_ty: Type,
}

/// A struct item together with the derives placed on its declaration.
#[derive(Debug)]
pub struct StructType {
    pub name: String,
    pub doc: Vec<String>,
    pub derives: Vec<String>,
    pub fields: Vec<TypeField>,
}

/// An item of the target module.
#[derive(Debug)]
pub enum Item {
    Const(Const),
    Function(Function),
    Alias(Alias),
    Struct(StructType),
}

/// A target module: its doc lines and its items in source order.
#[derive(Debug)]
pub struct Module {
    pub doc: Vec<String>,
    pub items: Vec<Item>,
}

} // verus!
