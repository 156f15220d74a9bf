//! The reflected type model that the emitter renders.
use vstd::prelude::*;
use std::collections::BTreeMap;

verus! {

/// The namespace of a named type.
pub enum Namespace {
    Root,
    Named(String),
}

/// A type name with its namespace.
pub struct QualifiedTypeName {
    pub namespace: Namespace,
    pub name: String,
}

/// Documentation: one comment per line.
pub struct Doc {
    pub comments: Vec<String>,
}

/// A named value with documentation: a field or a variant.
pub struct Named<T> {
    pub name: String,
    pub doc: Doc,
    pub value: T,
}

/// The format of a value.
pub enum Format {
    TypeName(QualifiedTypeName),
    Unit,
    Bool,
    I8,
    I16,
    I32,
    I64,
    I128,
    U8,
    U16,
    U32,
    U64,
    U128,
    F32,
    F64,
    Char,
    Str,
    Bytes,
    Optional(Box<Format>),
    Sequence(Box<Format>),
    SetOf(Box<Format>),
    MapOf { key: Box<Format>, value: Box<Format> },
    Tuple(Vec<Format>),
    TupleArray { content: Box<Format>, size: usize },
}

/// The format of an enum variant.
pub enum VariantFormat {
    Unit,
    NewType(Box<Format>),
    Tuple(Vec<Format>),
    Struct(Vec<Named<Format>>),
}

/// The format of a named container type.
pub enum ContainerFormat {
    UnitStruct(Doc),
    NewTypeStruct(Box<Format>, Doc),
    TupleStruct(Vec<Format>, Doc),
    Struct(Vec<Named<Format>>, Doc),
    /// The variants, by index.
    Enum(BTreeMap<u32, Named<VariantFormat>>, Doc),
}

/// The wire encoding that the generated code targets.
#[derive(PartialEq, Eq, Structural, Clone, Copy)]
pub enum Encoding {
    Plain,
    Json,
    Bincode,
    Bcs,
}

impl Encoding {
    pub fn is_json(&self) -> (b: bool)
        ensures
            b == (*self == Encoding::Json),
    {
        *self == Encoding::Json
    }

    pub fn is_bincode(&self) -> (b: bool)
        ensures
            b == (*self == Encoding::Bincode),
    {
        *self == Encoding::Bincode
    }
}

/// Is this a format that Kotlin has natively?
pub open spec fn is_native(f: Format) -> bool {
    match f {
        Format::TypeName(_) | Format::Optional(_) | Format::Sequence(_) | Format::SetOf(_)
        | Format::MapOf { .. } | Format::Tuple(_) | Format::TupleArray { .. } => false,
        _ => true,
    }
}

/// A leaf is a native format or a type name.
pub open spec fn is_leaf(f: Format) -> bool {
    is_native(f) || f is TypeName
}

impl Format {
    /// Does Kotlin have this format natively (a primitive, a string or bytes)?
    pub fn is_native(&self) -> (b: bool)
        ensures
            b == is_native(*self),
    {
        match self {
            Format::Unit
            | Format::Bool
            | Format::I8
            | Format::I16
            | Format::I32
            | Format::I64
            | Format::I128
            | Format::U8
            | Format::U16
            | Format::U32
            | Format::U64
            | Format::U128
            | Format::F32
            | Format::F64
            | Format::Char
            | Format::Str
            | Format::Bytes => true,
            Format::TypeName(..)
            | Format::Optional(..)
            | Format::Sequence(..)
            | Format::SetOf(..)
            | Format::MapOf { .. }
            | Format::Tuple(..)
            | Format::TupleArray { .. } => false,
        }
    }

    /// Is this format a native one or a type name?
    pub fn is_leaf(&self) -> (b: bool)
        ensures
            b == is_leaf(*self),
    {
        self.is_native() || matches!(self, Format::TypeName(..))
    }
}

/// The qualified name as Kotlin writes it: the namespace, a dot, the name.
pub open spec fn qualified_name(q: QualifiedTypeName) -> Seq<char> {
    match q.namespace {
        Namespace::Root => q.name@,
        Namespace::Named(ns) => ns@ + seq!['.'] + q.name@,
    }
}

/// The format of a map from `key` to `value`.
pub open spec fn map_of(key: Format, value: Format) -> Format {
    Format::MapOf { key: Box::new(key), value: Box::new(value) }
}

/// How deeply formats nest inside `f`.
pub open spec fn height(f: Format) -> nat
    decreases f,
{
    match f {
        Format::Optional(g) => 1 + height(*g),
        Format::Sequence(g) => 1 + height(*g),
        Format::SetOf(g) => 1 + height(*g),
        Format::TupleArray { content, .. } => 1 + height(*content),
        Format::MapOf { key, value } => 1 + max_nat(height(*key), height(*value)),
        Format::Tuple(fs) => 1 + heights(fs@),
        _ => 0,
    }
}

/// The greatest height among `fs`.
pub open spec fn heights(fs: Seq<Format>) -> nat
    decreases fs,
{
    if fs.len() == 0 {
        0
    } else {
        max_nat(heights(fs.drop_last()), height(fs.last()))
    }
}

pub open spec fn max_nat(a: nat, b: nat) -> nat {
    if a >= b {
        a
    } else {
        b
    }
}

} // verus!
