//! The Kotlin type that a format is rendered as.
use vstd::prelude::*;

use crate::model::{qualified_name, Format, Namespace, QualifiedTypeName};
use crate::text::{decimal, lemma_put_str_concat, lemma_put_str_one, put_str, IndentedWriter};
use crate::Kotlin;

verus! {

/// The Kotlin type of `f`.
pub open spec fn kotlin_type(f: Format) -> Seq<char>
    decreases f,
{
    match f {
        Format::TypeName(q) => qualified_name(q),
        Format::Unit => "Unit"@,
        Format::Bool => "Boolean"@,
        Format::I8 => "Byte"@,
        Format::I16 => "Short"@,
        Format::I32 => "Int"@,
        Format::I64 => "Long"@,
        Format::U8 => "UByte"@,
        Format::U16 => "UShort"@,
        Format::U32 => "UInt"@,
        Format::U64 => "ULong"@,
        Format::I128 => "BigInteger"@,
        Format::U128 => "BigInteger"@,
        Format::F32 => "Float"@,
        Format::F64 => "Double"@,
        Format::Char => "String"@,
        Format::Str => "String"@,
        Format::Bytes => "ByteArray"@,
        Format::Optional(g) => kotlin_type(*g) + "?"@,
        Format::Sequence(g) => "List<"@ + kotlin_type(*g) + ">"@,
        Format::SetOf(g) => "Set<"@ + kotlin_type(*g) + ">"@,
        Format::MapOf { key, value } => "Map<"@ + kotlin_type(*key) + ", "@ + kotlin_type(*value)
            + ">"@,
        Format::Tuple(fs) => {
            if fs@.len() == 0 {
                "Unit"@
            } else if fs@.len() == 1 {
                kotlin_type(fs@[0])
            } else if fs@.len() == 2 {
                "Pair<"@ + kotlin_type(fs@[0]) + ", "@ + kotlin_type(fs@[1]) + ">"@
            } else if fs@.len() == 3 {
                "Triple<"@ + kotlin_type(fs@[0]) + ", "@ + kotlin_type(fs@[1]) + ", "@
                    + kotlin_type(fs@[2]) + ">"@
            } else {
                "NTuple"@ + decimal(fs@.len()) + "<"@ + kotlin_type_list(fs@) + ">"@
            }
        },
        Format::TupleArray { content, .. } => "List<"@ + kotlin_type(*content) + ">"@,
    }
}

/// The Kotlin types of `fs`, separated by commas.
pub open spec fn kotlin_type_list(fs: Seq<Format>) -> Seq<char>
    decreases fs,
{
    if fs.len() == 0 {
        Seq::empty()
    } else if fs.len() == 1 {
        kotlin_type(fs[0])
    } else {
        kotlin_type_list(fs.drop_last()) + ", "@ + kotlin_type(fs.last())
    }
}

impl Kotlin {
    /// Writes the qualified name of a type.
    pub fn write_qualified_name(w: &mut IndentedWriter, q: &QualifiedTypeName)
        ensures
            final(w)@ == put_str(old(w)@, qualified_name(*q)),
    {
        match &q.namespace {
            Namespace::Root => {
                w.write_str(q.name.as_str());
            },
            Namespace::Named(ns) => {
                w.write_str(ns.as_str());
                w.write_char('.');
                w.write_str(q.name.as_str());
                proof {
                    let st = old(w)@;
                    lemma_put_str_one(put_str(st, ns@), '.');
                    lemma_put_str_concat(st, ns@, seq!['.']);
                    lemma_put_str_concat(st, ns@ + seq!['.'], q.name@);
                }
            },
        }
    }

    /// Writes the Kotlin type of `f`.
    pub fn write_type(w: &mut IndentedWriter, f: &Format)
        ensures
            final(w)@ == put_str(old(w)@, kotlin_type(*f)),
        decreases f, 1nat,
    {
        let ghost st = w@;
        match f {
            Format::TypeName(q) => Self::write_qualified_name(w, q),
            Format::Unit => w.write_str("Unit"),
            Format::Bool => w.write_str("Boolean"),
            Format::I8 => w.write_str("Byte"),
            Format::I16 => w.write_str("Short"),
            Format::I32 => w.write_str("Int"),
            Format::I64 => w.write_str("Long"),
            Format::U8 => w.write_str("UByte"),
            Format::U16 => w.write_str("UShort"),
            Format::U32 => w.write_str("UInt"),
            Format::U64 => w.write_str("ULong"),
            Format::I128 => w.write_str("BigInteger"),
            Format::U128 => w.write_str("BigInteger"),
            Format::F32 => w.write_str("Float"),
            Format::F64 => w.write_str("Double"),
            Format::Char => w.write_str("String"),
            Format::Str => w.write_str("String"),
            Format::Bytes => w.write_str("ByteArray"),
            Format::Optional(g) => {
                Self::write_type(w, g);
                w.write_str("?");
                proof {
                    lemma_put_str_concat(st, kotlin_type(**g), "?"@);
                }
            },
            Format::Sequence(g) => {
                w.write_str("List<");
                Self::write_type(w, g);
                w.write_str(">");
                proof {
                    lemma_put_str_concat(st, "List<"@, kotlin_type(**g));
                    lemma_put_str_concat(st, "List<"@ + kotlin_type(**g), ">"@);
                }
            },
            Format::SetOf(g) => {
                w.write_str("Set<");
                Self::write_type(w, g);
                w.write_str(">");
                proof {
                    lemma_put_str_concat(st, "Set<"@, kotlin_type(**g));
                    lemma_put_str_concat(st, "Set<"@ + kotlin_type(**g), ">"@);
                }
            },
            Format::MapOf { key, value } => {
                w.write_str("Map<");
                Self::write_type(w, key);
                w.write_str(", ");
                Self::write_type(w, value);
                w.write_str(">");
                proof {
                    let a = "Map<"@;
                    let b = kotlin_type(**key);
                    let c = ", "@;
                    let d = kotlin_type(**value);
                    lemma_put_str_concat(st, a, b);
                    lemma_put_str_concat(st, a + b, c);
                    lemma_put_str_concat(st, a + b + c, d);
                    lemma_put_str_concat(st, a + b + c + d, ">"@);
                }
            },
            Format::TupleArray { content, size: _ } => {
                w.write_str("List<");
                Self::write_type(w, content);
                w.write_str(">");
                proof {
                    lemma_put_str_concat(st, "List<"@, kotlin_type(**content));
                    lemma_put_str_concat(st, "List<"@ + kotlin_type(**content), ">"@);
                }
            },
            Format::Tuple(formats) => {
                Self::write_tuple_type(w, f, formats);
            },
        }
    }

    /// Writes the Kotlin type of a tuple: `Unit`, the element itself,
    /// `Pair`, `Triple` or `NTupleN`.
    fn write_tuple_type(w: &mut IndentedWriter, f: &Format, formats: &Vec<Format>)
        requires
            *f == Format::Tuple(*formats),
        ensures
            final(w)@ == put_str(old(w)@, kotlin_type(*f)),
        decreases f, 0nat,
    {
        let ghost st = w@;
        let len = formats.len();
        proof {
            assert forall|j: int| 0 <= j < formats@.len() implies decreases_to!(*f => formats@[j]) by {
                assert(decreases_to!(*f => (*f)->Tuple_0));
                assert(decreases_to!(*formats => formats@));
                assert(decreases_to!(formats@ => formats@[j]));
            }
        }
        if len == 0 {
            w.write_str("Unit");
        } else if len == 1 {
            Self::write_type(w, &formats[0]);
        } else if len == 2 {
            w.write_str("Pair<");
            Self::write_type(w, &formats[0]);
            w.write_str(", ");
            Self::write_type(w, &formats[1]);
            w.write_str(">");
            proof {
                let a = "Pair<"@;
                let b = kotlin_type(formats@[0]);
                let c = ", "@;
                let d = kotlin_type(formats@[1]);
                lemma_put_str_concat(st, a, b);
                lemma_put_str_concat(st, a + b, c);
                lemma_put_str_concat(st, a + b + c, d);
                lemma_put_str_concat(st, a + b + c + d, ">"@);
            }
        } else if len == 3 {
            w.write_str("Triple<");
            Self::write_type(w, &formats[0]);
            w.write_str(", ");
            Self::write_type(w, &formats[1]);
            w.write_str(", ");
            Self::write_type(w, &formats[2]);
            w.write_str(">");
            proof {
                let a = "Triple<"@;
                let b = kotlin_type(formats@[0]);
                let c = ", "@;
                let d = kotlin_type(formats@[1]);
                let e = kotlin_type(formats@[2]);
                lemma_put_str_concat(st, a, b);
                lemma_put_str_concat(st, a + b, c);
                lemma_put_str_concat(st, a + b + c, d);
                lemma_put_str_concat(st, a + b + c + d, c);
                lemma_put_str_concat(st, a + b + c + d + c, e);
                lemma_put_str_concat(st, a + b + c + d + c + e, ">"@);
            }
        } else {
            w.write_str("NTuple");
            w.write_decimal(len as u64);
            w.write_str("<");
            let ghost pre = "NTuple"@ + decimal(len as nat) + "<"@;
            proof {
                lemma_put_str_concat(st, "NTuple"@, decimal(len as nat));
                lemma_put_str_concat(st, "NTuple"@ + decimal(len as nat), "<"@);
                assert(formats@.take(0) =~= Seq::<Format>::empty());
                assert(pre + kotlin_type_list(formats@.take(0)) =~= pre);
            }
            let mut i: usize = 0;
            while i < len
                invariant
                    len == formats@.len(),
                    0 <= i <= len,
                    *f == Format::Tuple(*formats),
                    forall|j: int| 0 <= j < formats@.len() ==> decreases_to!(*f => formats@[j]),
                    w@ == put_str(st, pre + kotlin_type_list(formats@.take(i as int))),
                decreases len - i,
            {
                let ghost before = pre + kotlin_type_list(formats@.take(i as int));
                if i > 0 {
                    w.write_str(", ");
                }
                Self::write_type(w, &formats[i]);
                proof {
                    let t = kotlin_type(formats@[i as int]);
                    let next = formats@.take(i + 1);
                    assert(next.drop_last() =~= formats@.take(i as int));
                    assert(next.last() == formats@[i as int]);
                    if i > 0 {
                        lemma_put_str_concat(st, before, ", "@);
                        lemma_put_str_concat(st, before + ", "@, t);
                        assert(pre + kotlin_type_list(next) =~= before + ", "@ + t);
                    } else {
                        assert(kotlin_type_list(next) == t);
                        lemma_put_str_concat(st, before, t);
                        assert(pre + kotlin_type_list(next) =~= before + t);
                    }
                }
                i = i + 1;
            }
            w.write_str(">");
            proof {
                assert(formats@.take(len as int) =~= formats@);
                lemma_put_str_concat(st, pre + kotlin_type_list(formats@), ">"@);
            }
        }
    }
}

} // verus!
