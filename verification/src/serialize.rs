//! The Kotlin statements that serialize a value of a given format.
use vstd::prelude::*;

use crate::model::{height, heights, is_leaf, map_of, max_nat, Format};
use crate::text::{
    close_block, decimal, joined, decimal_string, lemma_run_concat, line, open_block,
    open_block_inline, run, txt, IndentedWriter, Piece,
};
use crate::Kotlin;

verus! {

/// The name that the serializer and deserializer methods of a native format
/// end in (`str` for `serialize_str`).
pub open spec fn native_suffix(f: Format) -> Seq<char> {
    match f {
        Format::Unit => "unit"@,
        Format::Bool => "bool"@,
        Format::I8 => "i8"@,
        Format::I16 => "i16"@,
        Format::I32 => "i32"@,
        Format::I64 => "i64"@,
        Format::I128 => "i128"@,
        Format::U8 => "u8"@,
        Format::U16 => "u16"@,
        Format::U32 => "u32"@,
        Format::U64 => "u64"@,
        Format::U128 => "u128"@,
        Format::F32 => "f32"@,
        Format::F64 => "f64"@,
        Format::Char => "char"@,
        Format::Str => "str"@,
        Format::Bytes => "bytes"@,
        _ => Seq::empty(),
    }
}

/// `serializer.serialize_<suffix>(<field>)` on a line of its own.
pub open spec fn serialize_native_doc(field: Seq<char>, suffix: Seq<char>) -> Seq<Piece> {
    line("serializer.serialize_"@ + suffix + "("@ + field + ")"@)
}

/// The name the lambda parameter gets at `level`.
pub open spec fn level_name(level: nat) -> Seq<char> {
    "level"@ + decimal(level)
}

/// The statements that serialize `field`, a value of format `f`, where
/// `level` lambdas are open around them.
pub open spec fn serialize_doc(field: Seq<char>, f: Format, level: nat) -> Seq<Piece>
    decreases f, 1nat,
{
    match f {
        Format::Optional(g) => txt(field + ".serializeOptionOf(serializer) "@)
            + serialize_lambda_doc(*g, level),
        Format::Sequence(g) => txt(field + ".serialize(serializer) "@) + serialize_lambda_doc(
            *g,
            level,
        ),
        Format::SetOf(g) => txt(field + ".serialize(serializer) "@) + serialize_lambda_doc(
            *g,
            level,
        ),
        Format::MapOf { .. } => txt(field + ".serialize(serializer) "@) + serialize_map_lambda_doc(
            f,
            level,
        ),
        Format::TypeName(_) => line(field + ".serialize(serializer)"@),
        Format::TupleArray { .. } => line(field + ".serialize(serializer)"@),
        Format::Tuple(fs) => {
            if fs@.len() == 0 {
                serialize_native_doc(field, "unit"@)
            } else if fs@.len() == 1 {
                serialize_doc(field, fs@[0], level)
            } else if fs@.len() == 2 {
                serialize_doc(field + ".first"@, fs@[0], level) + serialize_doc(
                    field + ".second"@,
                    fs@[1],
                    level,
                )
            } else if fs@.len() == 3 {
                serialize_doc(field + ".first"@, fs@[0], level) + serialize_doc(
                    field + ".second"@,
                    fs@[1],
                    level,
                ) + serialize_doc(field + ".third"@, fs@[2], level)
            } else {
                serialize_components_doc(field, fs@, level)
            }
        },
        _ => serialize_native_doc(field, native_suffix(f)),
    }
}

/// The statements that serialize the components of a tuple of four or more
/// elements, one `componentN()` after the other.
pub open spec fn serialize_components_doc(field: Seq<char>, fs: Seq<Format>, level: nat) -> Seq<
    Piece,
>
    decreases fs, 0nat,
{
    if fs.len() == 0 {
        Seq::empty()
    } else {
        serialize_components_doc(field, fs.drop_last(), level) + serialize_doc(
            field + ".component"@ + decimal(fs.len()) + "()"@,
            fs.last(),
            level,
        )
    }
}

/// The lambda that serializes an element of format `g`: a leaf is `it`,
/// anything else a parameter named after the next level.
pub open spec fn serialize_lambda_doc(g: Format, level: nat) -> Seq<Piece>
    decreases g, 2nat,
{
    if is_leaf(g) {
        open_block() + serialize_doc("it"@, g, level + 1) + close_block()
    } else {
        open_block_inline() + txt(" "@ + level_name(level + 1) + " ->\n"@) + serialize_doc(
            level_name(level + 1),
            g,
            level + 1,
        ) + close_block()
    }
}

/// The lambda that serializes the entries of the map format `m`.
pub open spec fn serialize_map_lambda_doc(m: Format, level: nat) -> Seq<Piece>
    decreases m, 0nat,
{
    match m {
        Format::MapOf { key, value } => open_block_inline() + txt(" key, value ->\n"@)
            + serialize_doc("key"@, *key, level + 1) + serialize_doc("value"@, *value, level + 1)
            + close_block(),
        _ => Seq::empty(),
    }
}

/// `serializer.increase_container_depth()` on a line.
pub open spec fn push_serializer_doc() -> Seq<Piece> {
    line("serializer.increase_container_depth()"@)
}

/// `serializer.decrease_container_depth()` on a line.
pub open spec fn pop_serializer_doc() -> Seq<Piece> {
    line("serializer.decrease_container_depth()"@)
}

/// Every element of `fs` is at most as high as the highest.
pub proof fn lemma_heights_bound(fs: Seq<Format>, i: int)
    requires
        0 <= i < fs.len(),
    ensures
        height(fs[i]) <= heights(fs),
    decreases fs.len(),
{
    if i < fs.len() - 1 {
        lemma_heights_bound(fs.drop_last(), i);
    }
}

/// The suffix of a native format's serializer method.
pub fn native_method_suffix(f: &Format) -> (s: &'static str)
    requires
        crate::model::is_native(*f),
    ensures
        s@ == native_suffix(*f),
{
    match f {
        Format::Unit => "unit",
        Format::Bool => "bool",
        Format::I8 => "i8",
        Format::I16 => "i16",
        Format::I32 => "i32",
        Format::I64 => "i64",
        Format::I128 => "i128",
        Format::U8 => "u8",
        Format::U16 => "u16",
        Format::U32 => "u32",
        Format::U64 => "u64",
        Format::U128 => "u128",
        Format::F32 => "f32",
        Format::F64 => "f64",
        Format::Char => "char",
        Format::Str => "str",
        _ => "bytes",
    }
}

impl Kotlin {
    /// Writes `serializer.increase_container_depth()`.
    pub fn push_serializer(w: &mut IndentedWriter)
        ensures
            final(w)@ == run(old(w)@, push_serializer_doc()),
    {
        w.write_line("serializer.increase_container_depth()");
    }

    /// Writes `serializer.decrease_container_depth()`.
    pub fn pop_serializer(w: &mut IndentedWriter)
        ensures
            final(w)@ == run(old(w)@, pop_serializer_doc()),
    {
        w.write_line("serializer.decrease_container_depth()");
    }

    /// Writes the statements that serialize `field_name`, a value of format
    /// `format`, inside `level` lambdas.
    pub fn write_serialize(w: &mut IndentedWriter, field_name: &str, format: &Format, level: usize)
        requires
            level + height(*format) < usize::MAX,
        ensures
            final(w)@ == run(old(w)@, serialize_doc(field_name@, *format, level as nat)),
        decreases format, 1nat,
    {
        let ghost st = w@;
        let ghost field = field_name@;
        match format {
            Format::Optional(g) => {
                w.write3(field_name, ".serializeOptionOf(serializer) ", "");
                assert(field + ".serializeOptionOf(serializer) "@ + ""@ =~= field
                    + ".serializeOptionOf(serializer) "@) by {
                    reveal_strlit("");
                }
                Self::write_serialize_lambda(w, g, level);
                proof {
                    lemma_run_concat(
                        st,
                        txt(field + ".serializeOptionOf(serializer) "@),
                        serialize_lambda_doc(**g, level as nat),
                    );
                }
            },
            Format::Sequence(g) => {
                w.write3(field_name, ".serialize(serializer) ", "");
                assert(field + ".serialize(serializer) "@ + ""@ =~= field
                    + ".serialize(serializer) "@) by {
                    reveal_strlit("");
                }
                Self::write_serialize_lambda(w, g, level);
                proof {
                    lemma_run_concat(
                        st,
                        txt(field + ".serialize(serializer) "@),
                        serialize_lambda_doc(**g, level as nat),
                    );
                }
            },
            Format::SetOf(g) => {
                w.write3(field_name, ".serialize(serializer) ", "");
                assert(field + ".serialize(serializer) "@ + ""@ =~= field
                    + ".serialize(serializer) "@) by {
                    reveal_strlit("");
                }
                Self::write_serialize_lambda(w, g, level);
                proof {
                    lemma_run_concat(
                        st,
                        txt(field + ".serialize(serializer) "@),
                        serialize_lambda_doc(**g, level as nat),
                    );
                }
            },
            Format::MapOf { key, value } => {
                w.write3(field_name, ".serialize(serializer) ", "");
                assert(field + ".serialize(serializer) "@ + ""@ =~= field
                    + ".serialize(serializer) "@) by {
                    reveal_strlit("");
                }
                assert(map_of(**key, **value) == *format);
                Self::write_map_serialize_lambda(w, key, value, level);
                proof {
                    lemma_run_concat(
                        st,
                        txt(field + ".serialize(serializer) "@),
                        serialize_map_lambda_doc(*format, level as nat),
                    );
                }
            },
            Format::TypeName(..) | Format::TupleArray { .. } => {
                w.write3_line(field_name, ".serialize(serializer)", "");
                assert(field + ".serialize(serializer)"@ + ""@ =~= field
                    + ".serialize(serializer)"@) by {
                    reveal_strlit("");
                }
            },
            Format::Tuple(formats) => {
                Self::write_serialize_tuple(w, field_name, format, formats, level);
            },
            _ => {
                let suffix = native_method_suffix(format);
                w.write3("serializer.serialize_", suffix, "(");
                w.write3_line(field_name, ")", "");
                proof {
                    reveal_strlit("");
                    let a = "serializer.serialize_"@ + suffix@ + "("@;
                    let b = field + ")"@ + ""@;
                    assert(b =~= field + ")"@);
                    lemma_run_concat(st, txt(a), line(b));
                    crate::text::lemma_put_str_concat(st, a, b.push('\n'));
                    crate::text::lemma_run_one(st, Piece::Text(a));
                    crate::text::lemma_run_one(run(st, txt(a)), Piece::Text(b.push('\n')));
                    crate::text::lemma_run_one(st, Piece::Text(a + b.push('\n')));
                    assert(a + b.push('\n') =~= (a + b).push('\n'));
                    assert(a + b =~= "serializer.serialize_"@ + native_suffix(*format) + "("@
                        + field + ")"@);
                }
            },
        }
    }

    /// Writes the statements that serialize a tuple.
    fn write_serialize_tuple(
        w: &mut IndentedWriter,
        field_name: &str,
        format: &Format,
        formats: &Vec<Format>,
        level: usize,
    )
        requires
            *format == Format::Tuple(*formats),
            level + height(*format) < usize::MAX,
        ensures
            final(w)@ == run(old(w)@, serialize_doc(field_name@, *format, level as nat)),
        decreases format, 0nat,
    {
        let ghost st = w@;
        let ghost field = field_name@;
        let len = formats.len();
        proof {
            assert forall|j: int| 0 <= j < formats@.len() implies decreases_to!(
                *format => formats@[j]
            ) && level + height(formats@[j]) < usize::MAX by {
                assert(decreases_to!(*format => (*format)->Tuple_0));
                assert(decreases_to!(*formats => formats@));
                assert(decreases_to!(formats@ => formats@[j]));
                lemma_heights_bound(formats@, j);
            }
        }
        if len == 0 {
            w.write3_line("serializer.serialize_unit(", field_name, ")");
            proof {
                let a = "serializer.serialize_unit("@ + field + ")"@;
                assert(a =~= "serializer.serialize_"@ + "unit"@ + "("@ + field + ")"@) by {
                    reveal_strlit("serializer.serialize_unit(");
                    reveal_strlit("serializer.serialize_");
                    reveal_strlit("unit");
                    reveal_strlit("(");
                }
            }
        } else if len == 1 {
            Self::write_serialize(w, field_name, &formats[0], level);
        } else if len == 2 {
            let first = joined(field_name, ".first");
            let second = joined(field_name, ".second");
            Self::write_serialize(w, first.as_str(), &formats[0], level);
            Self::write_serialize(w, second.as_str(), &formats[1], level);
            proof {
                lemma_run_concat(
                    st,
                    serialize_doc(first@, formats@[0], level as nat),
                    serialize_doc(second@, formats@[1], level as nat),
                );
            }
        } else if len == 3 {
            let first = joined(field_name, ".first");
            let second = joined(field_name, ".second");
            let third = joined(field_name, ".third");
            Self::write_serialize(w, first.as_str(), &formats[0], level);
            Self::write_serialize(w, second.as_str(), &formats[1], level);
            Self::write_serialize(w, third.as_str(), &formats[2], level);
            proof {
                let d1 = serialize_doc(first@, formats@[0], level as nat);
                let d2 = serialize_doc(second@, formats@[1], level as nat);
                let d3 = serialize_doc(third@, formats@[2], level as nat);
                lemma_run_concat(st, d1, d2);
                lemma_run_concat(st, d1 + d2, d3);
            }
        } else {
            let mut i: usize = 0;
            proof {
                assert(formats@.take(0) =~= Seq::<Format>::empty());
                crate::text::lemma_run_empty(st);
            }
            while i < len
                invariant
                    len == formats@.len(),
                    0 <= i <= len,
                    field == field_name@,
                    forall|j: int|
                        0 <= j < formats@.len() ==> decreases_to!(*format => formats@[j])
                            && level + height(formats@[j]) < usize::MAX,
                    w@ == run(
                        st,
                        serialize_components_doc(field, formats@.take(i as int), level as nat),
                    ),
                decreases len - i,
            {
                let ghost before = serialize_components_doc(
                    field,
                    formats@.take(i as int),
                    level as nat,
                );
                let number = decimal_string((i + 1) as u64);
                let with_number = joined(joined(field_name, ".component").as_str(), number.as_str());
                let name = joined(with_number.as_str(), "()");
                Self::write_serialize(w, name.as_str(), &formats[i], level);
                proof {
                    let next = formats@.take(i + 1);
                    assert(next.drop_last() =~= formats@.take(i as int));
                    assert(next.last() == formats@[i as int]);
                    assert(next.len() == i + 1);
                    lemma_run_concat(
                        st,
                        before,
                        serialize_doc(name@, formats@[i as int], level as nat),
                    );
                }
                i = i + 1;
            }
            proof {
                assert(formats@.take(len as int) =~= formats@);
            }
        }
    }

    /// Writes the lambda that serializes an element of format `format`.
    pub fn write_serialize_lambda(w: &mut IndentedWriter, format: &Format, level: usize)
        requires
            level + 1 + height(*format) < usize::MAX,
        ensures
            final(w)@ == run(old(w)@, serialize_lambda_doc(*format, level as nat)),
        decreases format, 2nat,
    {
        let ghost st = w@;
        if format.is_leaf() {
            w.start_block();
            Self::write_serialize(w, "it", format, level + 1);
            w.end_block();
            proof {
                let a = open_block();
                let b = serialize_doc("it"@, *format, (level + 1) as nat);
                lemma_run_concat(st, a, b);
                lemma_run_concat(st, a + b, close_block());
            }
        } else {
            let number = decimal_string((level + 1) as u64);
            let param_name = joined("level", number.as_str());
            w.start_block_no_newline();
            w.write3(" ", param_name.as_str(), " ->\n");
            Self::write_serialize(w, param_name.as_str(), format, level + 1);
            w.end_block();
            proof {
                let a = open_block_inline();
                let b = txt(" "@ + level_name((level + 1) as nat) + " ->\n"@);
                let c = serialize_doc(level_name((level + 1) as nat), *format, (level + 1) as nat);
                lemma_run_concat(st, a, b);
                lemma_run_concat(st, a + b, c);
                lemma_run_concat(st, a + b + c, close_block());
            }
        }
    }

    /// Writes the lambda that serializes the entries of a map.
    pub fn write_map_serialize_lambda(
        w: &mut IndentedWriter,
        key_format: &Format,
        value_format: &Format,
        level: usize,
    )
        requires
            level + height(map_of(*key_format, *value_format)) < usize::MAX,
        ensures
            final(w)@ == run(
                old(w)@,
                serialize_map_lambda_doc(map_of(*key_format, *value_format), level as nat),
            ),
        decreases map_of(*key_format, *value_format), 0nat,
    {
        let ghost st = w@;
        let ghost map = map_of(*key_format, *value_format);
        proof {
            assert(decreases_to!(map => *map->MapOf_key));
            assert(decreases_to!(map => *map->MapOf_value));
        }
        w.start_block_no_newline();
        w.write_txt(" key, value ->\n");
        Self::write_serialize(w, "key", key_format, level + 1);
        Self::write_serialize(w, "value", value_format, level + 1);
        w.end_block();
        proof {
            let a = open_block_inline();
            let b = txt(" key, value ->\n"@);
            let c = serialize_doc("key"@, *key_format, (level + 1) as nat);
            let d = serialize_doc("value"@, *value_format, (level + 1) as nat);
            lemma_run_concat(st, a, b);
            lemma_run_concat(st, a + b, c);
            lemma_run_concat(st, a + b + c, d);
            lemma_run_concat(st, a + b + c + d, close_block());
        }
    }
}

} // verus!
