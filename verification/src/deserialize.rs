//! The Kotlin expressions that deserialize a value of a given format.
use vstd::prelude::*;

use crate::model::{is_leaf, is_native, map_of, qualified_name, Format};
use crate::serialize::{native_method_suffix, native_suffix};
use crate::text::{
    close_block, decimal, lemma_put_str_concat, lemma_run_concat, lemma_run_one, line,
    open_block, put_str, run, txt, IndentedWriter, Piece,
};
use crate::Kotlin;

verus! {

/// Formats that deserialize through a lambda: options, lists, sets, maps.
pub open spec fn is_collection(f: Format) -> bool {
    f is Optional || f is Sequence || f is SetOf || f is MapOf
}

/// The view of an optional name.
pub open spec fn name_view(name: Option<&str>) -> Option<Seq<char>> {
    match name {
        Some(s) => Some(s@),
        None => None,
    }
}

/// Deserializing a value of format `f`: with a name, as `val name = ...`
/// (a collection on the next line, one level deeper); then the expression;
/// then, where `newline` is set and `f` is neither a collection nor a tuple,
/// the end of the line.
pub open spec fn deserialize_doc(name: Option<Seq<char>>, f: Format, newline: bool) -> Seq<Piece>
    decreases f, 3nat,
{
    let head = match name {
        Some(n) => if is_collection(f) {
            txt("val "@ + n + " =\n"@) + seq![Piece::Indent]
        } else {
            txt("val "@ + n + " = "@)
        },
        None => Seq::empty(),
    };
    let end = if newline && !is_collection(f) && !(f is Tuple) {
        txt(seq!['\n'])
    } else {
        Seq::empty()
    };
    let dedent = if name is Some && is_collection(f) {
        seq![Piece::Unindent]
    } else {
        Seq::empty()
    };
    head + deserialize_expr_doc(f) + end + dedent
}

/// The expression that deserializes a value of format `f`.
pub open spec fn deserialize_expr_doc(f: Format) -> Seq<Piece>
    decreases f, 2nat,
{
    match f {
        Format::TypeName(q) => txt(qualified_name(q) + ".deserialize(deserializer)"@),
        Format::Sequence(g) => txt("deserializer.deserializeListOf "@) + deserialize_lambda_doc(*g),
        Format::Optional(g) => txt("deserializer.deserializeOptionOf "@) + deserialize_lambda_doc(
            *g,
        ),
        Format::SetOf(g) => txt("deserializer.deserializeSetOf "@) + deserialize_lambda_doc(*g),
        Format::MapOf { .. } => txt("deserializer.deserializeMapOf "@)
            + deserialize_map_lambda_doc(f),
        Format::Tuple(fs) => deserialize_tuple_doc(f),
        Format::TupleArray { content, size } => txt(
            "buildList("@ + decimal(size as nat) + ") { repeat("@ + decimal(size as nat)
                + ") { add("@,
        ) + deserialize_doc(None, *content, false) + txt(") } }"@),
        _ => txt("deserializer.deserialize_"@ + native_suffix(f) + "()"@),
    }
}

/// The expression that deserializes a tuple: a unit, the element inside the
/// container depth, or a `run` block that builds a `Pair`, a `Triple` or an
/// `NTupleN`.
pub open spec fn deserialize_tuple_doc(t: Format) -> Seq<Piece>
    decreases t, 1nat,
{
    match t {
        Format::Tuple(fs) => {
            if fs@.len() == 0 {
                txt("deserializer.deserialize_unit()"@)
            } else if fs@.len() == 1 {
                line("deserializer.increase_container_depth()"@) + deserialize_doc(
                    Some("value"@),
                    fs@[0],
                    true,
                ) + line("deserializer.decrease_container_depth()"@)
            } else if fs@.len() == 2 {
                txt("run "@) + open_block() + txt("val first = "@) + deserialize_doc(
                    None,
                    fs@[0],
                    true,
                ) + txt("val second = "@) + deserialize_doc(None, fs@[1], true) + line(
                    "Pair(first, second)"@,
                ) + close_block()
            } else if fs@.len() == 3 {
                txt("run "@) + open_block() + txt("val first = "@) + deserialize_doc(
                    None,
                    fs@[0],
                    true,
                ) + txt("val second = "@) + deserialize_doc(None, fs@[1], true) + txt(
                    "val third = "@,
                ) + deserialize_doc(None, fs@[2], true) + line("Triple(first, second, third)"@)
                    + close_block()
            } else {
                txt("run "@) + open_block() + deserialize_values_doc(fs@) + txt(
                    "NTuple"@ + decimal(fs@.len()) + "("@ + value_names(fs@.len()) + ")\n"@,
                ) + close_block()
            }
        },
        _ => Seq::empty(),
    }
}

/// `val v0 = ...`, `val v1 = ...`: the elements of a large tuple.
pub open spec fn deserialize_values_doc(fs: Seq<Format>) -> Seq<Piece>
    decreases fs, 1nat,
{
    if fs.len() == 0 {
        Seq::empty()
    } else {
        deserialize_values_doc(fs.drop_last()) + txt(
            "val v"@ + decimal((fs.len() - 1) as nat) + " = "@,
        ) + deserialize_doc(None, fs.last(), true)
    }
}

/// `v0, v1, ..., v(n-1)`.
pub open spec fn value_names(n: nat) -> Seq<char>
    decreases n,
{
    if n == 0 {
        Seq::empty()
    } else if n == 1 {
        "v"@ + decimal(0)
    } else {
        value_names((n - 1) as nat) + ", "@ + "v"@ + decimal((n - 1) as nat)
    }
}

/// The lambda that deserializes one element.
pub open spec fn deserialize_lambda_doc(g: Format) -> Seq<Piece>
    decreases g, 4nat,
{
    open_block() + deserialize_doc(None, g, true) + close_block()
}

/// `val key =` or `val value =` and the expression: a leaf on the same line,
/// anything else on the next lines, one level deeper.
pub open spec fn deserialize_entry_doc(label: Seq<char>, g: Format) -> Seq<Piece>
    decreases g, 4nat,
{
    if is_leaf(g) {
        txt("val "@ + label + " = "@) + deserialize_doc(None, g, true)
    } else {
        txt("val "@ + label + " =\n"@) + seq![Piece::Indent] + deserialize_doc(None, g, true)
            + seq![Piece::Unindent]
    }
}

/// The lambda that deserializes an entry of the map format `m`.
pub open spec fn deserialize_map_lambda_doc(m: Format) -> Seq<Piece>
    decreases m, 1nat,
{
    match m {
        Format::MapOf { key, value } => open_block() + deserialize_entry_doc("key"@, *key)
            + deserialize_entry_doc("value"@, *value) + line("Pair(key, value)"@) + close_block(),
        _ => Seq::empty(),
    }
}

/// `deserializer.increase_container_depth()` on a line.
pub open spec fn push_deserializer_doc() -> Seq<Piece> {
    line("deserializer.increase_container_depth()"@)
}

/// `deserializer.decrease_container_depth()` on a line.
pub open spec fn pop_deserializer_doc() -> Seq<Piece> {
    line("deserializer.decrease_container_depth()"@)
}

impl Kotlin {
    /// Writes `deserializer.increase_container_depth()`.
    pub fn push_deserializer(w: &mut IndentedWriter)
        ensures
            final(w)@ == run(old(w)@, push_deserializer_doc()),
    {
        w.write_line("deserializer.increase_container_depth()");
    }

    /// Writes `deserializer.decrease_container_depth()`.
    pub fn pop_deserializer(w: &mut IndentedWriter)
        ensures
            final(w)@ == run(old(w)@, pop_deserializer_doc()),
    {
        w.write_line("deserializer.decrease_container_depth()");
    }

    /// Writes the deserialization of a value of format `format`: bound to
    /// `field_name` where there is one, and ending the line where `newline`
    /// is set.
    pub fn write_deserialize(
        w: &mut IndentedWriter,
        field_name: Option<&str>,
        format: &Format,
        newline: bool,
    )
        ensures
            final(w)@ == run(old(w)@, deserialize_doc(name_view(field_name), *format, newline)),
        decreases format, 3nat,
    {
        let ghost st = w@;
        let collection = match format {
            Format::Sequence(..) | Format::Optional(..) | Format::SetOf(..) | Format::MapOf {
                ..
            } => true,
            _ => false,
        };
        let mut indented = false;
        let ghost head: Seq<Piece> = Seq::empty();
        if let Some(name) = field_name {
            if collection {
                w.write3("val ", name, " =\n");
                w.indent();
                indented = true;
                proof {
                    head = txt("val "@ + name@ + " =\n"@) + seq![Piece::Indent];
                    lemma_run_concat(st, txt("val "@ + name@ + " =\n"@), seq![Piece::Indent]);
                }
            } else {
                w.write3("val ", name, " = ");
                proof {
                    head = txt("val "@ + name@ + " = "@);
                }
            }
        }
        assert(w@ == run(st, head)) by {
            if field_name is None {
                crate::text::lemma_run_empty(st);
            }
        }
        Self::write_deserialize_expr(w, format);
        proof {
            lemma_run_concat(st, head, deserialize_expr_doc(*format));
        }
        let ghost body = head + deserialize_expr_doc(*format);
        let tuple = match format {
            Format::Tuple(..) => true,
            _ => false,
        };
        let ghost end: Seq<Piece> = Seq::empty();
        if newline && !collection && !tuple {
            w.end_line();
            proof {
                end = txt(seq!['\n']);
                lemma_run_concat(st, body, end);
            }
        }
        assert(w@ == run(st, body + end)) by {
            if !(newline && !collection && !tuple) {
                assert(body + end =~= body);
            }
        }
        let ghost dedent: Seq<Piece> = Seq::empty();
        if indented {
            w.unindent();
            proof {
                dedent = seq![Piece::Unindent];
                lemma_run_concat(st, body + end, dedent);
            }
        }
        assert(w@ == run(st, body + end + dedent)) by {
            if !indented {
                assert(body + end + dedent =~= body + end);
            }
        }
        assert(body + end + dedent == deserialize_doc(name_view(field_name), *format, newline));
    }

    /// Writes the expression that deserializes a value of format `format`.
    fn write_deserialize_expr(w: &mut IndentedWriter, format: &Format)
        ensures
            final(w)@ == run(old(w)@, deserialize_expr_doc(*format)),
        decreases format, 2nat,
    {
        let ghost st = w@;
        match format {
            Format::TypeName(q) => {
                Self::write_qualified_name(w, q);
                w.write_str(".deserialize(deserializer)");
                proof {
                    lemma_put_str_concat(st, qualified_name(*q), ".deserialize(deserializer)"@);
                    lemma_run_one(
                        st,
                        Piece::Text(qualified_name(*q) + ".deserialize(deserializer)"@),
                    );
                }
            },
            Format::Sequence(g) => {
                w.write_txt("deserializer.deserializeListOf ");
                Self::write_deserialize_lambda(w, g);
                proof {
                    lemma_run_concat(
                        st,
                        txt("deserializer.deserializeListOf "@),
                        deserialize_lambda_doc(**g),
                    );
                }
            },
            Format::Optional(g) => {
                w.write_txt("deserializer.deserializeOptionOf ");
                Self::write_deserialize_lambda(w, g);
                proof {
                    lemma_run_concat(
                        st,
                        txt("deserializer.deserializeOptionOf "@),
                        deserialize_lambda_doc(**g),
                    );
                }
            },
            Format::SetOf(g) => {
                w.write_txt("deserializer.deserializeSetOf ");
                Self::write_deserialize_lambda(w, g);
                proof {
                    lemma_run_concat(
                        st,
                        txt("deserializer.deserializeSetOf "@),
                        deserialize_lambda_doc(**g),
                    );
                }
            },
            Format::MapOf { key, value } => {
                w.write_txt("deserializer.deserializeMapOf ");
                assert(map_of(**key, **value) == *format);
                Self::write_map_deserialize_lambda(w, key, value);
                proof {
                    lemma_run_concat(
                        st,
                        txt("deserializer.deserializeMapOf "@),
                        deserialize_map_lambda_doc(*format),
                    );
                }
            },
            Format::Tuple(formats) => {
                Self::write_deserialize_tuple(w, format, formats);
            },
            Format::TupleArray { content, size } => {
                w.write_str("buildList(");
                w.write_decimal(*size as u64);
                w.write_str(") { repeat(");
                w.write_decimal(*size as u64);
                w.write_str(") { add(");
                proof {
                    let d = decimal(*size as nat);
                    lemma_put_str_concat(st, "buildList("@, d);
                    lemma_put_str_concat(st, "buildList("@ + d, ") { repeat("@);
                    lemma_put_str_concat(st, "buildList("@ + d + ") { repeat("@, d);
                    lemma_put_str_concat(st, "buildList("@ + d + ") { repeat("@ + d, ") { add("@);
                    lemma_run_one(
                        st,
                        Piece::Text("buildList("@ + d + ") { repeat("@ + d + ") { add("@),
                    );
                }
                let ghost a = txt(
                    "buildList("@ + decimal(*size as nat) + ") { repeat("@ + decimal(*size as nat)
                        + ") { add("@,
                );
                Self::write_deserialize(w, None, content, false);
                w.write_txt(") } }");
                proof {
                    let b = deserialize_doc(None, **content, false);
                    lemma_run_concat(st, a, b);
                    lemma_run_concat(st, a + b, txt(") } }"@));
                }
            },
            _ => {
                let suffix = native_method_suffix(format);
                w.write3("deserializer.deserialize_", suffix, "()");
            },
        }
    }

    /// Writes the deserialization of a tuple.
    fn write_deserialize_tuple(w: &mut IndentedWriter, format: &Format, formats: &Vec<Format>)
        requires
            *format == Format::Tuple(*formats),
        ensures
            final(w)@ == run(old(w)@, deserialize_tuple_doc(*format)),
        decreases format, 1nat,
    {
        let ghost st = w@;
        let len = formats.len();
        proof {
            assert forall|j: int| 0 <= j < formats@.len() implies decreases_to!(
                *format => formats@[j]
            ) by {
                assert(decreases_to!(*format => (*format)->Tuple_0));
                assert(decreases_to!(*formats => formats@));
                assert(decreases_to!(formats@ => formats@[j]));
            }
        }
        if len == 0 {
            w.write_txt("deserializer.deserialize_unit()");
        } else if len == 1 {
            Self::push_deserializer(w);
            Self::write_deserialize(w, Some("value"), &formats[0], true);
            Self::pop_deserializer(w);
            proof {
                let a = push_deserializer_doc();
                let b = deserialize_doc(Some("value"@), formats@[0], true);
                lemma_run_concat(st, a, b);
                lemma_run_concat(st, a + b, pop_deserializer_doc());
            }
        } else if len == 2 {
            w.write_txt("run ");
            w.start_block();
            w.write_txt("val first = ");
            Self::write_deserialize(w, None, &formats[0], true);
            w.write_txt("val second = ");
            Self::write_deserialize(w, None, &formats[1], true);
            w.write_line("Pair(first, second)");
            w.end_block();
            proof {
                let d0 = txt("run "@);
                let d1 = open_block();
                let d2 = txt("val first = "@);
                let d3 = deserialize_doc(None, formats@[0], true);
                let d4 = txt("val second = "@);
                let d5 = deserialize_doc(None, formats@[1], true);
                let d6 = line("Pair(first, second)"@);
                let d7 = close_block();
                lemma_run_concat(st, d0, d1);
                lemma_run_concat(st, d0 + d1, d2);
                lemma_run_concat(st, d0 + d1 + d2, d3);
                lemma_run_concat(st, d0 + d1 + d2 + d3, d4);
                lemma_run_concat(st, d0 + d1 + d2 + d3 + d4, d5);
                lemma_run_concat(st, d0 + d1 + d2 + d3 + d4 + d5, d6);
                lemma_run_concat(st, d0 + d1 + d2 + d3 + d4 + d5 + d6, d7);
            }
        } else if len == 3 {
            w.write_txt("run ");
            w.start_block();
            w.write_txt("val first = ");
            Self::write_deserialize(w, None, &formats[0], true);
            w.write_txt("val second = ");
            Self::write_deserialize(w, None, &formats[1], true);
            w.write_txt("val third = ");
            Self::write_deserialize(w, None, &formats[2], true);
            w.write_line("Triple(first, second, third)");
            w.end_block();
            proof {
                let d0 = txt("run "@);
                let d1 = open_block();
                let d2 = txt("val first = "@);
                let d3 = deserialize_doc(None, formats@[0], true);
                let d4 = txt("val second = "@);
                let d5 = deserialize_doc(None, formats@[1], true);
                let d6 = txt("val third = "@);
                let d7 = deserialize_doc(None, formats@[2], true);
                let d8 = line("Triple(first, second, third)"@);
                let d9 = close_block();
                lemma_run_concat(st, d0, d1);
                lemma_run_concat(st, d0 + d1, d2);
                lemma_run_concat(st, d0 + d1 + d2, d3);
                lemma_run_concat(st, d0 + d1 + d2 + d3, d4);
                lemma_run_concat(st, d0 + d1 + d2 + d3 + d4, d5);
                lemma_run_concat(st, d0 + d1 + d2 + d3 + d4 + d5, d6);
                lemma_run_concat(st, d0 + d1 + d2 + d3 + d4 + d5 + d6, d7);
                lemma_run_concat(st, d0 + d1 + d2 + d3 + d4 + d5 + d6 + d7, d8);
                lemma_run_concat(st, d0 + d1 + d2 + d3 + d4 + d5 + d6 + d7 + d8, d9);
            }
        } else {
            w.write_txt("run ");
            w.start_block();
            let ghost pre = txt("run "@) + open_block();
            proof {
                lemma_run_concat(st, txt("run "@), open_block());
                assert(formats@.take(0) =~= Seq::<Format>::empty());
                assert(pre + deserialize_values_doc(formats@.take(0)) =~= pre);
            }
            let mut i: usize = 0;
            while i < len
                invariant
                    len == formats@.len(),
                    0 <= i <= len,
                    forall|j: int| 0 <= j < formats@.len() ==> decreases_to!(*format => formats@[j]),
                    w@ == run(st, pre + deserialize_values_doc(formats@.take(i as int))),
                decreases len - i,
            {
                let ghost before = pre + deserialize_values_doc(formats@.take(i as int));
                w.write_str("val v");
                w.write_decimal(i as u64);
                w.write_str(" = ");
                let ghost label = "val v"@ + decimal(i as nat) + " = "@;
                proof {
                    let mid = run(st, before);
                    lemma_put_str_concat(mid, "val v"@, decimal(i as nat));
                    lemma_put_str_concat(mid, "val v"@ + decimal(i as nat), " = "@);
                    lemma_run_one(mid, Piece::Text(label));
                    lemma_run_concat(st, before, txt(label));
                }
                Self::write_deserialize(w, None, &formats[i], true);
                proof {
                    let next = formats@.take(i + 1);
                    assert(next.drop_last() =~= formats@.take(i as int));
                    assert(next.last() == formats@[i as int]);
                    assert(next.len() == i + 1);
                    lemma_run_concat(
                        st,
                        before + txt(label),
                        deserialize_doc(None, formats@[i as int], true),
                    );
                    assert(pre + deserialize_values_doc(next) =~= before + txt(label)
                        + deserialize_doc(None, formats@[i as int], true));
                }
                i = i + 1;
            }
            proof {
                assert(formats@.take(len as int) =~= formats@);
            }
            let ghost values = pre + deserialize_values_doc(formats@);
            Self::write_tuple_constructor(w, len);
            w.end_block();
            proof {
                let c = txt("NTuple"@ + decimal(len as nat) + "("@ + value_names(len as nat)
                    + ")\n"@);
                lemma_run_concat(st, values, c);
                lemma_run_concat(st, values + c, close_block());
            }
        }
    }

    /// Writes `NTupleN(v0, v1, ...)` and ends the line.
    fn write_tuple_constructor(w: &mut IndentedWriter, len: usize)
        requires
            len >= 1,
        ensures
            final(w)@ == run(
                old(w)@,
                txt("NTuple"@ + decimal(len as nat) + "("@ + value_names(len as nat) + ")\n"@),
            ),
    {
        let ghost st = w@;
        w.write_str("NTuple");
        w.write_decimal(len as u64);
        w.write_str("(");
        let ghost pre = "NTuple"@ + decimal(len as nat) + "("@;
        proof {
            lemma_put_str_concat(st, "NTuple"@, decimal(len as nat));
            lemma_put_str_concat(st, "NTuple"@ + decimal(len as nat), "("@);
            assert(pre + value_names(0) =~= pre);
        }
        let mut i: usize = 0;
        while i < len
            invariant
                0 <= i <= len,
                w@ == put_str(st, pre + value_names(i as nat)),
            decreases len - i,
        {
            let ghost before = pre + value_names(i as nat);
            if i > 0 {
                w.write_str(", ");
            }
            w.write_str("v");
            w.write_decimal(i as u64);
            proof {
                if i > 0 {
                    lemma_put_str_concat(st, before, ", "@);
                    lemma_put_str_concat(st, before + ", "@, "v"@);
                    lemma_put_str_concat(st, before + ", "@ + "v"@, decimal(i as nat));
                    assert(pre + value_names((i + 1) as nat) =~= before + ", "@ + "v"@ + decimal(
                        i as nat,
                    ));
                } else {
                    lemma_put_str_concat(st, before, "v"@);
                    lemma_put_str_concat(st, before + "v"@, decimal(i as nat));
                    assert(pre + value_names((i + 1) as nat) =~= before + "v"@ + decimal(
                        i as nat,
                    ));
                }
            }
            i = i + 1;
        }
        w.write_str(")\n");
        proof {
            lemma_put_str_concat(st, pre + value_names(len as nat), ")\n"@);
            lemma_run_one(st, Piece::Text(pre + value_names(len as nat) + ")\n"@));
        }
    }

    /// Writes the lambda that deserializes one element.
    pub fn write_deserialize_lambda(w: &mut IndentedWriter, format: &Format)
        ensures
            final(w)@ == run(old(w)@, deserialize_lambda_doc(*format)),
        decreases format, 4nat,
    {
        let ghost st = w@;
        w.start_block();
        Self::write_deserialize(w, None, format, true);
        w.end_block();
        proof {
            let a = open_block();
            let b = deserialize_doc(None, *format, true);
            lemma_run_concat(st, a, b);
            lemma_run_concat(st, a + b, close_block());
        }
    }

    /// Writes `val key =` or `val value =` and the deserialization.
    fn write_map_entry(w: &mut IndentedWriter, label: &str, format: &Format, Ghost(map): Ghost<Format>)
        requires
            decreases_to!(map => *format),
        ensures
            final(w)@ == run(old(w)@, deserialize_entry_doc(label@, *format)),
        decreases map, 0nat,
    {
        let ghost st = w@;
        if format.is_leaf() {
            w.write3("val ", label, " = ");
            Self::write_deserialize(w, None, format, true);
            proof {
                lemma_run_concat(
                    st,
                    txt("val "@ + label@ + " = "@),
                    deserialize_doc(None, *format, true),
                );
            }
        } else {
            w.write3("val ", label, " =\n");
            w.indent();
            Self::write_deserialize(w, None, format, true);
            w.unindent();
            proof {
                let a = txt("val "@ + label@ + " =\n"@);
                let b = seq![Piece::Indent];
                let c = deserialize_doc(None, *format, true);
                lemma_run_concat(st, a, b);
                lemma_run_concat(st, a + b, c);
                lemma_run_concat(st, a + b + c, seq![Piece::Unindent]);
            }
        }
    }

    /// Writes the lambda that deserializes an entry of a map.
    pub fn write_map_deserialize_lambda(
        w: &mut IndentedWriter,
        key_format: &Format,
        value_format: &Format,
    )
        ensures
            final(w)@ == run(old(w)@, deserialize_map_lambda_doc(map_of(*key_format, *value_format))),
        decreases map_of(*key_format, *value_format), 1nat,
    {
        let ghost st = w@;
        let ghost map = map_of(*key_format, *value_format);
        proof {
            assert(decreases_to!(map => *map->MapOf_key));
            assert(decreases_to!(map => *map->MapOf_value));
        }
        w.start_block();
        Self::write_map_entry(w, "key", key_format, Ghost(map));
        Self::write_map_entry(w, "value", value_format, Ghost(map));
        w.write_line("Pair(key, value)");
        w.end_block();
        proof {
            let a = open_block();
            let b = deserialize_entry_doc("key"@, *key_format);
            let c = deserialize_entry_doc("value"@, *value_format);
            let d = line("Pair(key, value)"@);
            lemma_run_concat(st, a, b);
            lemma_run_concat(st, a + b, c);
            lemma_run_concat(st, a + b + c, d);
            lemma_run_concat(st, a + b + c + d, close_block());
        }
    }
}

} // verus!
