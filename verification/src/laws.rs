//! What holds of every document the emitters write: text is only added,
//! what is added does not depend on the text before it, every emitter leaves
//! the indentation as it found it, and every declaration ends its last line.
use vstd::prelude::*;

use crate::deserialize::{
    deserialize_doc, deserialize_entry_doc, deserialize_expr_doc, deserialize_lambda_doc,
    deserialize_map_lambda_doc, deserialize_tuple_doc, deserialize_values_doc, is_collection,
    value_names,
};
use crate::classes::{
    bincode_deserialize_doc, bincode_serialize_doc, camel_names, class_companion_doc,
    class_header_doc, comments_view, named_model,
    class_serialize_doc,
    data_class_doc, data_object_doc, deserialize_body_doc, doc_comments_doc, field_decl_doc,
    field_decls_doc, field_deserializers_doc, field_serializers_doc, interface_doc,
    json_annotations_doc, name_list, newline_doc, null_default, override_doc,
    serialize_body_doc, top_deserialize_doc, top_serialize_doc, variant_index_doc, FieldModel,
};
use crate::deserialize::{pop_deserializer_doc, push_deserializer_doc};
use crate::containers::{
    all_unit, container_doc, enum_arms_doc, enum_bincode_doc, enum_class_doc, enum_entries_doc,
    enum_entry_text, sealed_arms_doc, sealed_companion_doc, sealed_head_doc, sealed_interface_doc,
    sealed_variant_doc, sealed_variants_doc, serial_name_doc, tuple_fields, unknown_variant_doc,
    upper_names, value_field, variant_fields,
};
use crate::header::{
    encoding_imports, feature_imports, features_imports, module_imports, serde_package,
    CodeGeneratorConfig, ExternalPackage, Feature, PackageLocation,
};
use crate::kotlin_type::kotlin_type;
use crate::variants::{variant_list, variant_values};
use crate::order::{lemma_sort_dedup, lemma_sorted_same_set_equal, sort_dedup, strictly_sorted};
use crate::model::{ContainerFormat, Encoding, Format, Named, QualifiedTypeName, VariantFormat};
use crate::serialize::{pop_serializer_doc, push_serializer_doc};
use crate::serialize::{
    level_name, native_suffix, serialize_components_doc, serialize_doc, serialize_lambda_doc,
    serialize_map_lambda_doc,
};
use crate::text::{
    close_block, decimal, dedent, empty_state, indent_unit, lemma_put_str_extends, lemma_run_concat,
    lemma_run_empty, lemma_run_one, line, open_block, open_block_inline, put_str, run, txt,
    Piece, WriterState,
};

verus! {

/// Running `d` leaves the indentation as it was, from any state.
pub open spec fn keeps_indent(d: Seq<Piece>) -> bool {
    forall|st: WriterState| #[trigger] run(st, d).indent == st.indent
}

/// Running `d` adds one level of indentation, from any state.
pub open spec fn opens_level(d: Seq<Piece>) -> bool {
    forall|st: WriterState| #[trigger] run(st, d).indent == st.indent + indent_unit()
}

/// Running `d` removes one level of indentation, from any state.
pub open spec fn closes_level(d: Seq<Piece>) -> bool {
    forall|st: WriterState| #[trigger] run(st, d).indent == dedent(st.indent)
}

/// Running `d` ends at the start of a line, from any state.
pub open spec fn ends_line(d: Seq<Piece>) -> bool {
    forall|st: WriterState| #[trigger] run(st, d).at_line_start
}

/// A state with the indentation and line position of `st`, and no text.
pub open spec fn blank_like(st: WriterState) -> WriterState {
    WriterState { text: Seq::empty(), indent: st.indent, at_line_start: st.at_line_start }
}

/// Writing a string from a state adds to its text what the same string adds
/// to no text with the same indentation and line position.
proof fn lemma_put_str_text(st: WriterState, s: Seq<char>)
    ensures
        put_str(st, s).text == st.text + put_str(blank_like(st), s).text,
        put_str(st, s).indent == put_str(blank_like(st), s).indent,
        put_str(st, s).at_line_start == put_str(blank_like(st), s).at_line_start,
    decreases s.len(),
{
    if s.len() == 0 {
        assert(st.text + Seq::<char>::empty() =~= st.text);
    } else {
        lemma_put_str_text(st, s.drop_last());
        let a = put_str(st, s.drop_last());
        let b = put_str(blank_like(st), s.drop_last());
        let c = s.last();
        if c == '\n' {
            assert(a.text.push('\n') =~= st.text + b.text.push('\n'));
        } else if a.at_line_start {
            assert((a.text + a.indent).push(c) =~= st.text + (b.text + b.indent).push(c));
        } else {
            assert(a.text.push(c) =~= st.text + b.text.push(c));
        }
    }
}

/// Law: what a document writes does not depend on the text written before
/// it, only on the indentation and whether a line has begun.
pub proof fn law_output_independent_of_prior_text(st: WriterState, d: Seq<Piece>)
    ensures
        run(st, d).text == st.text + run(blank_like(st), d).text,
        run(st, d).indent == run(blank_like(st), d).indent,
        run(st, d).at_line_start == run(blank_like(st), d).at_line_start,
    decreases d.len(),
{
    reveal(run);
    if d.len() == 0 {
        assert(st.text + Seq::<char>::empty() =~= st.text);
    } else {
        law_output_independent_of_prior_text(st, d.drop_last());
        let a = run(st, d.drop_last());
        let b = run(blank_like(st), d.drop_last());
        match d.last() {
            Piece::Text(s) => {
                lemma_put_str_text(a, s);
                lemma_put_str_text(b, s);
                assert(blank_like(a) == blank_like(b));
                assert(st.text + (b.text + put_str(blank_like(b), s).text) =~= (st.text + b.text)
                    + put_str(blank_like(b), s).text);
            },
            _ => {},
        }
    }
}

/// Law: running a document only adds text: what was written stays.
pub proof fn law_output_only_grows(st: WriterState, d: Seq<Piece>)
    ensures
        st.text.is_prefix_of(run(st, d).text),
{
    law_output_independent_of_prior_text(st, d);
    let r = run(blank_like(st), d).text;
    assert((st.text + r).take(st.text.len() as int) =~= st.text);
}

pub(crate) proof fn lemma_keeps_empty()
    ensures
        keeps_indent(Seq::empty()),
{
    assert forall|st: WriterState| #[trigger] run(st, Seq::empty()).indent == st.indent by {
        lemma_run_empty(st);
    }
}

pub(crate) proof fn lemma_keeps_txt(s: Seq<char>)
    ensures
        keeps_indent(txt(s)),
{
    assert forall|st: WriterState| #[trigger] run(st, txt(s)).indent == st.indent by {
        lemma_run_one(st, Piece::Text(s));
        lemma_put_str_extends(st, s);
    }
}

pub(crate) proof fn lemma_keeps_concat(a: Seq<Piece>, b: Seq<Piece>)
    requires
        keeps_indent(a),
        keeps_indent(b),
    ensures
        keeps_indent(a + b),
{
    assert forall|st: WriterState| #[trigger] run(st, a + b).indent == st.indent by {
        lemma_run_concat(st, a, b);
        assert(run(run(st, a), b).indent == run(st, a).indent);
        assert(run(st, a).indent == st.indent);
    }
}

pub(crate) proof fn lemma_keeps_concat3(a: Seq<Piece>, b: Seq<Piece>, c: Seq<Piece>)
    requires
        keeps_indent(a),
        keeps_indent(b),
        keeps_indent(c),
    ensures
        keeps_indent(a + b + c),
{
    lemma_keeps_concat(a, b);
    lemma_keeps_concat(a + b, c);
}

proof fn lemma_opens_indent_after(a: Seq<Piece>)
    requires
        keeps_indent(a),
    ensures
        opens_level(a + seq![Piece::Indent]),
{
    assert forall|st: WriterState| #[trigger] run(st, a + seq![Piece::Indent]).indent == st.indent
        + indent_unit() by {
        lemma_run_concat(st, a, seq![Piece::Indent]);
        lemma_run_one(run(st, a), Piece::Indent);
    }
}

proof fn lemma_closes_unindent_before(b: Seq<Piece>)
    requires
        keeps_indent(b),
    ensures
        closes_level(seq![Piece::Unindent] + b),
{
    assert forall|st: WriterState| #[trigger] run(st, seq![Piece::Unindent] + b).indent == dedent(
        st.indent,
    ) by {
        lemma_run_concat(st, seq![Piece::Unindent], b);
        lemma_run_one(st, Piece::Unindent);
    }
}

/// Opening and closing blocks.
pub(crate) proof fn lemma_blocks()
    ensures
        opens_level(open_block()),
        opens_level(open_block_inline()),
        opens_level(seq![Piece::Indent]),
        closes_level(close_block()),
        closes_level(seq![Piece::Unindent]),
{
    lemma_keeps_txt(seq!['{', '\n']);
    lemma_opens_indent_after(txt(seq!['{', '\n']));
    assert(txt(seq!['{', '\n']) + seq![Piece::Indent] =~= open_block());
    lemma_keeps_txt(seq!['{']);
    lemma_opens_indent_after(txt(seq!['{']));
    assert(txt(seq!['{']) + seq![Piece::Indent] =~= open_block_inline());
    lemma_keeps_empty();
    lemma_opens_indent_after(Seq::empty());
    assert(Seq::<Piece>::empty() + seq![Piece::Indent] =~= seq![Piece::Indent]);
    lemma_keeps_txt(seq!['}', '\n']);
    lemma_closes_unindent_before(txt(seq!['}', '\n']));
    assert(seq![Piece::Unindent] + txt(seq!['}', '\n']) =~= close_block());
    lemma_closes_unindent_before(Seq::empty());
    assert(seq![Piece::Unindent] + Seq::<Piece>::empty() =~= seq![Piece::Unindent]);
}

/// A level opened, a balanced document, the level closed: balanced.
pub(crate) proof fn lemma_keeps_wrapped(a: Seq<Piece>, x: Seq<Piece>, b: Seq<Piece>)
    requires
        opens_level(a),
        keeps_indent(x),
        closes_level(b),
    ensures
        keeps_indent(a + x + b),
{
    assert forall|st: WriterState| #[trigger] run(st, a + x + b).indent == st.indent by {
        lemma_run_concat(st, a, x);
        lemma_run_concat(st, a + x, b);
        let i = st.indent + indent_unit();
        assert(run(st, a).indent == i);
        assert(run(run(st, a), x).indent == i);
        assert(dedent(i) =~= st.indent);
    }
}

/// Every serialization document is balanced.
pub(crate) proof fn lemma_serialize_keeps(field: Seq<char>, f: Format, level: nat)
    ensures
        keeps_indent(serialize_doc(field, f, level)),
    decreases f, 1nat,
{
    lemma_blocks();
    match f {
        Format::Optional(g) => {
            lemma_keeps_txt(field + ".serializeOptionOf(serializer) "@);
            lemma_serialize_lambda_keeps(*g, level);
            lemma_keeps_concat(
                txt(field + ".serializeOptionOf(serializer) "@),
                serialize_lambda_doc(*g, level),
            );
        },
        Format::Sequence(g) => {
            lemma_keeps_txt(field + ".serialize(serializer) "@);
            lemma_serialize_lambda_keeps(*g, level);
            lemma_keeps_concat(txt(field + ".serialize(serializer) "@), serialize_lambda_doc(*g, level));
        },
        Format::SetOf(g) => {
            lemma_keeps_txt(field + ".serialize(serializer) "@);
            lemma_serialize_lambda_keeps(*g, level);
            lemma_keeps_concat(txt(field + ".serialize(serializer) "@), serialize_lambda_doc(*g, level));
        },
        Format::MapOf { .. } => {
            lemma_keeps_txt(field + ".serialize(serializer) "@);
            lemma_serialize_map_lambda_keeps(f, level);
            lemma_keeps_concat(
                txt(field + ".serialize(serializer) "@),
                serialize_map_lambda_doc(f, level),
            );
        },
        Format::Tuple(fs) => {
            if fs@.len() == 0 {
                lemma_keeps_txt(("serializer.serialize_"@ + "unit"@ + "("@ + field + ")"@).push('\n'));
            } else if fs@.len() == 1 {
                lemma_serialize_keeps(field, fs@[0], level);
            } else if fs@.len() == 2 {
                lemma_serialize_keeps(field + ".first"@, fs@[0], level);
                lemma_serialize_keeps(field + ".second"@, fs@[1], level);
                lemma_keeps_concat(
                    serialize_doc(field + ".first"@, fs@[0], level),
                    serialize_doc(field + ".second"@, fs@[1], level),
                );
            } else if fs@.len() == 3 {
                lemma_serialize_keeps(field + ".first"@, fs@[0], level);
                lemma_serialize_keeps(field + ".second"@, fs@[1], level);
                lemma_serialize_keeps(field + ".third"@, fs@[2], level);
                lemma_keeps_concat3(
                    serialize_doc(field + ".first"@, fs@[0], level),
                    serialize_doc(field + ".second"@, fs@[1], level),
                    serialize_doc(field + ".third"@, fs@[2], level),
                );
            } else {
                lemma_serialize_components_keeps(field, fs@, level);
            }
        },
        Format::TypeName(_) => {
            lemma_keeps_txt((field + ".serialize(serializer)"@).push('\n'));
        },
        Format::TupleArray { .. } => {
            lemma_keeps_txt((field + ".serialize(serializer)"@).push('\n'));
        },
        _ => {
            lemma_keeps_txt(
                ("serializer.serialize_"@ + native_suffix(f) + "("@ + field + ")"@).push('\n'),
            );
        },
    }
}

proof fn lemma_serialize_components_keeps(field: Seq<char>, fs: Seq<Format>, level: nat)
    ensures
        keeps_indent(serialize_components_doc(field, fs, level)),
    decreases fs, 0nat,
{
    if fs.len() == 0 {
        lemma_keeps_empty();
    } else {
        lemma_serialize_components_keeps(field, fs.drop_last(), level);
        let name = field + ".component"@ + decimal(fs.len()) + "()"@;
        lemma_serialize_keeps(name, fs.last(), level);
        lemma_keeps_concat(
            serialize_components_doc(field, fs.drop_last(), level),
            serialize_doc(name, fs.last(), level),
        );
    }
}

proof fn lemma_serialize_lambda_keeps(g: Format, level: nat)
    ensures
        keeps_indent(serialize_lambda_doc(g, level)),
    decreases g, 2nat,
{
    lemma_blocks();
    if crate::model::is_leaf(g) {
        lemma_serialize_keeps("it"@, g, level + 1);
        lemma_keeps_wrapped(open_block(), serialize_doc("it"@, g, level + 1), close_block());
    } else {
        let name = level_name(level + 1);
        let t = txt(" "@ + name + " ->\n"@);
        lemma_keeps_txt(" "@ + name + " ->\n"@);
        lemma_serialize_keeps(name, g, level + 1);
        lemma_keeps_concat(t, serialize_doc(name, g, level + 1));
        lemma_keeps_wrapped(open_block_inline(), t + serialize_doc(name, g, level + 1), close_block());
        assert(open_block_inline() + (t + serialize_doc(name, g, level + 1)) + close_block()
            =~= serialize_lambda_doc(g, level));
    }
}

proof fn lemma_serialize_map_lambda_keeps(m: Format, level: nat)
    ensures
        keeps_indent(serialize_map_lambda_doc(m, level)),
    decreases m, 0nat,
{
    lemma_blocks();
    match m {
        Format::MapOf { key, value } => {
            let t = txt(" key, value ->\n"@);
            let k = serialize_doc("key"@, *key, level + 1);
            let v = serialize_doc("value"@, *value, level + 1);
            lemma_keeps_txt(" key, value ->\n"@);
            lemma_serialize_keeps("key"@, *key, level + 1);
            lemma_serialize_keeps("value"@, *value, level + 1);
            lemma_keeps_concat3(t, k, v);
            lemma_keeps_wrapped(open_block_inline(), t + k + v, close_block());
            assert(open_block_inline() + (t + k + v) + close_block() =~= serialize_map_lambda_doc(
                m,
                level,
            ));
        },
        _ => {
            lemma_keeps_empty();
        },
    }
}

/// Every deserialization document is balanced.
pub(crate) proof fn lemma_deserialize_keeps(name: Option<Seq<char>>, f: Format, newline: bool)
    ensures
        keeps_indent(deserialize_doc(name, f, newline)),
    decreases f, 3nat,
{
    lemma_blocks();
    lemma_deserialize_expr_keeps(f);
    let e = deserialize_expr_doc(f);
    let end = if newline && !is_collection(f) && !(f is Tuple) {
        txt(seq!['\n'])
    } else {
        Seq::empty()
    };
    lemma_keeps_txt(seq!['\n']);
    lemma_keeps_empty();
    lemma_keeps_concat(e, end);
    match name {
        Some(n) => {
            if is_collection(f) {
                let h = txt("val "@ + n + " =\n"@);
                lemma_keeps_txt("val "@ + n + " =\n"@);
                lemma_opens_indent_after(h);
                lemma_keeps_wrapped(h + seq![Piece::Indent], e + end, seq![Piece::Unindent]);
                assert(h + seq![Piece::Indent] + (e + end) + seq![Piece::Unindent]
                    =~= deserialize_doc(name, f, newline));
            } else {
                let h = txt("val "@ + n + " = "@);
                lemma_keeps_txt("val "@ + n + " = "@);
                lemma_keeps_concat(h, e + end);
                assert(h + (e + end) =~= deserialize_doc(name, f, newline));
            }
        },
        None => {
            assert(e + end =~= deserialize_doc(name, f, newline));
        },
    }
}

proof fn lemma_deserialize_expr_keeps(f: Format)
    ensures
        keeps_indent(deserialize_expr_doc(f)),
    decreases f, 2nat,
{
    match f {
        Format::TypeName(q) => {
            lemma_keeps_txt(crate::model::qualified_name(q) + ".deserialize(deserializer)"@);
        },
        Format::Sequence(g) => {
            lemma_keeps_txt("deserializer.deserializeListOf "@);
            lemma_deserialize_lambda_keeps(*g);
            lemma_keeps_concat(txt("deserializer.deserializeListOf "@), deserialize_lambda_doc(*g));
        },
        Format::Optional(g) => {
            lemma_keeps_txt("deserializer.deserializeOptionOf "@);
            lemma_deserialize_lambda_keeps(*g);
            lemma_keeps_concat(txt("deserializer.deserializeOptionOf "@), deserialize_lambda_doc(*g));
        },
        Format::SetOf(g) => {
            lemma_keeps_txt("deserializer.deserializeSetOf "@);
            lemma_deserialize_lambda_keeps(*g);
            lemma_keeps_concat(txt("deserializer.deserializeSetOf "@), deserialize_lambda_doc(*g));
        },
        Format::MapOf { .. } => {
            lemma_keeps_txt("deserializer.deserializeMapOf "@);
            lemma_deserialize_map_lambda_keeps(f);
            lemma_keeps_concat(txt("deserializer.deserializeMapOf "@), deserialize_map_lambda_doc(f));
        },
        Format::Tuple(_) => {
            lemma_deserialize_tuple_keeps(f);
        },
        Format::TupleArray { content, size } => {
            let a = "buildList("@ + decimal(size as nat) + ") { repeat("@ + decimal(size as nat)
                + ") { add("@;
            lemma_keeps_txt(a);
            lemma_deserialize_keeps(None, *content, false);
            lemma_keeps_txt(") } }"@);
            lemma_keeps_concat3(txt(a), deserialize_doc(None, *content, false), txt(") } }"@));
        },
        _ => {
            lemma_keeps_txt("deserializer.deserialize_"@ + native_suffix(f) + "()"@);
        },
    }
}

/// A `run` block around a balanced document is balanced.
proof fn lemma_run_block_keeps(x: Seq<Piece>)
    requires
        keeps_indent(x),
    ensures
        keeps_indent(txt("run "@) + open_block() + x + close_block()),
{
    lemma_blocks();
    lemma_keeps_txt("run "@);
    lemma_keeps_txt(seq!['{', '\n']);
    lemma_keeps_concat(txt("run "@), txt(seq!['{', '\n']));
    lemma_opens_indent_after(txt("run "@) + txt(seq!['{', '\n']));
    assert(txt("run "@) + open_block() =~= txt("run "@) + txt(seq!['{', '\n']) + seq![
        Piece::Indent,
    ]);
    lemma_keeps_wrapped(txt("run "@) + open_block(), x, close_block());
}

proof fn lemma_deserialize_tuple_keeps(t: Format)
    ensures
        keeps_indent(deserialize_tuple_doc(t)),
    decreases t, 1nat,
{
    lemma_blocks();
    match t {
        Format::Tuple(fs) => {
            if fs@.len() == 0 {
                lemma_keeps_txt("deserializer.deserialize_unit()"@);
            } else if fs@.len() == 1 {
                let a = line("deserializer.increase_container_depth()"@);
                let b = deserialize_doc(Some("value"@), fs@[0], true);
                let c = line("deserializer.decrease_container_depth()"@);
                lemma_keeps_txt("deserializer.increase_container_depth()"@.push('\n'));
                lemma_deserialize_keeps(Some("value"@), fs@[0], true);
                lemma_keeps_txt("deserializer.decrease_container_depth()"@.push('\n'));
                lemma_keeps_concat3(a, b, c);
            } else if fs@.len() == 2 {
                let a = txt("val first = "@);
                let b = deserialize_doc(None, fs@[0], true);
                let c = txt("val second = "@);
                let d = deserialize_doc(None, fs@[1], true);
                let e = line("Pair(first, second)"@);
                lemma_keeps_txt("val first = "@);
                lemma_keeps_txt("val second = "@);
                lemma_keeps_txt("Pair(first, second)"@.push('\n'));
                lemma_deserialize_keeps(None, fs@[0], true);
                lemma_deserialize_keeps(None, fs@[1], true);
                lemma_keeps_concat3(a, b, c);
                lemma_keeps_concat3(a + b + c, d, e);
                lemma_run_block_keeps(a + b + c + d + e);
                assert(txt("run "@) + open_block() + (a + b + c + d + e) + close_block()
                    =~= deserialize_tuple_doc(t));
            } else if fs@.len() == 3 {
                let a = txt("val first = "@);
                let b = deserialize_doc(None, fs@[0], true);
                let c = txt("val second = "@);
                let d = deserialize_doc(None, fs@[1], true);
                let e = txt("val third = "@);
                let g = deserialize_doc(None, fs@[2], true);
                let h = line("Triple(first, second, third)"@);
                lemma_keeps_txt("val first = "@);
                lemma_keeps_txt("val second = "@);
                lemma_keeps_txt("val third = "@);
                lemma_keeps_txt("Triple(first, second, third)"@.push('\n'));
                lemma_deserialize_keeps(None, fs@[0], true);
                lemma_deserialize_keeps(None, fs@[1], true);
                lemma_deserialize_keeps(None, fs@[2], true);
                lemma_keeps_concat3(a, b, c);
                lemma_keeps_concat3(a + b + c, d, e);
                lemma_keeps_concat3(a + b + c + d + e, g, h);
                lemma_run_block_keeps(a + b + c + d + e + g + h);
                assert(txt("run "@) + open_block() + (a + b + c + d + e + g + h) + close_block()
                    =~= deserialize_tuple_doc(t));
            } else {
                let v = deserialize_values_doc(fs@);
                let c = txt(
                    "NTuple"@ + decimal(fs@.len()) + "("@ + value_names(fs@.len()) + ")\n"@,
                );
                lemma_deserialize_values_keeps(fs@);
                lemma_keeps_txt(
                    "NTuple"@ + decimal(fs@.len()) + "("@ + value_names(fs@.len()) + ")\n"@,
                );
                lemma_keeps_concat(v, c);
                lemma_run_block_keeps(v + c);
                assert(txt("run "@) + open_block() + (v + c) + close_block()
                    =~= deserialize_tuple_doc(t));
            }
        },
        _ => {
            lemma_keeps_empty();
        },
    }
}

proof fn lemma_deserialize_values_keeps(fs: Seq<Format>)
    ensures
        keeps_indent(deserialize_values_doc(fs)),
    decreases fs, 1nat,
{
    if fs.len() == 0 {
        lemma_keeps_empty();
    } else {
        lemma_deserialize_values_keeps(fs.drop_last());
        let l = "val v"@ + decimal((fs.len() - 1) as nat) + " = "@;
        lemma_keeps_txt(l);
        lemma_deserialize_keeps(None, fs.last(), true);
        lemma_keeps_concat3(
            deserialize_values_doc(fs.drop_last()),
            txt(l),
            deserialize_doc(None, fs.last(), true),
        );
    }
}

proof fn lemma_deserialize_lambda_keeps(g: Format)
    ensures
        keeps_indent(deserialize_lambda_doc(g)),
    decreases g, 4nat,
{
    lemma_blocks();
    lemma_deserialize_keeps(None, g, true);
    lemma_keeps_wrapped(open_block(), deserialize_doc(None, g, true), close_block());
}

proof fn lemma_deserialize_entry_keeps(label: Seq<char>, g: Format)
    ensures
        keeps_indent(deserialize_entry_doc(label, g)),
    decreases g, 4nat,
{
    lemma_blocks();
    lemma_deserialize_keeps(None, g, true);
    if crate::model::is_leaf(g) {
        lemma_keeps_txt("val "@ + label + " = "@);
        lemma_keeps_concat(txt("val "@ + label + " = "@), deserialize_doc(None, g, true));
    } else {
        let h = txt("val "@ + label + " =\n"@);
        lemma_keeps_txt("val "@ + label + " =\n"@);
        lemma_opens_indent_after(h);
        lemma_keeps_wrapped(h + seq![Piece::Indent], deserialize_doc(None, g, true), seq![
            Piece::Unindent,
        ]);
    }
}

proof fn lemma_deserialize_map_lambda_keeps(m: Format)
    ensures
        keeps_indent(deserialize_map_lambda_doc(m)),
    decreases m, 1nat,
{
    lemma_blocks();
    match m {
        Format::MapOf { key, value } => {
            let k = deserialize_entry_doc("key"@, *key);
            let v = deserialize_entry_doc("value"@, *value);
            let p = line("Pair(key, value)"@);
            lemma_deserialize_entry_keeps("key"@, *key);
            lemma_deserialize_entry_keeps("value"@, *value);
            lemma_keeps_txt("Pair(key, value)"@.push('\n'));
            lemma_keeps_concat3(k, v, p);
            lemma_keeps_wrapped(open_block(), k + v + p, close_block());
            assert(open_block() + (k + v + p) + close_block() =~= deserialize_map_lambda_doc(m));
        },
        _ => {
            lemma_keeps_empty();
        },
    }
}

/// Law: the statements that serialize a value, and the expression that
/// deserializes it, leave the indentation as they found it.
pub proof fn law_field_code_balanced(
    field: Seq<char>,
    f: Format,
    level: nat,
    name: Option<Seq<char>>,
    newline: bool,
    st: WriterState,
)
    ensures
        run(st, serialize_doc(field, f, level)).indent == st.indent,
        run(st, deserialize_doc(name, f, newline)).indent == st.indent,
{
    lemma_serialize_keeps(field, f, level);
    lemma_deserialize_keeps(name, f, newline);
}

/// `n` spaces.
pub open spec fn spaces(n: nat) -> Seq<char> {
    Seq::new(n, |i: int| ' ')
}

/// Running `d` adds `k` levels of indentation, from any state.
pub open spec fn shifts(d: Seq<Piece>, k: nat) -> bool {
    forall|st: WriterState| #[trigger] run(st, d).indent == st.indent + spaces(4 * k)
}

proof fn lemma_keeps_shifts(d: Seq<Piece>)
    requires
        keeps_indent(d),
    ensures
        shifts(d, 0),
{
    assert forall|st: WriterState| #[trigger] run(st, d).indent == st.indent + spaces(4 * 0) by {
        assert(st.indent + spaces(0) =~= st.indent);
    }
}

proof fn lemma_shifts_keeps(d: Seq<Piece>)
    requires
        shifts(d, 0),
    ensures
        keeps_indent(d),
{
    assert forall|st: WriterState| #[trigger] run(st, d).indent == st.indent by {
        assert(st.indent + spaces(0) =~= st.indent);
        assert(run(st, d).indent == st.indent + spaces(4 * 0));
    }
}

/// `a` then `b`: the shifts add up.
proof fn lemma_then(a: Seq<Piece>, k: nat, b: Seq<Piece>, m: nat)
    requires
        shifts(a, k),
        shifts(b, m),
    ensures
        shifts(a + b, k + m),
{
    assert forall|st: WriterState| #[trigger] run(st, a + b).indent == st.indent + spaces(
        4 * (k + m),
    ) by {
        lemma_run_concat(st, a, b);
        let s1 = run(st, a);
        assert(s1.indent == st.indent + spaces(4 * k));
        assert(run(s1, b).indent == s1.indent + spaces(4 * m));
        assert(st.indent + spaces(4 * k) + spaces(4 * m) =~= st.indent + spaces(4 * (k + m)));
    }
}

/// Balanced text after `a` keeps the shift of `a`.
proof fn lemma_then_keeps(a: Seq<Piece>, k: nat, b: Seq<Piece>)
    requires
        shifts(a, k),
        keeps_indent(b),
    ensures
        shifts(a + b, k),
{
    lemma_keeps_shifts(b);
    lemma_then(a, k, b, 0);
}

/// Opening a block after `a` adds a level.
proof fn lemma_then_open(a: Seq<Piece>, k: nat, b: Seq<Piece>)
    requires
        shifts(a, k),
        opens_level(b),
    ensures
        shifts(a + b, k + 1),
{
    assert(shifts(b, 1)) by {
        assert forall|st: WriterState| #[trigger] run(st, b).indent == st.indent + spaces(4 * 1) by {
            assert(indent_unit() =~= spaces(4));
        }
    }
    lemma_then(a, k, b, 1);
}

/// Closing a block after `a` removes a level.
proof fn lemma_then_close(a: Seq<Piece>, k: nat, b: Seq<Piece>)
    requires
        shifts(a, k + 1),
        closes_level(b),
    ensures
        shifts(a + b, k),
{
    assert forall|st: WriterState| #[trigger] run(st, a + b).indent == st.indent + spaces(4 * k) by {
        lemma_run_concat(st, a, b);
        let s1 = run(st, a);
        assert(s1.indent == st.indent + spaces(4 * (k + 1)));
        assert(run(s1, b).indent == dedent(s1.indent));
        assert(dedent(s1.indent) =~= st.indent + spaces(4 * k));
    }
}

/// Every line of comments is balanced.
pub(crate) proof fn lemma_doc_comments_keeps(cs: Seq<Seq<char>>)
    ensures
        keeps_indent(doc_comments_doc(cs)),
    decreases cs.len(),
{
    if cs.len() == 0 {
        lemma_keeps_empty();
    } else {
        lemma_doc_comments_keeps(cs.drop_last());
        lemma_keeps_txt(("/// "@ + cs.last()).push('\n'));
        lemma_keeps_concat(doc_comments_doc(cs.drop_last()), line("/// "@ + cs.last()));
    }
}

pub(crate) proof fn lemma_field_decls_keeps(fields: Seq<FieldModel>, camels: Seq<Seq<char>>)
    ensures
        keeps_indent(field_decls_doc(fields, camels)),
    decreases fields.len(),
{
    if fields.len() == 0 {
        lemma_keeps_empty();
    } else {
        lemma_field_decls_keeps(fields.drop_last(), camels);
        let f = fields.last();
        let c = camels[fields.len() - 1];
        lemma_doc_comments_keeps(f.comments);
        lemma_keeps_txt(
            "val "@ + c + ": "@ + kotlin_type(f.value) + null_default(f.value) + ",\n"@,
        );
        lemma_keeps_concat(
            doc_comments_doc(f.comments),
            txt("val "@ + c + ": "@ + kotlin_type(f.value) + null_default(f.value) + ",\n"@),
        );
        lemma_keeps_concat(field_decls_doc(fields.drop_last(), camels), field_decl_doc(f, c));
    }
}

pub(crate) proof fn lemma_field_serializers_keeps(fields: Seq<FieldModel>, camels: Seq<Seq<char>>)
    ensures
        keeps_indent(field_serializers_doc(fields, camels)),
    decreases fields.len(),
{
    if fields.len() == 0 {
        lemma_keeps_empty();
    } else {
        lemma_field_serializers_keeps(fields.drop_last(), camels);
        let c = camels[fields.len() - 1];
        lemma_serialize_keeps(c, fields.last().value, 0);
        lemma_keeps_concat(
            field_serializers_doc(fields.drop_last(), camels),
            serialize_doc(c, fields.last().value, 0),
        );
    }
}

pub(crate) proof fn lemma_field_deserializers_keeps(fields: Seq<FieldModel>, camels: Seq<Seq<char>>)
    ensures
        keeps_indent(field_deserializers_doc(fields, camels)),
    decreases fields.len(),
{
    if fields.len() == 0 {
        lemma_keeps_empty();
    } else {
        lemma_field_deserializers_keeps(fields.drop_last(), camels);
        let c = camels[fields.len() - 1];
        lemma_deserialize_keeps(Some(c), fields.last().value, true);
        lemma_keeps_concat(
            field_deserializers_doc(fields.drop_last(), camels),
            deserialize_doc(Some(c), fields.last().value, true),
        );
    }
}

/// The small documents every declaration is made of are balanced.
pub(crate) proof fn lemma_small_docs_keep(name: Seq<char>, encoding: Encoding, interface: Option<Seq<char>>, prefix: Seq<char>, variant_index: Option<usize>)
    ensures
        keeps_indent(json_annotations_doc(name, encoding)),
        keeps_indent(interface_doc(prefix, interface)),
        keeps_indent(override_doc(variant_index)),
        keeps_indent(newline_doc()),
        keeps_indent(bincode_serialize_doc()),
        keeps_indent(bincode_deserialize_doc(name)),
        keeps_indent(top_serialize_doc(variant_index)),
        keeps_indent(top_deserialize_doc(name, variant_index)),
        keeps_indent(push_serializer_doc()),
        keeps_indent(pop_serializer_doc()),
        keeps_indent(push_deserializer_doc()),
        keeps_indent(pop_deserializer_doc()),
        forall|k: usize| keeps_indent(#[trigger] variant_index_doc(k)),
        forall|s: Seq<char>| keeps_indent(#[trigger] txt(s)),
        forall|s: Seq<char>| keeps_indent(#[trigger] line(s)),
{
    assert forall|s: Seq<char>| keeps_indent(#[trigger] txt(s)) by {
        lemma_keeps_txt(s);
    }
    assert forall|s: Seq<char>| keeps_indent(#[trigger] line(s)) by {
        lemma_keeps_txt(s.push('\n'));
    }
    assert forall|k: usize| keeps_indent(#[trigger] variant_index_doc(k)) by {
        lemma_keeps_txt(("serializer.serialize_variant_index("@ + decimal(k as nat) + ")"@).push('\n'));
    }
    lemma_keeps_empty();
    lemma_keeps_concat(line("@Serializable"@), line("@SerialName(\""@ + name + "\")"@));
    lemma_keeps_concat(bincode_serialize_doc(), newline_doc());
    lemma_keeps_concat(newline_doc(), bincode_deserialize_doc(name));
}

/// A data object is balanced.
proof fn lemma_data_object_keeps(
    name: Seq<char>,
    interface: Option<Seq<char>>,
    comments: Seq<Seq<char>>,
    encoding: Encoding,
    variant_index: Option<usize>,
)
    ensures
        keeps_indent(data_object_doc(name, interface, comments, encoding, variant_index)),
{
    lemma_blocks();
    lemma_small_docs_keep(name, encoding, interface, ": "@, variant_index);
    lemma_doc_comments_keeps(comments);
    let head = doc_comments_doc(comments) + json_annotations_doc(name, encoding) + txt(
        "data object "@ + name,
    ) + interface_doc(": "@, interface);
    lemma_keeps_concat3(
        doc_comments_doc(comments),
        json_annotations_doc(name, encoding),
        txt("data object "@ + name),
    );
    lemma_keeps_concat(
        doc_comments_doc(comments) + json_annotations_doc(name, encoding) + txt(
            "data object "@ + name,
        ),
        interface_doc(": "@, interface),
    );
    let body = match variant_index {
        Some(k) => open_block() + push_serializer_doc() + variant_index_doc(k)
            + pop_serializer_doc() + close_block(),
        None => txt("{}\n"@),
    };
    assert(keeps_indent(body)) by {
        if let Some(k) = variant_index {
            let x = push_serializer_doc() + variant_index_doc(k) + pop_serializer_doc();
            lemma_keeps_concat3(push_serializer_doc(), variant_index_doc(k), pop_serializer_doc());
            lemma_keeps_wrapped(open_block(), x, close_block());
            assert(open_block() + x + close_block() =~= body);
        }
    }
    if encoding == Encoding::Bincode {
        lemma_keeps_shifts(head);
        let mut acc = head;
        lemma_then_keeps(acc, 0, txt(" "@));
        acc = acc + txt(" "@);
        lemma_then_open(acc, 0, open_block());
        acc = acc + open_block();
        lemma_then_keeps(acc, 1, override_doc(variant_index));
        acc = acc + override_doc(variant_index);
        lemma_then_keeps(acc, 1, txt("fun serialize(serializer: Serializer) "@));
        acc = acc + txt("fun serialize(serializer: Serializer) "@);
        lemma_then_keeps(acc, 1, body);
        acc = acc + body;
        lemma_then_keeps(acc, 1, newline_doc());
        acc = acc + newline_doc();
        lemma_then_keeps(acc, 1, top_serialize_doc(variant_index));
        acc = acc + top_serialize_doc(variant_index);
        let d = txt("fun deserialize(deserializer: Deserializer): "@ + name + " "@);
        lemma_then_keeps(acc, 1, d);
        acc = acc + d;
        lemma_then_open(acc, 1, open_block());
        acc = acc + open_block();
        lemma_then_keeps(acc, 2, line("return "@ + name));
        acc = acc + line("return "@ + name);
        lemma_then_close(acc, 1, close_block());
        acc = acc + close_block();
        lemma_then_keeps(acc, 1, top_deserialize_doc(name, variant_index));
        acc = acc + top_deserialize_doc(name, variant_index);
        lemma_then_close(acc, 0, close_block());
        acc = acc + close_block();
        lemma_shifts_keeps(acc);
        assert(acc =~= data_object_doc(name, interface, comments, encoding, variant_index));
    } else {
        lemma_keeps_concat(head, newline_doc());
    }
}

/// The head of a data class is balanced.
proof fn lemma_class_header_keeps(
    name: Seq<char>,
    fields: Seq<FieldModel>,
    camels: Seq<Seq<char>>,
    comments: Seq<Seq<char>>,
    encoding: Encoding,
)
    ensures
        shifts(class_header_doc(name, fields, camels, comments, encoding), 0),
{
    lemma_blocks();
    lemma_small_docs_keep(name, encoding, None, " : "@, None);
    lemma_doc_comments_keeps(comments);
    lemma_field_decls_keeps(fields, camels);
    let mut acc = doc_comments_doc(comments);
    lemma_keeps_shifts(acc);
    lemma_then_keeps(acc, 0, json_annotations_doc(name, encoding));
    acc = acc + json_annotations_doc(name, encoding);
    lemma_then_keeps(acc, 0, line("data class "@ + name + "("@));
    acc = acc + line("data class "@ + name + "("@);
    lemma_then_open(acc, 0, seq![Piece::Indent]);
    acc = acc + seq![Piece::Indent];
    lemma_then_keeps(acc, 1, field_decls_doc(fields, camels));
    acc = acc + field_decls_doc(fields, camels);
    lemma_then_close(acc, 0, seq![Piece::Unindent]);
    acc = acc + seq![Piece::Unindent];
    lemma_then_keeps(acc, 0, txt(")"@));
    acc = acc + txt(")"@);
    assert(acc =~= class_header_doc(name, fields, camels, comments, encoding));
}

/// The opening of a class body with its `serialize` adds one level.
proof fn lemma_class_serialize_shifts(
    fields: Seq<FieldModel>,
    camels: Seq<Seq<char>>,
    variant_index: Option<usize>,
)
    ensures
        shifts(class_serialize_doc(fields, camels, variant_index), 1),
{
    lemma_blocks();
    lemma_small_docs_keep(Seq::empty(), Encoding::Bincode, None, " : "@, variant_index);
    lemma_field_serializers_keeps(fields, camels);
    let body = serialize_body_doc(fields, camels, variant_index);
    assert(keeps_indent(body)) by {
        if fields.len() > 0 {
            let idx = match variant_index {
                Some(k) => variant_index_doc(k),
                None => Seq::empty(),
            };
            lemma_keeps_empty();
            let x = push_serializer_doc() + idx + field_serializers_doc(fields, camels)
                + pop_serializer_doc();
            lemma_keeps_concat3(push_serializer_doc(), idx, field_serializers_doc(fields, camels));
            lemma_keeps_concat(
                push_serializer_doc() + idx + field_serializers_doc(fields, camels),
                pop_serializer_doc(),
            );
            lemma_keeps_wrapped(open_block(), x, close_block());
            assert(open_block() + x + close_block() =~= body);
        }
    }
    let mut acc = txt(" "@);
    lemma_keeps_shifts(acc);
    lemma_then_open(acc, 0, open_block());
    acc = acc + open_block();
    lemma_then_keeps(acc, 1, override_doc(variant_index));
    acc = acc + override_doc(variant_index);
    lemma_then_keeps(acc, 1, txt("fun serialize(serializer: Serializer) "@));
    acc = acc + txt("fun serialize(serializer: Serializer) "@);
    lemma_then_keeps(acc, 1, body);
    acc = acc + body;
    lemma_then_keeps(acc, 1, newline_doc());
    acc = acc + newline_doc();
    lemma_then_keeps(acc, 1, top_serialize_doc(variant_index));
    acc = acc + top_serialize_doc(variant_index);
    assert(acc =~= class_serialize_doc(fields, camels, variant_index));
}

/// The companion object of a class closes the level its body opened.
proof fn lemma_class_companion_closes(
    a: Seq<Piece>,
    name: Seq<char>,
    fields: Seq<FieldModel>,
    camels: Seq<Seq<char>>,
    variant_index: Option<usize>,
)
    requires
        shifts(a, 1),
    ensures
        shifts(a + class_companion_doc(name, fields, camels, variant_index), 0),
{
    lemma_blocks();
    lemma_small_docs_keep(name, Encoding::Bincode, None, " : "@, variant_index);
    lemma_field_deserializers_keeps(fields, camels);
    let de = deserialize_body_doc(name, fields, camels);
    assert(keeps_indent(de)) by {
        if fields.len() > 0 {
            lemma_keeps_concat3(
                push_deserializer_doc(),
                field_deserializers_doc(fields, camels),
                pop_deserializer_doc(),
            );
            lemma_keeps_concat(
                push_deserializer_doc() + field_deserializers_doc(fields, camels)
                    + pop_deserializer_doc(),
                line("return "@ + name + "("@ + name_list(camels, fields.len()) + ")"@),
            );
        }
    }
    let mut acc = a;
    lemma_then_keeps(acc, 1, txt("companion object "@));
    acc = acc + txt("companion object "@);
    lemma_then_open(acc, 1, open_block());
    acc = acc + open_block();
    let d = txt("fun deserialize(deserializer: Deserializer): "@ + name + " "@);
    lemma_then_keeps(acc, 2, d);
    acc = acc + d;
    lemma_then_open(acc, 2, open_block());
    acc = acc + open_block();
    lemma_then_keeps(acc, 3, de);
    acc = acc + de;
    lemma_then_close(acc, 2, close_block());
    acc = acc + close_block();
    lemma_then_keeps(acc, 2, top_deserialize_doc(name, variant_index));
    acc = acc + top_deserialize_doc(name, variant_index);
    lemma_then_close(acc, 1, close_block());
    acc = acc + close_block();
    lemma_then_close(acc, 0, close_block());
    acc = acc + close_block();
    assert(acc =~= a + class_companion_doc(name, fields, camels, variant_index));
}

/// A data class is balanced.
proof fn lemma_data_class_keeps(
    name: Seq<char>,
    interface: Option<Seq<char>>,
    fields: Seq<FieldModel>,
    camels: Seq<Seq<char>>,
    comments: Seq<Seq<char>>,
    encoding: Encoding,
    variant_index: Option<usize>,
)
    ensures
        keeps_indent(data_class_doc(name, interface, fields, camels, comments, encoding, variant_index)),
{
    lemma_small_docs_keep(name, encoding, interface, " : "@, variant_index);
    lemma_class_header_keeps(name, fields, camels, comments, encoding);
    let h = class_header_doc(name, fields, camels, comments, encoding);
    let i = interface_doc(" : "@, interface);
    lemma_then_keeps(h, 0, i);
    if encoding == Encoding::Bincode {
        let s = class_serialize_doc(fields, camels, variant_index);
        lemma_class_serialize_shifts(fields, camels, variant_index);
        lemma_then(h + i, 0, s, 1);
        lemma_class_companion_closes(h + i + s, name, fields, camels, variant_index);
        let c = class_companion_doc(name, fields, camels, variant_index);
        assert(h + i + s + c =~= data_class_doc(name, interface, fields, camels, comments, encoding, variant_index));
        lemma_shifts_keeps(h + i + s + c);
    } else {
        lemma_then_keeps(h + i, 0, newline_doc());
        lemma_shifts_keeps(h + i + newline_doc());
    }
}

/// The entries of an enum class are balanced.
proof fn lemma_enum_entries_keeps(
    vs: Seq<(u32, Named<VariantFormat>)>,
    uppers: Seq<Seq<char>>,
    encoding: Encoding,
)
    ensures
        keeps_indent(enum_entries_doc(vs, uppers, encoding)),
    decreases vs.len(),
{
    lemma_small_docs_keep(Seq::empty(), encoding, None, ""@, None);
    if vs.len() == 0 {
    } else {
        lemma_enum_entries_keeps(vs.drop_last(), uppers, encoding);
        let sep = if vs.last().0 > 0 {
            txt(",\n"@)
        } else {
            Seq::empty()
        };
        let c = doc_comments_doc(comments_view(vs.last().1.doc));
        let e = txt(enum_entry_text(vs.last().1.name@, uppers[vs.len() - 1], encoding));
        lemma_doc_comments_keeps(comments_view(vs.last().1.doc));
        lemma_keeps_concat3(enum_entries_doc(vs.drop_last(), uppers, encoding), sep, c);
        lemma_keeps_concat(enum_entries_doc(vs.drop_last(), uppers, encoding) + sep + c, e);
    }
}

/// The arms that read the entries of an enum class are balanced.
proof fn lemma_enum_arms_keeps(
    vs: Seq<(u32, Named<VariantFormat>)>,
    uppers: Seq<Seq<char>>,
    encoding: Encoding,
)
    ensures
        keeps_indent(enum_arms_doc(vs, uppers, encoding)),
    decreases vs.len(),
{
    lemma_small_docs_keep(Seq::empty(), encoding, None, ""@, None);
    if vs.len() == 0 {
    } else {
        lemma_enum_arms_keeps(vs.drop_last(), uppers, encoding);
        let a = txt(decimal(vs.last().0 as nat) + " -> "@);
        let e = txt(enum_entry_text(vs.last().1.name@, uppers[vs.len() - 1], encoding));
        lemma_keeps_concat3(enum_arms_doc(vs.drop_last(), uppers, encoding), a, e);
        lemma_keeps_concat(enum_arms_doc(vs.drop_last(), uppers, encoding) + a + e, newline_doc());
    }
}

/// The bincode methods of an enum class are balanced.
proof fn lemma_enum_bincode_keeps(
    name: Seq<char>,
    vs: Seq<(u32, Named<VariantFormat>)>,
    uppers: Seq<Seq<char>>,
    encoding: Encoding,
)
    ensures
        keeps_indent(enum_bincode_doc(name, vs, uppers, encoding)),
{
    lemma_blocks();
    lemma_small_docs_keep(name, encoding, None, ""@, None);
    lemma_enum_arms_keeps(vs, uppers, encoding);
    let mut acc = txt("fun serialize(serializer: Serializer) "@);
    lemma_keeps_shifts(acc);
    lemma_then_open(acc, 0, open_block());
    acc = acc + open_block();
    lemma_then_keeps(acc, 1, push_serializer_doc());
    acc = acc + push_serializer_doc();
    lemma_then_keeps(acc, 1, line("serializer.serialize_variant_index(ordinal)"@));
    acc = acc + line("serializer.serialize_variant_index(ordinal)"@);
    lemma_then_keeps(acc, 1, pop_serializer_doc());
    acc = acc + pop_serializer_doc();
    lemma_then_close(acc, 0, close_block());
    acc = acc + close_block();
    lemma_then_keeps(acc, 0, newline_doc());
    acc = acc + newline_doc();
    lemma_then_keeps(acc, 0, bincode_serialize_doc());
    acc = acc + bincode_serialize_doc();
    lemma_then_keeps(acc, 0, newline_doc());
    acc = acc + newline_doc();
    lemma_then_keeps(acc, 0, txt("companion object "@));
    acc = acc + txt("companion object "@);
    lemma_then_open(acc, 0, open_block());
    acc = acc + open_block();
    lemma_then_keeps(acc, 1, line("@Throws(DeserializationError::class)"@));
    acc = acc + line("@Throws(DeserializationError::class)"@);
    let d = txt("fun deserialize(deserializer: Deserializer): "@ + name + " "@);
    lemma_then_keeps(acc, 1, d);
    acc = acc + d;
    lemma_then_open(acc, 1, open_block());
    acc = acc + open_block();
    lemma_then_keeps(acc, 2, push_deserializer_doc());
    acc = acc + push_deserializer_doc();
    lemma_then_keeps(acc, 2, line("val index = deserializer.deserialize_variant_index()"@));
    acc = acc + line("val index = deserializer.deserialize_variant_index()"@);
    lemma_then_keeps(acc, 2, pop_deserializer_doc());
    acc = acc + pop_deserializer_doc();
    lemma_then_keeps(acc, 2, txt("return when (index) "@));
    acc = acc + txt("return when (index) "@);
    lemma_then_open(acc, 2, open_block());
    acc = acc + open_block();
    lemma_then_keeps(acc, 3, enum_arms_doc(vs, uppers, encoding));
    acc = acc + enum_arms_doc(vs, uppers, encoding);
    lemma_then_keeps(acc, 3, unknown_variant_doc(name));
    acc = acc + unknown_variant_doc(name);
    lemma_then_close(acc, 2, close_block());
    acc = acc + close_block();
    lemma_then_close(acc, 1, close_block());
    acc = acc + close_block();
    lemma_then_keeps(acc, 1, newline_doc());
    acc = acc + newline_doc();
    lemma_then_keeps(acc, 1, bincode_deserialize_doc(name));
    acc = acc + bincode_deserialize_doc(name);
    lemma_then_close(acc, 0, close_block());
    acc = acc + close_block();
    assert(acc =~= enum_bincode_doc(name, vs, uppers, encoding));
    lemma_shifts_keeps(acc);
}

/// An enum class is balanced.
proof fn lemma_enum_class_keeps(
    name: Seq<char>,
    vs: Seq<(u32, Named<VariantFormat>)>,
    uppers: Seq<Seq<char>>,
    comments: Seq<Seq<char>>,
    encoding: Encoding,
)
    ensures
        keeps_indent(enum_class_doc(name, vs, uppers, comments, encoding)),
{
    lemma_blocks();
    lemma_small_docs_keep(name, encoding, None, ""@, None);
    lemma_doc_comments_keeps(comments);
    lemma_enum_entries_keeps(vs, uppers, encoding);
    lemma_enum_bincode_keeps(name, vs, uppers, encoding);
    let extra = if encoding == Encoding::Json {
        serial_name_doc()
    } else if encoding == Encoding::Bincode {
        enum_bincode_doc(name, vs, uppers, encoding)
    } else {
        Seq::empty()
    };
    let mut acc = doc_comments_doc(comments);
    lemma_keeps_shifts(acc);
    lemma_then_keeps(acc, 0, json_annotations_doc(name, encoding));
    acc = acc + json_annotations_doc(name, encoding);
    lemma_then_keeps(acc, 0, line("enum class "@ + name + " {"@));
    acc = acc + line("enum class "@ + name + " {"@);
    lemma_then_open(acc, 0, seq![Piece::Indent]);
    acc = acc + seq![Piece::Indent];
    lemma_then_keeps(acc, 1, enum_entries_doc(vs, uppers, encoding));
    acc = acc + enum_entries_doc(vs, uppers, encoding);
    lemma_then_keeps(acc, 1, line(";"@));
    acc = acc + line(";"@);
    lemma_then_keeps(acc, 1, newline_doc());
    acc = acc + newline_doc();
    lemma_then_keeps(acc, 1, extra);
    acc = acc + extra;
    lemma_then_close(acc, 0, seq![Piece::Unindent]);
    acc = acc + seq![Piece::Unindent];
    lemma_then_keeps(acc, 0, line("}"@));
    acc = acc + line("}"@);
    assert(acc =~= enum_class_doc(name, vs, uppers, comments, encoding));
    lemma_shifts_keeps(acc);
}

/// The classes of the variants of a sealed interface are balanced.
proof fn lemma_sealed_variants_keeps(
    name: Seq<char>,
    vs: Seq<Named<VariantFormat>>,
    encoding: Encoding,
)
    ensures
        keeps_indent(sealed_variants_doc(name, vs, encoding)),
    decreases vs.len(),
{
    lemma_small_docs_keep(name, encoding, None, ""@, None);
    if vs.len() == 0 {
    } else {
        lemma_sealed_variants_keeps(name, vs.drop_last(), encoding);
        let v = vs.last();
        let k = (vs.len() - 1) as usize;
        if v.value is Unit {
            lemma_data_object_keeps(v.name@, Some(name), comments_view(v.doc), encoding, Some(k));
        } else {
            lemma_data_class_keeps(
                v.name@,
                Some(name),
                variant_fields(v.value),
                camel_names(variant_fields(v.value)),
                comments_view(v.doc),
                encoding,
                Some(k),
            );
        }
        let sep = if vs.len() > 1 {
            newline_doc()
        } else {
            Seq::empty()
        };
        lemma_keeps_concat3(
            sealed_variants_doc(name, vs.drop_last(), encoding),
            sep,
            sealed_variant_doc(v, name, k, encoding),
        );
    }
}

/// The arms that read the variants of a sealed interface are balanced.
proof fn lemma_sealed_arms_keeps(vs: Seq<Named<VariantFormat>>)
    ensures
        keeps_indent(sealed_arms_doc(vs)),
    decreases vs.len(),
{
    lemma_small_docs_keep(Seq::empty(), Encoding::Bincode, None, ""@, None);
    if vs.len() > 0 {
        lemma_sealed_arms_keeps(vs.drop_last());
        lemma_keeps_concat(
            sealed_arms_doc(vs.drop_last()),
            line(
                decimal((vs.len() - 1) as nat) + " -> "@ + vs.last().name@
                    + ".deserialize(deserializer)"@,
            ),
        );
    }
}

/// The companion object of a sealed interface is balanced.
proof fn lemma_sealed_companion_keeps(
    name: Seq<char>,
    vs: Seq<Named<VariantFormat>>,
    encoding: Encoding,
)
    ensures
        keeps_indent(sealed_companion_doc(name, vs, encoding)),
{
    lemma_blocks();
    lemma_small_docs_keep(name, encoding, None, ""@, None);
    if encoding == Encoding::Bincode {
        lemma_sealed_arms_keeps(vs);
        let mut acc = newline_doc();
        lemma_keeps_shifts(acc);
        lemma_then_keeps(acc, 0, txt("companion object "@));
        acc = acc + txt("companion object "@);
        lemma_then_open(acc, 0, open_block());
        acc = acc + open_block();
        lemma_then_keeps(acc, 1, line("@Throws(DeserializationError::class)"@));
        acc = acc + line("@Throws(DeserializationError::class)"@);
        let d = txt("fun deserialize(deserializer: Deserializer): "@ + name + " "@);
        lemma_then_keeps(acc, 1, d);
        acc = acc + d;
        lemma_then_open(acc, 1, open_block());
        acc = acc + open_block();
        lemma_then_keeps(acc, 2, line("val index = deserializer.deserialize_variant_index()"@));
        acc = acc + line("val index = deserializer.deserialize_variant_index()"@);
        lemma_then_keeps(acc, 2, txt("return when (index) "@));
        acc = acc + txt("return when (index) "@);
        lemma_then_open(acc, 2, open_block());
        acc = acc + open_block();
        lemma_then_keeps(acc, 3, sealed_arms_doc(vs));
        acc = acc + sealed_arms_doc(vs);
        lemma_then_keeps(acc, 3, unknown_variant_doc(name));
        acc = acc + unknown_variant_doc(name);
        lemma_then_close(acc, 2, close_block());
        acc = acc + close_block();
        lemma_then_close(acc, 1, close_block());
        acc = acc + close_block();
        lemma_then_keeps(acc, 1, newline_doc());
        acc = acc + newline_doc();
        lemma_then_keeps(acc, 1, bincode_deserialize_doc(name));
        acc = acc + bincode_deserialize_doc(name);
        lemma_then_close(acc, 0, close_block());
        acc = acc + close_block();
        assert(acc =~= sealed_companion_doc(name, vs, encoding));
        lemma_shifts_keeps(acc);
    } else {
        lemma_keeps_empty();
    }
}

/// A sealed interface is balanced.
proof fn lemma_sealed_interface_keeps(
    name: Seq<char>,
    vs: Seq<Named<VariantFormat>>,
    comments: Seq<Seq<char>>,
    encoding: Encoding,
)
    ensures
        keeps_indent(sealed_interface_doc(name, vs, comments, encoding)),
{
    lemma_blocks();
    lemma_small_docs_keep(name, encoding, None, ""@, None);
    lemma_doc_comments_keeps(comments);
    lemma_sealed_variants_keeps(name, vs, encoding);
    lemma_sealed_companion_keeps(name, vs, encoding);
    assert(keeps_indent(sealed_head_doc(encoding))) by {
        if encoding == Encoding::Bincode {
            lemma_keeps_concat(line("fun serialize(serializer: Serializer)"@), newline_doc());
            lemma_keeps_concat3(
                line("fun serialize(serializer: Serializer)"@) + newline_doc(),
                bincode_serialize_doc(),
                newline_doc(),
            );
        }
    }
    let mut acc = doc_comments_doc(comments);
    lemma_keeps_shifts(acc);
    lemma_then_keeps(acc, 0, json_annotations_doc(name, encoding));
    acc = acc + json_annotations_doc(name, encoding);
    lemma_then_keeps(acc, 0, txt("sealed interface "@ + name + " "@));
    acc = acc + txt("sealed interface "@ + name + " "@);
    lemma_then_open(acc, 0, open_block());
    acc = acc + open_block();
    lemma_then_keeps(acc, 1, sealed_head_doc(encoding));
    acc = acc + sealed_head_doc(encoding);
    lemma_then_keeps(acc, 1, sealed_variants_doc(name, vs, encoding));
    acc = acc + sealed_variants_doc(name, vs, encoding);
    lemma_then_keeps(acc, 1, sealed_companion_doc(name, vs, encoding));
    acc = acc + sealed_companion_doc(name, vs, encoding);
    lemma_then_close(acc, 0, close_block());
    acc = acc + close_block();
    assert(acc =~= sealed_interface_doc(name, vs, comments, encoding));
    lemma_shifts_keeps(acc);
}

/// Law: writing the declaration of any container leaves the indentation as
/// it found it.
pub proof fn law_container_keeps_indent(
    st: WriterState,
    encoding: Encoding,
    name: QualifiedTypeName,
    format: ContainerFormat,
)
    ensures
        run(st, container_doc(encoding, name, format)).indent == st.indent,
{
    let n = name.name@;
    match format {
        ContainerFormat::UnitStruct(doc) => {
            lemma_data_object_keeps(n, None, comments_view(doc), encoding, None);
        },
        ContainerFormat::NewTypeStruct(g, doc) => {
            lemma_data_class_keeps(
                n,
                None,
                seq![value_field(*g)],
                camel_names(seq![value_field(*g)]),
                comments_view(doc),
                encoding,
                None,
            );
        },
        ContainerFormat::TupleStruct(fs, doc) => {
            lemma_data_class_keeps(
                n,
                None,
                tuple_fields(fs@),
                camel_names(tuple_fields(fs@)),
                comments_view(doc),
                encoding,
                None,
            );
        },
        ContainerFormat::Struct(fields, doc) => {
            if fields@.len() == 0 {
                lemma_data_object_keeps(n, None, comments_view(doc), encoding, None);
            } else {
                let fm = fields@.map_values(|f: Named<Format>| named_model(f));
                lemma_data_class_keeps(n, None, fm, camel_names(fm), comments_view(doc), encoding, None);
            }
        },
        ContainerFormat::Enum(m, doc) => {
            let vs = variant_list(m@);
            if all_unit(vs) {
                lemma_enum_class_keeps(n, vs, upper_names(vs), comments_view(doc), encoding);
            } else {
                lemma_sealed_interface_keeps(n, variant_values(vs), comments_view(doc), encoding);
            }
        },
    }
}

/// A document whose last piece is text ending in a newline ends a line.
pub(crate) proof fn lemma_ends_with_newline(d: Seq<Piece>, s: Seq<char>)
    requires
        d.len() > 0,
        d.last() == Piece::Text(s),
        s.len() > 0,
        s.last() == '\n',
    ensures
        ends_line(d),
{
    reveal(run);
    assert forall|st: WriterState| #[trigger] run(st, d).at_line_start by {
        let x = run(st, d.drop_last());
        assert(run(st, d) == put_str(x, s));
    }
}

/// Law: the declaration of any container ends its last line.
pub proof fn law_container_ends_line(
    st: WriterState,
    encoding: Encoding,
    name: QualifiedTypeName,
    format: ContainerFormat,
)
    ensures
        run(st, container_doc(encoding, name, format)).at_line_start,
{
    let d = container_doc(encoding, name, format);
    let closing = seq!['}', '\n'];
    let nl = seq!['\n'];
    let brace = "}"@.push('\n');
    match format {
        ContainerFormat::Enum(m, doc) => {
            if all_unit(variant_list(m@)) {
                assert(d.last() == Piece::Text(brace));
                lemma_ends_with_newline(d, brace);
            } else {
                assert(d.last() == Piece::Text(closing));
                lemma_ends_with_newline(d, closing);
            }
        },
        _ => {
            if encoding == Encoding::Bincode {
                assert(d.last() == Piece::Text(closing));
                lemma_ends_with_newline(d, closing);
            } else {
                assert(d.last() == Piece::Text(nl));
                lemma_ends_with_newline(d, nl);
            }
        },
    }
}

/// Law: writing the declaration of a container at the start of an
/// unindented line adds to the text exactly the declaration on its own.
pub proof fn law_container_appends_its_text(
    text: Seq<char>,
    encoding: Encoding,
    name: QualifiedTypeName,
    format: ContainerFormat,
)
    ensures
        run(
            WriterState { text: text, indent: Seq::empty(), at_line_start: true },
            container_doc(encoding, name, format),
        ).text == text + run(empty_state(), container_doc(encoding, name, format)).text,
{
    let st = WriterState { text: text, indent: Seq::empty(), at_line_start: true };
    law_output_independent_of_prior_text(st, container_doc(encoding, name, format));
    assert(blank_like(st) == empty_state());
}

/// Concatenated lists hold what either list holds.
proof fn lemma_concat_contains(a: Seq<Seq<char>>, b: Seq<Seq<char>>, x: Seq<char>)
    ensures
        (a + b).contains(x) <==> a.contains(x) || b.contains(x),
{
    if (a + b).contains(x) {
        let i = choose|i: int| 0 <= i < (a + b).len() && (a + b)[i] == x;
        if i < a.len() {
            assert(a[i] == x);
        } else {
            assert(b[i - a.len()] == x);
        }
    }
    if a.contains(x) {
        let i = choose|i: int| 0 <= i < a.len() && a[i] == x;
        assert((a + b)[i] == x);
    }
    if b.contains(x) {
        let i = choose|i: int| 0 <= i < b.len() && b[i] == x;
        assert((a + b)[a.len() + i] == x);
    }
}

/// An import of the features is an import of one of them.
proof fn lemma_features_imports_contains(
    fs: Seq<Feature>,
    encoding: Encoding,
    package: Seq<char>,
    x: Seq<char>,
)
    ensures
        features_imports(fs, encoding, package).contains(x) <==> exists|i: int|
            0 <= i < fs.len() && #[trigger] feature_imports(fs[i], encoding, package).contains(x),
    decreases fs.len(),
{
    if fs.len() > 0 {
        lemma_features_imports_contains(fs.drop_last(), encoding, package, x);
        lemma_concat_contains(
            features_imports(fs.drop_last(), encoding, package),
            feature_imports(fs.last(), encoding, package),
            x,
        );
        if exists|i: int|
            0 <= i < fs.len() && #[trigger] feature_imports(fs[i], encoding, package).contains(x) {
            let i = choose|i: int|
                0 <= i < fs.len() && #[trigger] feature_imports(fs[i], encoding, package).contains(
                    x,
                );
            if i < fs.len() - 1 {
                assert(feature_imports(fs.drop_last()[i], encoding, package).contains(x));
            }
        }
        if exists|i: int|
            0 <= i < fs.drop_last().len() && #[trigger] feature_imports(
                fs.drop_last()[i],
                encoding,
                package,
            ).contains(x) {
            let i = choose|i: int|
                0 <= i < fs.drop_last().len() && #[trigger] feature_imports(
                    fs.drop_last()[i],
                    encoding,
                    package,
                ).contains(x);
            assert(feature_imports(fs[i], encoding, package).contains(x));
        }
        if feature_imports(fs.last(), encoding, package).contains(x) {
            assert(feature_imports(fs[fs.len() - 1], encoding, package).contains(x));
        }
    }
}

/// Law: the imports of a module are in increasing order, each once, and are
/// exactly the imports that the encoding and the features need.
pub proof fn law_imports_sorted_each_once(config: CodeGeneratorConfig)
    ensures
        strictly_sorted(sort_dedup(module_imports(config))),
        sort_dedup(module_imports(config)).to_set() == module_imports(config).to_set(),
{
    lemma_sort_dedup(module_imports(config));
}

/// Law: the imports of a module do not depend on the order in which the
/// features are listed, nor on a feature listed twice.
pub proof fn law_imports_ignore_feature_order(c1: CodeGeneratorConfig, c2: CodeGeneratorConfig)
    requires
        c1.encoding == c2.encoding,
        c1.external_packages@ == c2.external_packages@,
        c1.features@.to_set() == c2.features@.to_set(),
    ensures
        sort_dedup(module_imports(c1)) == sort_dedup(module_imports(c2)),
{
    let p = serde_package(c1.external_packages@);
    let e = encoding_imports(c1.encoding, p);
    let f1 = c1.features@;
    let f2 = c2.features@;
    assert(module_imports(c1).to_set() =~= module_imports(c2).to_set()) by {
        assert forall|x: Seq<char>| module_imports(c1).contains(x) implies module_imports(
            c2,
        ).contains(x) by {
            lemma_concat_contains(e, features_imports(f1, c1.encoding, p), x);
            lemma_concat_contains(e, features_imports(f2, c1.encoding, p), x);
            lemma_features_imports_contains(f1, c1.encoding, p, x);
            lemma_features_imports_contains(f2, c1.encoding, p, x);
            if features_imports(f1, c1.encoding, p).contains(x) {
                let i = choose|i: int|
                    0 <= i < f1.len() && #[trigger] feature_imports(f1[i], c1.encoding, p).contains(
                        x,
                    );
                assert(f1.to_set().contains(f1[i]));
                assert(f2.contains(f1[i]));
                let k = choose|k: int| 0 <= k < f2.len() && f2[k] == f1[i];
                assert(feature_imports(f2[k], c1.encoding, p).contains(x));
            }
        }
        assert forall|x: Seq<char>| module_imports(c2).contains(x) implies module_imports(
            c1,
        ).contains(x) by {
            lemma_concat_contains(e, features_imports(f1, c1.encoding, p), x);
            lemma_concat_contains(e, features_imports(f2, c1.encoding, p), x);
            lemma_features_imports_contains(f1, c1.encoding, p, x);
            lemma_features_imports_contains(f2, c1.encoding, p, x);
            if features_imports(f2, c1.encoding, p).contains(x) {
                let i = choose|i: int|
                    0 <= i < f2.len() && #[trigger] feature_imports(f2[i], c1.encoding, p).contains(
                        x,
                    );
                assert(f2.to_set().contains(f2[i]));
                assert(f1.contains(f2[i]));
                let k = choose|k: int| 0 <= k < f1.len() && f1[k] == f2[i];
                assert(feature_imports(f1[k], c1.encoding, p).contains(x));
            }
        }
    }
    lemma_sort_dedup(module_imports(c1));
    lemma_sort_dedup(module_imports(c2));
    lemma_sorted_same_set_equal(sort_dedup(module_imports(c1)), sort_dedup(module_imports(c2)));
}

/// Different numbers have different decimal representations.
proof fn lemma_decimal_injective(n: nat, m: nat)
    requires
        n != m,
    ensures
        decimal(n) != decimal(m),
    decreases n + m,
{
    if n < 10 && m < 10 {
        assert(decimal(n)[0] != decimal(m)[0]);
    } else if n < 10 {
        assert(decimal(m).len() >= 2) by {
            lemma_decimal_nonempty(m / 10);
        }
    } else if m < 10 {
        assert(decimal(n).len() >= 2) by {
            lemma_decimal_nonempty(n / 10);
        }
    } else {
        if n % 10 == m % 10 {
            assert(n / 10 != m / 10);
            lemma_decimal_injective(n / 10, m / 10);
            if decimal(n) == decimal(m) {
                assert(decimal(n / 10) =~= decimal(n).drop_last());
                assert(decimal(m / 10) =~= decimal(m).drop_last());
            }
        } else {
            assert(decimal(n).last() != decimal(m).last());
        }
    }
}

/// A decimal representation has at least one digit.
proof fn lemma_decimal_nonempty(n: nat)
    ensures
        decimal(n).len() >= 1,
    decreases n,
{
    if n >= 10 {
        lemma_decimal_nonempty(n / 10);
    }
}

/// Law: the lambdas nested inside one another name their parameters
/// differently at every level, so that no inner parameter hides an outer one.
pub proof fn law_lambda_parameters_distinct(a: nat, b: nat)
    requires
        a != b,
    ensures
        level_name(a) != level_name(b),
{
    lemma_decimal_injective(a, b);
    reveal_strlit("level");
    if level_name(a) == level_name(b) {
        assert(decimal(a) =~= level_name(a).skip(5));
        assert(decimal(b) =~= level_name(b).skip(5));
    }
}

/// Law: the `serde` namespace is served by the first package named
/// `serde`, wherever it stands in the list: by its path when it is given by
/// a path, by `serde` when it is given by a URL.
pub proof fn law_serde_package_found(pkgs: Seq<ExternalPackage>, i: int)
    requires
        0 <= i < pkgs.len(),
        pkgs[i].name@ == "serde"@,
        forall|j: int| 0 <= j < i ==> pkgs[j].name@ != "serde"@,
    ensures
        serde_package(pkgs) == match pkgs[i].location {
            PackageLocation::Path(p) => p@,
            PackageLocation::Url(_) => "serde"@,
        },
    decreases i,
{
    if i > 0 {
        assert(pkgs[0].name@ != "serde"@);
        law_serde_package_found(pkgs.drop_first(), i - 1);
    }
}

/// Law: with no package named `serde`, the namespace is served by `serde`.
pub proof fn law_serde_package_default(pkgs: Seq<ExternalPackage>)
    requires
        forall|j: int| 0 <= j < pkgs.len() ==> pkgs[j].name@ != "serde"@,
    ensures
        serde_package(pkgs) == "serde"@,
    decreases pkgs.len(),
{
    if pkgs.len() > 0 {
        assert(pkgs[0].name@ != "serde"@);
        law_serde_package_default(pkgs.drop_first());
    }
}

/// The types that bincode code imports from the `serde` package.
pub open spec fn serde_type_names() -> Seq<Seq<char>> {
    seq![
        "BincodeDeserializer"@,
        "BincodeSerializer"@,
        "Bytes"@,
        "DeserializationError"@,
        "Deserializer"@,
        "Serializer"@,
        "Unsigned"@,
        "Int128"@,
    ]
}

/// Law: with bincode, every import of the module is `java.math.BigInteger`
/// or a type of the one package that serves the `serde` namespace; every
/// type that bincode code needs is imported from it, `Int128` exactly when
/// big integers are a feature.
pub proof fn law_bincode_imports_one_serde_package(config: CodeGeneratorConfig)
    requires
        config.encoding == Encoding::Bincode,
    ensures
        forall|x: Seq<char>| #[trigger] module_imports(config).contains(x) ==> x
            == "import java.math.BigInteger"@ || exists|k: int|
            0 <= k < serde_type_names().len() && x == "import "@ + serde_package(
                config.external_packages@,
            ) + "."@ + serde_type_names()[k],
        forall|k: int|
            0 <= k < 7 ==> module_imports(config).contains(
                "import "@ + serde_package(config.external_packages@) + "."@
                    + #[trigger] serde_type_names()[k],
            ),
        config.features@.contains(Feature::BigInt) <==> module_imports(config).contains(
            "import "@ + serde_package(config.external_packages@) + "."@ + "Int128"@,
        ),
{
    let p = serde_package(config.external_packages@);
    let e = encoding_imports(Encoding::Bincode, p);
    let fs = config.features@;
    let names = serde_type_names();
    assert forall|x: Seq<char>| #[trigger] module_imports(config).contains(x) implies x
        == "import java.math.BigInteger"@ || exists|k: int|
        0 <= k < names.len() && x == "import "@ + p + "."@ + names[k] by {
        lemma_concat_contains(e, features_imports(fs, Encoding::Bincode, p), x);
        if e.contains(x) {
            let k = choose|k: int| 0 <= k < e.len() && e[k] == x;
            assert(e[k] == "import "@ + p + "."@ + names[k]);
        } else {
            lemma_features_imports_contains(fs, Encoding::Bincode, p, x);
            let i = choose|i: int|
                0 <= i < fs.len() && #[trigger] feature_imports(fs[i], Encoding::Bincode, p).contains(
                    x,
                );
            let fi = feature_imports(fs[i], Encoding::Bincode, p);
            let k = choose|k: int| 0 <= k < fi.len() && fi[k] == x;
            if k == 1 {
                assert(x == "import "@ + p + "."@ + names[7]);
            }
        }
    }
    assert forall|k: int| 0 <= k < 7 implies module_imports(config).contains(
        "import "@ + p + "."@ + #[trigger] names[k],
    ) by {
        lemma_concat_contains(e, features_imports(fs, Encoding::Bincode, p), "import "@ + p + "."@ + names[k]);
        assert(e[k] == "import "@ + p + "."@ + names[k]);
    }
    if fs.contains(Feature::BigInt) {
        let i = choose|i: int| 0 <= i < fs.len() && fs[i] == Feature::BigInt;
        let x = "import "@ + p + "."@ + "Int128"@;
        let fi = feature_imports(fs[i], Encoding::Bincode, p);
        assert(fi[1] == x);
        assert(fi.contains(x));
        lemma_features_imports_contains(fs, Encoding::Bincode, p, x);
        assert(features_imports(fs, Encoding::Bincode, p).contains(x));
        lemma_concat_contains(e, features_imports(fs, Encoding::Bincode, p), x);
    }
    let x = "import "@ + p + "."@ + "Int128"@;
    if module_imports(config).contains(x) {
        reveal_strlit("Int128");
        reveal_strlit("BincodeDeserializer");
        reveal_strlit("BincodeSerializer");
        reveal_strlit("Bytes");
        reveal_strlit("DeserializationError");
        reveal_strlit("Deserializer");
        reveal_strlit("Serializer");
        reveal_strlit("Unsigned");
        reveal_strlit("import java.math.BigInteger");
        lemma_concat_contains(e, features_imports(fs, Encoding::Bincode, p), x);
        assert(!e.contains(x)) by {
            if e.contains(x) {
                let k = choose|k: int| 0 <= k < e.len() && e[k] == x;
                assert(e[k] == "import "@ + p + "."@ + names[k]);
                assert(e[k].len() != x.len());
            }
        }
        lemma_features_imports_contains(fs, Encoding::Bincode, p, x);
        let i = choose|i: int|
            0 <= i < fs.len() && #[trigger] feature_imports(fs[i], Encoding::Bincode, p).contains(x);
        assert(fs[i] == Feature::BigInt);
        assert(fs.contains(Feature::BigInt));
    }
}

} // verus!
