//! What the emitters write, stated as text: how declarations are chosen and
//! composed, the text of types, fields and class bodies, and how the text of
//! a value's code relates between its forms.
use vstd::prelude::*;
use std::collections::BTreeMap;

use crate::classes::{
    camel_names, comments_view, data_class_doc, data_object_doc, named_model,
};
use crate::containers::{
    all_unit, container_doc, enum_class_doc, sealed_interface_doc, tuple_fields, upper_names,
    value_field, variant_doc, variant_fields, VariantContext,
};
use crate::model::{ContainerFormat, Doc, Encoding, Format, Named, QualifiedTypeName, VariantFormat};
use crate::kotlin_type::{kotlin_type, kotlin_type_list};
use crate::layout::{lemma_decimal_one_line, lemma_fresh_put_str, lemma_one_line_concat, one_line};
use crate::model::qualified_name;
use crate::text::{decimal, empty_state, put_str};
use crate::laws::{ends_line, keeps_indent, lemma_ends_with_newline, lemma_serialize_keeps};
use crate::layout::{fresh_text, lemma_text_ends_with};
use crate::model::is_leaf;
use crate::serialize::{
    level_name, serialize_components_doc, serialize_doc, serialize_lambda_doc,
    serialize_map_lambda_doc,
};
use crate::text::{close_block, lemma_run_one, open_block, open_block_inline, txt, Piece};
use crate::classes::{doc_comments_doc, field_decl_doc, null_default, FieldModel};
use crate::laws::lemma_doc_comments_keeps;
use crate::layout::{lemma_fresh_concat, starts_with_text};
use crate::text::{lemma_run_empty, line};
use crate::deserialize::{deserialize_doc, deserialize_expr_doc, is_collection};
use crate::laws::{lemma_deserialize_keeps, lemma_keeps_txt};
use crate::layout::{law_text_at_depth, shifted};
use crate::serialize::native_suffix;
use crate::text::{indent_unit, lemma_put_str_extends, lemma_run_concat, run};
use crate::deserialize::{deserialize_entry_doc, deserialize_values_doc, value_names};
use crate::text::{lemma_put_str_one, lemma_put_str_two, WriterState};
use crate::classes::{
    deserialize_body_doc, field_deserializers_doc, field_serializers_doc, name_list,
    serialize_body_doc, variant_index_doc,
};
use crate::deserialize::{pop_deserializer_doc, push_deserializer_doc};
use crate::laws::{
    lemma_field_deserializers_keeps, lemma_field_serializers_keeps, lemma_keeps_concat,
    lemma_keeps_empty,
};
use crate::serialize::{pop_serializer_doc, push_serializer_doc};
use crate::text::lemma_put_str_push;
use crate::classes::json_annotations_doc;
use crate::containers::sealed_variants_doc;
use crate::model::Namespace;
use crate::variants::{lemma_variant_list_exists, lists_variants, variant_list, variant_values};

verus! {

/// Law: a newtype, a tuple struct and a struct with fields are written as the
/// data class of their fields: `value` for a newtype, `field0`, `field1`, ...
/// for a tuple, the struct's own fields otherwise; only the type's own name
/// is used.
pub proof fn law_structs_are_data_classes(
    encoding: Encoding,
    name: QualifiedTypeName,
    format: ContainerFormat,
)
    ensures
        match format {
            ContainerFormat::NewTypeStruct(g, doc) => container_doc(encoding, name, format)
                == data_class_doc(
                name.name@,
                None,
                seq![value_field(*g)],
                camel_names(seq![value_field(*g)]),
                comments_view(doc),
                encoding,
                None,
            ),
            ContainerFormat::TupleStruct(fs, doc) => container_doc(encoding, name, format)
                == data_class_doc(
                name.name@,
                None,
                tuple_fields(fs@),
                camel_names(tuple_fields(fs@)),
                comments_view(doc),
                encoding,
                None,
            ),
            ContainerFormat::Struct(fields, doc) => fields@.len() > 0 ==> container_doc(
                encoding,
                name,
                format,
            ) == data_class_doc(
                name.name@,
                None,
                fields@.map_values(|f: Named<Format>| named_model(f)),
                camel_names(fields@.map_values(|f: Named<Format>| named_model(f))),
                comments_view(doc),
                encoding,
                None,
            ),
            _ => true,
        },
{
}

/// Law: an enum whose variants are all unit variants is written as an enum
/// class of its variants in increasing order of index; any other enum as a
/// sealed interface of its variants in that order.
pub proof fn law_enum_declaration(
    encoding: Encoding,
    name: QualifiedTypeName,
    variants: BTreeMap<u32, Named<VariantFormat>>,
    doc: Doc,
)
    ensures
        lists_variants(variant_list(variants@), variants@),
        (forall|k: u32| #[trigger] variants@.contains_key(k) ==> variants@[k].value is Unit)
            ==> container_doc(encoding, name, ContainerFormat::Enum(variants, doc))
            == enum_class_doc(
            name.name@,
            variant_list(variants@),
            upper_names(variant_list(variants@)),
            comments_view(doc),
            encoding,
        ),
        !(forall|k: u32| #[trigger] variants@.contains_key(k) ==> variants@[k].value is Unit)
            ==> container_doc(encoding, name, ContainerFormat::Enum(variants, doc))
            == sealed_interface_doc(
            name.name@,
            variant_values(variant_list(variants@)),
            comments_view(doc),
            encoding,
        ),
{
    let m = variants@;
    vstd::std_specs::btree::axiom_btree_map_view_finite_dom(variants);
    lemma_variant_list_exists(m);
    let vs = variant_list(m);
    if forall|k: u32| #[trigger] m.contains_key(k) ==> m[k].value is Unit {
        assert forall|i: int| 0 <= i < vs.len() implies (#[trigger] vs[i]).1.value is Unit by {
            assert(m.contains_key(vs[i].0));
        }
        assert(all_unit(vs));
    } else {
        let k = choose|k: u32| m.contains_key(k) && !(m[k].value is Unit);
        let i = choose|i: int| 0 <= i < vs.len() && vs[i].0 == k;
        assert(m.contains_key(vs[i].0));
        assert(!all_unit(vs));
    }
}

/// Law: a variant of a sealed interface is written as a data object when it
/// is a unit variant, otherwise as the data class of its fields, implementing
/// the interface and serializing its index.
pub proof fn law_sealed_variant_declaration(
    v: Named<VariantFormat>,
    interface: String,
    index: usize,
    encoding: Encoding,
)
    ensures
        variant_doc(v, VariantContext::SealedInterface(interface, index), encoding) == match v.value {
            VariantFormat::Unit => data_object_doc(
                v.name@,
                Some(interface@),
                comments_view(v.doc),
                encoding,
                Some(index),
            ),
            _ => data_class_doc(
                v.name@,
                Some(interface@),
                variant_fields(v.value),
                camel_names(variant_fields(v.value)),
                comments_view(v.doc),
                encoding,
                Some(index),
            ),
        },
        v.value matches VariantFormat::NewType(g) ==> variant_fields(v.value) == seq![
            value_field(*g),
        ],
        v.value matches VariantFormat::Tuple(fs) ==> variant_fields(v.value) == tuple_fields(fs@),
        v.value matches VariantFormat::Struct(fields) ==> variant_fields(v.value)
            == fields@.map_values(|f: Named<Format>| named_model(f)),
{
}

/// The names of the types inside `f` have no line break.
pub open spec fn names_one_line(f: Format) -> bool
    decreases f,
{
    match f {
        Format::TypeName(q) => one_line(qualified_name(q)),
        Format::Optional(g) => names_one_line(*g),
        Format::Sequence(g) => names_one_line(*g),
        Format::SetOf(g) => names_one_line(*g),
        Format::MapOf { key, value } => names_one_line(*key) && names_one_line(*value),
        Format::Tuple(fs) => names_one_line_list(fs@),
        Format::TupleArray { content, .. } => names_one_line(*content),
        _ => true,
    }
}

/// The names of the types inside `fs` have no line break.
pub open spec fn names_one_line_list(fs: Seq<Format>) -> bool
    decreases fs,
{
    if fs.len() == 0 {
        true
    } else {
        names_one_line_list(fs.drop_last()) && names_one_line(fs.last())
    }
}

proof fn lemma_type_one_line(f: Format)
    requires
        names_one_line(f),
    ensures
        one_line(kotlin_type(f)),
    decreases f, 0nat,
{
    reveal_strlit("?");
    reveal_strlit("List<");
    reveal_strlit(">");
    reveal_strlit(", ");
    match f {
        Format::TypeName(_) => {},
        Format::Unit => reveal_strlit("Unit"),
        Format::Bool => reveal_strlit("Boolean"),
        Format::I8 => reveal_strlit("Byte"),
        Format::I16 => reveal_strlit("Short"),
        Format::I32 => reveal_strlit("Int"),
        Format::I64 => reveal_strlit("Long"),
        Format::U8 => reveal_strlit("UByte"),
        Format::U16 => reveal_strlit("UShort"),
        Format::U32 => reveal_strlit("UInt"),
        Format::U64 => reveal_strlit("ULong"),
        Format::I128 => reveal_strlit("BigInteger"),
        Format::U128 => reveal_strlit("BigInteger"),
        Format::F32 => reveal_strlit("Float"),
        Format::F64 => reveal_strlit("Double"),
        Format::Char => reveal_strlit("String"),
        Format::Str => reveal_strlit("String"),
        Format::Bytes => reveal_strlit("ByteArray"),
        Format::Optional(g) => {
            lemma_type_one_line(*g);
            lemma_one_line_concat(kotlin_type(*g), "?"@);
        },
        Format::Sequence(g) => {
            lemma_type_one_line(*g);
            lemma_one_line_concat("List<"@, kotlin_type(*g));
            lemma_one_line_concat("List<"@ + kotlin_type(*g), ">"@);
        },
        Format::SetOf(g) => {
            reveal_strlit("Set<");
            lemma_type_one_line(*g);
            lemma_one_line_concat("Set<"@, kotlin_type(*g));
            lemma_one_line_concat("Set<"@ + kotlin_type(*g), ">"@);
        },
        Format::TupleArray { content, .. } => {
            lemma_type_one_line(*content);
            lemma_one_line_concat("List<"@, kotlin_type(*content));
            lemma_one_line_concat("List<"@ + kotlin_type(*content), ">"@);
        },
        Format::MapOf { key, value } => {
            reveal_strlit("Map<");
            lemma_type_one_line(*key);
            lemma_type_one_line(*value);
            let a = "Map<"@ + kotlin_type(*key);
            lemma_one_line_concat("Map<"@, kotlin_type(*key));
            lemma_one_line_concat(a, ", "@);
            lemma_one_line_concat(a + ", "@, kotlin_type(*value));
            lemma_one_line_concat(a + ", "@ + kotlin_type(*value), ">"@);
        },
        Format::Tuple(fs) => {
            let n = fs@.len();
            if n == 0 {
                reveal_strlit("Unit");
            } else if n == 1 {
                lemma_list_one_line_each(fs@, 0);
            } else if n == 2 {
                reveal_strlit("Pair<");
                lemma_list_one_line_each(fs@, 0);
                lemma_list_one_line_each(fs@, 1);
                let a = "Pair<"@ + kotlin_type(fs@[0]);
                lemma_one_line_concat("Pair<"@, kotlin_type(fs@[0]));
                lemma_one_line_concat(a, ", "@);
                lemma_one_line_concat(a + ", "@, kotlin_type(fs@[1]));
                lemma_one_line_concat(a + ", "@ + kotlin_type(fs@[1]), ">"@);
            } else if n == 3 {
                reveal_strlit("Triple<");
                lemma_list_one_line_each(fs@, 0);
                lemma_list_one_line_each(fs@, 1);
                lemma_list_one_line_each(fs@, 2);
                let a = "Triple<"@ + kotlin_type(fs@[0]);
                let b = a + ", "@ + kotlin_type(fs@[1]);
                lemma_one_line_concat("Triple<"@, kotlin_type(fs@[0]));
                lemma_one_line_concat(a, ", "@);
                lemma_one_line_concat(a + ", "@, kotlin_type(fs@[1]));
                lemma_one_line_concat(b, ", "@);
                lemma_one_line_concat(b + ", "@, kotlin_type(fs@[2]));
                lemma_one_line_concat(b + ", "@ + kotlin_type(fs@[2]), ">"@);
            } else {
                reveal_strlit("NTuple");
                reveal_strlit("<");
                lemma_decimal_one_line(n);
                lemma_type_list_one_line(fs@);
                let a = "NTuple"@ + decimal(n);
                lemma_one_line_concat("NTuple"@, decimal(n));
                lemma_one_line_concat(a, "<"@);
                lemma_one_line_concat(a + "<"@, kotlin_type_list(fs@));
                lemma_one_line_concat(a + "<"@ + kotlin_type_list(fs@), ">"@);
            }
        },
    }
}

proof fn lemma_list_one_line_each(fs: Seq<Format>, i: int)
    requires
        names_one_line_list(fs),
        0 <= i < fs.len(),
    ensures
        names_one_line(fs[i]),
        one_line(kotlin_type(fs[i])),
    decreases fs, 0nat,
{
    if i < fs.len() - 1 {
        lemma_list_one_line_each(fs.drop_last(), i);
        assert(fs.drop_last()[i] == fs[i]);
    } else {
        lemma_type_one_line(fs.last());
    }
}

proof fn lemma_type_list_one_line(fs: Seq<Format>)
    requires
        names_one_line_list(fs),
    ensures
        one_line(kotlin_type_list(fs)),
    decreases fs, 1nat,
{
    reveal_strlit(", ");
    if fs.len() == 1 {
        lemma_list_one_line_each(fs, 0);
    } else if fs.len() > 1 {
        lemma_type_list_one_line(fs.drop_last());
        lemma_type_one_line(fs.last());
        lemma_one_line_concat(kotlin_type_list(fs.drop_last()), ", "@);
        lemma_one_line_concat(kotlin_type_list(fs.drop_last()) + ", "@, kotlin_type(fs.last()));
    }
}

/// Law: a one-element tuple is written as its element, an empty tuple as
/// `Unit`, an array of a known size as a list, an option as its type with
/// `?`; a type is written on one line when the names in it are; and a fresh
/// writer holds exactly the type.
pub proof fn law_type_text(x: Format, c: Format, n: usize)
    ensures
        forall|v: Vec<Format>| v@ == seq![x] ==> #[trigger] kotlin_type(Format::Tuple(v))
            == kotlin_type(x),
        forall|v: Vec<Format>| v@.len() == 0 ==> #[trigger] kotlin_type(Format::Tuple(v))
            == "Unit"@,
        kotlin_type(Format::TupleArray { content: Box::new(c), size: n }) == kotlin_type(
            Format::Sequence(Box::new(c)),
        ),
        kotlin_type(Format::Sequence(Box::new(c))) == "List<"@ + kotlin_type(c) + ">"@,
        kotlin_type(Format::Optional(Box::new(x))) == kotlin_type(x) + "?"@,
        names_one_line(x) ==> one_line(kotlin_type(x)),
        put_str(empty_state(), kotlin_type(x)).text == kotlin_type(x),
{
    if names_one_line(x) {
        lemma_type_one_line(x);
    }
    lemma_fresh_put_str(empty_state(), kotlin_type(x));
    assert(Seq::<char>::empty() + kotlin_type(x) =~= kotlin_type(x));
}

/// The last piece of `d` is text that ends a line.
pub open spec fn ends_with_line(d: Seq<Piece>) -> bool {
    d.len() > 0 && (d.last() matches Piece::Text(s) && s.len() > 0 && s.last() == '\n')
}

/// Concatenated with a document that ends with a line, a document ends
/// with that line.
proof fn lemma_ends_with_line_concat(a: Seq<Piece>, b: Seq<Piece>)
    requires
        ends_with_line(b),
    ensures
        ends_with_line(a + b),
        (a + b).last() == b.last(),
{
    assert((a + b).last() == b.last());
}

proof fn lemma_serialize_ends(field: Seq<char>, f: Format, level: nat)
    ensures
        ends_with_line(serialize_doc(field, f, level)),
    decreases f, 1nat,
{
    let close = close_block();
    assert(ends_with_line(close));
    match f {
        Format::Optional(g) => {
            lemma_lambda_ends(*g, level);
            lemma_ends_with_line_concat(
                txt(field + ".serializeOptionOf(serializer) "@),
                serialize_lambda_doc(*g, level),
            );
        },
        Format::Sequence(g) => {
            lemma_lambda_ends(*g, level);
            lemma_ends_with_line_concat(
                txt(field + ".serialize(serializer) "@),
                serialize_lambda_doc(*g, level),
            );
        },
        Format::SetOf(g) => {
            lemma_lambda_ends(*g, level);
            lemma_ends_with_line_concat(
                txt(field + ".serialize(serializer) "@),
                serialize_lambda_doc(*g, level),
            );
        },
        Format::MapOf { key, value } => {
            let m = serialize_map_lambda_doc(f, level);
            let k = serialize_doc("key"@, *key, level + 1);
            let v = serialize_doc("value"@, *value, level + 1);
            assert(m == open_block_inline() + txt(" key, value ->\n"@) + k + v + close);
            lemma_ends_with_line_concat(open_block_inline() + txt(" key, value ->\n"@) + k + v, close);
            lemma_ends_with_line_concat(txt(field + ".serialize(serializer) "@), m);
        },
        Format::Tuple(fs) => {
            if fs@.len() == 1 {
                lemma_serialize_ends(field, fs@[0], level);
            } else if fs@.len() == 2 {
                lemma_serialize_ends(field + ".second"@, fs@[1], level);
                lemma_ends_with_line_concat(
                    serialize_doc(field + ".first"@, fs@[0], level),
                    serialize_doc(field + ".second"@, fs@[1], level),
                );
            } else if fs@.len() == 3 {
                lemma_serialize_ends(field + ".third"@, fs@[2], level);
                lemma_ends_with_line_concat(
                    serialize_doc(field + ".first"@, fs@[0], level) + serialize_doc(
                        field + ".second"@,
                        fs@[1],
                        level,
                    ),
                    serialize_doc(field + ".third"@, fs@[2], level),
                );
            } else if fs@.len() >= 4 {
                lemma_components_ends(field, fs@, level);
            }
        },
        _ => {},
    }
}

proof fn lemma_components_ends(field: Seq<char>, fs: Seq<Format>, level: nat)
    requires
        fs.len() > 0,
    ensures
        ends_with_line(serialize_components_doc(field, fs, level)),
    decreases fs, 0nat,
{
    let name = field + ".component"@ + decimal(fs.len()) + "()"@;
    lemma_serialize_ends(name, fs.last(), level);
    lemma_ends_with_line_concat(
        serialize_components_doc(field, fs.drop_last(), level),
        serialize_doc(name, fs.last(), level),
    );
}

proof fn lemma_lambda_ends(g: Format, level: nat)
    ensures
        ends_with_line(serialize_lambda_doc(g, level)),
        serialize_lambda_doc(g, level).last() == close_block().last(),
    decreases g, 2nat,
{
    let close = close_block();
    assert(ends_with_line(close));
    if is_leaf(g) {
        lemma_ends_with_line_concat(open_block() + serialize_doc("it"@, g, level + 1), close);
    } else {
        let name = level_name(level + 1);
        lemma_ends_with_line_concat(
            open_block_inline() + txt(" "@ + name + " ->\n"@) + serialize_doc(name, g, level + 1),
            close,
        );
    }
}

/// A document whose last piece ends a line gives a fresh writer text that
/// ends with a line break, and ends the line from any state.
proof fn lemma_ends_with_line_text(d: Seq<Piece>)
    requires
        ends_with_line(d),
    ensures
        fresh_text(d).len() > 0,
        fresh_text(d).last() == '\n',
        ends_line(d),
{
    let s = match d.last() {
        Piece::Text(s) => s,
        _ => Seq::empty(),
    };
    assert(d =~= d.drop_last() + seq![Piece::Text(s)]);
    lemma_text_ends_with(empty_state(), d.drop_last(), s);
    lemma_ends_with_newline(d, s);
}

/// Law: a one-element tuple is serialized as its element and an empty
/// tuple as the unit value; the statements that serialize any value make
/// text that ends with a line break, end the line, and leave the
/// indentation as they found it.
pub proof fn law_serialize_text(field: Seq<char>, x: Format, level: nat)
    ensures
        forall|v: Vec<Format>| v@ == seq![x] ==> #[trigger] serialize_doc(field, Format::Tuple(v), level)
            == serialize_doc(field, x, level),
        forall|v: Vec<Format>| v@.len() == 0 ==> #[trigger] serialize_doc(field, Format::Tuple(v), level)
            == serialize_doc(field, Format::Unit, level),
        fresh_text(serialize_doc(field, Format::Unit, level)) == "serializer.serialize_unit("@ + field
            + ")\n"@,
        fresh_text(serialize_doc(field, x, level)).len() > 0,
        fresh_text(serialize_doc(field, x, level)).last() == '\n',
        ends_line(serialize_doc(field, x, level)),
        keeps_indent(serialize_doc(field, x, level)),
{
    lemma_serialize_ends(field, x, level);
    lemma_ends_with_line_text(serialize_doc(field, x, level));
    lemma_serialize_keeps(field, x, level);
    let l = ("serializer.serialize_"@ + "unit"@ + "("@ + field + ")"@).push('\n');
    lemma_run_one(empty_state(), Piece::Text(l));
    lemma_fresh_put_str(empty_state(), l);
    assert(Seq::<char>::empty() + l =~= "serializer.serialize_unit("@ + field + ")\n"@) by {
        reveal_strlit("serializer.serialize_");
        reveal_strlit("unit");
        reveal_strlit("(");
        reveal_strlit(")");
        reveal_strlit("serializer.serialize_unit(");
        reveal_strlit(")\n");
    }
}

/// The comments as `/// ` lines.
pub open spec fn comment_lines(comments: Seq<Seq<char>>) -> Seq<char>
    decreases comments.len(),
{
    if comments.len() == 0 {
        Seq::empty()
    } else {
        comment_lines(comments.drop_last()) + "/// "@ + comments.last() + "\n"@
    }
}

/// A line on a fresh writer is its text and a line break.
pub proof fn lemma_fresh_line(s: Seq<char>)
    ensures
        fresh_text(line(s)) == s.push('\n'),
        fresh_text(txt(s)) == s,
        starts_with_text(line(s)),
{
    lemma_run_one(empty_state(), Piece::Text(s.push('\n')));
    lemma_fresh_put_str(empty_state(), s.push('\n'));
    lemma_run_one(empty_state(), Piece::Text(s));
    lemma_fresh_put_str(empty_state(), s);
    assert(Seq::<char>::empty() + s.push('\n') =~= s.push('\n'));
    assert(Seq::<char>::empty() + s =~= s);
}

proof fn lemma_comment_lines(cs: Seq<Seq<char>>)
    ensures
        fresh_text(doc_comments_doc(cs)) == comment_lines(cs),
    decreases cs.len(),
{
    if cs.len() == 0 {
        lemma_run_empty(empty_state());
    } else {
        lemma_comment_lines(cs.drop_last());
        lemma_doc_comments_keeps(cs.drop_last());
        let l = "/// "@ + cs.last();
        lemma_fresh_line(l);
        lemma_fresh_concat(doc_comments_doc(cs.drop_last()), line(l));
        assert(l.push('\n') =~= "/// "@ + cs.last() + "\n"@) by {
            reveal_strlit("\n");
        }
        assert(comment_lines(cs.drop_last()) + ("/// "@ + cs.last() + "\n"@) =~= comment_lines(cs));
    }
}

/// Law: a field is written as its comments, each on a `/// ` line, then
/// `val`, its name, its type, ` = null` for an option, and a comma, on one
/// line.
pub proof fn law_field_text(field: FieldModel, camel: Seq<char>)
    ensures
        fresh_text(field_decl_doc(field, camel)) == comment_lines(field.comments) + "val "@ + camel
            + ": "@ + kotlin_type(field.value) + null_default(field.value) + ",\n"@,
        null_default(field.value) == if field.value is Optional {
            " = null"@
        } else {
            Seq::empty()
        },
{
    let t = "val "@ + camel + ": "@ + kotlin_type(field.value) + null_default(field.value)
        + ",\n"@;
    lemma_comment_lines(field.comments);
    lemma_doc_comments_keeps(field.comments);
    lemma_fresh_line(t);
    assert(t.len() > 0) by {
        reveal_strlit("val ");
    }
    lemma_fresh_concat(doc_comments_doc(field.comments), txt(t));
    assert(comment_lines(field.comments) + t =~= comment_lines(field.comments) + "val "@ + camel
        + ": "@ + kotlin_type(field.value) + null_default(field.value) + ",\n"@);
}

/// The text of the expression that deserializes a leaf.
pub open spec fn leaf_expr_text(f: Format) -> Seq<char> {
    match f {
        Format::TypeName(q) => qualified_name(q) + ".deserialize(deserializer)"@,
        _ => "deserializer.deserialize_"@ + native_suffix(f) + "()"@,
    }
}

proof fn lemma_native_suffix_one_line(f: Format)
    ensures
        one_line(native_suffix(f)),
{
    match f {
        Format::Unit => reveal_strlit("unit"),
        Format::Bool => reveal_strlit("bool"),
        Format::I8 => reveal_strlit("i8"),
        Format::I16 => reveal_strlit("i16"),
        Format::I32 => reveal_strlit("i32"),
        Format::I64 => reveal_strlit("i64"),
        Format::I128 => reveal_strlit("i128"),
        Format::U8 => reveal_strlit("u8"),
        Format::U16 => reveal_strlit("u16"),
        Format::U32 => reveal_strlit("u32"),
        Format::U64 => reveal_strlit("u64"),
        Format::U128 => reveal_strlit("u128"),
        Format::F32 => reveal_strlit("f32"),
        Format::F64 => reveal_strlit("f64"),
        Format::Char => reveal_strlit("char"),
        Format::Str => reveal_strlit("str"),
        Format::Bytes => reveal_strlit("bytes"),
        _ => {},
    }
}

/// A leaf is deserialized by one piece of text, on one line when the names
/// in it are.
proof fn lemma_leaf_expr(f: Format)
    requires
        is_leaf(f),
    ensures
        deserialize_expr_doc(f) == txt(leaf_expr_text(f)),
        leaf_expr_text(f).len() > 0,
        names_one_line(f) ==> one_line(leaf_expr_text(f)),
{
    reveal_strlit(".deserialize(deserializer)");
    reveal_strlit("deserializer.deserialize_");
    reveal_strlit("()");
    lemma_native_suffix_one_line(f);
    if let Format::TypeName(q) = f {
        if names_one_line(f) {
            lemma_one_line_concat(qualified_name(q), ".deserialize(deserializer)"@);
        }
    } else {
        lemma_one_line_concat("deserializer.deserialize_"@, native_suffix(f));
        lemma_one_line_concat("deserializer.deserialize_"@ + native_suffix(f), "()"@);
    }
}

/// The expression that deserializes anything but a collection begins with
/// text.
proof fn lemma_expr_starts(f: Format)
    requires
        !is_collection(f),
    ensures
        starts_with_text(deserialize_expr_doc(f)),
{
    let e = deserialize_expr_doc(f);
    match f {
        Format::Tuple(fs) => {
            reveal_strlit("deserializer.deserialize_unit()");
            reveal_strlit("run ");
            if fs@.len() == 1 {
                let a = line("deserializer.increase_container_depth()"@);
                assert(e[0] == a[0]);
            } else if fs@.len() >= 2 {
                assert(e[0] == txt("run "@)[0]);
            }
        },
        Format::TupleArray { content, size } => {
            reveal_strlit("buildList(");
            let a = "buildList("@ + decimal(size as nat) + ") { repeat("@ + decimal(size as nat)
                + ") { add("@;
            assert(e[0] == txt(a)[0]);
        },
        _ => {
            lemma_leaf_expr(f);
        },
    }
}

/// Law: a named value is deserialized as `val name =` and its expression:
/// a collection on the following lines, one level deeper, anything else on
/// the same line after a space.
pub proof fn law_deserialize_named_text(n: Seq<char>, f: Format, newline: bool)
    ensures
        is_collection(f) ==> fresh_text(deserialize_doc(Some(n), f, newline)) == "val "@ + n
            + " =\n"@ + shifted(indent_unit(), fresh_text(deserialize_doc(None, f, newline))),
        !is_collection(f) ==> fresh_text(deserialize_doc(Some(n), f, newline)) == "val "@ + n
            + " = "@ + fresh_text(deserialize_doc(None, f, newline)),
{
    let x = deserialize_doc(None, f, newline);
    let e = deserialize_expr_doc(f);
    let d = deserialize_doc(Some(n), f, newline);
    let st0 = empty_state();
    lemma_deserialize_keeps(None, f, newline);
    if is_collection(f) {
        let h = "val "@ + n + " =\n"@;
        assert(x =~= e);
        assert(d =~= txt(h) + seq![Piece::Indent] + x + seq![Piece::Unindent]);
        lemma_run_one(st0, Piece::Text(h));
        lemma_fresh_put_str(st0, h);
        lemma_put_str_extends(st0, h);
        assert(h.last() == '\n') by {
            reveal_strlit(" =\n");
        }
        let s1 = run(st0, txt(h));
        lemma_run_one(s1, Piece::Indent);
        let s2 = run(s1, seq![Piece::Indent]);
        assert(s2.indent =~= indent_unit());
        assert(s1.text =~= h);
        law_text_at_depth(s2, x);
        let s3 = run(s2, x);
        lemma_run_one(s3, Piece::Unindent);
        lemma_run_concat(st0, txt(h), seq![Piece::Indent]);
        lemma_run_concat(st0, txt(h) + seq![Piece::Indent], x);
        lemma_run_concat(st0, txt(h) + seq![Piece::Indent] + x, seq![Piece::Unindent]);
    } else {
        let h = "val "@ + n + " = "@;
        assert(d =~= txt(h) + x);
        lemma_expr_starts(f);
        assert(x[0] == e[0]);
        lemma_fresh_line(h);
        assert(h.len() > 0) by {
            reveal_strlit("val ");
        }
        lemma_keeps_txt(h);
        lemma_fresh_concat(txt(h), x);
    }
}

/// `t` ends with a closing brace on a line of its own end.
pub open spec fn ends_with_brace(t: Seq<char>) -> bool {
    t.len() >= 2 && t[t.len() - 2] == '}' && t[t.len() - 1] == '\n'
}

/// After a closing block, and possibly one level less, the text ends with
/// a closing brace and a line break.
proof fn lemma_brace_text(st: WriterState, p: Seq<Piece>, r: Seq<Piece>)
    requires
        r == Seq::<Piece>::empty() || r == seq![Piece::Unindent],
    ensures
        ends_with_brace(run(st, p + close_block() + r).text),
{
    lemma_run_concat(st, p, close_block());
    lemma_run_concat(st, p + close_block(), r);
    let x = run(st, p);
    assert(close_block() =~= seq![Piece::Unindent] + seq![Piece::Text(seq!['}', '\n'])]);
    lemma_run_concat(x, seq![Piece::Unindent], seq![Piece::Text(seq!['}', '\n'])]);
    lemma_run_one(x, Piece::Unindent);
    let y = run(x, seq![Piece::Unindent]);
    lemma_run_one(y, Piece::Text(seq!['}', '\n']));
    lemma_put_str_two(y, '}', '\n');
    let z = run(st, p + close_block());
    if r.len() == 0 {
        lemma_run_empty(z);
    } else {
        lemma_run_one(z, Piece::Unindent);
    }
}

/// A collection, and a tuple of two elements or more, is deserialized by an
/// expression that ends with a closing block.
proof fn lemma_expr_ends_close(f: Format)
    requires
        is_collection(f) || (f matches Format::Tuple(fs) && fs@.len() >= 2),
    ensures
        deserialize_expr_doc(f).len() >= 2,
        deserialize_expr_doc(f) == deserialize_expr_doc(f).take(
            deserialize_expr_doc(f).len() - 2,
        ) + close_block(),
{
    let e = deserialize_expr_doc(f);
    match f {
        Format::Sequence(g) => {
            let a = txt("deserializer.deserializeListOf "@) + open_block() + deserialize_doc(
                None,
                *g,
                true,
            );
            assert(e =~= a + close_block());
            lemma_split_close(e, a);
        },
        Format::Optional(g) => {
            let a = txt("deserializer.deserializeOptionOf "@) + open_block() + deserialize_doc(
                None,
                *g,
                true,
            );
            assert(e =~= a + close_block());
            lemma_split_close(e, a);
        },
        Format::SetOf(g) => {
            let a = txt("deserializer.deserializeSetOf "@) + open_block() + deserialize_doc(
                None,
                *g,
                true,
            );
            assert(e =~= a + close_block());
            lemma_split_close(e, a);
        },
        Format::MapOf { key, value } => {
            let a = txt("deserializer.deserializeMapOf "@) + open_block() + deserialize_entry_doc(
                "key"@,
                *key,
            ) + deserialize_entry_doc("value"@, *value) + line("Pair(key, value)"@);
            assert(e =~= a + close_block());
            lemma_split_close(e, a);
        },
        Format::Tuple(fs) => {
            if fs@.len() == 2 {
                let a = txt("run "@) + open_block() + txt("val first = "@) + deserialize_doc(
                    None,
                    fs@[0],
                    true,
                ) + txt("val second = "@) + deserialize_doc(None, fs@[1], true) + line(
                    "Pair(first, second)"@,
                );
                lemma_split_close(e, a);
            } else if fs@.len() == 3 {
                let a = txt("run "@) + open_block() + txt("val first = "@) + deserialize_doc(
                    None,
                    fs@[0],
                    true,
                ) + txt("val second = "@) + deserialize_doc(None, fs@[1], true) + txt(
                    "val third = "@,
                ) + deserialize_doc(None, fs@[2], true) + line("Triple(first, second, third)"@);
                lemma_split_close(e, a);
            } else {
                let a = txt("run "@) + open_block() + deserialize_values_doc(fs@) + txt(
                    "NTuple"@ + decimal(fs@.len()) + "("@ + value_names(fs@.len()) + ")\n"@,
                );
                lemma_split_close(e, a);
            }
        },
        _ => {},
    }
}

proof fn lemma_split_close(e: Seq<Piece>, a: Seq<Piece>)
    requires
        e == a + close_block(),
    ensures
        e.len() >= 2,
        e == e.take(e.len() - 2) + close_block(),
{
    assert(e.take(e.len() - 2) =~= a);
}

/// Law: where the line ends after a deserialized value: collections and
/// tuples end their own lines, whether or not the end of the line is asked
/// for, collections and larger tuples with a closing brace; anything else
/// ends the line only when asked. A leaf, or an array of leaves, fits on
/// one line when the names do; and the indentation is left as it was.
pub proof fn law_deserialize_line_end(name: Option<Seq<char>>, f: Format, newline: bool)
    ensures
        (is_collection(f) || f is Tuple) ==> deserialize_doc(name, f, true) == deserialize_doc(
            name,
            f,
            false,
        ),
        !(is_collection(f) || f is Tuple) ==> fresh_text(deserialize_doc(name, f, true))
            == fresh_text(deserialize_doc(name, f, false)).push('\n'),
        (is_collection(f) || (f matches Format::Tuple(fs) && fs@.len() >= 2)) ==> ends_with_brace(
            fresh_text(deserialize_doc(name, f, newline)),
        ),
        (names_one_line(f) && (name matches Some(n) ==> one_line(n)) && (is_leaf(f) || (
        f matches Format::TupleArray { content, .. } && is_leaf(*content)))) ==> one_line(
            fresh_text(deserialize_doc(name, f, false)),
        ),
        keeps_indent(deserialize_doc(name, f, newline)),
{
    lemma_deserialize_keeps(name, f, newline);
    let e = deserialize_expr_doc(f);
    let head = match name {
        Some(n) => if is_collection(f) {
            txt("val "@ + n + " =\n"@) + seq![Piece::Indent]
        } else {
            txt("val "@ + n + " = "@)
        },
        None => Seq::<Piece>::empty(),
    };
    let dedent = if name is Some && is_collection(f) {
        seq![Piece::Unindent]
    } else {
        Seq::<Piece>::empty()
    };
    let nl = txt(seq!['\n']);
    assert(deserialize_doc(name, f, false) =~= head + e + dedent);
    if !(is_collection(f) || f is Tuple) {
        let a = head + e;
        assert(deserialize_doc(name, f, true) =~= a + nl);
        assert(deserialize_doc(name, f, false) =~= a);
        lemma_run_concat(empty_state(), a, nl);
        lemma_run_one(run(empty_state(), a), Piece::Text(seq!['\n']));
        lemma_put_str_one(run(empty_state(), a), '\n');
    }
    if is_collection(f) || (f matches Format::Tuple(fs) && fs@.len() >= 2) {
        lemma_expr_ends_close(f);
        let p = head + e.take(e.len() - 2);
        assert(deserialize_doc(name, f, newline) =~= p + close_block() + dedent);
        lemma_brace_text(empty_state(), p, dedent);
    }
    if names_one_line(f) && (name matches Some(n) ==> one_line(n)) && (is_leaf(f) || (
    f matches Format::TupleArray { content, .. } && is_leaf(*content))) {
        let ex = if is_leaf(f) {
            lemma_leaf_expr(f);
            lemma_fresh_line(leaf_expr_text(f));
            leaf_expr_text(f)
        } else {
            match f {
                Format::TupleArray { content, size } => {
                    let a = "buildList("@ + decimal(size as nat) + ") { repeat("@ + decimal(
                        size as nat,
                    ) + ") { add("@;
                    let c = ") } }"@;
                    let x = leaf_expr_text(*content);
                    lemma_leaf_expr(*content);
                    assert(names_one_line(*content));
                    assert(deserialize_doc(None, *content, false) =~= txt(x));
                    assert(e =~= txt(a) + (txt(x) + txt(c)));
                    reveal_strlit("buildList(");
                    reveal_strlit(") { repeat(");
                    reveal_strlit(") { add(");
                    reveal_strlit(") } }");
                    lemma_fresh_line(a);
                    lemma_fresh_line(x);
                    lemma_fresh_line(c);
                    lemma_keeps_txt(a);
                    lemma_keeps_txt(x);
                    lemma_fresh_concat(txt(x), txt(c));
                    assert((txt(x) + txt(c))[0] == txt(x)[0]);
                    lemma_fresh_concat(txt(a), txt(x) + txt(c));
                    lemma_decimal_one_line(size as nat);
                    lemma_one_line_concat("buildList("@, decimal(size as nat));
                    lemma_one_line_concat("buildList("@ + decimal(size as nat), ") { repeat("@);
                    lemma_one_line_concat(
                        "buildList("@ + decimal(size as nat) + ") { repeat("@,
                        decimal(size as nat),
                    );
                    lemma_one_line_concat(
                        "buildList("@ + decimal(size as nat) + ") { repeat("@ + decimal(
                            size as nat,
                        ),
                        ") { add("@,
                    );
                    lemma_one_line_concat(x, c);
                    lemma_one_line_concat(a, x + c);
                    assert(a + x + c =~= a + (x + c));
                    a + (x + c)
                },
                _ => Seq::empty(),
            }
        };
        assert(fresh_text(e) == ex && one_line(ex) && starts_with_text(e));
        if let Some(n) = name {
            let h = "val "@ + n + " = "@;
            reveal_strlit("val ");
            reveal_strlit(" = ");
            lemma_fresh_line(h);
            lemma_keeps_txt(h);
            lemma_fresh_concat(txt(h), e);
            lemma_one_line_concat("val "@, n);
            lemma_one_line_concat("val "@ + n, " = "@);
            lemma_one_line_concat(h, ex);
            assert(deserialize_doc(name, f, false) =~= txt(h) + e);
        } else {
            assert(deserialize_doc(name, f, false) =~= e);
        }
    }
}

/// The statements inside `serialize` of a data class with fields: the
/// container depth around the variant index, if any, and the fields.
pub open spec fn serialize_statements_doc(
    fields: Seq<FieldModel>,
    camels: Seq<Seq<char>>,
    variant_index: Option<usize>,
) -> Seq<Piece> {
    push_serializer_doc() + match variant_index {
        Some(k) => variant_index_doc(k),
        None => Seq::empty(),
    } + field_serializers_doc(fields, camels) + pop_serializer_doc()
}

/// The line that serializes the variant index, if any.
pub open spec fn index_text(variant_index: Option<usize>) -> Seq<char> {
    match variant_index {
        Some(k) => "serializer.serialize_variant_index("@ + decimal(k as nat) + ")\n"@,
        None => Seq::empty(),
    }
}

/// The texts that serialize the fields, each on a fresh writer, one after
/// the other.
pub open spec fn serialized_fields_text(fields: Seq<FieldModel>, camels: Seq<Seq<char>>) -> Seq<
    char,
>
    decreases fields.len(),
{
    if fields.len() == 0 {
        Seq::empty()
    } else {
        serialized_fields_text(fields.drop_last(), camels) + fresh_text(
            serialize_doc(camels[fields.len() - 1], fields.last().value, 0),
        )
    }
}

/// The texts that deserialize the fields, each on a fresh writer, one after
/// the other.
pub open spec fn deserialized_fields_text(fields: Seq<FieldModel>, camels: Seq<Seq<char>>) -> Seq<
    char,
>
    decreases fields.len(),
{
    if fields.len() == 0 {
        Seq::empty()
    } else {
        deserialized_fields_text(fields.drop_last(), camels) + fresh_text(
            deserialize_doc(Some(camels[fields.len() - 1]), fields.last().value, true),
        )
    }
}

proof fn lemma_serializers_text(fields: Seq<FieldModel>, camels: Seq<Seq<char>>)
    ensures
        fresh_text(field_serializers_doc(fields, camels)) == serialized_fields_text(fields, camels),
        fields.len() > 0 ==> ends_with_line(field_serializers_doc(fields, camels)),
        keeps_indent(field_serializers_doc(fields, camels)),
    decreases fields.len(),
{
    lemma_field_serializers_keeps(fields, camels);
    if fields.len() == 0 {
        lemma_run_empty(empty_state());
    } else {
        let prev = field_serializers_doc(fields.drop_last(), camels);
        let d = serialize_doc(camels[fields.len() - 1], fields.last().value, 0);
        lemma_serializers_text(fields.drop_last(), camels);
        lemma_serialize_ends(camels[fields.len() - 1], fields.last().value, 0);
        lemma_ends_with_line_concat(prev, d);
        if fields.len() == 1 {
            assert(prev =~= Seq::<Piece>::empty());
            assert(prev + d =~= d);
            assert(Seq::<char>::empty() + fresh_text(d) =~= fresh_text(d));
        } else {
            lemma_ends_with_line_text(prev);
            lemma_fresh_concat(prev, d);
        }
    }
}

proof fn lemma_deserializers_text(fields: Seq<FieldModel>, camels: Seq<Seq<char>>)
    ensures
        fresh_text(field_deserializers_doc(fields, camels)) == deserialized_fields_text(
            fields,
            camels,
        ),
        keeps_indent(field_deserializers_doc(fields, camels)),
    decreases fields.len(),
{
    lemma_field_deserializers_keeps(fields, camels);
    if fields.len() == 0 {
        lemma_run_empty(empty_state());
    } else {
        let prev = field_deserializers_doc(fields.drop_last(), camels);
        let c = camels[fields.len() - 1];
        let d = deserialize_doc(Some(c), fields.last().value, true);
        lemma_deserializers_text(fields.drop_last(), camels);
        assert(starts_with_text(d)) by {
            reveal_strlit("val ");
            let h = if is_collection(fields.last().value) {
                "val "@ + c + " =\n"@
            } else {
                "val "@ + c + " = "@
            };
            assert(d[0] == Piece::Text(h));
        }
        lemma_fresh_concat(prev, d);
    }
}

/// A line on a fresh writer that ends with a given line break.
proof fn lemma_line_text(s: Seq<char>, t: Seq<char>)
    requires
        t == s + "\n"@,
    ensures
        fresh_text(line(s)) == t,
        keeps_indent(line(s)),
        ends_with_line(line(s)),
        starts_with_text(line(s)),
{
    reveal_strlit("\n");
    lemma_fresh_line(s);
    lemma_keeps_txt(s.push('\n'));
    assert(s.push('\n') =~= t);
}

/// Law: the body of `serialize` of a data class with fields is a block of
/// the statements that raise the container depth, serialize the variant
/// index if any, serialize each field under its Kotlin name, and lower the
/// depth; at any indentation those statements read as on a fresh writer,
/// with the indentation in front of each line.
pub proof fn law_class_serialize_body(
    fields: Seq<FieldModel>,
    camels: Seq<Seq<char>>,
    variant_index: Option<usize>,
    st: WriterState,
)
    requires
        fields.len() > 0,
    ensures
        serialize_body_doc(fields, camels, variant_index) == open_block() + serialize_statements_doc(
            fields,
            camels,
            variant_index,
        ) + close_block(),
        fresh_text(serialize_statements_doc(fields, camels, variant_index))
            == "serializer.increase_container_depth()\n"@ + index_text(variant_index)
            + serialized_fields_text(fields, camels) + "serializer.decrease_container_depth()\n"@,
        st.at_line_start ==> run(st, serialize_statements_doc(fields, camels, variant_index)).text
            == st.text + shifted(
            st.indent,
            fresh_text(serialize_statements_doc(fields, camels, variant_index)),
        ),
{
    let push = push_serializer_doc();
    let pop = pop_serializer_doc();
    let idx = match variant_index {
        Some(k) => variant_index_doc(k),
        None => Seq::<Piece>::empty(),
    };
    let fs = field_serializers_doc(fields, camels);
    assert("serializer.increase_container_depth()"@ + "\n"@ =~= "serializer.increase_container_depth()\n"@) by {
        reveal_strlit("serializer.increase_container_depth()");
        reveal_strlit("serializer.increase_container_depth()\n");
        reveal_strlit("\n");
    }
    lemma_line_text("serializer.increase_container_depth()"@, "serializer.increase_container_depth()\n"@);
    assert("serializer.decrease_container_depth()"@ + "\n"@ =~= "serializer.decrease_container_depth()\n"@) by {
        reveal_strlit("serializer.decrease_container_depth()");
        reveal_strlit("serializer.decrease_container_depth()\n");
        reveal_strlit("\n");
    }
    lemma_line_text("serializer.decrease_container_depth()"@, "serializer.decrease_container_depth()\n"@);
    assert(fresh_text(idx) == index_text(variant_index) && keeps_indent(idx)) by {
        if let Some(k) = variant_index {
            let l = "serializer.serialize_variant_index("@ + decimal(k as nat) + ")"@;
            lemma_line_text(l, l + "\n"@);
            assert(l + "\n"@ =~= "serializer.serialize_variant_index("@ + decimal(k as nat)
                + ")\n"@) by {
                reveal_strlit(")");
                reveal_strlit(")\n");
                reveal_strlit("\n");
            }
        } else {
            lemma_run_empty(empty_state());
            lemma_keeps_empty();
        }
    }
    lemma_serializers_text(fields, camels);
    lemma_ends_with_line_text(push);
    lemma_fresh_concat(push, idx);
    lemma_keeps_concat(push, idx);
    assert(ends_with_line(push + idx)) by {
        if let Some(k) = variant_index {
            let l = "serializer.serialize_variant_index("@ + decimal(k as nat) + ")"@;
            lemma_line_text(l, l + "\n"@);
            lemma_ends_with_line_concat(push, idx);
        } else {
            assert(push + idx =~= push);
        }
    }
    lemma_ends_with_line_text(push + idx);
    lemma_fresh_concat(push + idx, fs);
    lemma_keeps_concat(push + idx, fs);
    lemma_ends_with_line_concat(push + idx, fs);
    lemma_ends_with_line_text(push + idx + fs);
    lemma_fresh_concat(push + idx + fs, pop);
    lemma_keeps_concat(push + idx + fs, pop);
    assert(serialize_body_doc(fields, camels, variant_index) =~= open_block()
        + serialize_statements_doc(fields, camels, variant_index) + close_block());
    if st.at_line_start {
        law_text_at_depth(st, serialize_statements_doc(fields, camels, variant_index));
    }
}

/// Law: the body of `deserialize` of a data class with fields raises the
/// container depth, deserializes each field into a value under its Kotlin
/// name, lowers the depth and returns the class built from the names in
/// order; at any indentation it reads as on a fresh writer, with the
/// indentation in front of each line.
pub proof fn law_class_deserialize_body(
    name: Seq<char>,
    fields: Seq<FieldModel>,
    camels: Seq<Seq<char>>,
    st: WriterState,
)
    requires
        fields.len() > 0,
    ensures
        fresh_text(deserialize_body_doc(name, fields, camels))
            == "deserializer.increase_container_depth()\n"@ + deserialized_fields_text(fields, camels)
            + "deserializer.decrease_container_depth()\n"@ + "return "@ + name + "("@ + name_list(
            camels,
            fields.len(),
        ) + ")\n"@,
        st.at_line_start ==> run(st, deserialize_body_doc(name, fields, camels)).text == st.text
            + shifted(st.indent, fresh_text(deserialize_body_doc(name, fields, camels))),
{
    let push = push_deserializer_doc();
    let pop = pop_deserializer_doc();
    let ds = field_deserializers_doc(fields, camels);
    let r = "return "@ + name + "("@ + name_list(camels, fields.len()) + ")"@;
    let ret = line(r);
    assert("deserializer.increase_container_depth()"@ + "\n"@ =~= "deserializer.increase_container_depth()\n"@) by {
        reveal_strlit("deserializer.increase_container_depth()");
        reveal_strlit("deserializer.increase_container_depth()\n");
        reveal_strlit("\n");
    }
    lemma_line_text("deserializer.increase_container_depth()"@, "deserializer.increase_container_depth()\n"@);
    assert("deserializer.decrease_container_depth()"@ + "\n"@ =~= "deserializer.decrease_container_depth()\n"@) by {
        reveal_strlit("deserializer.decrease_container_depth()");
        reveal_strlit("deserializer.decrease_container_depth()\n");
        reveal_strlit("\n");
    }
    lemma_line_text("deserializer.decrease_container_depth()"@, "deserializer.decrease_container_depth()\n"@);
    lemma_line_text(r, r + "\n"@);
    lemma_deserializers_text(fields, camels);
    lemma_ends_with_line_text(push);
    lemma_fresh_concat(push, ds);
    lemma_keeps_concat(push, ds);
    lemma_fresh_concat(push + ds, pop);
    lemma_keeps_concat(push + ds, pop);
    lemma_fresh_concat(push + ds + pop, ret);
    lemma_keeps_concat(push + ds + pop, ret);
    assert(deserialize_body_doc(name, fields, camels) == push + ds + pop + ret);
    assert(r + "\n"@ =~= "return "@ + name + "("@ + name_list(camels, fields.len()) + ")\n"@) by {
        reveal_strlit(")");
        reveal_strlit(")\n");
        reveal_strlit("\n");
    }
    if st.at_line_start {
        law_text_at_depth(st, deserialize_body_doc(name, fields, camels));
    }
}

/// Text on a line already begun, with no line break, is written as it is.
proof fn lemma_put_str_inline(st: WriterState, s: Seq<char>)
    requires
        !st.at_line_start,
        one_line(s),
    ensures
        put_str(st, s).text == st.text + s,
        !put_str(st, s).at_line_start,
        put_str(st, s).indent == st.indent,
    decreases s.len(),
{
    if s.len() == 0 {
        assert(st.text + s =~= st.text);
    } else {
        lemma_put_str_inline(st, s.drop_last());
        assert((st.text + s.drop_last()).push(s.last()) =~= st.text + s);
    }
}

/// A balanced document that ends its line, written one level deep from the
/// start of a line and closed by a block, adds its text shifted one level
/// and the closing brace.
proof fn lemma_block_body(st: WriterState, x: Seq<Piece>)
    requires
        st.indent == indent_unit(),
        st.at_line_start,
        keeps_indent(x),
        ends_line(x),
    ensures
        run(st, x + close_block()).text == st.text + shifted(indent_unit(), fresh_text(x))
            + "}\n"@,
{
    law_text_at_depth(st, x);
    lemma_run_concat(st, x, close_block());
    let y = run(st, x);
    assert(close_block() =~= seq![Piece::Unindent] + seq![Piece::Text(seq!['}', '\n'])]);
    lemma_run_concat(y, seq![Piece::Unindent], seq![Piece::Text(seq!['}', '\n'])]);
    lemma_run_one(y, Piece::Unindent);
    let z = run(y, seq![Piece::Unindent]);
    assert(z.indent =~= Seq::<char>::empty());
    lemma_run_one(z, Piece::Text(seq!['}', '\n']));
    lemma_fresh_put_str(z, seq!['}', '\n']);
    assert(seq!['}', '\n'] =~= "}\n"@) by {
        reveal_strlit("}\n");
    }
}

/// Law: the lambda that serializes the elements of a collection is a block
/// that holds, one level deeper, the statements that serialize an element at
/// the next level: named `it` for a leaf, with the parameter of that level
/// named on the opening line otherwise.
pub proof fn law_serialize_lambda_text(g: Format, level: nat)
    ensures
        is_leaf(g) ==> fresh_text(serialize_lambda_doc(g, level)) == "{\n"@ + shifted(
            indent_unit(),
            fresh_text(serialize_doc("it"@, g, level + 1)),
        ) + "}\n"@,
        !is_leaf(g) ==> fresh_text(serialize_lambda_doc(g, level)) == "{ "@ + level_name(level + 1)
            + " ->\n"@ + shifted(
            indent_unit(),
            fresh_text(serialize_doc(level_name(level + 1), g, level + 1)),
        ) + "}\n"@,
{
    let st0 = empty_state();
    let name = if is_leaf(g) {
        "it"@
    } else {
        level_name(level + 1)
    };
    let x = serialize_doc(name, g, level + 1);
    lemma_serialize_keeps(name, g, level + 1);
    lemma_serialize_ends(name, g, level + 1);
    lemma_ends_with_line_text(x);
    if is_leaf(g) {
        let o = seq!['{', '\n'];
        lemma_run_concat(st0, seq![Piece::Text(o)], seq![Piece::Indent]);
        lemma_run_one(st0, Piece::Text(o));
        lemma_fresh_put_str(st0, o);
        lemma_put_str_extends(st0, o);
        let s1 = run(st0, seq![Piece::Text(o)]);
        lemma_run_one(s1, Piece::Indent);
        assert(open_block() =~= seq![Piece::Text(o)] + seq![Piece::Indent]);
        let s2 = run(st0, open_block());
        assert(s2.indent =~= indent_unit());
        lemma_block_body(s2, x);
        lemma_run_concat(st0, open_block(), x + close_block());
        assert(serialize_lambda_doc(g, level) =~= open_block() + (x + close_block()));
        assert(Seq::<char>::empty() + o =~= "{\n"@) by {
            reveal_strlit("{\n");
        }
    } else {
        let h = " "@ + name + " ->\n"@;
        let h1 = " "@ + name + " ->"@;
        let o = seq!['{'];
        assert(open_block_inline() =~= seq![Piece::Text(o)] + seq![Piece::Indent]);
        lemma_run_concat(st0, seq![Piece::Text(o)], seq![Piece::Indent]);
        lemma_run_one(st0, Piece::Text(o));
        lemma_fresh_put_str(st0, o);
        lemma_put_str_extends(st0, o);
        let s1 = run(st0, seq![Piece::Text(o)]);
        lemma_run_one(s1, Piece::Indent);
        let s2 = run(st0, open_block_inline());
        assert(h =~= h1.push('\n')) by {
            reveal_strlit(" ->\n");
            reveal_strlit(" ->");
        }
        reveal_strlit(" ");
        reveal_strlit(" ->");
        reveal_strlit("level");
        lemma_decimal_one_line(level + 1);
        lemma_one_line_concat("level"@, decimal(level + 1));
        lemma_one_line_concat(" "@, name);
        lemma_one_line_concat(" "@ + name, " ->"@);
        lemma_put_str_inline(s2, h1);
        lemma_put_str_push(s2, h1, '\n');
        lemma_run_one(s2, Piece::Text(h));
        let s3 = run(s2, txt(h));
        lemma_run_concat(st0, open_block_inline(), txt(h));
        assert(s3.indent =~= indent_unit());
        lemma_block_body(s3, x);
        lemma_run_concat(st0, open_block_inline() + txt(h), x + close_block());
        assert(serialize_lambda_doc(g, level) =~= open_block_inline() + txt(h) + (x
            + close_block()));
        assert(Seq::<char>::empty() + o + h =~= "{ "@ + name + " ->\n"@) by {
            reveal_strlit("{ ");
            reveal_strlit(" ->\n");
        }
    }
}

/// Law: a value of a named type is deserialized by calling `deserialize` on
/// the very name its Kotlin type is written with: the namespace, a dot and
/// the name, or the name alone at the root.
pub proof fn law_named_type_deserialized_by_its_type(q: QualifiedTypeName, n: Seq<char>)
    ensures
        kotlin_type(Format::TypeName(q)) == match q.namespace {
            Namespace::Root => q.name@,
            Namespace::Named(ns) => ns@ + "."@ + q.name@,
        },
        deserialize_expr_doc(Format::TypeName(q)) == txt(
            kotlin_type(Format::TypeName(q)) + ".deserialize(deserializer)"@,
        ),
        fresh_text(deserialize_doc(Some(n), Format::TypeName(q), true)) == "val "@ + n + " = "@
            + kotlin_type(Format::TypeName(q)) + ".deserialize(deserializer)\n"@,
{
    reveal_strlit(".");
    let f = Format::TypeName(q);
    let x = kotlin_type(f) + ".deserialize(deserializer)"@;
    law_deserialize_named_text(n, f, true);
    let nl = txt(seq!['\n']);
    assert(deserialize_doc(None, f, true) =~= txt(x) + nl);
    lemma_fresh_line(x);
    lemma_fresh_line(seq!['\n']);
    lemma_keeps_txt(x);
    lemma_fresh_concat(txt(x), nl);
    assert(x + seq!['\n'] =~= kotlin_type(f) + ".deserialize(deserializer)\n"@) by {
        reveal_strlit(".deserialize(deserializer)");
        reveal_strlit(".deserialize(deserializer)\n");
    }
    assert("val "@ + n + " = "@ + (x + seq!['\n']) =~= "val "@ + n + " = "@ + kotlin_type(f)
        + ".deserialize(deserializer)\n"@);
}

/// Law: without bincode a sealed interface holds no serialization code:
/// its documentation, the JSON annotations for JSON, the head, the variants,
/// and the closing brace.
pub proof fn law_sealed_interface_without_bincode(
    name: Seq<char>,
    vs: Seq<Named<VariantFormat>>,
    comments: Seq<Seq<char>>,
    encoding: Encoding,
)
    requires
        encoding != Encoding::Bincode,
    ensures
        sealed_interface_doc(name, vs, comments, encoding) == doc_comments_doc(comments) + (if encoding
            == Encoding::Json {
            json_lines(name)
        } else {
            Seq::empty()
        }) + txt("sealed interface "@ + name + " "@) + open_block() + sealed_variants_doc(
            name,
            vs,
            encoding,
        ) + close_block(),
{
    assert(sealed_interface_doc(name, vs, comments, encoding) =~= doc_comments_doc(comments) + (
    if encoding == Encoding::Json {
        json_lines(name)
    } else {
        Seq::empty()
    }) + txt("sealed interface "@ + name + " "@) + open_block() + sealed_variants_doc(
        name,
        vs,
        encoding,
    ) + close_block());
}

/// `@Serializable` and `@SerialName("name")`, each on a line.
pub open spec fn json_lines(name: Seq<char>) -> Seq<Piece> {
    line("@Serializable"@) + line("@SerialName(\""@ + name + "\")"@)
}

/// `d` begins with `p`.
pub open spec fn begins_with(d: Seq<Piece>, p: Seq<Piece>) -> bool {
    p.len() <= d.len() && d.take(p.len() as int) == p
}

/// The documentation and, with JSON, the annotations with the name.
pub open spec fn declaration_head(name: Seq<char>, comments: Seq<Seq<char>>, encoding: Encoding) -> Seq<
    Piece,
> {
    doc_comments_doc(comments) + if encoding == Encoding::Json {
        json_lines(name)
    } else {
        Seq::empty()
    }
}

proof fn lemma_head(name: Seq<char>, comments: Seq<Seq<char>>, encoding: Encoding)
    ensures
        doc_comments_doc(comments) + json_annotations_doc(name, encoding) == declaration_head(
            name,
            comments,
            encoding,
        ),
{
    assert(json_annotations_doc(name, encoding) =~= if encoding == Encoding::Json {
        json_lines(name)
    } else {
        Seq::<Piece>::empty()
    });
}

/// Law: a data object, at the top or as a variant, begins with its
/// documentation, with JSON then `@Serializable` and `@SerialName` with its
/// own name, and `data object` and the name; without JSON no annotation.
pub proof fn law_data_object_annotated(
    name: Seq<char>,
    interface: Option<Seq<char>>,
    comments: Seq<Seq<char>>,
    encoding: Encoding,
    variant_index: Option<usize>,
)
    ensures
        begins_with(
            data_object_doc(name, interface, comments, encoding, variant_index),
            declaration_head(name, comments, encoding) + txt("data object "@ + name),
        ),
{
    lemma_head(name, comments, encoding);
    let a = declaration_head(name, comments, encoding) + txt("data object "@ + name);
    let d = data_object_doc(name, interface, comments, encoding, variant_index);
    assert(d.take(a.len() as int) =~= a);
}

/// Law: a data class, at the top or as a variant, begins with its
/// documentation, with JSON then `@Serializable` and `@SerialName` with its
/// own name, and `data class`, the name and `(` on a line; without JSON no
/// annotation.
pub proof fn law_data_class_annotated(
    name: Seq<char>,
    interface: Option<Seq<char>>,
    fields: Seq<FieldModel>,
    camels: Seq<Seq<char>>,
    comments: Seq<Seq<char>>,
    encoding: Encoding,
    variant_index: Option<usize>,
)
    ensures
        begins_with(
            data_class_doc(name, interface, fields, camels, comments, encoding, variant_index),
            declaration_head(name, comments, encoding) + line("data class "@ + name + "("@),
        ),
{
    lemma_head(name, comments, encoding);
    let a = declaration_head(name, comments, encoding) + line("data class "@ + name + "("@);
    let d = data_class_doc(name, interface, fields, camels, comments, encoding, variant_index);
    assert(d.take(a.len() as int) =~= a);
}

/// Law: an enum class begins with its documentation, with JSON then
/// `@Serializable` and `@SerialName` with its own name, and `enum class`,
/// the name and `{` on a line; without JSON no annotation.
pub proof fn law_enum_class_annotated(
    name: Seq<char>,
    vs: Seq<(u32, Named<VariantFormat>)>,
    uppers: Seq<Seq<char>>,
    comments: Seq<Seq<char>>,
    encoding: Encoding,
)
    ensures
        begins_with(
            enum_class_doc(name, vs, uppers, comments, encoding),
            declaration_head(name, comments, encoding) + line("enum class "@ + name + " {"@),
        ),
{
    lemma_head(name, comments, encoding);
    let a = declaration_head(name, comments, encoding) + line("enum class "@ + name + " {"@);
    let d = enum_class_doc(name, vs, uppers, comments, encoding);
    assert(d.take(a.len() as int) =~= a);
}

/// Law: a sealed interface begins with its documentation, with JSON then
/// `@Serializable` and `@SerialName` with its own name, and
/// `sealed interface` and the name; without JSON no annotation.
pub proof fn law_sealed_interface_annotated(
    name: Seq<char>,
    vs: Seq<Named<VariantFormat>>,
    comments: Seq<Seq<char>>,
    encoding: Encoding,
)
    ensures
        begins_with(
            sealed_interface_doc(name, vs, comments, encoding),
            declaration_head(name, comments, encoding) + txt("sealed interface "@ + name + " "@),
        ),
{
    lemma_head(name, comments, encoding);
    let a = declaration_head(name, comments, encoding) + txt("sealed interface "@ + name + " "@);
    let d = sealed_interface_doc(name, vs, comments, encoding);
    assert(d.take(a.len() as int) =~= a);
}

} // verus!
