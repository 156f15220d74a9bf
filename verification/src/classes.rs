//! Kotlin data objects and data classes, with their documentation, fields
//! and bincode serialization.
use vstd::prelude::*;

use crate::casing::{lower_camel_case, to_lower_camel_case};
use crate::deserialize::{
    deserialize_doc, name_view, pop_deserializer_doc, push_deserializer_doc,
};
use crate::kotlin_type::kotlin_type;
use crate::model::{height, Doc, Encoding, Format, Named};
use crate::serialize::{pop_serializer_doc, push_serializer_doc, serialize_doc};
use crate::text::{
    close_block, decimal, lemma_put_str_concat, lemma_run_concat, lemma_run_one, line,
    open_block, put_str, run, txt, IndentedWriter, Piece,
};
use crate::Kotlin;

verus! {

/// The comments of a documentation.
pub open spec fn comments_view(d: Doc) -> Seq<Seq<char>> {
    d.comments@.map_values(|s: String| s@)
}

/// A field as the emitter sees it: name, comments and format.
pub struct FieldModel {
    pub name: Seq<char>,
    pub comments: Seq<Seq<char>>,
    pub value: Format,
}

/// A field of a data class, borrowed from where it is defined.
pub struct FieldRef<'a> {
    pub name: &'a str,
    pub doc: &'a Doc,
    pub value: &'a Format,
}

impl<'a> View for FieldRef<'a> {
    type V = FieldModel;

    open spec fn view(&self) -> FieldModel {
        FieldModel { name: self.name@, comments: comments_view(*self.doc), value: *self.value }
    }
}

/// The models of a list of fields.
pub open spec fn field_models(fields: Seq<FieldRef>) -> Seq<FieldModel> {
    fields.map_values(|f: FieldRef| f@)
}

/// The model of a named format.
pub open spec fn named_model(f: Named<Format>) -> FieldModel {
    FieldModel { name: f.name@, comments: comments_view(f.doc), value: f.value }
}

/// The views of a list of strings.
pub open spec fn strings_view(v: Seq<String>) -> Seq<Seq<char>> {
    v.map_values(|s: String| s@)
}

/// The names that the fields get in Kotlin: their names in lower camel case.
pub open spec fn camel_names(fields: Seq<FieldModel>) -> Seq<Seq<char>> {
    fields.map_values(|f: FieldModel| lower_camel_case(f.name))
}

/// Every field's format nests less deeply than the machine can count.
pub open spec fn fields_fit(fields: Seq<FieldModel>) -> bool {
    forall|i: int| 0 <= i < fields.len() ==> height(#[trigger] fields[i].value) < usize::MAX
}

/// One `/// comment` line per comment.
pub open spec fn doc_comments_doc(comments: Seq<Seq<char>>) -> Seq<Piece>
    decreases comments.len(),
{
    if comments.len() == 0 {
        Seq::empty()
    } else {
        doc_comments_doc(comments.drop_last()) + line("/// "@ + comments.last())
    }
}

/// ` = null` for an optional field, nothing otherwise.
pub open spec fn null_default(f: Format) -> Seq<char> {
    if f is Optional {
        " = null"@
    } else {
        Seq::empty()
    }
}

/// The declaration of a field in the constructor of a data class.
pub open spec fn field_decl_doc(field: FieldModel, camel: Seq<char>) -> Seq<Piece> {
    doc_comments_doc(field.comments) + txt(
        "val "@ + camel + ": "@ + kotlin_type(field.value) + null_default(field.value) + ",\n"@,
    )
}

/// The declarations of the fields, one after the other.
pub open spec fn field_decls_doc(fields: Seq<FieldModel>, camels: Seq<Seq<char>>) -> Seq<Piece>
    decreases fields.len(),
{
    if fields.len() == 0 {
        Seq::empty()
    } else {
        field_decls_doc(fields.drop_last(), camels) + field_decl_doc(
            fields.last(),
            camels[fields.len() - 1],
        )
    }
}

/// The statements that serialize the fields, one after the other.
pub open spec fn field_serializers_doc(fields: Seq<FieldModel>, camels: Seq<Seq<char>>) -> Seq<
    Piece,
>
    decreases fields.len(),
{
    if fields.len() == 0 {
        Seq::empty()
    } else {
        field_serializers_doc(fields.drop_last(), camels) + serialize_doc(
            camels[fields.len() - 1],
            fields.last().value,
            0,
        )
    }
}

/// The statements that deserialize the fields, one after the other.
pub open spec fn field_deserializers_doc(fields: Seq<FieldModel>, camels: Seq<Seq<char>>) -> Seq<
    Piece,
>
    decreases fields.len(),
{
    if fields.len() == 0 {
        Seq::empty()
    } else {
        field_deserializers_doc(fields.drop_last(), camels) + deserialize_doc(
            Some(camels[fields.len() - 1]),
            fields.last().value,
            true,
        )
    }
}

/// The first `n` names, separated by commas.
pub open spec fn name_list(names: Seq<Seq<char>>, n: nat) -> Seq<char>
    decreases n,
{
    if n == 0 {
        Seq::empty()
    } else if n == 1 {
        names[0]
    } else {
        name_list(names, (n - 1) as nat) + ", "@ + names[n - 1]
    }
}

/// `@Serializable` and `@SerialName("name")` for JSON, nothing otherwise.
pub open spec fn json_annotations_doc(name: Seq<char>, encoding: Encoding) -> Seq<Piece> {
    if encoding == Encoding::Json {
        line("@Serializable"@) + line("@SerialName(\""@ + name + "\")"@)
    } else {
        Seq::empty()
    }
}

/// The interface that a class implements, after `prefix`, if any.
pub open spec fn interface_doc(prefix: Seq<char>, interface: Option<Seq<char>>) -> Seq<Piece> {
    match interface {
        Some(i) => txt(prefix + i),
        None => Seq::empty(),
    }
}

/// `override ` for a variant of a sealed interface.
pub open spec fn override_doc(variant_index: Option<usize>) -> Seq<Piece> {
    if variant_index is Some {
        txt("override "@)
    } else {
        Seq::empty()
    }
}

/// `serializer.serialize_variant_index(k)` on a line.
pub open spec fn variant_index_doc(k: usize) -> Seq<Piece> {
    line("serializer.serialize_variant_index("@ + decimal(k as nat) + ")"@)
}

/// The end of the current line.
pub open spec fn newline_doc() -> Seq<Piece> {
    txt(seq!['\n'])
}

/// The `bincodeSerialize` method.
pub open spec fn bincode_serialize_doc() -> Seq<Piece> {
    txt(
        "fun bincodeSerialize(): ByteArray {\n    val serializer = BincodeSerializer()\n    serialize(serializer)\n    return serializer._bytes\n}\n"@,
    )
}

/// The `bincodeDeserialize` method of type `name`.
pub open spec fn bincode_deserialize_doc(name: Seq<char>) -> Seq<Piece> {
    txt(
        "@Throws(DeserializationError::class)\nfun bincodeDeserialize(input: ByteArray?): "@ + name
            + " {\n    if (input == null) {\n        throw DeserializationError(\"Cannot deserialize null array\")\n    }\n    val deserializer = BincodeDeserializer(input)\n    val value = deserialize(deserializer)\n    if (deserializer._buffer_offset < input.size) {\n        throw DeserializationError(\"Some input bytes were not read\")\n    }\n    return value\n}\n"@,
    )
}

/// A data object: a type with no fields.  With bincode it serializes the
/// variant index when it is a variant, and the top-level type gets the
/// `bincodeSerialize` and `bincodeDeserialize` methods.
pub open spec fn data_object_doc(
    name: Seq<char>,
    interface: Option<Seq<char>>,
    comments: Seq<Seq<char>>,
    encoding: Encoding,
    variant_index: Option<usize>,
) -> Seq<Piece> {
    doc_comments_doc(comments) + json_annotations_doc(name, encoding) + txt("data object "@ + name)
        + interface_doc(": "@, interface) + if encoding == Encoding::Bincode {
        txt(" "@) + open_block() + override_doc(variant_index) + txt(
            "fun serialize(serializer: Serializer) "@,
        ) + match variant_index {
            Some(k) => open_block() + push_serializer_doc() + variant_index_doc(k)
                + pop_serializer_doc() + close_block(),
            None => txt("{}\n"@),
        } + newline_doc() + (if variant_index is None {
            bincode_serialize_doc() + newline_doc()
        } else {
            Seq::empty()
        }) + txt("fun deserialize(deserializer: Deserializer): "@ + name + " "@) + open_block()
            + line("return "@ + name) + close_block() + (if variant_index is None {
            newline_doc() + bincode_deserialize_doc(name)
        } else {
            Seq::empty()
        }) + close_block()
    } else {
        newline_doc()
    }
}

/// The body of `serialize` of a data class: an empty block without fields;
/// otherwise the container depth around the variant index, if any, and the
/// fields.
pub open spec fn serialize_body_doc(
    fields: Seq<FieldModel>,
    camels: Seq<Seq<char>>,
    variant_index: Option<usize>,
) -> Seq<Piece> {
    if fields.len() == 0 {
        txt("{}\n"@)
    } else {
        open_block() + push_serializer_doc() + match variant_index {
            Some(k) => variant_index_doc(k),
            None => Seq::empty(),
        } + field_serializers_doc(fields, camels) + pop_serializer_doc() + close_block()
    }
}

/// The body of `deserialize` of a data class: the fields inside the
/// container depth, and the constructor called on them.
pub open spec fn deserialize_body_doc(
    name: Seq<char>,
    fields: Seq<FieldModel>,
    camels: Seq<Seq<char>>,
) -> Seq<Piece> {
    if fields.len() == 0 {
        line("return "@ + name + "()"@)
    } else {
        push_deserializer_doc() + field_deserializers_doc(fields, camels) + pop_deserializer_doc()
            + line("return "@ + name + "("@ + name_list(camels, fields.len()) + ")"@)
    }
}

/// `bincodeSerialize` and an empty line, for a top-level type.
pub open spec fn top_serialize_doc(variant_index: Option<usize>) -> Seq<Piece> {
    if variant_index is None {
        bincode_serialize_doc() + newline_doc()
    } else {
        Seq::empty()
    }
}

/// An empty line and `bincodeDeserialize`, for a top-level type.
pub open spec fn top_deserialize_doc(name: Seq<char>, variant_index: Option<usize>) -> Seq<Piece> {
    if variant_index is None {
        newline_doc() + bincode_deserialize_doc(name)
    } else {
        Seq::empty()
    }
}

/// The head of a data class: documentation, annotations and the
/// constructor with the field declarations.
pub open spec fn class_header_doc(
    name: Seq<char>,
    fields: Seq<FieldModel>,
    camels: Seq<Seq<char>>,
    comments: Seq<Seq<char>>,
    encoding: Encoding,
) -> Seq<Piece> {
    doc_comments_doc(comments) + json_annotations_doc(name, encoding) + line(
        "data class "@ + name + "("@,
    ) + seq![Piece::Indent] + field_decls_doc(fields, camels) + seq![Piece::Unindent] + txt(")"@)
}

/// The opening of the body of a class with bincode, and its `serialize`.
pub open spec fn class_serialize_doc(
    fields: Seq<FieldModel>,
    camels: Seq<Seq<char>>,
    variant_index: Option<usize>,
) -> Seq<Piece> {
    txt(" "@) + open_block() + override_doc(variant_index) + txt(
        "fun serialize(serializer: Serializer) "@,
    ) + serialize_body_doc(fields, camels, variant_index) + newline_doc() + top_serialize_doc(
        variant_index,
    )
}

/// The companion object of a class with bincode, with `deserialize`, and
/// the end of the class.
pub open spec fn class_companion_doc(
    name: Seq<char>,
    fields: Seq<FieldModel>,
    camels: Seq<Seq<char>>,
    variant_index: Option<usize>,
) -> Seq<Piece> {
    txt("companion object "@) + open_block() + txt(
        "fun deserialize(deserializer: Deserializer): "@ + name + " "@,
    ) + open_block() + deserialize_body_doc(name, fields, camels) + close_block()
        + top_deserialize_doc(name, variant_index) + close_block() + close_block()
}

/// A data class with the given fields, whose Kotlin names are `camels`.
pub open spec fn data_class_doc(
    name: Seq<char>,
    interface: Option<Seq<char>>,
    fields: Seq<FieldModel>,
    camels: Seq<Seq<char>>,
    comments: Seq<Seq<char>>,
    encoding: Encoding,
    variant_index: Option<usize>,
) -> Seq<Piece> {
    class_header_doc(name, fields, camels, comments, encoding) + interface_doc(" : "@, interface)
        + if encoding == Encoding::Bincode {
        class_serialize_doc(fields, camels, variant_index) + class_companion_doc(
            name,
            fields,
            camels,
            variant_index,
        )
    } else {
        newline_doc()
    }
}

impl Kotlin {
    /// Writes the documentation: a `/// ` line per comment.
    pub fn write_doc(w: &mut IndentedWriter, doc: &Doc)
        ensures
            final(w)@ == run(old(w)@, doc_comments_doc(comments_view(*doc))),
    {
        let ghost st = w@;
        let ghost cs = comments_view(*doc);
        let n = doc.comments.len();
        let mut i: usize = 0;
        proof {
            assert(cs.take(0) =~= Seq::<Seq<char>>::empty());
            crate::text::lemma_run_empty(st);
        }
        while i < n
            invariant
                n == doc.comments@.len(),
                cs == comments_view(*doc),
                0 <= i <= n,
                w@ == run(st, doc_comments_doc(cs.take(i as int))),
            decreases n - i,
        {
            w.write3_line("/// ", doc.comments[i].as_str(), "");
            proof {
                reveal_strlit("");
                let next = cs.take(i + 1);
                assert(next.drop_last() =~= cs.take(i as int));
                assert(next.last() == doc.comments@[i as int]@);
                assert("/// "@ + doc.comments@[i as int]@ + ""@ =~= "/// "@ + next.last());
                lemma_run_concat(
                    st,
                    doc_comments_doc(cs.take(i as int)),
                    line("/// "@ + next.last()),
                );
            }
            i = i + 1;
        }
        proof {
            assert(cs.take(n as int) =~= cs);
        }
    }

    /// Writes the declaration of a field whose Kotlin name is `camel`.
    pub fn write_field_named(w: &mut IndentedWriter, field: &FieldRef, camel: &str)
        ensures
            final(w)@ == run(old(w)@, field_decl_doc(field@, camel@)),
    {
        let ghost st = w@;
        Self::write_doc(w, field.doc);
        let ghost d0 = doc_comments_doc(comments_view(*field.doc));
        let ghost mid = w@;
        w.write3("val ", camel, ": ");
        Self::write_type(w, field.value);
        let optional = match field.value {
            Format::Optional(_) => true,
            _ => false,
        };
        if optional {
            w.write_str(" = null");
        }
        w.write_str(",\n");
        proof {
            let a = "val "@ + camel@ + ": "@;
            let b = kotlin_type(*field.value);
            let c = null_default(*field.value);
            let d = ",\n"@;
            lemma_run_one(mid, Piece::Text(a));
            lemma_put_str_concat(mid, a, b);
            if optional {
                lemma_put_str_concat(mid, a + b, c);
            } else {
                assert(a + b + c =~= a + b);
            }
            lemma_put_str_concat(mid, a + b + c, d);
            lemma_run_one(mid, Piece::Text(a + b + c + d));
            lemma_run_concat(st, d0, txt(a + b + c + d));
        }
    }

    /// Writes the declaration of a field, named in lower camel case.
    pub fn write_field(w: &mut IndentedWriter, field: &Named<Format>)
        ensures
            final(w)@ == run(
                old(w)@,
                field_decl_doc(named_model(*field), lower_camel_case(field.name@)),
            ),
    {
        let camel = to_lower_camel_case(field.name.as_str());
        let r = FieldRef { name: field.name.as_str(), doc: &field.doc, value: &field.value };
        Self::write_field_named(w, &r, camel.as_str());
    }

    /// Writes `@Serializable` and `@SerialName("name")` for JSON.
    pub(crate) fn write_json_annotations(w: &mut IndentedWriter, name: &str, encoding: Encoding)
        ensures
            final(w)@ == run(old(w)@, json_annotations_doc(name@, encoding)),
    {
        if encoding.is_json() {
            w.write3_line("@Serializable", "", "");
            w.write3_line("@SerialName(\"", name, "\")");
            proof {
                reveal_strlit("");
                assert("@Serializable"@ + ""@ + ""@ =~= "@Serializable"@);
                lemma_run_concat(
                    old(w)@,
                    line("@Serializable"@),
                    line("@SerialName(\""@ + name@ + "\")"@),
                );
            }
        } else {
            proof {
                crate::text::lemma_run_empty(old(w)@);
            }
        }
    }

    /// Writes the `bincodeSerialize` method.
    pub fn write_bincode_serialize(w: &mut IndentedWriter)
        ensures
            final(w)@ == run(old(w)@, bincode_serialize_doc()),
    {
        w.write_txt(
            "fun bincodeSerialize(): ByteArray {\n    val serializer = BincodeSerializer()\n    serialize(serializer)\n    return serializer._bytes\n}\n",
        );
    }

    /// Writes the `bincodeDeserialize` method of type `name`.
    pub fn write_bincode_deserialize(w: &mut IndentedWriter, name: &str)
        ensures
            final(w)@ == run(old(w)@, bincode_deserialize_doc(name@)),
    {
        w.write3(
            "@Throws(DeserializationError::class)\nfun bincodeDeserialize(input: ByteArray?): ",
            name,
            " {\n    if (input == null) {\n        throw DeserializationError(\"Cannot deserialize null array\")\n    }\n    val deserializer = BincodeDeserializer(input)\n    val value = deserialize(deserializer)\n    if (deserializer._buffer_offset < input.size) {\n        throw DeserializationError(\"Some input bytes were not read\")\n    }\n    return value\n}\n",
        );
    }

    /// Writes `serializer.serialize_variant_index(k)`.
    fn write_variant_index(w: &mut IndentedWriter, k: usize)
        ensures
            final(w)@ == run(old(w)@, variant_index_doc(k)),
    {
        let ghost st = w@;
        w.write_str("serializer.serialize_variant_index(");
        w.write_decimal(k as u64);
        w.write_str(")\n");
        proof {
            let a = "serializer.serialize_variant_index("@;
            let d = decimal(k as nat);
            lemma_put_str_concat(st, a, d);
            lemma_put_str_concat(st, a + d, ")\n"@);
            assert(a + d + ")\n"@ =~= (a + d + ")"@).push('\n')) by {
                reveal_strlit(")\n");
                reveal_strlit(")");
            }
            lemma_run_one(st, Piece::Text(a + d + ")\n"@));
        }
    }

    /// Writes the interface that a class implements, after `prefix`.
    fn write_interface(w: &mut IndentedWriter, prefix: &str, interface: Option<&str>)
        ensures
            final(w)@ == run(old(w)@, interface_doc(prefix@, name_view(interface))),
    {
        if let Some(i) = interface {
            w.write3(prefix, i, "");
            proof {
                reveal_strlit("");
                assert(prefix@ + i@ + ""@ =~= prefix@ + i@);
            }
        } else {
            proof {
                crate::text::lemma_run_empty(old(w)@);
            }
        }
    }

    /// Writes a data object: a type without fields.
    pub fn data_object(
        w: &mut IndentedWriter,
        name: &str,
        interface: Option<&str>,
        doc: &Doc,
        encoding: Encoding,
        variant_index: Option<usize>,
    )
        ensures
            final(w)@ == run(
                old(w)@,
                data_object_doc(
                    name@,
                    name_view(interface),
                    comments_view(*doc),
                    encoding,
                    variant_index,
                ),
            ),
    {
        let ghost st = w@;
        let ghost mut acc: Seq<Piece> = Seq::empty();
        Self::write_doc(w, doc);
        proof {
            acc = doc_comments_doc(comments_view(*doc));
        }
        Self::write_json_annotations(w, name, encoding);
        proof {
            lemma_run_concat(st, acc, json_annotations_doc(name@, encoding));
            acc = acc + json_annotations_doc(name@, encoding);
        }
        w.write3("data object ", name, "");
        proof {
            reveal_strlit("");
            assert("data object "@ + name@ + ""@ =~= "data object "@ + name@);
            lemma_run_concat(st, acc, txt("data object "@ + name@));
            acc = acc + txt("data object "@ + name@);
        }
        Self::write_interface(w, ": ", interface);
        proof {
            lemma_run_concat(st, acc, interface_doc(": "@, name_view(interface)));
            acc = acc + interface_doc(": "@, name_view(interface));
        }
        let ghost head = acc;
        if encoding.is_bincode() {
            w.write_txt(" ");
            w.start_block();
            proof {
                lemma_run_concat(st, acc, txt(" "@));
                acc = acc + txt(" "@);
                lemma_run_concat(st, acc, open_block());
                acc = acc + open_block();
            }
            if variant_index.is_some() {
                w.write_txt("override ");
            }
            proof {
                if variant_index is None {
                    assert(acc + override_doc(variant_index) =~= acc);
                }
                lemma_run_concat(st, acc, override_doc(variant_index));
                acc = acc + override_doc(variant_index);
            }
            w.write_txt("fun serialize(serializer: Serializer) ");
            proof {
                lemma_run_concat(st, acc, txt("fun serialize(serializer: Serializer) "@));
                acc = acc + txt("fun serialize(serializer: Serializer) "@);
            }
            let ghost ser_body = match variant_index {
                Some(k) => open_block() + push_serializer_doc() + variant_index_doc(k)
                    + pop_serializer_doc() + close_block(),
                None => txt("{}\n"@),
            };
            let ghost before_body = w@;
            if let Some(index) = variant_index {
                w.start_block();
                Self::push_serializer(w);
                Self::write_variant_index(w, index);
                Self::pop_serializer(w);
                w.end_block();
                proof {
                    let a = open_block();
                    let b = push_serializer_doc();
                    let c = variant_index_doc(index);
                    let d = pop_serializer_doc();
                    lemma_run_concat(before_body, a, b);
                    lemma_run_concat(before_body, a + b, c);
                    lemma_run_concat(before_body, a + b + c, d);
                    lemma_run_concat(before_body, a + b + c + d, close_block());
                }
            } else {
                w.empty_block();
            }
            proof {
                lemma_run_concat(st, acc, ser_body);
                acc = acc + ser_body;
            }
            w.end_line();
            proof {
                lemma_run_concat(st, acc, newline_doc());
                acc = acc + newline_doc();
            }
            let ghost top_ser = if variant_index is None {
                bincode_serialize_doc() + newline_doc()
            } else {
                Seq::empty()
            };
            let ghost before_top = w@;
            if variant_index.is_none() {
                Self::write_bincode_serialize(w);
                w.end_line();
                proof {
                    lemma_run_concat(before_top, bincode_serialize_doc(), newline_doc());
                }
            }
            proof {
                lemma_run_concat(st, acc, top_ser);
                acc = acc + top_ser;
            }
            w.write3("fun deserialize(deserializer: Deserializer): ", name, " ");
            w.start_block();
            w.write3_line("return ", name, "");
            w.end_block();
            proof {
                reveal_strlit("");
                assert("return "@ + name@ + ""@ =~= "return "@ + name@);
                let a = txt("fun deserialize(deserializer: Deserializer): "@ + name@ + " "@);
                lemma_run_concat(st, acc, a);
                acc = acc + a;
                lemma_run_concat(st, acc, open_block());
                acc = acc + open_block();
                lemma_run_concat(st, acc, line("return "@ + name@));
                acc = acc + line("return "@ + name@);
                lemma_run_concat(st, acc, close_block());
                acc = acc + close_block();
            }
            let ghost top_de = if variant_index is None {
                newline_doc() + bincode_deserialize_doc(name@)
            } else {
                Seq::empty()
            };
            let ghost before_de = w@;
            if variant_index.is_none() {
                w.end_line();
                Self::write_bincode_deserialize(w, name);
                proof {
                    lemma_run_concat(before_de, newline_doc(), bincode_deserialize_doc(name@));
                }
            }
            proof {
                lemma_run_concat(st, acc, top_de);
                acc = acc + top_de;
            }
            w.end_block();
            proof {
                lemma_run_concat(st, acc, close_block());
                acc = acc + close_block();
                assert(acc =~= data_object_doc(
                    name@,
                    name_view(interface),
                    comments_view(*doc),
                    encoding,
                    variant_index,
                ));
            }
        } else {
            w.end_line();
            proof {
                lemma_run_concat(st, acc, newline_doc());
                acc = acc + newline_doc();
                assert(acc =~= data_object_doc(
                    name@,
                    name_view(interface),
                    comments_view(*doc),
                    encoding,
                    variant_index,
                ));
            }
        }
    }
}

impl Kotlin {
    /// Writes the declarations of the fields.
    fn write_field_decls(w: &mut IndentedWriter, fields: &Vec<FieldRef>, camels: &Vec<String>)
        requires
            camels@.len() == fields@.len(),
        ensures
            final(w)@ == run(
                old(w)@,
                field_decls_doc(field_models(fields@), strings_view(camels@)),
            ),
    {
        let ghost st = w@;
        let ghost models = field_models(fields@);
        let ghost names = strings_view(camels@);
        let n = fields.len();
        let mut i: usize = 0;
        proof {
            assert(models.take(0) =~= Seq::<FieldModel>::empty());
            crate::text::lemma_run_empty(st);
        }
        while i < n
            invariant
                n == fields@.len(),
                camels@.len() == n,
                models == field_models(fields@),
                names == strings_view(camels@),
                0 <= i <= n,
                w@ == run(st, field_decls_doc(models.take(i as int), names)),
            decreases n - i,
        {
            Self::write_field_named(w, &fields[i], camels[i].as_str());
            proof {
                let next = models.take(i + 1);
                assert(next.drop_last() =~= models.take(i as int));
                assert(next.last() == fields@[i as int]@);
                lemma_run_concat(
                    st,
                    field_decls_doc(models.take(i as int), names),
                    field_decl_doc(fields@[i as int]@, camels@[i as int]@),
                );
            }
            i = i + 1;
        }
        proof {
            assert(models.take(n as int) =~= models);
        }
    }

    /// Writes the statements that serialize the fields.
    fn write_field_serializers(
        w: &mut IndentedWriter,
        fields: &Vec<FieldRef>,
        camels: &Vec<String>,
    )
        requires
            camels@.len() == fields@.len(),
            fields_fit(field_models(fields@)),
        ensures
            final(w)@ == run(
                old(w)@,
                field_serializers_doc(field_models(fields@), strings_view(camels@)),
            ),
    {
        let ghost st = w@;
        let ghost models = field_models(fields@);
        let ghost names = strings_view(camels@);
        let n = fields.len();
        let mut i: usize = 0;
        proof {
            assert(models.take(0) =~= Seq::<FieldModel>::empty());
            crate::text::lemma_run_empty(st);
        }
        while i < n
            invariant
                n == fields@.len(),
                camels@.len() == n,
                models == field_models(fields@),
                names == strings_view(camels@),
                fields_fit(models),
                0 <= i <= n,
                w@ == run(st, field_serializers_doc(models.take(i as int), names)),
            decreases n - i,
        {
            proof {
                assert(models[i as int].value == *fields@[i as int].value);
                assert(height(models[i as int].value) < usize::MAX);
            }
            Self::write_serialize(w, camels[i].as_str(), fields[i].value, 0);
            proof {
                let next = models.take(i + 1);
                assert(next.drop_last() =~= models.take(i as int));
                assert(next.last() == fields@[i as int]@);
                lemma_run_concat(
                    st,
                    field_serializers_doc(models.take(i as int), names),
                    serialize_doc(camels@[i as int]@, *fields@[i as int].value, 0),
                );
            }
            i = i + 1;
        }
        proof {
            assert(models.take(n as int) =~= models);
        }
    }

    /// Writes the statements that deserialize the fields.
    fn write_field_deserializers(
        w: &mut IndentedWriter,
        fields: &Vec<FieldRef>,
        camels: &Vec<String>,
    )
        requires
            camels@.len() == fields@.len(),
        ensures
            final(w)@ == run(
                old(w)@,
                field_deserializers_doc(field_models(fields@), strings_view(camels@)),
            ),
    {
        let ghost st = w@;
        let ghost models = field_models(fields@);
        let ghost names = strings_view(camels@);
        let n = fields.len();
        let mut i: usize = 0;
        proof {
            assert(models.take(0) =~= Seq::<FieldModel>::empty());
            crate::text::lemma_run_empty(st);
        }
        while i < n
            invariant
                n == fields@.len(),
                camels@.len() == n,
                models == field_models(fields@),
                names == strings_view(camels@),
                0 <= i <= n,
                w@ == run(st, field_deserializers_doc(models.take(i as int), names)),
            decreases n - i,
        {
            Self::write_deserialize(w, Some(camels[i].as_str()), fields[i].value, true);
            proof {
                let next = models.take(i + 1);
                assert(next.drop_last() =~= models.take(i as int));
                assert(next.last() == fields@[i as int]@);
                lemma_run_concat(
                    st,
                    field_deserializers_doc(models.take(i as int), names),
                    deserialize_doc(Some(camels@[i as int]@), *fields@[i as int].value, true),
                );
            }
            i = i + 1;
        }
        proof {
            assert(models.take(n as int) =~= models);
        }
    }

    /// Writes the first `n` names, separated by commas.
    fn write_name_list(w: &mut IndentedWriter, names: &Vec<String>, n: usize)
        requires
            n <= names@.len(),
        ensures
            final(w)@ == put_str(old(w)@, name_list(strings_view(names@), n as nat)),
    {
        let ghost st = w@;
        let ghost views = strings_view(names@);
        let mut i: usize = 0;
        while i < n
            invariant
                n <= names@.len(),
                views == strings_view(names@),
                0 <= i <= n,
                w@ == put_str(st, name_list(views, i as nat)),
            decreases n - i,
        {
            let ghost before = name_list(views, i as nat);
            if i > 0 {
                w.write_str(", ");
            }
            w.write_str(names[i].as_str());
            proof {
                if i > 0 {
                    lemma_put_str_concat(st, before, ", "@);
                    lemma_put_str_concat(st, before + ", "@, names@[i as int]@);
                } else {
                    lemma_put_str_concat(st, before, names@[i as int]@);
                    assert(before + names@[i as int]@ =~= name_list(views, 1));
                }
            }
            i = i + 1;
        }
    }

    /// Writes the opening of a class body with bincode and its `serialize`.
    fn write_class_serialize(
        w: &mut IndentedWriter,
        fields: &Vec<FieldRef>,
        camels: &Vec<String>,
        variant_index: Option<usize>,
    )
        requires
            camels@.len() == fields@.len(),
            fields_fit(field_models(fields@)),
        ensures
            final(w)@ == run(
                old(w)@,
                class_serialize_doc(field_models(fields@), strings_view(camels@), variant_index),
            ),
    {
        let ghost st = w@;
        let ghost models = field_models(fields@);
        let ghost names = strings_view(camels@);
        let ghost mut acc: Seq<Piece> = Seq::empty();
        w.write_txt(" ");
        w.start_block();
        proof {
            lemma_run_concat(st, txt(" "@), open_block());
            acc = txt(" "@) + open_block();
        }
        if variant_index.is_some() {
            w.write_txt("override ");
        }
        proof {
            if variant_index is None {
                assert(acc + override_doc(variant_index) =~= acc);
            }
            lemma_run_concat(st, acc, override_doc(variant_index));
            acc = acc + override_doc(variant_index);
        }
        w.write_txt("fun serialize(serializer: Serializer) ");
        proof {
            lemma_run_concat(st, acc, txt("fun serialize(serializer: Serializer) "@));
            acc = acc + txt("fun serialize(serializer: Serializer) "@);
        }
        let ghost before_body = w@;
        if fields.len() == 0 {
            w.empty_block();
        } else {
            w.start_block();
            Self::push_serializer(w);
            let ghost idx_doc = match variant_index {
                Some(k) => variant_index_doc(k),
                None => Seq::empty(),
            };
            let ghost before_idx = w@;
            if let Some(index) = variant_index {
                Self::write_variant_index(w, index);
            } else {
                proof {
                    crate::text::lemma_run_empty(before_idx);
                }
            }
            Self::write_field_serializers(w, fields, camels);
            Self::pop_serializer(w);
            w.end_block();
            proof {
                let a = open_block();
                let b = push_serializer_doc();
                let c = idx_doc;
                let d = field_serializers_doc(models, names);
                let e = pop_serializer_doc();
                lemma_run_concat(before_body, a, b);
                lemma_run_concat(before_body, a + b, c);
                lemma_run_concat(before_body, a + b + c, d);
                lemma_run_concat(before_body, a + b + c + d, e);
                lemma_run_concat(before_body, a + b + c + d + e, close_block());
            }
        }
        proof {
            lemma_run_concat(st, acc, serialize_body_doc(models, names, variant_index));
            acc = acc + serialize_body_doc(models, names, variant_index);
        }
        w.end_line();
        proof {
            lemma_run_concat(st, acc, newline_doc());
            acc = acc + newline_doc();
        }
        let ghost before_top = w@;
        if variant_index.is_none() {
            Self::write_bincode_serialize(w);
            w.end_line();
            proof {
                lemma_run_concat(before_top, bincode_serialize_doc(), newline_doc());
            }
        } else {
            proof {
                crate::text::lemma_run_empty(before_top);
            }
        }
        proof {
            lemma_run_concat(st, acc, top_serialize_doc(variant_index));
            acc = acc + top_serialize_doc(variant_index);
            assert(acc =~= class_serialize_doc(models, names, variant_index));
        }
    }

    /// Writes the companion object of a class with bincode and closes it.
    fn write_class_companion(
        w: &mut IndentedWriter,
        name: &str,
        fields: &Vec<FieldRef>,
        camels: &Vec<String>,
        variant_index: Option<usize>,
    )
        requires
            camels@.len() == fields@.len(),
        ensures
            final(w)@ == run(
                old(w)@,
                class_companion_doc(
                    name@,
                    field_models(fields@),
                    strings_view(camels@),
                    variant_index,
                ),
            ),
    {
        let ghost st = w@;
        let ghost models = field_models(fields@);
        let ghost names = strings_view(camels@);
        let ghost mut acc: Seq<Piece> = Seq::empty();
        w.write_txt("companion object ");
        w.start_block();
        w.write3("fun deserialize(deserializer: Deserializer): ", name, " ");
        w.start_block();
        proof {
            let a = txt("companion object "@);
            let b = open_block();
            let c = txt("fun deserialize(deserializer: Deserializer): "@ + name@ + " "@);
            lemma_run_concat(st, a, b);
            lemma_run_concat(st, a + b, c);
            lemma_run_concat(st, a + b + c, open_block());
            acc = a + b + c + open_block();
        }
        let ghost before_body = w@;
        if fields.len() == 0 {
            w.write3_line("return ", name, "()");
        } else {
            Self::push_deserializer(w);
            Self::write_field_deserializers(w, fields, camels);
            Self::pop_deserializer(w);
            let ghost before_ret = w@;
            w.write3("return ", name, "(");
            Self::write_name_list(w, camels, fields.len());
            w.write_str(")\n");
            proof {
                let a = "return "@ + name@ + "("@;
                let b = name_list(names, fields@.len() as nat);
                lemma_run_one(before_ret, Piece::Text(a));
                lemma_put_str_concat(before_ret, a, b);
                lemma_put_str_concat(before_ret, a + b, ")\n"@);
                assert(a + b + ")\n"@ =~= (a + b + ")"@).push('\n')) by {
                    reveal_strlit(")\n");
                    reveal_strlit(")");
                }
                lemma_run_one(before_ret, Piece::Text(a + b + ")\n"@));
                let p = push_deserializer_doc();
                let q = field_deserializers_doc(models, names);
                let r = pop_deserializer_doc();
                lemma_run_concat(before_body, p, q);
                lemma_run_concat(before_body, p + q, r);
                lemma_run_concat(before_body, p + q + r, line(a + b + ")"@));
            }
        }
        proof {
            lemma_run_concat(st, acc, deserialize_body_doc(name@, models, names));
            acc = acc + deserialize_body_doc(name@, models, names);
        }
        w.end_block();
        proof {
            lemma_run_concat(st, acc, close_block());
            acc = acc + close_block();
        }
        let ghost before_top = w@;
        if variant_index.is_none() {
            w.end_line();
            Self::write_bincode_deserialize(w, name);
            proof {
                lemma_run_concat(before_top, newline_doc(), bincode_deserialize_doc(name@));
            }
        } else {
            proof {
                crate::text::lemma_run_empty(before_top);
            }
        }
        proof {
            lemma_run_concat(st, acc, top_deserialize_doc(name@, variant_index));
            acc = acc + top_deserialize_doc(name@, variant_index);
        }
        w.end_block();
        w.end_block();
        proof {
            lemma_run_concat(st, acc, close_block());
            lemma_run_concat(st, acc + close_block(), close_block());
            acc = acc + close_block() + close_block();
            assert(acc =~= class_companion_doc(name@, models, names, variant_index));
        }
    }

    /// Writes a data class whose fields have the Kotlin names `camels`.
    pub fn data_class_named(
        w: &mut IndentedWriter,
        name: &str,
        interface: Option<&str>,
        fields: &Vec<FieldRef>,
        camels: &Vec<String>,
        doc: &Doc,
        encoding: Encoding,
        variant_index: Option<usize>,
    )
        requires
            camels@.len() == fields@.len(),
            fields_fit(field_models(fields@)),
        ensures
            final(w)@ == run(
                old(w)@,
                data_class_doc(
                    name@,
                    name_view(interface),
                    field_models(fields@),
                    strings_view(camels@),
                    comments_view(*doc),
                    encoding,
                    variant_index,
                ),
            ),
    {
        let ghost st = w@;
        let ghost models = field_models(fields@);
        let ghost names = strings_view(camels@);
        let ghost mut acc: Seq<Piece> = Seq::empty();
        Self::write_doc(w, doc);
        Self::write_json_annotations(w, name, encoding);
        w.write3_line("data class ", name, "(");
        w.indent();
        Self::write_field_decls(w, fields, camels);
        w.unindent();
        w.write_txt(")");
        proof {
            let a = doc_comments_doc(comments_view(*doc));
            let b = json_annotations_doc(name@, encoding);
            let c = line("data class "@ + name@ + "("@);
            let d = seq![Piece::Indent];
            let e = field_decls_doc(models, names);
            let f = seq![Piece::Unindent];
            let g = txt(")"@);
            lemma_run_concat(st, a, b);
            lemma_run_concat(st, a + b, c);
            lemma_run_concat(st, a + b + c, d);
            lemma_run_concat(st, a + b + c + d, e);
            lemma_run_concat(st, a + b + c + d + e, f);
            lemma_run_concat(st, a + b + c + d + e + f, g);
            acc = a + b + c + d + e + f + g;
            assert(acc == class_header_doc(name@, models, names, comments_view(*doc), encoding));
        }
        Self::write_interface(w, " : ", interface);
        proof {
            lemma_run_concat(st, acc, interface_doc(" : "@, name_view(interface)));
            acc = acc + interface_doc(" : "@, name_view(interface));
        }
        if encoding.is_bincode() {
            let ghost mid = w@;
            Self::write_class_serialize(w, fields, camels, variant_index);
            Self::write_class_companion(w, name, fields, camels, variant_index);
            proof {
                let s = class_serialize_doc(models, names, variant_index);
                let c = class_companion_doc(name@, models, names, variant_index);
                lemma_run_concat(mid, s, c);
                lemma_run_concat(st, acc, s + c);
            }
        } else {
            w.end_line();
            proof {
                lemma_run_concat(st, acc, newline_doc());
            }
        }
    }

    /// Writes a data class, naming its fields in lower camel case.
    pub fn data_class(
        w: &mut IndentedWriter,
        name: &str,
        interface: Option<&str>,
        fields: &Vec<FieldRef>,
        doc: &Doc,
        encoding: Encoding,
        variant_index: Option<usize>,
    )
        requires
            fields_fit(field_models(fields@)),
        ensures
            final(w)@ == run(
                old(w)@,
                data_class_doc(
                    name@,
                    name_view(interface),
                    field_models(fields@),
                    camel_names(field_models(fields@)),
                    comments_view(*doc),
                    encoding,
                    variant_index,
                ),
            ),
    {
        let camels = Self::camel_names(fields);
        Self::data_class_named(w, name, interface, fields, &camels, doc, encoding, variant_index);
    }

    /// The names of the fields in lower camel case.
    fn camel_names(fields: &Vec<FieldRef>) -> (camels: Vec<String>)
        ensures
            strings_view(camels@) == camel_names(field_models(fields@)),
            camels@.len() == fields@.len(),
    {
        let mut camels: Vec<String> = Vec::new();
        let n = fields.len();
        let mut i: usize = 0;
        while i < n
            invariant
                n == fields@.len(),
                0 <= i <= n,
                camels@.len() == i,
                forall|j: int|
                    0 <= j < i ==> #[trigger] camels@[j]@ == lower_camel_case(fields@[j].name@),
            decreases n - i,
        {
            let c = to_lower_camel_case(fields[i].name);
            camels.push(c);
            i = i + 1;
        }
        proof {
            assert(strings_view(camels@) =~= camel_names(field_models(fields@)));
        }
        camels
    }
}

} // verus!
