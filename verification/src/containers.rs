//! Enum classes, sealed interfaces, their variants, and the dispatch of a
//! container type to the right Kotlin declaration.
use vstd::prelude::*;

use crate::casing::{to_uppercase, upper_case};
use crate::classes::{
    bincode_deserialize_doc, bincode_serialize_doc, camel_names, comments_view, data_class_doc,
    data_object_doc, doc_comments_doc, field_models, fields_fit, json_annotations_doc,
    named_model, newline_doc, FieldModel, FieldRef,
};
use crate::deserialize::{name_view, pop_deserializer_doc, push_deserializer_doc};
use crate::model::{height, ContainerFormat, Doc, Encoding, Format, Named, QualifiedTypeName, VariantFormat};
use crate::serialize::{pop_serializer_doc, push_serializer_doc};
use crate::text::{
    close_block, decimal, joined, decimal_string, empty_state, lemma_put_str_concat,
    lemma_run_concat, lemma_run_one, line, open_block, put_str, run, txt, IndentedWriter, Piece,
};
use crate::variants::{
    entries_view, lists_variants, refs_view, variant_entries, variant_list, variant_values,
};
use crate::Kotlin;
use std::collections::BTreeMap;

verus! {

/// Where a variant is written: as a class in a sealed interface (named, at
/// an index), or as an entry of an enum class.
#[derive(Clone)]
pub enum VariantContext {
    SealedInterface(String, usize),
    EnumClass,
}

/// The single field of a newtype: `value`, undocumented.
pub open spec fn value_field(f: Format) -> FieldModel {
    FieldModel { name: "value"@, comments: Seq::empty(), value: f }
}

/// The fields of a tuple: `field0`, `field1`, ..., undocumented.
pub open spec fn tuple_fields(fs: Seq<Format>) -> Seq<FieldModel> {
    Seq::new(
        fs.len(),
        |i: int| FieldModel { name: "field"@ + decimal(i as nat), comments: Seq::empty(), value: fs[i] },
    )
}

/// The model of a named, borrowed format.
pub open spec fn borrowed_model(f: Named<&Format>) -> FieldModel {
    FieldModel { name: f.name@, comments: comments_view(f.doc), value: *f.value }
}

/// The fields of a variant, as a data class has them.
pub open spec fn variant_fields(v: VariantFormat) -> Seq<FieldModel> {
    match v {
        VariantFormat::Unit => Seq::empty(),
        VariantFormat::NewType(g) => seq![value_field(*g)],
        VariantFormat::Tuple(fs) => tuple_fields(fs@),
        VariantFormat::Struct(fields) => fields@.map_values(|f: Named<Format>| named_model(f)),
    }
}

/// How an entry of an enum class is written: the upper-case name, with its
/// serial name for JSON.
pub open spec fn enum_entry_text(name: Seq<char>, upper: Seq<char>, encoding: Encoding) -> Seq<
    char,
> {
    if encoding == Encoding::Json {
        "@SerialName(\""@ + name + "\") "@ + upper
    } else {
        upper
    }
}

/// A variant as a class of the sealed interface `interface`, at `index`.
pub open spec fn sealed_variant_doc(
    v: Named<VariantFormat>,
    interface: Seq<char>,
    index: usize,
    encoding: Encoding,
) -> Seq<Piece> {
    if v.value is Unit {
        data_object_doc(v.name@, Some(interface), comments_view(v.doc), encoding, Some(index))
    } else {
        data_class_doc(
            v.name@,
            Some(interface),
            variant_fields(v.value),
            camel_names(variant_fields(v.value)),
            comments_view(v.doc),
            encoding,
            Some(index),
        )
    }
}

/// A variant written in its context.
pub open spec fn variant_doc(v: Named<VariantFormat>, context: VariantContext, encoding: Encoding) -> Seq<Piece> {
    match context {
        VariantContext::SealedInterface(interface, index) => sealed_variant_doc(v, interface@, index, encoding),
        VariantContext::EnumClass => doc_comments_doc(comments_view(v.doc)) + txt(
            enum_entry_text(v.name@, upper_case(v.name@), encoding),
        ),
    }
}

/// A variant can be written in a context: an enum class takes only unit
/// variants, and every format nests less deeply than the machine counts.
pub open spec fn variant_fits(v: VariantFormat, context: VariantContext) -> bool {
    &&& context is EnumClass ==> v is Unit
    &&& fields_fit(variant_fields(v))
}

/// The entries of an enum class, separated by commas after the first index.
pub open spec fn enum_entries_doc(
    vs: Seq<(u32, Named<VariantFormat>)>,
    uppers: Seq<Seq<char>>,
    encoding: Encoding,
) -> Seq<Piece>
    decreases vs.len(),
{
    if vs.len() == 0 {
        Seq::empty()
    } else {
        enum_entries_doc(vs.drop_last(), uppers, encoding) + (if vs.last().0 > 0 {
            txt(",\n"@)
        } else {
            Seq::empty()
        }) + doc_comments_doc(comments_view(vs.last().1.doc)) + txt(
            enum_entry_text(vs.last().1.name@, uppers[vs.len() - 1], encoding),
        )
    }
}

/// The arms of `when (index)` that return the entries of an enum class.
pub open spec fn enum_arms_doc(
    vs: Seq<(u32, Named<VariantFormat>)>,
    uppers: Seq<Seq<char>>,
    encoding: Encoding,
) -> Seq<Piece>
    decreases vs.len(),
{
    if vs.len() == 0 {
        Seq::empty()
    } else {
        enum_arms_doc(vs.drop_last(), uppers, encoding) + txt(
            decimal(vs.last().0 as nat) + " -> "@,
        ) + txt(enum_entry_text(vs.last().1.name@, uppers[vs.len() - 1], encoding))
            + newline_doc()
    }
}

/// The arm of `when (index)` that rejects an unknown index.
pub open spec fn unknown_variant_doc(name: Seq<char>) -> Seq<Piece> {
    line("else -> throw DeserializationError(\"Unknown variant index for "@ + name + ": $index\")"@)
}

/// The bincode methods of an enum class.
pub open spec fn enum_bincode_doc(
    name: Seq<char>,
    vs: Seq<(u32, Named<VariantFormat>)>,
    uppers: Seq<Seq<char>>,
    encoding: Encoding,
) -> Seq<Piece> {
    txt("fun serialize(serializer: Serializer) "@) + open_block() + push_serializer_doc() + line(
        "serializer.serialize_variant_index(ordinal)"@,
    ) + pop_serializer_doc() + close_block() + newline_doc() + bincode_serialize_doc()
        + newline_doc() + txt("companion object "@) + open_block() + line(
        "@Throws(DeserializationError::class)"@,
    ) + txt("fun deserialize(deserializer: Deserializer): "@ + name + " "@) + open_block()
        + push_deserializer_doc() + line("val index = deserializer.deserialize_variant_index()"@)
        + pop_deserializer_doc() + txt("return when (index) "@) + open_block() + enum_arms_doc(
        vs,
        uppers,
        encoding,
    ) + unknown_variant_doc(name) + close_block() + close_block() + newline_doc()
        + bincode_deserialize_doc(name) + close_block()
}

/// The property through which JSON finds the serial name of an entry.
pub open spec fn serial_name_doc() -> Seq<Piece> {
    txt(
        "val serialName: String\n    get() = javaClass.getDeclaredField(name).getAnnotation(SerialName::class.java)!!.value\n"@,
    )
}

/// An enum class whose entries have the upper-case names `uppers`.
pub open spec fn enum_class_doc(
    name: Seq<char>,
    vs: Seq<(u32, Named<VariantFormat>)>,
    uppers: Seq<Seq<char>>,
    comments: Seq<Seq<char>>,
    encoding: Encoding,
) -> Seq<Piece> {
    doc_comments_doc(comments) + json_annotations_doc(name, encoding) + line(
        "enum class "@ + name + " {"@,
    ) + seq![Piece::Indent] + enum_entries_doc(vs, uppers, encoding) + line(";"@) + newline_doc()
        + (if encoding == Encoding::Json {
        serial_name_doc()
    } else if encoding == Encoding::Bincode {
        enum_bincode_doc(name, vs, uppers, encoding)
    } else {
        Seq::empty()
    }) + seq![Piece::Unindent] + line("}"@)
}

/// The upper-case names of the variants.
pub open spec fn upper_names(vs: Seq<(u32, Named<VariantFormat>)>) -> Seq<Seq<char>> {
    vs.map_values(|p: (u32, Named<VariantFormat>)| upper_case(p.1.name@))
}

/// The variants of a sealed interface, as classes, an empty line between two.
pub open spec fn sealed_variants_doc(
    name: Seq<char>,
    vs: Seq<Named<VariantFormat>>,
    encoding: Encoding,
) -> Seq<Piece>
    decreases vs.len(),
{
    if vs.len() == 0 {
        Seq::empty()
    } else {
        sealed_variants_doc(name, vs.drop_last(), encoding) + (if vs.len() > 1 {
            newline_doc()
        } else {
            Seq::empty()
        }) + sealed_variant_doc(vs.last(), name, (vs.len() - 1) as usize, encoding)
    }
}

/// The arms of `when (index)` that deserialize the variants of a sealed
/// interface, by position.
pub open spec fn sealed_arms_doc(vs: Seq<Named<VariantFormat>>) -> Seq<Piece>
    decreases vs.len(),
{
    if vs.len() == 0 {
        Seq::empty()
    } else {
        sealed_arms_doc(vs.drop_last()) + line(
            decimal((vs.len() - 1) as nat) + " -> "@ + vs.last().name@
                + ".deserialize(deserializer)"@,
        )
    }
}

/// The bincode methods at the head of a sealed interface.
pub open spec fn sealed_head_doc(encoding: Encoding) -> Seq<Piece> {
    if encoding == Encoding::Bincode {
        line("fun serialize(serializer: Serializer)"@) + newline_doc() + bincode_serialize_doc()
            + newline_doc()
    } else {
        Seq::empty()
    }
}

/// The companion object of a sealed interface with bincode.
pub open spec fn sealed_companion_doc(
    name: Seq<char>,
    vs: Seq<Named<VariantFormat>>,
    encoding: Encoding,
) -> Seq<Piece> {
    if encoding == Encoding::Bincode {
        newline_doc() + txt("companion object "@) + open_block() + line(
            "@Throws(DeserializationError::class)"@,
        ) + txt("fun deserialize(deserializer: Deserializer): "@ + name + " "@) + open_block()
            + line("val index = deserializer.deserialize_variant_index()"@) + txt(
            "return when (index) "@,
        ) + open_block() + sealed_arms_doc(vs) + unknown_variant_doc(name) + close_block()
            + close_block() + newline_doc() + bincode_deserialize_doc(name) + close_block()
    } else {
        Seq::empty()
    }
}

/// A sealed interface with a class for every variant.
pub open spec fn sealed_interface_doc(
    name: Seq<char>,
    vs: Seq<Named<VariantFormat>>,
    comments: Seq<Seq<char>>,
    encoding: Encoding,
) -> Seq<Piece> {
    doc_comments_doc(comments) + json_annotations_doc(name, encoding) + txt(
        "sealed interface "@ + name + " "@,
    ) + open_block() + sealed_head_doc(encoding) + sealed_variants_doc(name, vs, encoding)
        + sealed_companion_doc(name, vs, encoding) + close_block()
}

/// Are all variants unit variants?
pub open spec fn all_unit(vs: Seq<(u32, Named<VariantFormat>)>) -> bool {
    forall|i: int| 0 <= i < vs.len() ==> (#[trigger] vs[i]).1.value is Unit
}

/// Every format of a container nests less deeply than the machine counts.
pub open spec fn container_fits(c: ContainerFormat) -> bool {
    match c {
        ContainerFormat::UnitStruct(_) => true,
        ContainerFormat::NewTypeStruct(g, _) => height(*g) < usize::MAX,
        ContainerFormat::TupleStruct(fs, _) => fields_fit(tuple_fields(fs@)),
        ContainerFormat::Struct(fields, _) => fields_fit(
            fields@.map_values(|f: Named<Format>| named_model(f)),
        ),
        ContainerFormat::Enum(m, _) => forall|k: u32|
            #[trigger] m@.contains_key(k) ==> fields_fit(variant_fields(m@[k].value)),
    }
}

/// The Kotlin declaration of a named container: a data object for a type
/// without fields, a data class for a struct, an enum class for an enum of
/// unit variants, a sealed interface for any other enum.
pub open spec fn container_doc(
    encoding: Encoding,
    name: QualifiedTypeName,
    format: ContainerFormat,
) -> Seq<Piece> {
    let n = name.name@;
    match format {
        ContainerFormat::UnitStruct(doc) => data_object_doc(n, None, comments_view(doc), encoding, None),
        ContainerFormat::NewTypeStruct(g, doc) => data_class_doc(
            n,
            None,
            seq![value_field(*g)],
            camel_names(seq![value_field(*g)]),
            comments_view(doc),
            encoding,
            None,
        ),
        ContainerFormat::TupleStruct(fs, doc) => data_class_doc(
            n,
            None,
            tuple_fields(fs@),
            camel_names(tuple_fields(fs@)),
            comments_view(doc),
            encoding,
            None,
        ),
        ContainerFormat::Struct(fields, doc) => if fields@.len() == 0 {
            data_object_doc(n, None, comments_view(doc), encoding, None)
        } else {
            data_class_doc(
                n,
                None,
                fields@.map_values(|f: Named<Format>| named_model(f)),
                camel_names(fields@.map_values(|f: Named<Format>| named_model(f))),
                comments_view(doc),
                encoding,
                None,
            )
        },
        ContainerFormat::Enum(m, doc) => {
            let vs = variant_list(m@);
            if all_unit(vs) {
                enum_class_doc(n, vs, upper_names(vs), comments_view(doc), encoding)
            } else {
                sealed_interface_doc(n, variant_values(vs), comments_view(doc), encoding)
            }
        },
    }
}

/// When every variant of `m` is a unit variant, so is every listed one.
proof fn lemma_listed_unit(m: Map<u32, Named<VariantFormat>>)
    requires
        lists_variants(variant_list(m), m),
        forall|k: u32| #[trigger] m.contains_key(k) ==> m[k].value is Unit,
    ensures
        all_unit(variant_list(m)),
{
    let vs = variant_list(m);
    assert forall|i: int| 0 <= i < vs.len() implies (#[trigger] vs[i]).1.value is Unit by {
        assert(m.contains_key(vs[i].0));
    }
}

impl Kotlin {
    /// Borrows the fields of a struct.
    fn field_refs(fields: &Vec<Named<Format>>) -> (refs: Vec<FieldRef<'_>>)
        ensures
            field_models(refs@) == fields@.map_values(|f: Named<Format>| named_model(f)),
    {
        let mut refs: Vec<FieldRef> = Vec::new();
        let n = fields.len();
        let mut i: usize = 0;
        while i < n
            invariant
                n == fields@.len(),
                0 <= i <= n,
                refs@.len() == i,
                forall|j: int| 0 <= j < i ==> (#[trigger] refs@[j])@ == named_model(fields@[j]),
            decreases n - i,
        {
            let f = &fields[i];
            refs.push(FieldRef { name: f.name.as_str(), doc: &f.doc, value: &f.value });
            i = i + 1;
        }
        proof {
            assert(field_models(refs@) =~= fields@.map_values(|f: Named<Format>| named_model(f)));
        }
        refs
    }

    /// The fields of a tuple: `field0`, `field1`, ..., undocumented, each
    /// with its format.
    pub fn named(formats: &Vec<Format>) -> (fields: Vec<Named<&Format>>)
        ensures
            fields@.map_values(|f: Named<&Format>| borrowed_model(f)) == tuple_fields(formats@),
    {
        let mut fields: Vec<Named<&Format>> = Vec::new();
        let n = formats.len();
        let mut i: usize = 0;
        while i < n
            invariant
                n == formats@.len(),
                0 <= i <= n,
                fields@.len() == i,
                forall|j: int|
                    0 <= j < i ==> borrowed_model(#[trigger] fields@[j]) == tuple_fields(
                        formats@,
                    )[j],
            decreases n - i,
        {
            let number = decimal_string(i as u64);
            let name = joined("field", number.as_str());
            let doc = Doc { comments: Vec::new() };
            proof {
                assert(comments_view(doc) =~= Seq::<Seq<char>>::empty());
            }
            fields.push(Named { name, doc, value: &formats[i] });
            i = i + 1;
        }
        proof {
            assert(fields@.map_values(|f: Named<&Format>| borrowed_model(f)) =~= tuple_fields(
                formats@,
            ));
        }
        fields
    }

    /// Borrows fields whose formats are borrowed.
    fn borrowed_refs<'a>(fields: &'a Vec<Named<&'a Format>>) -> (refs: Vec<FieldRef<'a>>)
        ensures
            field_models(refs@) == fields@.map_values(|f: Named<&Format>| borrowed_model(f)),
    {
        let mut refs: Vec<FieldRef> = Vec::new();
        let n = fields.len();
        let mut i: usize = 0;
        while i < n
            invariant
                n == fields@.len(),
                0 <= i <= n,
                refs@.len() == i,
                forall|j: int| 0 <= j < i ==> (#[trigger] refs@[j])@ == borrowed_model(fields@[j]),
            decreases n - i,
        {
            let f = &fields[i];
            refs.push(FieldRef { name: f.name.as_str(), doc: &f.doc, value: f.value });
            i = i + 1;
        }
        proof {
            assert(field_models(refs@) =~= fields@.map_values(
                |f: Named<&Format>| borrowed_model(f),
            ));
        }
        refs
    }

    /// Writes a data class with the fields of a tuple.
    fn tuple_class(
        w: &mut IndentedWriter,
        name: &str,
        interface: Option<&str>,
        formats: &Vec<Format>,
        doc: &Doc,
        encoding: Encoding,
        variant_index: Option<usize>,
    )
        requires
            fields_fit(tuple_fields(formats@)),
        ensures
            final(w)@ == run(
                old(w)@,
                data_class_doc(
                    name@,
                    name_view(interface),
                    tuple_fields(formats@),
                    camel_names(tuple_fields(formats@)),
                    comments_view(*doc),
                    encoding,
                    variant_index,
                ),
            ),
    {
        let fields = Self::named(formats);
        let refs = Self::borrowed_refs(&fields);
        Self::data_class(w, name, interface, &refs, doc, encoding, variant_index);
    }

    /// Writes a data class with the single field `value`.
    fn newtype_class(
        w: &mut IndentedWriter,
        name: &str,
        interface: Option<&str>,
        format: &Format,
        doc: &Doc,
        encoding: Encoding,
        variant_index: Option<usize>,
    )
        requires
            height(*format) < usize::MAX,
        ensures
            final(w)@ == run(
                old(w)@,
                data_class_doc(
                    name@,
                    name_view(interface),
                    seq![value_field(*format)],
                    camel_names(seq![value_field(*format)]),
                    comments_view(*doc),
                    encoding,
                    variant_index,
                ),
            ),
    {
        let no_doc = Doc { comments: Vec::new() };
        let mut refs: Vec<FieldRef> = Vec::new();
        refs.push(FieldRef { name: "value", doc: &no_doc, value: format });
        proof {
            assert(comments_view(no_doc) =~= Seq::<Seq<char>>::empty());
            assert(field_models(refs@) =~= seq![value_field(*format)]);
        }
        Self::data_class(w, name, interface, &refs, doc, encoding, variant_index);
    }

    /// Writes a variant of a sealed interface as a class.
    fn sealed_variant(
        w: &mut IndentedWriter,
        variant: &Named<VariantFormat>,
        interface: &str,
        index: usize,
        encoding: Encoding,
    )
        requires
            fields_fit(variant_fields(variant.value)),
        ensures
            final(w)@ == run(
                old(w)@,
                sealed_variant_doc(*variant, interface@, index, encoding),
            ),
    {
        let name = variant.name.as_str();
        match &variant.value {
            VariantFormat::Unit => {
                Self::data_object(w, name, Some(interface), &variant.doc, encoding, Some(index));
            },
            VariantFormat::NewType(format) => {
                proof {
                    assert(variant_fields(variant.value)[0].value == **format);
                }
                Self::newtype_class(
                    w,
                    name,
                    Some(interface),
                    format,
                    &variant.doc,
                    encoding,
                    Some(index),
                );
            },
            VariantFormat::Tuple(formats) => {
                Self::tuple_class(
                    w,
                    name,
                    Some(interface),
                    formats,
                    &variant.doc,
                    encoding,
                    Some(index),
                );
            },
            VariantFormat::Struct(fields) => {
                let refs = Self::field_refs(fields);
                Self::data_class(
                    w,
                    name,
                    Some(interface),
                    &refs,
                    &variant.doc,
                    encoding,
                    Some(index),
                );
            },
        }
    }

    /// Writes an entry of an enum class whose upper-case name is `upper`.
    fn write_enum_entry(
        w: &mut IndentedWriter,
        name: &str,
        doc: &Doc,
        upper: &str,
        encoding: Encoding,
    )
        ensures
            final(w)@ == run(
                old(w)@,
                doc_comments_doc(comments_view(*doc)) + txt(
                    enum_entry_text(name@, upper@, encoding),
                ),
            ),
    {
        let ghost st = w@;
        Self::write_doc(w, doc);
        let ghost mid = w@;
        if encoding.is_json() {
            w.write3("@SerialName(\"", name, "\") ");
            w.write_str(upper);
            proof {
                let a = "@SerialName(\""@ + name@ + "\") "@;
                lemma_run_one(mid, Piece::Text(a));
                lemma_put_str_concat(mid, a, upper@);
                lemma_run_one(mid, Piece::Text(a + upper@));
            }
        } else {
            w.write_txt(upper);
        }
        proof {
            lemma_run_concat(
                st,
                doc_comments_doc(comments_view(*doc)),
                txt(enum_entry_text(name@, upper@, encoding)),
            );
        }
    }

    /// Writes a variant in its context: a class of a sealed interface, or an
    /// entry of an enum class.
    pub fn write_variant(
        w: &mut IndentedWriter,
        variant: &Named<VariantFormat>,
        context: &VariantContext,
        encoding: Encoding,
    )
        requires
            variant_fits(variant.value, *context),
        ensures
            final(w)@ == run(old(w)@, variant_doc(*variant, *context, encoding)),
    {
        match context {
            VariantContext::SealedInterface(interface, index) => {
                Self::sealed_variant(w, variant, interface.as_str(), *index, encoding);
            },
            VariantContext::EnumClass => {
                let upper = to_uppercase(variant.name.as_str());
                Self::write_enum_entry(
                    w,
                    variant.name.as_str(),
                    &variant.doc,
                    upper.as_str(),
                    encoding,
                );
            },
        }
    }
}

impl Kotlin {
    /// Writes the entries of an enum class.
    fn write_enum_entries(
        w: &mut IndentedWriter,
        variants: &Vec<(u32, &Named<VariantFormat>)>,
        uppers: &Vec<String>,
        encoding: Encoding,
    )
        requires
            uppers@.len() == variants@.len(),
            all_unit(entries_view(variants@)),
        ensures
            final(w)@ == run(
                old(w)@,
                enum_entries_doc(entries_view(variants@), crate::classes::strings_view(uppers@), encoding),
            ),
    {
        let ghost st = w@;
        let ghost ups = crate::classes::strings_view(uppers@);
        let n = variants.len();
        let mut i: usize = 0;
        proof {
            assert(entries_view(variants@).take(0) =~= Seq::<(u32, Named<VariantFormat>)>::empty());
            crate::text::lemma_run_empty(st);
        }
        while i < n
            invariant
                n == variants@.len(),
                uppers@.len() == n,
                ups == crate::classes::strings_view(uppers@),
                0 <= i <= n,
                w@ == run(st, enum_entries_doc(entries_view(variants@).take(i as int), ups, encoding)),
            decreases n - i,
        {
            let ghost before = enum_entries_doc(entries_view(variants@).take(i as int), ups, encoding);
            let (key, variant) = variants[i];
            let ghost comma = if key > 0 {
                txt(",\n"@)
            } else {
                Seq::<Piece>::empty()
            };
            let ghost before_comma = w@;
            if key > 0 {
                w.write_txt(",\n");
            } else {
                proof {
                    crate::text::lemma_run_empty(before_comma);
                }
            }
            Self::write_enum_entry(
                w,
                variant.name.as_str(),
                &variant.doc,
                uppers[i].as_str(),
                encoding,
            );
            proof {
                let next = entries_view(variants@).take(i + 1);
                assert(next.drop_last() =~= entries_view(variants@).take(i as int));
                assert(next.last() == entries_view(variants@)[i as int]);
                let e = doc_comments_doc(comments_view(variant.doc)) + txt(
                    enum_entry_text(variant.name@, ups[i as int], encoding),
                );
                lemma_run_concat(st, before, comma);
                lemma_run_concat(st, before + comma, e);
                assert(enum_entries_doc(next, ups, encoding) =~= before + comma + e);
            }
            i = i + 1;
        }
        proof {
            assert(entries_view(variants@).take(n as int) =~= entries_view(variants@));
        }
    }

    /// Writes the arms of `when (index)` of an enum class.
    fn write_enum_arms(
        w: &mut IndentedWriter,
        variants: &Vec<(u32, &Named<VariantFormat>)>,
        uppers: &Vec<String>,
        encoding: Encoding,
    )
        requires
            uppers@.len() == variants@.len(),
            all_unit(entries_view(variants@)),
        ensures
            final(w)@ == run(
                old(w)@,
                enum_arms_doc(entries_view(variants@), crate::classes::strings_view(uppers@), encoding),
            ),
    {
        let ghost st = w@;
        let ghost ups = crate::classes::strings_view(uppers@);
        let n = variants.len();
        let mut i: usize = 0;
        proof {
            assert(entries_view(variants@).take(0) =~= Seq::<(u32, Named<VariantFormat>)>::empty());
            crate::text::lemma_run_empty(st);
        }
        while i < n
            invariant
                n == variants@.len(),
                uppers@.len() == n,
                ups == crate::classes::strings_view(uppers@),
                0 <= i <= n,
                w@ == run(st, enum_arms_doc(entries_view(variants@).take(i as int), ups, encoding)),
            decreases n - i,
        {
            let ghost before = enum_arms_doc(entries_view(variants@).take(i as int), ups, encoding);
            let (key, variant) = variants[i];
            let ghost mid = w@;
            w.write_decimal(key as u64);
            w.write_str(" -> ");
            proof {
                let d = decimal(key as nat);
                lemma_put_str_concat(mid, d, " -> "@);
                lemma_run_one(mid, Piece::Text(d + " -> "@));
            }
            let no_doc = Doc { comments: Vec::new() };
            Self::write_enum_entry(w, variant.name.as_str(), &no_doc, uppers[i].as_str(), encoding);
            w.end_line();
            proof {
                assert(comments_view(no_doc) =~= Seq::<Seq<char>>::empty());
                let a = txt(decimal(key as nat) + " -> "@);
                let b = doc_comments_doc(comments_view(no_doc)) + txt(
                    enum_entry_text(variant.name@, ups[i as int], encoding),
                );
                assert(b =~= txt(enum_entry_text(variant.name@, ups[i as int], encoding)));
                lemma_run_concat(mid, a, b);
                lemma_run_concat(mid, a + b, newline_doc());
                lemma_run_concat(st, before, a + b + newline_doc());
                let next = entries_view(variants@).take(i + 1);
                assert(next.drop_last() =~= entries_view(variants@).take(i as int));
                assert(next.last() == entries_view(variants@)[i as int]);
                assert(enum_arms_doc(next, ups, encoding) =~= before + (a + b + newline_doc()));
            }
            i = i + 1;
        }
        proof {
            assert(entries_view(variants@).take(n as int) =~= entries_view(variants@));
        }
    }

    /// Writes the `else` arm that rejects an unknown variant index.
    fn write_unknown_variant(w: &mut IndentedWriter, name: &str)
        ensures
            final(w)@ == run(old(w)@, unknown_variant_doc(name@)),
    {
        w.write3_line(
            "else -> throw DeserializationError(\"Unknown variant index for ",
            name,
            ": $index\")",
        );
    }

    /// Writes the bincode methods of an enum class.
    fn write_enum_bincode(
        w: &mut IndentedWriter,
        name: &str,
        variants: &Vec<(u32, &Named<VariantFormat>)>,
        uppers: &Vec<String>,
        encoding: Encoding,
    )
        requires
            uppers@.len() == variants@.len(),
            all_unit(entries_view(variants@)),
        ensures
            final(w)@ == run(
                old(w)@,
                enum_bincode_doc(
                    name@,
                    entries_view(variants@),
                    crate::classes::strings_view(uppers@),
                    encoding,
                ),
            ),
    {
        let ghost st = w@;
        let ghost ups = crate::classes::strings_view(uppers@);
        w.write_txt("fun serialize(serializer: Serializer) ");
        w.start_block();
        Self::push_serializer(w);
        w.write3_line("serializer.serialize_variant_index(ordinal)", "", "");
        Self::pop_serializer(w);
        w.end_block();
        w.end_line();
        Self::write_bincode_serialize(w);
        w.end_line();
        proof {
            reveal_strlit("");
            assert("serializer.serialize_variant_index(ordinal)"@ + ""@ + ""@
                =~= "serializer.serialize_variant_index(ordinal)"@);
            let d0 = txt("fun serialize(serializer: Serializer) "@);
            let d1 = open_block();
            let d2 = push_serializer_doc();
            let d3 = line("serializer.serialize_variant_index(ordinal)"@);
            let d4 = pop_serializer_doc();
            let d5 = close_block();
            let d6 = newline_doc();
            let d7 = bincode_serialize_doc();
            let d8 = newline_doc();
            lemma_run_concat(st, d0, d1);
            lemma_run_concat(st, d0 + d1, d2);
            lemma_run_concat(st, d0 + d1 + d2, d3);
            lemma_run_concat(st, d0 + d1 + d2 + d3, d4);
            lemma_run_concat(st, d0 + d1 + d2 + d3 + d4, d5);
            lemma_run_concat(st, d0 + d1 + d2 + d3 + d4 + d5, d6);
            lemma_run_concat(st, d0 + d1 + d2 + d3 + d4 + d5 + d6, d7);
            lemma_run_concat(st, d0 + d1 + d2 + d3 + d4 + d5 + d6 + d7, d8);
        }
        let ghost a = txt("fun serialize(serializer: Serializer) "@) + open_block()
            + push_serializer_doc() + line("serializer.serialize_variant_index(ordinal)"@)
            + pop_serializer_doc() + close_block() + newline_doc() + bincode_serialize_doc()
            + newline_doc();
        let ghost mid = w@;
        w.write_txt("companion object ");
        w.start_block();
        w.write3_line("@Throws(DeserializationError::class)", "", "");
        w.write3("fun deserialize(deserializer: Deserializer): ", name, " ");
        w.start_block();
        Self::push_deserializer(w);
        w.write3_line("val index = deserializer.deserialize_variant_index()", "", "");
        Self::pop_deserializer(w);
        proof {
            reveal_strlit("");
            assert("@Throws(DeserializationError::class)"@ + ""@ + ""@
                =~= "@Throws(DeserializationError::class)"@);
            assert("val index = deserializer.deserialize_variant_index()"@ + ""@ + ""@
                =~= "val index = deserializer.deserialize_variant_index()"@);
            let e0 = txt("companion object "@);
            let e1 = open_block();
            let e2 = line("@Throws(DeserializationError::class)"@);
            let e3 = txt("fun deserialize(deserializer: Deserializer): "@ + name@ + " "@);
            let e4 = open_block();
            let e5 = push_deserializer_doc();
            let e6 = line("val index = deserializer.deserialize_variant_index()"@);
            let e7 = pop_deserializer_doc();
            lemma_run_concat(mid, e0, e1);
            lemma_run_concat(mid, e0 + e1, e2);
            lemma_run_concat(mid, e0 + e1 + e2, e3);
            lemma_run_concat(mid, e0 + e1 + e2 + e3, e4);
            lemma_run_concat(mid, e0 + e1 + e2 + e3 + e4, e5);
            lemma_run_concat(mid, e0 + e1 + e2 + e3 + e4 + e5, e6);
            lemma_run_concat(mid, e0 + e1 + e2 + e3 + e4 + e5 + e6, e7);
        }
        let ghost b = txt("companion object "@) + open_block() + line(
            "@Throws(DeserializationError::class)"@,
        ) + txt("fun deserialize(deserializer: Deserializer): "@ + name@ + " "@) + open_block()
            + push_deserializer_doc() + line(
            "val index = deserializer.deserialize_variant_index()"@,
        ) + pop_deserializer_doc();
        let ghost mid2 = w@;
        w.write_txt("return when (index) ");
        w.start_block();
        Self::write_enum_arms(w, variants, uppers, encoding);
        Self::write_unknown_variant(w, name);
        w.end_block();
        w.end_block();
        w.end_line();
        Self::write_bincode_deserialize(w, name);
        w.end_block();
        proof {
            let f0 = txt("return when (index) "@);
            let f1 = open_block();
            let f2 = enum_arms_doc(entries_view(variants@), ups, encoding);
            let f3 = unknown_variant_doc(name@);
            let f4 = close_block();
            let f5 = close_block();
            let f6 = newline_doc();
            let f7 = bincode_deserialize_doc(name@);
            let f8 = close_block();
            lemma_run_concat(mid2, f0, f1);
            lemma_run_concat(mid2, f0 + f1, f2);
            lemma_run_concat(mid2, f0 + f1 + f2, f3);
            lemma_run_concat(mid2, f0 + f1 + f2 + f3, f4);
            lemma_run_concat(mid2, f0 + f1 + f2 + f3 + f4, f5);
            lemma_run_concat(mid2, f0 + f1 + f2 + f3 + f4 + f5, f6);
            lemma_run_concat(mid2, f0 + f1 + f2 + f3 + f4 + f5 + f6, f7);
            lemma_run_concat(mid2, f0 + f1 + f2 + f3 + f4 + f5 + f6 + f7, f8);
            let c = f0 + f1 + f2 + f3 + f4 + f5 + f6 + f7 + f8;
            lemma_run_concat(st, a, b);
            lemma_run_concat(st, a + b, c);
            assert(a + b + c =~= enum_bincode_doc(name@, entries_view(variants@), ups, encoding));
        }
    }

    /// Writes an enum class of the listed variants, whose entries have the
    /// upper-case names `uppers`.
    fn enum_class_entries(
        w: &mut IndentedWriter,
        name: &str,
        variants: &Vec<(u32, &Named<VariantFormat>)>,
        uppers: &Vec<String>,
        doc: &Doc,
        encoding: Encoding,
    )
        requires
            uppers@.len() == variants@.len(),
            all_unit(entries_view(variants@)),
        ensures
            final(w)@ == run(
                old(w)@,
                enum_class_doc(
                    name@,
                    entries_view(variants@),
                    crate::classes::strings_view(uppers@),
                    comments_view(*doc),
                    encoding,
                ),
            ),
    {
        let ghost st = w@;
        let ghost ups = crate::classes::strings_view(uppers@);
        Self::write_doc(w, doc);
        Self::write_json_annotations(w, name, encoding);
        w.write3_line("enum class ", name, " {");
        w.indent();
        Self::write_enum_entries(w, variants, uppers, encoding);
        w.write3_line(";", "", "");
        w.end_line();
        proof {
            reveal_strlit("");
            assert(";"@ + ""@ + ""@ =~= ";"@);
            let d0 = doc_comments_doc(comments_view(*doc));
            let d1 = json_annotations_doc(name@, encoding);
            let d2 = line("enum class "@ + name@ + " {"@);
            let d3 = seq![Piece::Indent];
            let d4 = enum_entries_doc(entries_view(variants@), ups, encoding);
            let d5 = line(";"@);
            let d6 = newline_doc();
            lemma_run_concat(st, d0, d1);
            lemma_run_concat(st, d0 + d1, d2);
            lemma_run_concat(st, d0 + d1 + d2, d3);
            lemma_run_concat(st, d0 + d1 + d2 + d3, d4);
            lemma_run_concat(st, d0 + d1 + d2 + d3 + d4, d5);
            lemma_run_concat(st, d0 + d1 + d2 + d3 + d4 + d5, d6);
        }
        let ghost head = doc_comments_doc(comments_view(*doc)) + json_annotations_doc(
            name@,
            encoding,
        ) + line("enum class "@ + name@ + " {"@) + seq![Piece::Indent] + enum_entries_doc(
            entries_view(variants@),
            ups,
            encoding,
        ) + line(";"@) + newline_doc();
        let ghost body = if encoding == Encoding::Json {
            serial_name_doc()
        } else if encoding == Encoding::Bincode {
            enum_bincode_doc(name@, entries_view(variants@), ups, encoding)
        } else {
            Seq::<Piece>::empty()
        };
        let ghost mid = w@;
        match encoding {
            Encoding::Json => {
                w.write_txt(
                    "val serialName: String\n    get() = javaClass.getDeclaredField(name).getAnnotation(SerialName::class.java)!!.value\n",
                );
            },
            Encoding::Bincode => {
                Self::write_enum_bincode(w, name, variants, uppers, encoding);
            },
            _ => {
                proof {
                    crate::text::lemma_run_empty(mid);
                }
            },
        }
        w.unindent();
        w.write3_line("}", "", "");
        proof {
            reveal_strlit("");
            assert("}"@ + ""@ + ""@ =~= "}"@);
            lemma_run_concat(st, head, body);
            lemma_run_concat(st, head + body, seq![Piece::Unindent]);
            lemma_run_concat(st, head + body + seq![Piece::Unindent], line("}"@));
            assert(head + body + seq![Piece::Unindent] + line("}"@) =~= enum_class_doc(
                name@,
                entries_view(variants@),
                ups,
                comments_view(*doc),
                encoding,
            ));
        }
    }

    /// Writes an enum class of unit variants whose entries, in increasing
    /// order of index, have the upper-case names `uppers`.
    pub fn enum_class_named(
        w: &mut IndentedWriter,
        name: &str,
        variants: &BTreeMap<u32, Named<VariantFormat>>,
        uppers: &Vec<String>,
        doc: &Doc,
        encoding: Encoding,
    )
        requires
            uppers@.len() == variants@.dom().len(),
            forall|k: u32| #[trigger] variants@.contains_key(k) ==> variants@[k].value is Unit,
        ensures
            final(w)@ == run(
                old(w)@,
                enum_class_doc(
                    name@,
                    variant_list(variants@),
                    crate::classes::strings_view(uppers@),
                    comments_view(*doc),
                    encoding,
                ),
            ),
    {
        let entries = variant_entries(variants);
        proof {
            lemma_listed_unit(variants@);
        }
        Self::enum_class_entries(w, name, &entries, uppers, doc, encoding);
    }

    /// Writes an enum class of unit variants, naming its entries in upper case.
    pub fn enum_class(
        w: &mut IndentedWriter,
        name: &str,
        variants: &BTreeMap<u32, Named<VariantFormat>>,
        doc: &Doc,
        encoding: Encoding,
    )
        requires
            forall|k: u32| #[trigger] variants@.contains_key(k) ==> variants@[k].value is Unit,
        ensures
            final(w)@ == run(
                old(w)@,
                enum_class_doc(
                    name@,
                    variant_list(variants@),
                    upper_names(variant_list(variants@)),
                    comments_view(*doc),
                    encoding,
                ),
            ),
    {
        let entries = variant_entries(variants);
        let ghost vs = variant_list(variants@);
        proof {
            lemma_listed_unit(variants@);
        }
        let mut uppers: Vec<String> = Vec::new();
        let n = entries.len();
        let mut i: usize = 0;
        while i < n
            invariant
                n == entries@.len(),
                vs == entries_view(entries@),
                0 <= i <= n,
                uppers@.len() == i,
                forall|j: int| 0 <= j < i ==> #[trigger] uppers@[j]@ == upper_case(vs[j].1.name@),
            decreases n - i,
        {
            uppers.push(to_uppercase(entries[i].1.name.as_str()));
            i = i + 1;
        }
        proof {
            assert(crate::classes::strings_view(uppers@) =~= upper_names(vs));
        }
        Self::enum_class_entries(w, name, &entries, &uppers, doc, encoding);
    }


    /// Writes the variants of a sealed interface as classes.
    fn write_sealed_variants(
        w: &mut IndentedWriter,
        name: &str,
        variants: &Vec<&Named<VariantFormat>>,
        encoding: Encoding,
    )
        requires
            forall|i: int|
                0 <= i < refs_view(variants@).len() ==> fields_fit(
                    variant_fields((#[trigger] refs_view(variants@)[i]).value),
                ),
        ensures
            final(w)@ == run(old(w)@, sealed_variants_doc(name@, refs_view(variants@), encoding)),
    {
        let ghost st = w@;
        let n = variants.len();
        let mut i: usize = 0;
        proof {
            assert(refs_view(variants@).take(0) =~= Seq::<Named<VariantFormat>>::empty());
            crate::text::lemma_run_empty(st);
        }
        while i < n
            invariant
                n == variants@.len(),
                forall|i: int|
                    0 <= i < refs_view(variants@).len() ==> fields_fit(
                        variant_fields((#[trigger] refs_view(variants@)[i]).value),
                    ),
                0 <= i <= n,
                w@ == run(st, sealed_variants_doc(name@, refs_view(variants@).take(i as int), encoding)),
            decreases n - i,
        {
            let ghost before = sealed_variants_doc(name@, refs_view(variants@).take(i as int), encoding);
            let ghost sep = if i > 0 {
                newline_doc()
            } else {
                Seq::<Piece>::empty()
            };
            let ghost before_sep = w@;
            if i > 0 {
                w.end_line();
            } else {
                proof {
                    crate::text::lemma_run_empty(before_sep);
                }
            }
            let variant = variants[i];
            proof {
                assert(fields_fit(variant_fields(refs_view(variants@)[i as int].value)));
            }
            Self::sealed_variant(w, variant, name, i, encoding);
            proof {
                let v = sealed_variant_doc(*variant, name@, i, encoding);
                lemma_run_concat(st, before, sep);
                lemma_run_concat(st, before + sep, v);
                let next = refs_view(variants@).take(i + 1);
                assert(next.drop_last() =~= refs_view(variants@).take(i as int));
                assert(next.last() == refs_view(variants@)[i as int]);
                assert(next.len() == i + 1);
                assert(sealed_variants_doc(name@, next, encoding) =~= before + sep + v);
            }
            i = i + 1;
        }
        proof {
            assert(refs_view(variants@).take(n as int) =~= refs_view(variants@));
        }
    }

    /// Writes the arms of `when (index)` of a sealed interface.
    fn write_sealed_arms(w: &mut IndentedWriter, variants: &Vec<&Named<VariantFormat>>)
        ensures
            final(w)@ == run(old(w)@, sealed_arms_doc(refs_view(variants@))),
    {
        let ghost st = w@;
        let n = variants.len();
        let mut i: usize = 0;
        proof {
            assert(refs_view(variants@).take(0) =~= Seq::<Named<VariantFormat>>::empty());
            crate::text::lemma_run_empty(st);
        }
        while i < n
            invariant
                n == variants@.len(),
                0 <= i <= n,
                w@ == run(st, sealed_arms_doc(refs_view(variants@).take(i as int))),
            decreases n - i,
        {
            let ghost before = sealed_arms_doc(refs_view(variants@).take(i as int));
            let ghost mid = w@;
            w.write_decimal(i as u64);
            w.write3(" -> ", variants[i].name.as_str(), ".deserialize(deserializer)\n");
            proof {
                let d = decimal(i as nat);
                let rest = " -> "@ + refs_view(variants@)[i as int].name@ + ".deserialize(deserializer)\n"@;
                lemma_run_one(put_str(mid, d), Piece::Text(rest));
                lemma_put_str_concat(mid, d, rest);
                let l = d + " -> "@ + refs_view(variants@)[i as int].name@ + ".deserialize(deserializer)"@;
                assert(d + rest =~= l.push('\n')) by {
                    reveal_strlit(".deserialize(deserializer)\n");
                    reveal_strlit(".deserialize(deserializer)");
                }
                lemma_run_one(mid, Piece::Text(l.push('\n')));
                lemma_run_concat(st, before, line(l));
                let next = refs_view(variants@).take(i + 1);
                assert(next.drop_last() =~= refs_view(variants@).take(i as int));
                assert(next.last() == refs_view(variants@)[i as int]);
                assert(next.len() == i + 1);
            }
            i = i + 1;
        }
        proof {
            assert(refs_view(variants@).take(n as int) =~= refs_view(variants@));
        }
    }

    /// Writes a sealed interface with a class for each variant.
    pub fn sealed_interface(
        w: &mut IndentedWriter,
        name: &str,
        variants: &Vec<&Named<VariantFormat>>,
        doc: &Doc,
        encoding: Encoding,
    )
        requires
            forall|i: int|
                0 <= i < refs_view(variants@).len() ==> fields_fit(
                    variant_fields((#[trigger] refs_view(variants@)[i]).value),
                ),
        ensures
            final(w)@ == run(
                old(w)@,
                sealed_interface_doc(name@, refs_view(variants@), comments_view(*doc), encoding),
            ),
    {
        let ghost st = w@;
        Self::write_doc(w, doc);
        Self::write_json_annotations(w, name, encoding);
        w.write3("sealed interface ", name, " ");
        w.start_block();
        proof {
            let d0 = doc_comments_doc(comments_view(*doc));
            let d1 = json_annotations_doc(name@, encoding);
            let d2 = txt("sealed interface "@ + name@ + " "@);
            lemma_run_concat(st, d0, d1);
            lemma_run_concat(st, d0 + d1, d2);
            lemma_run_concat(st, d0 + d1 + d2, open_block());
        }
        let ghost head = doc_comments_doc(comments_view(*doc)) + json_annotations_doc(
            name@,
            encoding,
        ) + txt("sealed interface "@ + name@ + " "@) + open_block();
        let ghost mid = w@;
        if encoding.is_bincode() {
            w.write3_line("fun serialize(serializer: Serializer)", "", "");
            w.end_line();
            Self::write_bincode_serialize(w);
            w.end_line();
            proof {
                reveal_strlit("");
                assert("fun serialize(serializer: Serializer)"@ + ""@ + ""@
                    =~= "fun serialize(serializer: Serializer)"@);
                let a = line("fun serialize(serializer: Serializer)"@);
                lemma_run_concat(mid, a, newline_doc());
                lemma_run_concat(mid, a + newline_doc(), bincode_serialize_doc());
                lemma_run_concat(mid, a + newline_doc() + bincode_serialize_doc(), newline_doc());
            }
        } else {
            proof {
                crate::text::lemma_run_empty(mid);
            }
        }
        proof {
            lemma_run_concat(st, head, sealed_head_doc(encoding));
        }
        Self::write_sealed_variants(w, name, variants, encoding);
        proof {
            lemma_run_concat(
                st,
                head + sealed_head_doc(encoding),
                sealed_variants_doc(name@, refs_view(variants@), encoding),
            );
        }
        let ghost upto = head + sealed_head_doc(encoding) + sealed_variants_doc(
            name@,
            refs_view(variants@),
            encoding,
        );
        let ghost mid2 = w@;
        if encoding.is_bincode() {
            w.end_line();
            w.write_txt("companion object ");
            w.start_block();
            w.write3_line("@Throws(DeserializationError::class)", "", "");
            w.write3("fun deserialize(deserializer: Deserializer): ", name, " ");
            w.start_block();
            w.write3_line("val index = deserializer.deserialize_variant_index()", "", "");
            w.write_txt("return when (index) ");
            w.start_block();
            proof {
                reveal_strlit("");
                assert("@Throws(DeserializationError::class)"@ + ""@ + ""@
                    =~= "@Throws(DeserializationError::class)"@);
                assert("val index = deserializer.deserialize_variant_index()"@ + ""@ + ""@
                    =~= "val index = deserializer.deserialize_variant_index()"@);
                let e0 = newline_doc();
                let e1 = txt("companion object "@);
                let e2 = open_block();
                let e3 = line("@Throws(DeserializationError::class)"@);
                let e4 = txt("fun deserialize(deserializer: Deserializer): "@ + name@ + " "@);
                let e5 = open_block();
                let e6 = line("val index = deserializer.deserialize_variant_index()"@);
                let e7 = txt("return when (index) "@);
                let e8 = open_block();
                lemma_run_concat(mid2, e0, e1);
                lemma_run_concat(mid2, e0 + e1, e2);
                lemma_run_concat(mid2, e0 + e1 + e2, e3);
                lemma_run_concat(mid2, e0 + e1 + e2 + e3, e4);
                lemma_run_concat(mid2, e0 + e1 + e2 + e3 + e4, e5);
                lemma_run_concat(mid2, e0 + e1 + e2 + e3 + e4 + e5, e6);
                lemma_run_concat(mid2, e0 + e1 + e2 + e3 + e4 + e5 + e6, e7);
                lemma_run_concat(mid2, e0 + e1 + e2 + e3 + e4 + e5 + e6 + e7, e8);
            }
            let ghost c1 = newline_doc() + txt("companion object "@) + open_block() + line(
                "@Throws(DeserializationError::class)"@,
            ) + txt("fun deserialize(deserializer: Deserializer): "@ + name@ + " "@)
                + open_block() + line("val index = deserializer.deserialize_variant_index()"@)
                + txt("return when (index) "@) + open_block();
            let ghost mid3 = w@;
            Self::write_sealed_arms(w, variants);
            Self::write_unknown_variant(w, name);
            w.end_block();
            w.end_block();
            w.end_line();
            Self::write_bincode_deserialize(w, name);
            w.end_block();
            proof {
                let f0 = sealed_arms_doc(refs_view(variants@));
                let f1 = unknown_variant_doc(name@);
                let f2 = close_block();
                let f3 = close_block();
                let f4 = newline_doc();
                let f5 = bincode_deserialize_doc(name@);
                let f6 = close_block();
                lemma_run_concat(mid3, f0, f1);
                lemma_run_concat(mid3, f0 + f1, f2);
                lemma_run_concat(mid3, f0 + f1 + f2, f3);
                lemma_run_concat(mid3, f0 + f1 + f2 + f3, f4);
                lemma_run_concat(mid3, f0 + f1 + f2 + f3 + f4, f5);
                lemma_run_concat(mid3, f0 + f1 + f2 + f3 + f4 + f5, f6);
                lemma_run_concat(mid2, c1, f0 + f1 + f2 + f3 + f4 + f5 + f6);
                assert(c1 + (f0 + f1 + f2 + f3 + f4 + f5 + f6) =~= sealed_companion_doc(
                    name@,
                    refs_view(variants@),
                    encoding,
                ));
            }
        } else {
            proof {
                crate::text::lemma_run_empty(mid2);
            }
        }
        w.end_block();
        proof {
            lemma_run_concat(st, upto, sealed_companion_doc(name@, refs_view(variants@), encoding));
            lemma_run_concat(
                st,
                upto + sealed_companion_doc(name@, refs_view(variants@), encoding),
                close_block(),
            );
        }
    }

    /// Writes the Kotlin declaration of a named container type.
    pub fn write_container(
        w: &mut IndentedWriter,
        encoding: Encoding,
        name: &QualifiedTypeName,
        format: &ContainerFormat,
    )
        requires
            container_fits(*format),
        ensures
            final(w)@ == run(old(w)@, container_doc(encoding, *name, *format)),
    {
        let declared = name.name.as_str();
        match format {
            ContainerFormat::UnitStruct(doc) => {
                Self::data_object(w, declared, None, doc, encoding, None);
            },
            ContainerFormat::NewTypeStruct(g, doc) => {
                Self::newtype_class(w, declared, None, g, doc, encoding, None);
            },
            ContainerFormat::TupleStruct(formats, doc) => {
                Self::tuple_class(w, declared, None, formats, doc, encoding, None);
            },
            ContainerFormat::Struct(fields, doc) => {
                if fields.len() == 0 {
                    Self::data_object(w, declared, None, doc, encoding, None);
                } else {
                    let refs = Self::field_refs(fields);
                    Self::data_class(w, declared, None, &refs, doc, encoding, None);
                }
            },
            ContainerFormat::Enum(variants, doc) => {
                let entries = variant_entries(variants);
                let ghost vs = variant_list(variants@);
                let mut all_unit_variants = true;
                let n = entries.len();
                let mut i: usize = 0;
                while i < n
                    invariant
                        n == entries@.len(),
                        vs == entries_view(entries@),
                        0 <= i <= n,
                        all_unit_variants == all_unit(vs.take(i as int)),
                    decreases n - i,
                {
                    let unit = match &entries[i].1.value {
                        VariantFormat::Unit => true,
                        _ => false,
                    };
                    proof {
                        let next = vs.take(i + 1);
                        assert(next[i as int] == vs[i as int]);
                        if all_unit(vs.take(i as int)) && unit {
                            assert forall|j: int| 0 <= j < next.len() implies (
                            #[trigger] next[j]).1.value is Unit by {
                                if j < i {
                                    assert(next[j] == vs.take(i as int)[j]);
                                }
                            }
                        }
                        if !all_unit(vs.take(i as int)) {
                            let j = choose|j: int|
                                0 <= j < i && !((#[trigger] vs.take(i as int)[j]).1.value is Unit);
                            assert(next[j] == vs.take(i as int)[j]);
                        }
                    }
                    all_unit_variants = all_unit_variants && unit;
                    i = i + 1;
                }
                proof {
                    assert(vs.take(n as int) =~= vs);
                }
                if all_unit_variants {
                    proof {
                        assert forall|k: u32| #[trigger] variants@.contains_key(k) implies variants@[
                            k
                        ].value is Unit by {
                            let j = choose|j: int| 0 <= j < vs.len() && vs[j].0 == k;
                            assert(variants@.contains_key(vs[j].0));
                        }
                    }
                    Self::enum_class(w, declared, variants, doc, encoding);
                } else {
                    let mut list: Vec<&Named<VariantFormat>> = Vec::new();
                    let mut j: usize = 0;
                    while j < n
                        invariant
                            n == entries@.len(),
                            vs == entries_view(entries@),
                            0 <= j <= n,
                            list@.len() == j,
                            forall|l: int| 0 <= l < j ==> *(#[trigger] list@[l]) == vs[l].1,
                        decreases n - j,
                    {
                        list.push(entries[j].1);
                        j = j + 1;
                    }
                    proof {
                        assert(refs_view(list@) =~= variant_values(vs));
                        assert forall|l: int| 0 <= l < list@.len() implies fields_fit(
                            variant_fields((#[trigger] list@[l]).value),
                        ) by {
                            assert(variants@.contains_key(vs[l].0));
                        }
                    }
                    Self::sealed_interface(w, declared, &list, doc, encoding);
                }
            },
        }
    }

    /// The Kotlin declaration of a named container type, as a string.
    pub fn container_to_string(
        encoding: Encoding,
        name: &QualifiedTypeName,
        format: &ContainerFormat,
    ) -> (s: String)
        requires
            container_fits(*format),
        ensures
            s@ == run(empty_state(), container_doc(encoding, *name, *format)).text,
    {
        let mut w = IndentedWriter::new();
        Self::write_container(&mut w, encoding, name, format);
        w.into_string()
    }
}

} // verus!
