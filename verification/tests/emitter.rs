//! The emitters one by one: module heads, Kotlin types, serialization and
//! deserialization statements, JSON and plain declarations, and the writer.
use kotlin_emitter::classes::FieldRef;
use kotlin_emitter::containers::VariantContext;
use kotlin_emitter::header::{
    CodeGeneratorConfig, ExternalPackage, Feature, FeatureSources, PackageLocation,
};
use kotlin_emitter::model::{
    ContainerFormat, Doc, Encoding, Format, Named, Namespace, QualifiedTypeName, VariantFormat,
};
use kotlin_emitter::order::{same_chars, sorted_unique, str_less};
use kotlin_emitter::text::{joined, decimal_string, IndentedWriter};
use kotlin_emitter::Kotlin;
use std::collections::BTreeMap;

fn no_doc() -> Doc {
    Doc { comments: vec![] }
}

fn doc(lines: &[&str]) -> Doc {
    Doc { comments: lines.iter().map(|l| l.to_string()).collect() }
}

fn field(name: &str, value: Format) -> Named<Format> {
    Named { name: name.to_string(), doc: no_doc(), value }
}

fn variant(name: &str, value: VariantFormat) -> Named<VariantFormat> {
    Named { name: name.to_string(), doc: no_doc(), value }
}

fn bx(f: Format) -> Box<Format> {
    Box::new(f)
}

fn root(name: &str) -> QualifiedTypeName {
    QualifiedTypeName { namespace: Namespace::Root, name: name.to_string() }
}

fn config(encoding: Encoding, features: Vec<Feature>, packages: Vec<ExternalPackage>) -> CodeGeneratorConfig {
    CodeGeneratorConfig {
        module_name: "com.example.model".to_string(),
        encoding,
        features,
        external_packages: packages,
    }
}

fn sources() -> FeatureSources {
    FeatureSources {
        big_int: "// big integers".to_string(),
        build_list: "// build list".to_string(),
        list_of_t: "// list of T".to_string(),
        map_of_t: "// map of T".to_string(),
        option_of_t: "// option of T".to_string(),
        set_of_t: "// set of T".to_string(),
    }
}

fn header(config: &CodeGeneratorConfig) -> String {
    let mut w = IndentedWriter::new();
    Kotlin::write_module_header(&mut w, config, &sources());
    w.into_string()
}

fn type_of(f: &Format) -> String {
    let mut w = IndentedWriter::new();
    Kotlin::write_type(&mut w, f);
    w.into_string()
}

fn serialized(name: &str, f: &Format) -> String {
    let mut w = IndentedWriter::new();
    Kotlin::write_serialize(&mut w, name, f, 0);
    w.into_string()
}

fn deserialized(name: Option<&str>, f: &Format) -> String {
    let mut w = IndentedWriter::new();
    Kotlin::write_deserialize(&mut w, name, f, true);
    w.into_string()
}

#[test]
fn module_imports_json_big_int_sorted_each_once() {
    let c = config(Encoding::Json, vec![Feature::BigInt, Feature::ListOfT, Feature::BigInt], vec![]);
    let imports = Kotlin::module_imports(&c);
    let expected = vec![
        "import java.math.BigInteger",
        "import kotlinx.serialization.KSerializer",
        "import kotlinx.serialization.SerialName",
        "import kotlinx.serialization.Serializable",
        "import kotlinx.serialization.descriptors.PrimitiveKind",
        "import kotlinx.serialization.descriptors.PrimitiveSerialDescriptor",
        "import kotlinx.serialization.encoding.Decoder",
        "import kotlinx.serialization.encoding.Encoder",
        "import kotlinx.serialization.json.JsonDecoder",
        "import kotlinx.serialization.json.JsonEncoder",
        "import kotlinx.serialization.json.JsonUnquotedLiteral",
        "import kotlinx.serialization.json.jsonPrimitive",
    ];
    assert_eq!(imports, expected);
    for pair in imports.windows(2) {
        assert!(pair[0] < pair[1]);
    }
}

#[test]
fn module_imports_ignore_feature_order() {
    let a = config(Encoding::Bincode, vec![Feature::BigInt, Feature::ListOfT], vec![]);
    let b = config(Encoding::Bincode, vec![Feature::ListOfT, Feature::BigInt, Feature::BigInt], vec![]);
    assert_eq!(Kotlin::module_imports(&a), Kotlin::module_imports(&b));
}

#[test]
fn module_header_bincode_serde_path() {
    let c = config(
        Encoding::Bincode,
        vec![],
        vec![
            ExternalPackage {
                name: "other".to_string(),
                location: PackageLocation::Path("com.other".to_string()),
            },
            ExternalPackage {
                name: "serde".to_string(),
                location: PackageLocation::Path("com.novi.serde".to_string()),
            },
        ],
    );
    assert_eq!(
        header(&c),
        "package com.example.model\n\
         \n\
         import com.novi.serde.BincodeDeserializer\n\
         import com.novi.serde.BincodeSerializer\n\
         import com.novi.serde.Bytes\n\
         import com.novi.serde.DeserializationError\n\
         import com.novi.serde.Deserializer\n\
         import com.novi.serde.Serializer\n\
         import com.novi.serde.Unsigned\n\
         \n"
    );
}

#[test]
fn module_header_serde_url_falls_back() {
    let c = config(
        Encoding::Bincode,
        vec![Feature::ListOfT, Feature::BigInt, Feature::OptionOfT],
        vec![ExternalPackage {
            name: "serde".to_string(),
            location: PackageLocation::Url("https://example.com/serde".to_string()),
        }],
    );
    assert_eq!(
        header(&c),
        "package com.example.model\n\
         \n\
         import java.math.BigInteger\n\
         import serde.BincodeDeserializer\n\
         import serde.BincodeSerializer\n\
         import serde.Bytes\n\
         import serde.DeserializationError\n\
         import serde.Deserializer\n\
         import serde.Int128\n\
         import serde.Serializer\n\
         import serde.Unsigned\n\
         \n\
         // list of T\n\
         // option of T\n"
    );
}

#[test]
fn module_header_plain_has_no_imports() {
    let c = config(Encoding::Plain, vec![Feature::BuildList, Feature::SetOfT], vec![]);
    assert_eq!(header(&c), "package com.example.model\n\n// build list\n");
    let c = config(Encoding::Plain, vec![Feature::BigInt], vec![]);
    assert_eq!(header(&c), "package com.example.model\n\nimport java.math.BigInteger\n\n");
}

#[test]
fn module_header_json_big_int_source() {
    let c = config(Encoding::Json, vec![Feature::BigInt, Feature::MapOfT], vec![]);
    let text = header(&c);
    assert!(text.starts_with("package com.example.model\n\nimport java.math.BigInteger\n"));
    assert!(text.ends_with("import kotlinx.serialization.json.jsonPrimitive\n\n// big integers\n"));
}

#[test]
fn features_text_follows_feature_order() {
    let c = config(
        Encoding::Bincode,
        vec![Feature::MapOfT, Feature::SetOfT, Feature::BuildList, Feature::BigInt],
        vec![],
    );
    assert_eq!(Kotlin::features_text(&c, &sources()), "// map of T\n// set of T\n// build list\n");
}

#[test]
fn kotlin_types() {
    let q = QualifiedTypeName {
        namespace: Namespace::Named("shapes".to_string()),
        name: "Circle".to_string(),
    };
    assert_eq!(type_of(&Format::Optional(bx(Format::TypeName(q)))), "shapes.Circle?");
    assert_eq!(type_of(&Format::MapOf { key: bx(Format::Str), value: bx(Format::Sequence(bx(Format::U8))) }), "Map<String, List<UByte>>");
    assert_eq!(type_of(&Format::SetOf(bx(Format::Char))), "Set<String>");
    assert_eq!(type_of(&Format::TupleArray { content: bx(Format::U16), size: 3 }), "List<UShort>");
    assert_eq!(type_of(&Format::Tuple(vec![])), "Unit");
    assert_eq!(type_of(&Format::Tuple(vec![Format::I8])), "Byte");
    assert_eq!(type_of(&Format::Tuple(vec![Format::I16, Format::U32])), "Pair<Short, UInt>");
    assert_eq!(
        type_of(&Format::Tuple(vec![Format::I64, Format::U64, Format::Bytes])),
        "Triple<Long, ULong, ByteArray>"
    );
    assert_eq!(
        type_of(&Format::Tuple(vec![Format::I32, Format::Str, Format::Bool, Format::I128])),
        "NTuple4<Int, String, Boolean, BigInteger>"
    );
    assert_eq!(type_of(&Format::U128), "BigInteger");
    assert_eq!(type_of(&Format::F32), "Float");
    assert_eq!(type_of(&Format::F64), "Double");
    assert_eq!(type_of(&Format::Unit), "Unit");
}

#[test]
fn native_and_leaf_formats() {
    assert!(Format::Str.is_native());
    assert!(Format::Bytes.is_leaf());
    assert!(!Format::TypeName(root("Point")).is_native());
    assert!(Format::TypeName(root("Point")).is_leaf());
    assert!(!Format::Sequence(bx(Format::I32)).is_leaf());
    assert!(!Format::Tuple(vec![]).is_native());
}

#[test]
fn serialize_nested_lists_name_each_level() {
    let f = Format::Sequence(bx(Format::Sequence(bx(Format::Sequence(bx(Format::I32))))));
    assert_eq!(
        serialized("xs", &f),
        "xs.serialize(serializer) { level1 ->\n\
         \x20   level1.serialize(serializer) { level2 ->\n\
         \x20       level2.serialize(serializer) {\n\
         \x20           serializer.serialize_i32(it)\n\
         \x20       }\n\
         \x20   }\n\
         }\n"
    );
}

#[test]
fn serialize_map_and_option() {
    let m = Format::MapOf { key: bx(Format::Str), value: bx(Format::I64) };
    assert_eq!(
        serialized("m", &m),
        "m.serialize(serializer) { key, value ->\n\
         \x20   serializer.serialize_str(key)\n\
         \x20   serializer.serialize_i64(value)\n\
         }\n"
    );
    let o = Format::Optional(bx(Format::TypeName(root("Point"))));
    assert_eq!(serialized("p", &o), "p.serializeOptionOf(serializer) {\n    it.serialize(serializer)\n}\n");
}

#[test]
fn serialize_tuples_inline() {
    let pair = Format::Tuple(vec![Format::Bool, Format::Str]);
    assert_eq!(
        serialized("t", &pair),
        "serializer.serialize_bool(t.first)\nserializer.serialize_str(t.second)\n"
    );
    let four = Format::Tuple(vec![Format::I8, Format::I16, Format::I32, Format::I64]);
    assert_eq!(
        serialized("t", &four),
        "serializer.serialize_i8(t.component1())\n\
         serializer.serialize_i16(t.component2())\n\
         serializer.serialize_i32(t.component3())\n\
         serializer.serialize_i64(t.component4())\n"
    );
    assert_eq!(serialized("u", &Format::Tuple(vec![])), "serializer.serialize_unit(u)\n");
    assert_eq!(
        serialized("a", &Format::TupleArray { content: bx(Format::U8), size: 4 }),
        "a.serialize(serializer)\n"
    );
}

#[test]
fn deserialize_map_of_lists() {
    let m = Format::MapOf { key: bx(Format::Str), value: bx(Format::Sequence(bx(Format::I32))) };
    assert_eq!(
        deserialized(Some("m"), &m),
        "val m =\n\
         \x20   deserializer.deserializeMapOf {\n\
         \x20       val key = deserializer.deserialize_str()\n\
         \x20       val value =\n\
         \x20           deserializer.deserializeListOf {\n\
         \x20               deserializer.deserialize_i32()\n\
         \x20           }\n\
         \x20       Pair(key, value)\n\
         \x20   }\n"
    );
}

#[test]
fn deserialize_tuples() {
    let four = Format::Tuple(vec![Format::I32, Format::Str, Format::Bool, Format::I64]);
    assert_eq!(
        deserialized(None, &four),
        "run {\n\
         \x20   val v0 = deserializer.deserialize_i32()\n\
         \x20   val v1 = deserializer.deserialize_str()\n\
         \x20   val v2 = deserializer.deserialize_bool()\n\
         \x20   val v3 = deserializer.deserialize_i64()\n\
         \x20   NTuple4(v0, v1, v2, v3)\n\
         }\n"
    );
    assert_eq!(
        deserialized(Some("x"), &Format::TupleArray { content: bx(Format::Char), size: 2 }),
        "val x = buildList(2) { repeat(2) { add(deserializer.deserialize_char()) } }\n"
    );
    assert_eq!(deserialized(Some("u"), &Format::Tuple(vec![])), "val u = deserializer.deserialize_unit()");
}

#[test]
fn field_names_in_lower_camel_case() {
    let mut w = IndentedWriter::new();
    Kotlin::write_field(&mut w, &Named { name: "snake_case_name".to_string(), doc: doc(&["the name"]), value: Format::Optional(bx(Format::Str)) });
    assert_eq!(w.as_str(), "/// the name\nval snakeCaseName: String? = null,\n");
}

#[test]
fn data_class_with_given_names() {
    let docs = no_doc();
    let f1 = Format::I32;
    let f2 = Format::Str;
    let fields = vec![
        FieldRef { name: "first_field", doc: &docs, value: &f1 },
        FieldRef { name: "second_field", doc: &docs, value: &f2 },
    ];
    let camels = vec!["alpha".to_string(), "beta".to_string()];
    let mut w = IndentedWriter::new();
    Kotlin::data_class_named(&mut w, "Named", None, &fields, &camels, &no_doc(), Encoding::Plain, None);
    assert_eq!(w.as_str(), "data class Named(\n    val alpha: Int,\n    val beta: String,\n)\n");
}

#[test]
fn json_struct() {
    let format = ContainerFormat::Struct(
        vec![field("x_coord", Format::F64), field("label", Format::Optional(bx(Format::Str)))],
        doc(&["A point."]),
    );
    assert_eq!(
        Kotlin::container_to_string(Encoding::Json, &root("Point"), &format),
        "/// A point.\n\
         @Serializable\n\
         @SerialName(\"Point\")\n\
         data class Point(\n\
         \x20   val xCoord: Double,\n\
         \x20   val label: String? = null,\n\
         )\n"
    );
}

#[test]
fn json_enum_class() {
    let mut variants = BTreeMap::new();
    variants.insert(1, variant("Green", VariantFormat::Unit));
    variants.insert(0, variant("Red", VariantFormat::Unit));
    let format = ContainerFormat::Enum(variants, no_doc());
    assert_eq!(
        Kotlin::container_to_string(Encoding::Json, &root("Color"), &format),
        "@Serializable\n\
         @SerialName(\"Color\")\n\
         enum class Color {\n\
         \x20   @SerialName(\"Red\") RED,\n\
         \x20   @SerialName(\"Green\") GREEN;\n\
         \n\
         \x20   val serialName: String\n\
         \x20       get() = javaClass.getDeclaredField(name).getAnnotation(SerialName::class.java)!!.value\n\
         }\n"
    );
}

#[test]
fn json_sealed_interface() {
    let mut variants = BTreeMap::new();
    variants.insert(0, variant("A", VariantFormat::Unit));
    variants.insert(1, variant("B", VariantFormat::NewType(bx(Format::Str))));
    let format = ContainerFormat::Enum(variants, no_doc());
    assert_eq!(
        Kotlin::container_to_string(Encoding::Json, &root("Shape"), &format),
        "@Serializable\n\
         @SerialName(\"Shape\")\n\
         sealed interface Shape {\n\
         \x20   @Serializable\n\
         \x20   @SerialName(\"A\")\n\
         \x20   data object A: Shape\n\
         \n\
         \x20   @Serializable\n\
         \x20   @SerialName(\"B\")\n\
         \x20   data class B(\n\
         \x20       val value: String,\n\
         \x20   ) : Shape\n\
         }\n"
    );
}

#[test]
fn plain_declarations() {
    assert_eq!(
        Kotlin::container_to_string(Encoding::Plain, &root("Empty"), &ContainerFormat::UnitStruct(doc(&["nothing"]))),
        "/// nothing\ndata object Empty\n"
    );
    assert_eq!(
        Kotlin::container_to_string(Encoding::Bcs, &root("Wrapper"), &ContainerFormat::NewTypeStruct(bx(Format::U64), no_doc())),
        "data class Wrapper(\n    val value: ULong,\n)\n"
    );
    assert_eq!(
        Kotlin::container_to_string(Encoding::Plain, &root("Pair2"), &ContainerFormat::TupleStruct(vec![Format::Bool, Format::Unit], no_doc())),
        "data class Pair2(\n    val field0: Boolean,\n    val field1: Unit,\n)\n"
    );
}

#[test]
fn enum_entries_in_upper_case() {
    let mut w = IndentedWriter::new();
    Kotlin::write_variant(&mut w, &variant("Blue", VariantFormat::Unit), &VariantContext::EnumClass, Encoding::Bincode);
    assert_eq!(w.as_str(), "BLUE");
    let mut w = IndentedWriter::new();
    Kotlin::write_variant(&mut w, &variant("Blue", VariantFormat::Unit), &VariantContext::EnumClass, Encoding::Json);
    assert_eq!(w.as_str(), "@SerialName(\"Blue\") BLUE");
}

#[test]
fn enum_class_with_given_names() {
    let mut variants = BTreeMap::new();
    variants.insert(0, variant("One", VariantFormat::Unit));
    variants.insert(5, variant("Two", VariantFormat::Unit));
    let uppers = vec!["FIRST".to_string(), "SECOND".to_string()];
    let mut w = IndentedWriter::new();
    Kotlin::enum_class_named(&mut w, "Count", &variants, &uppers, &no_doc(), Encoding::Plain);
    assert_eq!(w.as_str(), "enum class Count {\n    FIRST,\n    SECOND;\n\n}\n");
}

#[test]
fn sealed_variant_index_in_bincode() {
    let mut w = IndentedWriter::new();
    let ctx = VariantContext::SealedInterface("Shape".to_string(), 7);
    Kotlin::write_variant(&mut w, &variant("Dot", VariantFormat::Unit), &ctx, Encoding::Bincode);
    assert_eq!(
        w.as_str(),
        "data object Dot: Shape {\n\
         \x20   override fun serialize(serializer: Serializer) {\n\
         \x20       serializer.increase_container_depth()\n\
         \x20       serializer.serialize_variant_index(7)\n\
         \x20       serializer.decrease_container_depth()\n\
         \x20   }\n\
         \n\
         \x20   fun deserialize(deserializer: Deserializer): Dot {\n\
         \x20       return Dot\n\
         \x20   }\n\
         }\n"
    );
}

#[test]
fn declaration_appends_its_text() {
    let format = ContainerFormat::Struct(vec![field("a", Format::I32)], no_doc());
    let alone = Kotlin::container_to_string(Encoding::Bincode, &root("A"), &format);
    let mut w = IndentedWriter::new();
    w.write_line("// generated");
    Kotlin::write_container(&mut w, Encoding::Bincode, &root("A"), &format);
    assert_eq!(w.into_string(), format!("// generated\n{alone}"));
}

#[test]
fn declaration_keeps_indent_and_ends_line() {
    let mut variants = BTreeMap::new();
    variants.insert(0, variant("V", VariantFormat::Tuple(vec![Format::I32, Format::Str])));
    let format = ContainerFormat::Enum(variants, no_doc());
    let mut w = IndentedWriter::new();
    w.indent();
    Kotlin::write_container(&mut w, Encoding::Bincode, &root("E"), &format);
    w.write_line("after");
    let text = w.into_string();
    assert!(text.starts_with("    sealed interface E {\n"));
    assert!(text.ends_with("    }\n    after\n"));
    for encoding in [Encoding::Plain, Encoding::Json, Encoding::Bincode, Encoding::Bcs] {
        let s = Kotlin::container_to_string(encoding, &root("E"), &format);
        assert!(s.ends_with("}\n") || s.ends_with(")\n") || s.ends_with("E\n"));
        assert!(s.ends_with('\n'));
    }
}

#[test]
fn writer_indents_lines_not_blank_ones() {
    let mut w = IndentedWriter::new();
    w.write_line("x {");
    w.indent();
    w.write_str("y\n\nz");
    w.unindent();
    w.end_line();
    w.empty_block();
    w.start_block_no_newline();
    w.write_line(" it");
    w.end_block();
    assert_eq!(w.as_str(), "x {\n    y\n\n    z\n{}\n{ it\n}\n");
}

#[test]
fn decimal_strings() {
    assert_eq!(decimal_string(0), "0");
    assert_eq!(decimal_string(1234567), "1234567");
    assert_eq!(decimal_string(u64::MAX), "18446744073709551615");
    assert_eq!(joined("ab", "cd"), "abcd");
}

#[test]
fn string_order() {
    assert!(str_less("B", "a"));
    assert!(str_less("ab", "abc"));
    assert!(!str_less("abc", "abc"));
    assert!(!str_less("b", "abc"));
    assert!(same_chars("serde", "serde"));
    assert!(!same_chars("serde", "serd"));
    let items = vec!["b".to_string(), "a".to_string(), "b".to_string(), "A".to_string()];
    assert_eq!(sorted_unique(&items), vec!["A".to_string(), "a".to_string(), "b".to_string()]);
}

#[test]
fn field_code_leaves_indent() {
    let m = Format::MapOf { key: bx(Format::Str), value: bx(Format::Optional(bx(Format::I32))) };
    let mut w = IndentedWriter::new();
    w.indent();
    Kotlin::write_serialize(&mut w, "m", &m, 0);
    Kotlin::write_deserialize(&mut w, Some("m"), &m, true);
    w.write_line("done");
    let text = w.into_string();
    assert!(text.ends_with("\n        }\n    done\n"));
    assert!(text.starts_with("    m.serialize(serializer) { key, value ->\n        serializer.serialize_str(key)\n"));
}

#[test]
fn tuple_fields_are_named_by_position() {
    let formats = vec![Format::I32, Format::Str, Format::Bool];
    let fields = Kotlin::named(&formats);
    let names: Vec<&str> = fields.iter().map(|f| f.name.as_str()).collect();
    assert_eq!(names, vec!["field0", "field1", "field2"]);
    assert!(fields.iter().all(|f| f.doc.comments.is_empty()));
    assert!(matches!(fields[1].value, Format::Str));
}

#[test]
fn lambdas_on_their_own() {
    let mut w = IndentedWriter::new();
    Kotlin::write_map_serialize_lambda(&mut w, &Format::U8, &Format::TypeName(root("Item")), 2);
    assert_eq!(
        w.as_str(),
        "{ key, value ->\n    serializer.serialize_u8(key)\n    value.serialize(serializer)\n}\n"
    );
    let mut w = IndentedWriter::new();
    Kotlin::write_map_deserialize_lambda(&mut w, &Format::U8, &Format::TypeName(root("Item")));
    assert_eq!(
        w.as_str(),
        "{\n    val key = deserializer.deserialize_u8()\n    val value = Item.deserialize(deserializer)\n    Pair(key, value)\n}\n"
    );
    let mut w = IndentedWriter::new();
    Kotlin::write_serialize_lambda(&mut w, &Format::SetOf(bx(Format::Str)), 4);
    assert_eq!(
        w.as_str(),
        "{ level5 ->\n    level5.serialize(serializer) {\n        serializer.serialize_str(it)\n    }\n}\n"
    );
    let mut w = IndentedWriter::new();
    Kotlin::write_deserialize_lambda(&mut w, &Format::Bool);
    assert_eq!(w.as_str(), "{\n    deserializer.deserialize_bool()\n}\n");
    let mut w = IndentedWriter::new();
    Kotlin::push_serializer(&mut w);
    Kotlin::pop_serializer(&mut w);
    Kotlin::push_deserializer(&mut w);
    Kotlin::pop_deserializer(&mut w);
    assert_eq!(
        w.as_str(),
        "serializer.increase_container_depth()\nserializer.decrease_container_depth()\n\
         deserializer.increase_container_depth()\ndeserializer.decrease_container_depth()\n"
    );
}

fn shift(pad: &str, text: &str) -> String {
    let mut out = String::new();
    let mut at_start = true;
    for c in text.chars() {
        if at_start && c != '\n' {
            out.push_str(pad);
        }
        out.push(c);
        at_start = c == '\n';
    }
    out
}

fn deserialized_line(name: Option<&str>, f: &Format, newline: bool) -> String {
    let mut w = IndentedWriter::new();
    Kotlin::write_deserialize(&mut w, name, f, newline);
    w.into_string()
}

#[test]
fn named_deserialization_is_the_unnamed_one_deeper() {
    let list = Format::Sequence(bx(Format::Optional(bx(Format::I32))));
    assert_eq!(
        deserialized(Some("xs"), &list),
        format!("val xs =\n{}", shift("    ", &deserialized(None, &list)))
    );
    let pair = Format::Tuple(vec![Format::Str, Format::U8]);
    assert_eq!(deserialized(Some("p"), &pair), format!("val p = {}", deserialized(None, &pair)));
}

#[test]
fn deserialized_line_ends() {
    let leaf = Format::TypeName(root("Point"));
    assert_eq!(
        deserialized_line(Some("p"), &leaf, true),
        format!("{}\n", deserialized_line(Some("p"), &leaf, false))
    );
    assert_eq!(deserialized_line(Some("p"), &leaf, false), "val p = Point.deserialize(deserializer)");
    let set = Format::SetOf(bx(Format::Str));
    assert_eq!(deserialized_line(None, &set, true), deserialized_line(None, &set, false));
    assert!(deserialized_line(None, &set, false).ends_with("}\n"));
    let array = Format::TupleArray { content: bx(Format::I16), size: 3 };
    assert!(!deserialized_line(Some("a"), &array, false).contains('\n'));
}

#[test]
fn serialized_small_tuples() {
    assert_eq!(serialized("t", &Format::Tuple(vec![Format::Str])), serialized("t", &Format::Str));
    assert_eq!(serialized("t", &Format::Tuple(vec![])), serialized("t", &Format::Unit));
    assert_eq!(serialized("t", &Format::Unit), "serializer.serialize_unit(t)\n");
}

#[test]
fn type_texts_relate() {
    assert_eq!(type_of(&Format::Tuple(vec![Format::U32])), type_of(&Format::U32));
    assert_eq!(
        type_of(&Format::TupleArray { content: bx(Format::Bool), size: 9 }),
        type_of(&Format::Sequence(bx(Format::Bool)))
    );
    assert_eq!(type_of(&Format::Optional(bx(Format::U64))), format!("{}?", type_of(&Format::U64)));
    assert!(!type_of(&Format::MapOf { key: bx(Format::Str), value: bx(Format::Tuple(vec![Format::I8, Format::I16, Format::I32, Format::I64])) }).contains('\n'));
}

#[test]
fn containers_choose_their_declaration() {
    let newtype = ContainerFormat::NewTypeStruct(bx(Format::Str), no_doc());
    let fields = ContainerFormat::Struct(vec![field("value", Format::Str)], no_doc());
    assert_eq!(
        Kotlin::container_to_string(Encoding::Bincode, &root("N"), &newtype),
        Kotlin::container_to_string(Encoding::Bincode, &root("N"), &fields)
    );
    let mut units = BTreeMap::new();
    units.insert(0, variant("A", VariantFormat::Unit));
    units.insert(1, variant("B", VariantFormat::Unit));
    let mut w = IndentedWriter::new();
    Kotlin::enum_class(&mut w, "E", &units, &no_doc(), Encoding::Bincode);
    assert_eq!(
        Kotlin::container_to_string(Encoding::Bincode, &root("E"), &ContainerFormat::Enum(units, no_doc())),
        w.into_string()
    );
    let mut mixed = BTreeMap::new();
    mixed.insert(1, variant("B", VariantFormat::NewType(bx(Format::I8))));
    mixed.insert(0, variant("A", VariantFormat::Unit));
    let a = variant("A", VariantFormat::Unit);
    let b = variant("B", VariantFormat::NewType(bx(Format::I8)));
    let mut w = IndentedWriter::new();
    Kotlin::sealed_interface(&mut w, "E", &vec![&a, &b], &no_doc(), Encoding::Bincode);
    assert_eq!(
        Kotlin::container_to_string(Encoding::Bincode, &root("E"), &ContainerFormat::Enum(mixed, no_doc())),
        w.into_string()
    );
}

#[test]
fn sealed_variants_are_data_classes() {
    let v = variant("V", VariantFormat::Tuple(vec![Format::I32]));
    let ctx = VariantContext::SealedInterface("S".to_string(), 2);
    let mut w = IndentedWriter::new();
    Kotlin::write_variant(&mut w, &v, &ctx, Encoding::Json);
    let formats = vec![Format::I32];
    let named = Kotlin::named(&formats);
    let docs = no_doc();
    let refs = vec![FieldRef { name: named[0].name.as_str(), doc: &docs, value: named[0].value }];
    let mut x = IndentedWriter::new();
    Kotlin::data_class(&mut x, "V", Some("S"), &refs, &no_doc(), Encoding::Json, Some(2));
    assert_eq!(w.into_string(), x.into_string());
}

#[test]
fn class_bodies_in_bincode() {
    let format = ContainerFormat::Struct(
        vec![field("first_name", Format::Str), field("tags", Format::Sequence(bx(Format::Str)))],
        no_doc(),
    );
    let text = Kotlin::container_to_string(Encoding::Bincode, &root("P"), &format);
    let serialize_body = format!(
        "serializer.increase_container_depth()\n{}{}serializer.decrease_container_depth()\n",
        serialized("firstName", &Format::Str),
        serialized("tags", &Format::Sequence(bx(Format::Str)))
    );
    assert!(text.contains(&format!(
        "    fun serialize(serializer: Serializer) {{\n{}    }}\n",
        shift("        ", &serialize_body)
    )));
    let deserialize_body = format!(
        "deserializer.increase_container_depth()\n{}{}deserializer.decrease_container_depth()\nreturn P(firstName, tags)\n",
        deserialized(Some("firstName"), &Format::Str),
        deserialized(Some("tags"), &Format::Sequence(bx(Format::Str)))
    );
    assert!(text.contains(&format!(
        "        fun deserialize(deserializer: Deserializer): P {{\n{}        }}\n",
        shift("            ", &deserialize_body)
    )));
}

#[test]
fn serialize_lambda_holds_the_next_level() {
    let mut w = IndentedWriter::new();
    Kotlin::write_serialize_lambda(&mut w, &Format::I64, 0);
    let mut x = IndentedWriter::new();
    Kotlin::write_serialize(&mut x, "it", &Format::I64, 1);
    assert_eq!(w.into_string(), format!("{{\n{}}}\n", shift("    ", x.as_str())));
    let inner = Format::Sequence(bx(Format::Bool));
    let mut w = IndentedWriter::new();
    Kotlin::write_serialize_lambda(&mut w, &inner, 1);
    let mut x = IndentedWriter::new();
    Kotlin::write_serialize(&mut x, "level2", &inner, 2);
    assert_eq!(w.into_string(), format!("{{ level2 ->\n{}}}\n", shift("    ", x.as_str())));
}
