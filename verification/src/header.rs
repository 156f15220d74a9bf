//! The head of a Kotlin file: the package, the imports that the encoding
//! and the features need, and the Kotlin sources of the features.
use vstd::prelude::*;

use crate::classes::{newline_doc, strings_view};
use crate::model::Encoding;
use crate::order::{sort_dedup, sorted_unique};
use crate::text::{joined, lemma_run_concat, line, run, txt, IndentedWriter, Piece};
use crate::Kotlin;

verus! {

/// A feature that the generated code relies on.
#[derive(PartialEq, Eq, Structural, Clone, Copy)]
pub enum Feature {
    BigInt,
    ListOfT,
    OptionOfT,
    SetOfT,
    MapOfT,
    BuildList,
}

/// Where an outside package is found.
pub enum PackageLocation {
    Path(String),
    Url(String),
}

/// An outside package, under the namespace it serves.
pub struct ExternalPackage {
    pub name: String,
    pub location: PackageLocation,
}

/// The configuration of the generated module.
pub struct CodeGeneratorConfig {
    pub module_name: String,
    pub encoding: Encoding,
    pub features: Vec<Feature>,
    /// The outside packages, each namespace at most once.
    pub external_packages: Vec<ExternalPackage>,
}

impl CodeGeneratorConfig {
    /// No namespace has two outside packages.
    pub open spec fn wf(&self) -> bool {
        forall|i: int, j: int|
            0 <= i < j < self.external_packages@.len() ==> (#[trigger] self.external_packages@[i]).name@
                != (#[trigger] self.external_packages@[j]).name@
    }
}

/// The Kotlin sources of the features, written after the imports.
pub struct FeatureSources {
    pub big_int: String,
    pub build_list: String,
    pub list_of_t: String,
    pub map_of_t: String,
    pub option_of_t: String,
    pub set_of_t: String,
}

/// The package that serves the `serde` namespace: the path of its outside
/// package when that is given by a path, `serde` otherwise.
pub open spec fn serde_package(pkgs: Seq<ExternalPackage>) -> Seq<char>
    decreases pkgs.len(),
{
    if pkgs.len() == 0 {
        "serde"@
    } else if pkgs[0].name@ == "serde"@ {
        match pkgs[0].location {
            PackageLocation::Path(p) => p@,
            PackageLocation::Url(_) => "serde"@,
        }
    } else {
        serde_package(pkgs.drop_first())
    }
}

/// `import <package>.<name>`.
pub open spec fn import_of(package: Seq<char>, name: Seq<char>) -> Seq<char> {
    "import "@ + package + "."@ + name
}

/// The imports that the encoding needs.
pub open spec fn encoding_imports(encoding: Encoding, package: Seq<char>) -> Seq<Seq<char>> {
    if encoding == Encoding::Json {
        seq!["import kotlinx.serialization.Serializable"@, "import kotlinx.serialization.SerialName"@]
    } else if encoding == Encoding::Bincode {
        seq![
            import_of(package, "BincodeDeserializer"@),
            import_of(package, "BincodeSerializer"@),
            import_of(package, "Bytes"@),
            import_of(package, "DeserializationError"@),
            import_of(package, "Deserializer"@),
            import_of(package, "Serializer"@),
            import_of(package, "Unsigned"@),
        ]
    } else {
        Seq::empty()
    }
}

/// The imports that big integers need in JSON.
pub open spec fn json_big_int_imports() -> Seq<Seq<char>> {
    seq![
        "import kotlinx.serialization.KSerializer"@,
        "import kotlinx.serialization.descriptors.PrimitiveKind"@,
        "import kotlinx.serialization.descriptors.PrimitiveSerialDescriptor"@,
        "import kotlinx.serialization.encoding.Decoder"@,
        "import kotlinx.serialization.encoding.Encoder"@,
        "import kotlinx.serialization.json.JsonDecoder"@,
        "import kotlinx.serialization.json.JsonEncoder"@,
        "import kotlinx.serialization.json.JsonUnquotedLiteral"@,
        "import kotlinx.serialization.json.jsonPrimitive"@,
    ]
}

/// The imports that a feature needs.
pub open spec fn feature_imports(f: Feature, encoding: Encoding, package: Seq<char>) -> Seq<
    Seq<char>,
> {
    if f == Feature::BigInt {
        seq!["import java.math.BigInteger"@] + if encoding == Encoding::Json {
            json_big_int_imports()
        } else if encoding == Encoding::Bincode {
            seq![import_of(package, "Int128"@)]
        } else {
            Seq::empty()
        }
    } else {
        Seq::empty()
    }
}

/// The imports that the features need, feature after feature.
pub open spec fn features_imports(fs: Seq<Feature>, encoding: Encoding, package: Seq<char>) -> Seq<
    Seq<char>,
>
    decreases fs.len(),
{
    if fs.len() == 0 {
        Seq::empty()
    } else {
        features_imports(fs.drop_last(), encoding, package) + feature_imports(
            fs.last(),
            encoding,
            package,
        )
    }
}

/// All the imports of the module, in the order they are gathered.
pub open spec fn module_imports(config: CodeGeneratorConfig) -> Seq<Seq<char>> {
    let package = serde_package(config.external_packages@);
    encoding_imports(config.encoding, package) + features_imports(
        config.features@,
        config.encoding,
        package,
    )
}

/// The Kotlin source that a feature adds, followed by a newline: big
/// integers for JSON, the collections for bincode, list building always.
pub open spec fn feature_text(f: Feature, encoding: Encoding, sources: FeatureSources) -> Seq<char> {
    match f {
        Feature::BigInt => if encoding == Encoding::Json {
            sources.big_int@.push('\n')
        } else {
            Seq::empty()
        },
        Feature::ListOfT => if encoding == Encoding::Bincode {
            sources.list_of_t@.push('\n')
        } else {
            Seq::empty()
        },
        Feature::OptionOfT => if encoding == Encoding::Bincode {
            sources.option_of_t@.push('\n')
        } else {
            Seq::empty()
        },
        Feature::SetOfT => if encoding == Encoding::Bincode {
            sources.set_of_t@.push('\n')
        } else {
            Seq::empty()
        },
        Feature::MapOfT => if encoding == Encoding::Bincode {
            sources.map_of_t@.push('\n')
        } else {
            Seq::empty()
        },
        Feature::BuildList => sources.build_list@.push('\n'),
    }
}

/// The Kotlin sources of the features, feature after feature.
pub open spec fn features_text(fs: Seq<Feature>, encoding: Encoding, sources: FeatureSources) -> Seq<
    char,
>
    decreases fs.len(),
{
    if fs.len() == 0 {
        Seq::empty()
    } else {
        features_text(fs.drop_last(), encoding, sources) + feature_text(
            fs.last(),
            encoding,
            sources,
        )
    }
}

/// One line per import.
pub open spec fn import_lines_doc(imports: Seq<Seq<char>>) -> Seq<Piece>
    decreases imports.len(),
{
    if imports.len() == 0 {
        Seq::empty()
    } else {
        import_lines_doc(imports.drop_last()) + line(imports.last())
    }
}

/// The head of the module: the package line and an empty line; the imports
/// sorted, each once, and an empty line, where there are any; the sources of
/// the features.
pub open spec fn module_header_doc(config: CodeGeneratorConfig, sources: FeatureSources) -> Seq<
    Piece,
> {
    let imports = sort_dedup(module_imports(config));
    line("package "@ + config.module_name@) + newline_doc() + (if imports.len() > 0 {
        import_lines_doc(imports) + newline_doc()
    } else {
        Seq::empty()
    }) + txt(features_text(config.features@, config.encoding, sources))
}

/// The package that serves the `serde` namespace.
fn find_serde_package(pkgs: &Vec<ExternalPackage>) -> (p: String)
    ensures
        p@ == serde_package(pkgs@),
{
    let n = pkgs.len();
    let mut i: usize = 0;
    proof {
        assert(pkgs@.skip(0) =~= pkgs@);
    }
    while i < n
        invariant
            n == pkgs@.len(),
            0 <= i <= n,
            serde_package(pkgs@) == serde_package(pkgs@.skip(i as int)),
        decreases n - i,
    {
        proof {
            assert(pkgs@.skip(i as int)[0] == pkgs@[i as int]);
            assert(pkgs@.skip(i as int).drop_first() =~= pkgs@.skip(i + 1));
        }
        if crate::order::same_chars(pkgs[i].name.as_str(), "serde") {
            return match &pkgs[i].location {
                PackageLocation::Path(path) => path.clone(),
                PackageLocation::Url(_) => "serde".to_owned(),
            };
        }
        i = i + 1;
    }
    proof {
        assert(pkgs@.skip(n as int) =~= Seq::<ExternalPackage>::empty());
    }
    "serde".to_owned()
}

/// `import <package>.<name>` as a string.
fn import_line(package: &str, name: &str) -> (s: String)
    ensures
        s@ == import_of(package@, name@),
{
    let with_package = joined("import ", package);
    let with_dot = joined(with_package.as_str(), ".");
    joined(with_dot.as_str(), name)
}

/// The imports that the encoding needs.
fn encoding_import_lines(encoding: Encoding, package: &str) -> (v: Vec<String>)
    ensures
        strings_view(v@) == encoding_imports(encoding, package@),
{
    let mut v: Vec<String> = Vec::new();
    match encoding {
        Encoding::Json => {
            v.push("import kotlinx.serialization.Serializable".to_owned());
            v.push("import kotlinx.serialization.SerialName".to_owned());
        },
        Encoding::Bincode => {
            v.push(import_line(package, "BincodeDeserializer"));
            v.push(import_line(package, "BincodeSerializer"));
            v.push(import_line(package, "Bytes"));
            v.push(import_line(package, "DeserializationError"));
            v.push(import_line(package, "Deserializer"));
            v.push(import_line(package, "Serializer"));
            v.push(import_line(package, "Unsigned"));
        },
        _ => {},
    }
    proof {
        assert(strings_view(v@) =~= encoding_imports(encoding, package@));
    }
    v
}

/// Adds the imports that a feature needs.
fn add_feature_imports(v: &mut Vec<String>, f: Feature, encoding: Encoding, package: &str)
    ensures
        strings_view(final(v)@) == strings_view(old(v)@) + feature_imports(f, encoding, package@),
{
    let ghost before = strings_view(v@);
    if f == Feature::BigInt {
        v.push("import java.math.BigInteger".to_owned());
        match encoding {
            Encoding::Json => {
                v.push("import kotlinx.serialization.KSerializer".to_owned());
                v.push("import kotlinx.serialization.descriptors.PrimitiveKind".to_owned());
                v.push("import kotlinx.serialization.descriptors.PrimitiveSerialDescriptor".to_owned());
                v.push("import kotlinx.serialization.encoding.Decoder".to_owned());
                v.push("import kotlinx.serialization.encoding.Encoder".to_owned());
                v.push("import kotlinx.serialization.json.JsonDecoder".to_owned());
                v.push("import kotlinx.serialization.json.JsonEncoder".to_owned());
                v.push("import kotlinx.serialization.json.JsonUnquotedLiteral".to_owned());
                v.push("import kotlinx.serialization.json.jsonPrimitive".to_owned());
            },
            Encoding::Bincode => {
                v.push(import_line(package, "Int128"));
            },
            _ => {},
        }
    }
    proof {
        assert(strings_view(v@) =~= before + feature_imports(f, encoding, package@));
    }
}

/// Appends the Kotlin source of a feature to `out`.
fn add_feature_text(out: &mut String, f: Feature, encoding: Encoding, sources: &FeatureSources)
    ensures
        final(out)@ == old(out)@ + feature_text(f, encoding, *sources),
{
    let ghost before = out@;
    let text: Option<&str> = match f {
        Feature::BigInt => if encoding == Encoding::Json {
            Some(sources.big_int.as_str())
        } else {
            None
        },
        Feature::ListOfT => if encoding == Encoding::Bincode {
            Some(sources.list_of_t.as_str())
        } else {
            None
        },
        Feature::OptionOfT => if encoding == Encoding::Bincode {
            Some(sources.option_of_t.as_str())
        } else {
            None
        },
        Feature::SetOfT => if encoding == Encoding::Bincode {
            Some(sources.set_of_t.as_str())
        } else {
            None
        },
        Feature::MapOfT => if encoding == Encoding::Bincode {
            Some(sources.map_of_t.as_str())
        } else {
            None
        },
        Feature::BuildList => Some(sources.build_list.as_str()),
    };
    if let Some(t) = text {
        out.append(t);
        out.append("\n");
        proof {
            reveal_strlit("\n");
            assert(out@ =~= before + t@.push('\n'));
        }
    } else {
        assert(out@ =~= before + feature_text(f, encoding, *sources));
    }
}

impl Kotlin {
    /// The imports of the module, sorted, each once.
    pub fn module_imports(config: &CodeGeneratorConfig) -> (v: Vec<String>)
        ensures
            strings_view(v@) == sort_dedup(module_imports(*config)),
    {
        let package = find_serde_package(&config.external_packages);
        let mut imports = encoding_import_lines(config.encoding, package.as_str());
        let n = config.features.len();
        let mut i: usize = 0;
        while i < n
            invariant
                n == config.features@.len(),
                0 <= i <= n,
                package@ == serde_package(config.external_packages@),
                strings_view(imports@) == encoding_imports(config.encoding, package@)
                    + features_imports(config.features@.take(i as int), config.encoding, package@),
            decreases n - i,
        {
            add_feature_imports(&mut imports, config.features[i], config.encoding, package.as_str());
            proof {
                let next = config.features@.take(i + 1);
                assert(next.drop_last() =~= config.features@.take(i as int));
                assert(next.last() == config.features@[i as int]);
            }
            i = i + 1;
        }
        proof {
            assert(config.features@.take(n as int) =~= config.features@);
        }
        let sorted = sorted_unique(&imports);
        assert(strings_view(sorted@) == sorted@.map_values(|s: String| s@));
        sorted
    }

    /// The Kotlin sources of the module's features.
    pub fn features_text(config: &CodeGeneratorConfig, sources: &FeatureSources) -> (s: String)
        ensures
            s@ == features_text(config.features@, config.encoding, *sources),
    {
        let mut out = String::new();
        let n = config.features.len();
        let mut i: usize = 0;
        proof {
            assert(config.features@.take(0) =~= Seq::<Feature>::empty());
        }
        while i < n
            invariant
                n == config.features@.len(),
                0 <= i <= n,
                out@ == features_text(config.features@.take(i as int), config.encoding, *sources),
            decreases n - i,
        {
            add_feature_text(&mut out, config.features[i], config.encoding, sources);
            proof {
                let next = config.features@.take(i + 1);
                assert(next.drop_last() =~= config.features@.take(i as int));
                assert(next.last() == config.features@[i as int]);
            }
            i = i + 1;
        }
        proof {
            assert(config.features@.take(n as int) =~= config.features@);
        }
        out
    }

    /// Writes the head of the module: package, imports, feature sources.
    pub fn write_module_header(
        w: &mut IndentedWriter,
        config: &CodeGeneratorConfig,
        sources: &FeatureSources,
    )
        requires
            config.wf(),
        ensures
            final(w)@ == run(old(w)@, module_header_doc(*config, *sources)),
    {
        let ghost st = w@;
        w.write3_line("package ", config.module_name.as_str(), "");
        w.end_line();
        proof {
            reveal_strlit("");
            assert("package "@ + config.module_name@ + ""@ =~= "package "@ + config.module_name@);
            lemma_run_concat(st, line("package "@ + config.module_name@), newline_doc());
        }
        let ghost head = line("package "@ + config.module_name@) + newline_doc();
        let features_out = Self::features_text(config, sources);
        let imports = Self::module_imports(config);
        let ghost views = strings_view(imports@);
        let ghost mid = w@;
        let n = imports.len();
        if n > 0 {
            let mut i: usize = 0;
            proof {
                assert(views.take(0) =~= Seq::<Seq<char>>::empty());
                crate::text::lemma_run_empty(mid);
            }
            while i < n
                invariant
                    n == imports@.len(),
                    views == strings_view(imports@),
                    0 <= i <= n,
                    w@ == run(mid, import_lines_doc(views.take(i as int))),
                decreases n - i,
            {
                w.write3_line(imports[i].as_str(), "", "");
                proof {
                    reveal_strlit("");
                    assert(imports@[i as int]@ + ""@ + ""@ =~= views[i as int]);
                    let next = views.take(i + 1);
                    assert(next.drop_last() =~= views.take(i as int));
                    lemma_run_concat(mid, import_lines_doc(views.take(i as int)), line(views[i as int]));
                }
                i = i + 1;
            }
            w.end_line();
            proof {
                assert(views.take(n as int) =~= views);
                lemma_run_concat(mid, import_lines_doc(views), newline_doc());
            }
        } else {
            proof {
                crate::text::lemma_run_empty(mid);
            }
        }
        let ghost imports_doc = if views.len() > 0 {
            import_lines_doc(views) + newline_doc()
        } else {
            Seq::<Piece>::empty()
        };
        proof {
            lemma_run_concat(st, head, imports_doc);
        }
        w.write_txt(features_out.as_str());
        proof {
            lemma_run_concat(st, head + imports_doc, txt(features_out@));
        }
    }
}

} // verus!
