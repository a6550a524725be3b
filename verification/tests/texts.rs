use package_docs::annotations::remove_list_annotations;
use package_docs::collections::Files;
use package_docs::docs::{
    convert_docs, identify_docs, parse_docs, Conversion, ConvertedDocs, Docs, TidyFuncDocs,
    TidyModuleDocs, TidyParamDocs, TidyParses, TidyVarDocs,
};
use package_docs::encoding::jbase64;
use package_docs::order::sort_ranked;
use package_docs::package::{file_id_repr, FileId, PackageSpec, PackageVersion};
use package_docs::path::VirtualPath;
use package_docs::records::describe_files;
use package_docs::signature::{docs_signature, param_tooltip, shorten_type};
use package_docs::symbols::{create_head, kind_of, list_head, oneliner, SymbolInfoHead};
use package_docs::text::{contains_text, replace_text, trim_text};
use package_docs::value::{
    Definition, FuncRepr, FuncValue, ModuleValue, ParamFacts, PrimarySignature, SignatureFacts,
    Span, TypeFacts, TypeSignature, Value,
};
use std::sync::Arc;

#[test]
fn oneliner_is_the_first_line() {
    assert_eq!(oneliner("first\nsecond"), "first");
    assert_eq!(oneliner("first\r\nsecond"), "first");
    assert_eq!(oneliner("first\r"), "first\r");
    assert_eq!(oneliner("\nsecond"), "");
    assert_eq!(oneliner(""), "");
    for text in ["a\rb\nc", "\r\n", "\r\r\nx", "x", "ä\n"] {
        assert_eq!(oneliner(text), text.lines().next().unwrap_or_default());
    }
}

#[test]
fn text_is_replaced_from_the_left() {
    assert_eq!(replace_text("a --> b --> c", "-->", "\u{2014}>"), "a \u{2014}> b \u{2014}> c");
    assert_eq!(replace_text("--->", "-->", "\u{2014}>"), "-\u{2014}>");
    assert_eq!(replace_text("aaaa", "aa", "b"), "bb");
    assert_eq!(replace_text("a.b.c", ".", ""), "abc");
    assert!(contains_text("x```y", "```"));
    assert!(!contains_text("x``y`", "```"));
}

#[test]
fn text_is_trimmed_like_str_trim() {
    for text in ["  a b\t\n", "\u{3000}x\u{a0}", "", "   ", "x", "\u{200b}x "] {
        assert_eq!(trim_text(text), text.trim());
    }
}

#[test]
fn list_annotations_are_removed() {
    let text = "a <!-- typlite:begin:list-item 0 -->b<!-- typlite:end:list-item 0 --> c";
    assert_eq!(remove_list_annotations(text), "a b c");
    assert_eq!(remove_list_annotations("no annotation"), "no annotation");
    assert_eq!(remove_list_annotations("1 > 0"), "1 > 0");
    assert_eq!(remove_list_annotations("1 < 2 <!-- typlite:end:enum 3 -->!"), "1 < 2 !");
    assert_eq!(
        remove_list_annotations("<!-- typlite:begin:a b <!-- typlite:end:a 1 -->"),
        "<!-- typlite:begin:a b "
    );
    assert_eq!(
        remove_list_annotations("<!-- typ<!-- typlite:end:a 1 -->lite:end:a 1 -->"),
        "<!-- typlite:end:a 1 -->"
    );
    assert_eq!(remove_list_annotations("<!-- typlite:middle:a 1 -->"), "<!-- typlite:middle:a 1 -->");
    for end in ["begin", "end"] {
        for kind in ["list-item", "_x1", "-", "\u{e4}\u{3b2}"] {
            for number in ["0", "42", "\u{663}"] {
                let behind = " b < c <!-- typlite:end:list-item 7 -->d";
                let text = format!("a\n<!-- typlite:{end}:{kind} {number} -->{behind}");
                let expected = format!("a\n{}", remove_list_annotations(behind));
                assert_eq!(remove_list_annotations(&text), expected);
            }
        }
    }
    assert_eq!(
        remove_list_annotations("<!-- typlite:begin:list-item x -->"),
        "<!-- typlite:begin:list-item x -->"
    );
}

#[test]
fn shorter_paths_come_first() {
    let paths = vec![
        "b.c".to_string(),
        "utils".to_string(),
        "a.c".to_string(),
        "".to_string(),
        "ä".to_string(),
        "zz".to_string(),
    ];
    assert_eq!(
        sort_ranked(paths),
        vec!["", "zz", "ä", "a.c", "b.c", "utils"]
            .into_iter()
            .map(String::from)
            .collect::<Vec<String>>()
    );
}

fn parses(func: bool) -> TidyParses {
    TidyParses {
        function: if func {
            Ok(TidyFuncDocs {
                docs: "adds".to_string(),
                params: vec![TidyParamDocs {
                    name: "x".to_string(),
                    docs: "the first".to_string(),
                    types: "int".to_string(),
                }],
            })
        } else {
            Err("no function docs".to_string())
        },
        variable: Ok(TidyVarDocs { docs: "a value".to_string() }),
        module: Ok(TidyModuleDocs { docs: "a module".to_string() }),
    }
}

#[test]
fn docs_are_identified_by_kind() {
    match identify_docs("function", &parses(true)).unwrap() {
        Docs::Function(docs) => {
            assert_eq!(docs.docs, "adds");
            assert_eq!(docs.params.len(), 1);
            assert_eq!(docs.params[0].name, "x");
            assert_eq!(docs.params[0].docs, "the first");
            assert_eq!(docs.params[0].types, "int");
        }
        other => panic!("{other:?}"),
    }
    assert_eq!(identify_docs("variable", &parses(true)).unwrap().docs(), "a value");
    assert_eq!(identify_docs("module", &parses(true)).unwrap().docs(), "a module");
    assert_eq!(identify_docs("function", &parses(false)).unwrap_err(), "no function docs");
    assert_eq!(identify_docs("struct", &parses(true)).unwrap_err(), "unknown kind struct");
}

#[test]
fn failed_conversions_are_reported() {
    assert_eq!(convert_docs(Conversion::Markdown("*a*".to_string())), Ok("*a*".to_string()));
    assert_eq!(
        convert_docs(Conversion::Failed("unknown element".to_string())),
        Err("failed to convert to markdown: unknown element".to_string())
    );
    assert_eq!(
        convert_docs(Conversion::Refused("no such entry".to_string())),
        Err("no such entry".to_string())
    );
}

#[test]
fn docs_without_structure_stay_plain() {
    let converted = ConvertedDocs { content: "plain text".to_string(), parses: parses(false) };
    let docs = parse_docs("function", &converted);
    assert!(matches!(docs, Docs::Plain(_)));
    assert_eq!(docs.docs(), "plain text");
    let converted = ConvertedDocs { content: "plain text".to_string(), parses: parses(true) };
    assert_eq!(parse_docs("function", &converted).docs(), "adds");
    assert_eq!(parse_docs("constant", &converted).docs(), "plain text");
}

#[test]
fn long_types_are_shortened() {
    assert_eq!(shorten_type("  int "), "int");
    assert_eq!(shorten_type("{ a: 1 }"), "{ a: 1 }");
    assert_eq!(shorten_type("{ aaaaaaaaaaaaaaaaaaaaaaaaaaaaaaaaa }"), "{ ... }");
    assert_eq!(shorten_type("`aaaaaaaaaaaaaaaaaaaaaaaaaaaaaaaaa`"), "raw");
    assert_eq!(shorten_type("[aaaaaaaaaaaaaaaaaaaaaaaaaaaaaaaaa]"), "content");
    assert_eq!(shorten_type("[aaaaaaaaaaaaaaaaaaaaaaaaaaaa]"), "[aaaaaaaaaaaaaaaaaaaaaaaaaaaa]");
    assert_eq!(
        shorten_type("aaaaaaaaaaaaaaaaaaaaaaaaaaaaaaaaaaaa"),
        "aaaaaaaaaaaaaaaaaaaaaaaaaaaaaaaaaaaa"
    );
}

fn param(name: &str, ty: Option<&str>) -> ParamFacts {
    ParamFacts {
        name: name.to_string(),
        docs: format!("docs of {name}"),
        type_repr: ty.map(|ty| ty.to_string()),
        expr: Some("none".to_string()),
        positional: ty.is_none(),
        named: ty.is_some(),
        variadic: false,
        settable: true,
    }
}

fn ty(described: Option<&str>, debug: &str) -> TypeFacts {
    TypeFacts { described: described.map(|text| text.to_string()), debug: debug.to_string() }
}

fn signature_facts() -> SignatureFacts {
    SignatureFacts {
        primary: PrimarySignature {
            pos: vec![param("x", None), param("y", None)],
            named: vec![
                ("width".to_string(), param("width", Some(" length "))),
                ("fill".to_string(), param("fill", None)),
                ("body".to_string(), param("body", Some("[aaaaaaaaaaaaaaaaaaaaaaaaaaaaaaaaa]"))),
            ],
            rest: Some(param("args", None)),
            ret_ty: Some(ty(Some("any"), "Any")),
        },
        typed: Some(TypeSignature {
            pos: vec![ty(Some("int"), "Int")],
            named: vec![("width".to_string(), ty(None, "Length"))],
            rest: None,
            body: None,
        }),
    }
}

fn nowhere() -> Span {
    Span { id: None, range: None }
}

fn somewhere() -> Span {
    Span { id: Some(file("tidy", "lib.typ")), range: None }
}

fn func(inner_span: Span) -> Value {
    let inner = FuncValue {
        span: inner_span,
        definition: None,
        repr: FuncRepr::Plain(signature_facts()),
    };
    Value::Func(FuncValue {
        span: nowhere(),
        definition: None,
        repr: FuncRepr::With(Box::new(inner)),
    })
}

#[test]
fn signature_is_that_of_the_innermost_function() {
    let signature = docs_signature(&func(somewhere()), Some((4, 7))).unwrap();
    assert_eq!(signature.pos.len(), 2);
    assert_eq!(signature.pos[0].name, "x");
    assert_eq!(signature.pos[0].docs, "docs of x");
    assert_eq!(signature.pos[0].cano_type, Some(("int".to_string(), "Int".to_string())));
    assert_eq!(signature.pos[0].expr, Some("none".to_string()));
    assert!(signature.pos[0].positional && signature.pos[0].settable);
    assert_eq!(signature.pos[1].cano_type, None);
    let width = signature.named.get(&"width".to_string()).unwrap();
    assert_eq!(width.cano_type, Some(("unknown".to_string(), "Length".to_string())));
    assert!(width.named && !width.positional);
    assert!(signature.named.get(&"depth".to_string()).is_none());
    assert_eq!(signature.rest.as_ref().unwrap().name, "args");
    assert_eq!(signature.ret_ty, Some(("any".to_string(), "Any".to_string())));
}

#[test]
fn inferred_types_need_a_file_and_a_name() {
    let unplaced = docs_signature(&func(nowhere()), Some((4, 7))).unwrap();
    let unnamed = docs_signature(&func(somewhere()), None).unwrap();
    for signature in [unplaced, unnamed] {
        assert!(signature.pos.iter().all(|param| param.cano_type.is_none()));
        assert!(signature.named.entries().iter().all(|entry| entry.1.cano_type.is_none()));
        assert_eq!(signature.rest.unwrap().cano_type, None);
        assert_eq!(signature.ret_ty, Some(("any".to_string(), "Any".to_string())));
    }
}

#[test]
fn tooltip_lists_named_parameters_in_order() {
    let signature = docs_signature(&func(somewhere()), Some((4, 7))).unwrap();
    assert_eq!(
        param_tooltip(&signature),
        "x, y, args, body: content, fill: any, width: length"
    );
}

#[test]
fn only_functions_have_signatures() {
    assert!(docs_signature(&Value::Other("1".to_string()), None).is_none());
    assert!(docs_signature(&Value::Type("int".to_string()), None).is_none());
}

#[test]
fn kinds_have_names() {
    let module = ModuleValue { name: "m".to_string(), file: None, repr: "<module m>".to_string() };
    assert_eq!(kind_of(&Value::Module(module)), "module");
    assert_eq!(kind_of(&Value::Type("int".to_string())), "struct");
    assert_eq!(kind_of(&func(nowhere())), "function");
    assert_eq!(kind_of(&Value::Label("<a>".to_string())), "reference");
    assert_eq!(kind_of(&Value::Other("1".to_string())), "constant");
}

fn file(name: &str, path: &str) -> FileId {
    FileId {
        package: Some(PackageSpec {
            namespace: "preview".to_string(),
            name: name.to_string(),
            version: PackageVersion { major: 1, minor: 2, patch: 3 },
        }),
        vpath: VirtualPath::new(path),
    }
}

#[test]
fn head_of_a_constant_shows_its_value() {
    let head = create_head("answer", &Arc::new(Value::Other("42".to_string())));
    assert_eq!(head.name, "answer");
    assert_eq!(head.kind, "constant");
    assert_eq!(head.constant, Some("42".to_string()));
    assert!(head.fid.is_none() && head.span.is_none() && head.docs.is_none());
    let empty = SymbolInfoHead::default();
    assert_eq!(empty.name, "");
    assert!(empty.value.is_none() && !empty.export_again);
}

#[test]
fn reexported_function_keeps_the_first_line_of_its_docs() {
    let docs = package_docs::docs::RawDocs {
        text: "Adds.\nMore.".to_string(),
        converted: Err("unused".to_string()),
    };
    let span = Span { id: Some(file("tidy", "util.typ")), range: Some((3, 9)) };
    let value = Arc::new(Value::Func(FuncValue {
        span: nowhere(),
        definition: Some(Definition {
            span,
            name_range: Some((4, 7)),
            docs: Some(Arc::new(docs)),
        }),
        repr: FuncRepr::Plain(signature_facts()),
    }));
    let home = list_head("add", &value, Some(&file("tidy", "util.typ")));
    assert!(!home.export_again);
    assert_eq!(home.docs.unwrap().text, "Adds.\nMore.");
    assert_eq!(home.oneliner, None);
    assert_eq!(home.constant, None);
    assert_eq!(home.name_range, Some((4, 7)));
    let abroad = list_head("add", &value, Some(&file("tidy", "lib.typ")));
    assert!(abroad.export_again);
    assert!(abroad.docs.is_none());
    assert_eq!(abroad.oneliner, Some("Adds.".to_string()));
    assert!(abroad.fid.unwrap().same(&file("tidy", "util.typ")));
}

#[test]
fn files_of_one_package_have_different_notations() {
    let paths = ["a.typ", "a/b.typ", "b/a.typ", "b.typ", "a/b/c.typ"];
    for left in paths {
        for right in paths {
            let same = file_id_repr(&file("tidy", left)) == file_id_repr(&file("tidy", right));
            assert_eq!(same, left == right);
        }
    }
}

#[test]
fn base64_holds_no_comment_end() {
    let bytes: String = (0u32..0x300).filter_map(char::from_u32).collect();
    let text = jbase64(&bytes);
    assert!(text.chars().all(|c| c.is_ascii_alphanumeric() || "+/=".contains(c)));
}

#[test]
fn files_and_packages_are_numbered_once() {
    let mut files = Files::new();
    assert_eq!(files.number(&file("a", "x.typ")), 0);
    assert_eq!(files.number(&file("b", "x.typ")), 1);
    assert_eq!(files.number(&file("a", "x.typ")), 0);
    assert_eq!(files.number(&file("a", "y.typ")), 2);
    let local = FileId { package: None, vpath: VirtualPath::new("main.typ") };
    assert_eq!(files.number(&local), 3);
    let end = describe_files(files);
    assert_eq!(
        end.files.iter().map(|file| file.package).collect::<Vec<Option<usize>>>(),
        vec![Some(0), Some(1), Some(0), None]
    );
    assert_eq!(end.files[2].path.segments, vec!["y.typ".to_string()]);
    assert_eq!(end.packages.len(), 2);
    assert_eq!(end.packages[1].namespace, "preview");
    assert_eq!(end.packages[1].name, "b");
    assert_eq!(end.packages[1].version, "1.2.3");
    assert!(end.packages[1].manifest.is_none());
}
