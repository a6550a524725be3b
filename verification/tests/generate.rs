use std::path::PathBuf;
use std::sync::Arc;

use base64::Engine;
use ecow::EcoVec;
use package_docs::docs::{
    ConvertedDocs, RawDocs, TidyFuncDocs, TidyModuleDocs, TidyParamDocs, TidyParses, TidyVarDocs,
};
use package_docs::document::{plan_listing, plan_md_docs, plan_symbols, Planning};
use package_docs::listing::{list_symbols, Listing, SymbolsInfo};
use package_docs::markdown::{generate_md_docs, records_match, ModuleRecords, Records};
use package_docs::package::{file_id_repr, FileId, PackageInfo, PackageSpec, PackageVersion};
use package_docs::path::VirtualPath;
use package_docs::plan::{DocPlan, DocScope, Submodule};
use package_docs::records::PackageMeta;
use package_docs::scan::{Binding, Evaluated, Known, Request};
use package_docs::symbols::{create_head, SymbolInfo};
use package_docs::table::Table;
use package_docs::value::{
    Definition, FuncRepr, FuncValue, ModuleValue, ParamFacts, PrimarySignature, SignatureFacts,
    Span, Value,
};

fn package(name: &str) -> PackageSpec {
    PackageSpec {
        namespace: "preview".to_string(),
        name: name.to_string(),
        version: PackageVersion { major: 0, minor: 1, patch: 0 },
    }
}

fn file(path: &str) -> FileId {
    FileId { package: Some(package("demo")), vpath: VirtualPath::new(path) }
}

fn demo() -> PackageInfo {
    PackageInfo::from((PathBuf::from("/packages/demo"), package("demo")))
}

fn manifest() -> Result<Vec<u8>, String> {
    let text =
        "[package]\nname = \"demo\"\nversion = \"0.1.0\"\nentrypoint = \"src/lib.typ\"\n";
    Ok(text.as_bytes().to_vec())
}

fn nothing_known() -> Known {
    Known { evaluated: Vec::new(), scopes: Vec::new() }
}

fn converted(content: &str, params: Vec<TidyParamDocs>) -> Result<ConvertedDocs, String> {
    Ok(ConvertedDocs {
        content: content.to_string(),
        parses: TidyParses {
            function: Ok(TidyFuncDocs { docs: content.to_string(), params }),
            variable: Ok(TidyVarDocs { docs: content.to_string() }),
            module: Ok(TidyModuleDocs { docs: content.to_string() }),
        },
    })
}

fn function(at: FileId, docs: Option<RawDocs>, param: &str) -> Value {
    Value::Func(FuncValue {
        span: Span { id: None, range: None },
        definition: Some(Definition {
            span: Span { id: Some(at), range: Some((10, 20)) },
            name_range: Some((14, 17)),
            docs: docs.map(Arc::new),
        }),
        repr: FuncRepr::Plain(SignatureFacts {
            primary: PrimarySignature {
                pos: vec![ParamFacts {
                    name: param.to_string(),
                    docs: String::new(),
                    type_repr: None,
                    expr: None,
                    positional: true,
                    named: false,
                    variadic: false,
                    settable: false,
                }],
                named: Vec::new(),
                rest: None,
                ret_ty: None,
            },
            typed: None,
        }),
    })
}

fn module(name: &str, path: &str) -> Value {
    Value::Module(ModuleValue {
        name: name.to_string(),
        file: Some(file(path)),
        repr: format!("<module {name}>"),
    })
}

fn binding(name: &str, value: Value) -> Binding {
    Binding { name: name.to_string(), value: Arc::new(value) }
}

/// What evaluating a file of the demo package gives.
fn evaluate(path: &str) -> Result<Evaluated, String> {
    match path {
        "/src/lib.typ" => {
            Ok(Evaluated { name: "lib".to_string(), repr: "<module lib>".to_string() })
        }
        "/src/hidden.typ" => {
            Ok(Evaluated { name: "hidden".to_string(), repr: "<module hidden>".to_string() })
        }
        other => Err(format!("cannot evaluate {other}")),
    }
}

fn sub_docs() -> RawDocs {
    RawDocs {
        text: "Subtracts.\nSee `sub`.".to_string(),
        converted: Err("bad --> docs".to_string()),
    }
}

/// The bindings of a module of the demo package.
fn scope(path: &str) -> Vec<Binding> {
    match path {
        "/src/lib.typ" => vec![
            binding(
                "add",
                function(
                    file("src/lib.typ"),
                    Some(RawDocs {
                        text: "Adds.".to_string(),
                        converted: converted(
                            "Adds <!-- typlite:begin:list-item 0 -->numbers.",
                            vec![TidyParamDocs {
                                name: "x".to_string(),
                                docs: "The number.".to_string(),
                                types: "int".to_string(),
                            }],
                        ),
                    }),
                    "x",
                ),
            ),
            binding("util", module("util", "src/util.typ")),
            binding("sub", function(file("src/util.typ"), Some(sub_docs()), "x")),
            binding("hid", function(file("src/hidden.typ"), None, "x")),
            binding("again", module("util", "src/util.typ")),
            binding(
                "ext",
                function(
                    FileId { package: Some(package("other")), vpath: VirtualPath::new("lib.typ") },
                    None,
                    "x",
                ),
            ),
            binding(
                "local",
                function(FileId { package: None, vpath: VirtualPath::new("main.typ") }, None, "x"),
            ),
            binding("answer", Value::Other("42".to_string())),
            binding("broken", function(file("src/broken.typ"), None, "x")),
        ],
        "/src/util.typ" => vec![
            binding("sub", function(file("src/util.typ"), Some(sub_docs()), "x")),
            binding("lib", module("lib", "src/lib.typ")),
        ],
        "/src/hidden.typ" => vec![binding("hid", function(file("src/hidden.typ"), None, "x"))],
        other => panic!("no module in {other}"),
    }
}

fn answer(known: &mut Known, request: Request, asked: &mut Vec<String>) {
    match request {
        Request::Evaluate(at) => {
            asked.push(format!("evaluate {}", at.vpath.unix_slash()));
            let outcome = evaluate(&at.vpath.unix_slash());
            known.evaluated.push((at, outcome));
        }
        Request::Scope(at) => {
            asked.push(format!("scope {}", at.vpath.unix_slash()));
            let bindings = scope(&at.vpath.unix_slash());
            known.scopes.push((at, bindings));
        }
    }
}

fn listed() -> (SymbolsInfo, Vec<String>) {
    let mut known = nothing_known();
    let mut asked = Vec::new();
    loop {
        match list_symbols(&demo(), &manifest(), &known).unwrap() {
            Listing::Ask(request) => answer(&mut known, request, &mut asked),
            Listing::Done(symbols) => return (symbols, asked),
        }
    }
}

fn planned() -> DocPlan {
    let mut known = nothing_known();
    let mut asked = Vec::new();
    loop {
        match plan_md_docs(&demo(), &manifest(), &known).unwrap() {
            Planning::Ask(request) => answer(&mut known, request, &mut asked),
            Planning::Done(plan) => return plan,
        }
    }
}

fn names(symbols: &[SymbolInfo]) -> Vec<&str> {
    symbols.iter().map(|symbol| symbol.head.name.as_str()).collect()
}

fn uses(symbols: &SymbolsInfo, path: &str) -> Vec<String> {
    let key = file_id_repr(&file(path));
    symbols.module_uses.get(&key).unwrap().iter().cloned().collect()
}

#[test]
fn scan_asks_for_each_file_once() {
    let (_, asked) = listed();
    assert_eq!(
        asked,
        vec![
            "evaluate /src/lib.typ",
            "scope /src/lib.typ",
            "scope /src/util.typ",
            "evaluate /src/hidden.typ",
            "scope /src/hidden.typ",
            "evaluate /src/broken.typ",
        ]
    );
}

#[test]
fn scan_enters_each_module_once() {
    let (symbols, _) = listed();
    let root = &symbols.root;
    assert_eq!(root.head.name, "lib");
    assert_eq!(root.head.kind, "module");
    assert_eq!(
        names(&root.children),
        vec!["add", "util", "sub", "hid", "again", "ext", "local", "answer", "broken", "hidden"]
    );
    assert_eq!(names(&root.children[1].children), vec!["sub", "lib"]);
    assert!(root.children[1].children[1].children.is_empty());
    assert!(root.children[4].children.is_empty());
    assert_eq!(names(&root.children[9].children), vec!["hid"]);
}

#[test]
fn scan_marks_reexports() {
    let (symbols, _) = listed();
    let root = &symbols.root;
    let marked: Vec<&str> = root
        .children
        .iter()
        .filter(|symbol| symbol.head.export_again)
        .map(|symbol| symbol.head.name.as_str())
        .collect();
    assert_eq!(marked, vec!["sub", "hid", "ext", "local", "broken"]);
    assert_eq!(root.children[2].head.oneliner, Some("Subtracts.".to_string()));
    assert!(root.children[2].head.docs.is_none());
    assert!(!root.children[1].children[0].head.export_again);
}

#[test]
fn scan_records_all_paths() {
    let (symbols, _) = listed();
    assert_eq!(uses(&symbols, "src/lib.typ"), vec!["", "util.lib"]);
    assert_eq!(uses(&symbols, "src/util.typ"), vec!["util", "again"]);
    assert_eq!(uses(&symbols, "src/hidden.typ"), vec!["hid.-.hid"]);
    assert_eq!(uses(&symbols, "src/broken.typ"), Vec::<String>::new());
}

#[test]
fn more_knowledge_changes_nothing() {
    let mut known = nothing_known();
    let mut asked = Vec::new();
    while let Listing::Ask(request) = list_symbols(&demo(), &manifest(), &known).unwrap() {
        answer(&mut known, request, &mut asked);
    }
    known.evaluated.push((file("src/other.typ"), Err("unused".to_string())));
    match list_symbols(&demo(), &manifest(), &known).unwrap() {
        Listing::Done(symbols) => assert_eq!(names(&symbols.root.children).len(), 10),
        Listing::Ask(_) => panic!("everything was known"),
    }
}

#[test]
fn listing_fails_without_a_root_module() {
    let mut known = nothing_known();
    known.evaluated.push((file("src/lib.typ"), Err("unknown variable".to_string())));
    assert_eq!(
        list_symbols(&demo(), &manifest(), &known).err().unwrap(),
        "unknown variable"
    );
    assert_eq!(
        plan_md_docs(&demo(), &manifest(), &known).err().unwrap(),
        "unknown variable"
    );
}

#[test]
fn listing_fails_on_a_bad_version_or_manifest() {
    let mut info = demo();
    info.version = "0.1".to_string();
    let message = "version number is missing patch version";
    assert_eq!(list_symbols(&info, &manifest(), &nothing_known()).err().unwrap(), message);
    assert_eq!(plan_md_docs(&info, &manifest(), &nothing_known()).err().unwrap(), message);
    let unread = Err("access denied".to_string());
    let message = "failed to read package manifest (access denied)";
    assert_eq!(list_symbols(&demo(), &unread, &nothing_known()).err().unwrap(), message);
    assert_eq!(plan_md_docs(&demo(), &unread, &nothing_known()).err().unwrap(), message);
}

#[test]
fn planning_follows_the_listing() {
    let mut known = nothing_known();
    let mut asked = Vec::new();
    loop {
        let listed = list_symbols(&demo(), &manifest(), &known);
        match plan_listing(&demo(), &manifest(), listed).unwrap() {
            Planning::Ask(request) => answer(&mut known, request, &mut asked),
            Planning::Done(plan) => {
                assert_eq!(plan.modules.len(), 3);
                assert_eq!(plan.result.errors.len(), 1);
                break;
            }
        }
    }
    let failed = plan_listing(&demo(), &manifest(), Err("no module".to_string()));
    assert_eq!(failed.err().unwrap(), "no module");
}

#[test]
fn modules_are_planned_in_the_order_they_are_met() {
    let plan = planned();
    assert_eq!(plan.title, "@preview/demo:0.1.0");
    assert_eq!(plan.package.version, "0.1.0");
    assert_eq!(plan.package.manifest.as_ref().unwrap().package.entrypoint, "src/lib.typ");
    let modules: Vec<(&str, &str, Option<usize>, &str)> = plan
        .modules
        .iter()
        .map(|module| {
            let info = &module.info;
            (info.name.as_str(), info.prefix.as_str(), info.loc, info.parent_ident.as_str())
        })
        .collect();
    assert_eq!(
        modules,
        vec![
            ("lib", "", Some(0), "lib"),
            ("util", "util", Some(1), "symbol-module-util"),
            ("hidden", "hid.-.hid", Some(2), "symbol-module-hidden"),
        ]
    );
    let aka: Vec<String> = plan.modules[1].info.aka.iter().cloned().collect();
    assert_eq!(aka, vec!["util", "again"]);
}

#[test]
fn places_refer_to_the_list_of_files() {
    let plan = planned();
    let places: Vec<Option<(usize, usize, usize)>> =
        plan.modules[0].symbols.iter().map(|section| section.head.loc).collect();
    assert_eq!(
        places,
        vec![
            Some((0, 10, 20)),
            Some((1, 0, 0)),
            Some((1, 10, 20)),
            Some((2, 10, 20)),
            Some((1, 0, 0)),
            Some((3, 10, 20)),
            Some((4, 10, 20)),
            Some((0, 0, 0)),
            Some((5, 10, 20)),
            Some((2, 0, 0)),
        ]
    );
    let files: Vec<(Option<usize>, String)> = plan
        .end
        .files
        .iter()
        .map(|file| (file.package, file.path.segments.join("/")))
        .collect();
    assert_eq!(
        files,
        vec![
            (Some(0), "src/lib.typ".to_string()),
            (Some(0), "src/util.typ".to_string()),
            (Some(0), "src/hidden.typ".to_string()),
            (Some(1), "lib.typ".to_string()),
            (None, "main.typ".to_string()),
            (Some(0), "src/broken.typ".to_string()),
        ]
    );
    let packages: Vec<&str> =
        plan.end.packages.iter().map(|package| package.name.as_str()).collect();
    assert_eq!(packages, vec!["demo", "other"]);
}

#[test]
fn links_lead_to_where_symbols_are_documented() {
    let plan = planned();
    let links: Vec<(Option<&str>, Option<&str>)> = plan.modules[0]
        .symbols
        .iter()
        .map(|section| (section.link.as_deref(), section.head.external_link.as_deref()))
        .collect();
    let universe = "https://typst.app/universe/package/other/0.1.0";
    let docs = "https://typst.app/docs";
    assert_eq!(
        links,
        vec![
            (None, None),
            (None, None),
            (Some("#function-sub-in-util"), Some("#symbol-function-util.sub")),
            (Some("#function-hid-in-hid-hid"), Some("#symbol-function-hid.-.hid.hid")),
            (None, None),
            (Some(universe), Some(universe)),
            (Some(docs), Some(docs)),
            (None, None),
            (Some("#function-broken-in-"), Some("#symbol-function-.broken")),
            (None, None),
        ]
    );
    assert!(matches!(
        &plan.modules[0].symbols[1].submodule,
        Some(Submodule::Documented(link)) if link == "module-util"
    ));
    assert!(matches!(
        &plan.modules[0].symbols[9].submodule,
        Some(Submodule::Documented(link)) if link == "module-hid-hid"
    ));
    assert!(plan.modules[0].symbols[4].submodule.is_none());
}

#[test]
fn faults_do_not_end_comments() {
    let plan = planned();
    let inner = "failed to convert docs in @preview/demo:0.1.0: bad \u{2014}> docs";
    let fault = format!("failed to convert docs in @preview/demo:0.1.0: {inner}");
    assert_eq!(plan.result.errors, vec![fault.clone()]);
    assert_eq!(plan.modules[1].symbols[0].fault, Some(fault));
    assert!(!plan.result.errors[0].contains("-->"));
}

fn b64(text: &str) -> String {
    base64::engine::general_purpose::STANDARD.encode(text)
}

fn records(plan: &DocPlan) -> Records {
    Records {
        package: "{\"p\":1}".to_string(),
        modules: plan
            .modules
            .iter()
            .enumerate()
            .map(|(i, module)| ModuleRecords {
                info: format!("{{\"m\":{i}}}"),
                symbols: (0..module.symbols.len()).map(|k| format!("{{\"s\":{k}}}")).collect(),
            })
            .collect(),
        result: "{\"errors\":[]}".to_string(),
        end: "{\"files\":[]}".to_string(),
    }
}

const SIG: &str = "<!-- begin:sig -->\n```typc\nlet NAME(x);\n```\n<!-- end:sig -->\n";

fn begin(ident: &str, number: usize) -> String {
    format!("<!-- begin:symbol {ident} {} -->\n", b64(&format!("{{\"s\":{number}}}")))
}

fn end(ident: &str) -> String {
    format!("<!-- end:symbol {ident} -->\n")
}

#[test]
fn document_is_written_out() {
    let plan = planned();
    let records = records(&plan);
    assert!(records_match(&plan, &records));
    let universe = "https://typst.app/universe/package/other/0.1.0";
    let fault = plan.result.errors[0].clone();
    let expected = [
        "# @preview/demo:0.1.0\n\n".to_string(),
        "This documentation is generated locally. Please submit issues to [tinymist](https://github.com/Myriad-Dreamin/tinymist/issues) if you see **incorrect** information in it.\n\n\n".to_string(),
        format!("<!-- begin:package {} -->\n", b64("{\"p\":1}")),
        format!("<!-- begin:module  {} -->\n", b64("{\"m\":0}")),
        "### function: add in \n".to_string(),
        begin("symbol-function-add", 0),
        SIG.replace("NAME", "add"),
        "Adds numbers.\n".to_string(),
        "<!-- begin:param x -->\n#### x (int)\n<!-- begin:param-doc x -->\nThe number.\n<!-- end:param-doc x -->\n<!-- end:param -->\n".to_string(),
        end("symbol-function-add"),
        "### module: util in \n".to_string(),
        begin("symbol-module-util", 1),
        "[Module Docs](#module-util)\n\n".to_string(),
        end("symbol-module-util"),
        "### function: sub in \n[Symbol Docs](#function-sub-in-util)\n\n".to_string(),
        begin("symbol-function-sub", 2),
        SIG.replace("NAME", "sub"),
        "Subtracts.\n".to_string(),
        end("symbol-function-sub"),
        "### function: hid in \n[Symbol Docs](#function-hid-in-hid-hid)\n\n".to_string(),
        begin("symbol-function-hid", 3),
        SIG.replace("NAME", "hid"),
        end("symbol-function-hid"),
        "### module: again in \n".to_string(),
        begin("symbol-module-again", 4),
        end("symbol-module-again"),
        format!("### function: ext in \n[Symbol Docs]({universe})\n\n"),
        begin("symbol-function-ext", 5),
        SIG.replace("NAME", "ext"),
        end("symbol-function-ext"),
        "### function: local in \n[Symbol Docs](https://typst.app/docs)\n\n".to_string(),
        begin("symbol-function-local", 6),
        SIG.replace("NAME", "local"),
        end("symbol-function-local"),
        "### constant: answer in \n".to_string(),
        begin("symbol-constant-answer", 7),
        end("symbol-constant-answer"),
        "### function: broken in \n[Symbol Docs](#function-broken-in-)\n\n".to_string(),
        begin("symbol-function-broken", 8),
        SIG.replace("NAME", "broken"),
        end("symbol-function-broken"),
        "### module: hidden in \n".to_string(),
        begin("symbol-module-hidden", 9),
        "[Module Docs](#module-hid-hid)\n\n".to_string(),
        end("symbol-module-hidden"),
        "<!-- end:module  -->\n".to_string(),
        "---\n## Module: util\n".to_string(),
        format!("<!-- begin:module util {} -->\n", b64("{\"m\":1}")),
        "### function: sub in util\n".to_string(),
        begin("symbol-function-util.sub", 0),
        SIG.replace("NAME", "sub"),
        format!("<!-- convert-error: {fault} -->\n"),
        "Subtracts.\nSee `sub`.\n".to_string(),
        end("symbol-function-util.sub"),
        "### module: lib in util\n".to_string(),
        begin("symbol-module-util.lib", 1),
        end("symbol-module-util.lib"),
        "<!-- end:module util -->\n".to_string(),
        "---\n## Module: hid.-.hid\n".to_string(),
        format!("<!-- begin:module hid.-.hid {} -->\n", b64("{\"m\":2}")),
        "### function: hid in hid.-.hid\n".to_string(),
        begin("symbol-function-hid.-.hid.hid", 0),
        SIG.replace("NAME", "hid"),
        end("symbol-function-hid.-.hid.hid"),
        "<!-- end:module hid.-.hid -->\n".to_string(),
        format!("<!-- begin:errors {} -->\n", b64("{\"errors\":[]}")),
        format!("## Errors\n- {fault}\n<!-- end:errors -->\n"),
        format!("<!-- end:package {} -->\n", b64("{\"files\":[]}")),
    ]
    .concat();
    assert_eq!(generate_md_docs(&plan, &records), expected);
}

#[test]
fn module_without_a_file_is_builtin() {
    let leaf = |name: &str| SymbolInfo {
        head: create_head(name, &Arc::new(Value::Other("1".to_string()))),
        children: Vec::new(),
    };
    let builtin = Value::Module(ModuleValue {
        name: "sys".to_string(),
        file: None,
        repr: "<module sys>".to_string(),
    });
    let root = SymbolInfo {
        head: create_head("lib", &Arc::new(module("lib", "lib.typ"))),
        children: vec![SymbolInfo {
            head: create_head("sys", &Arc::new(builtin)),
            children: vec![leaf("version")],
        }],
    };
    let mut uses = Table::new();
    uses.insert(file_id_repr(&file("lib.typ")), EcoVec::from(vec!["x.y".to_string()]));
    let scope = DocScope { title: "@preview/demo:0.1.0".to_string(), package: package("demo"), uses };
    let meta = PackageMeta {
        namespace: "preview".to_string(),
        name: "demo".to_string(),
        version: "0.1.0".to_string(),
        manifest: None,
    };
    let plan = plan_symbols(scope, meta, root);
    assert_eq!(plan.modules.len(), 1);
    assert_eq!(plan.modules[0].info.prefix, "x.y");
    assert_eq!(plan.modules[0].symbols[0].ident, "symbol-module-x.y.sys");
    assert!(matches!(plan.modules[0].symbols[0].submodule, Some(Submodule::Builtin)));
    let md = generate_md_docs(&plan, &records(&plan));
    assert!(md.contains("\nA Builtin Module\n<!-- end:symbol symbol-module-x.y.sys -->\n"));
}

#[test]
fn records_have_to_fit_the_plan() {
    let plan = planned();
    let mut short = records(&plan);
    let _ = short.modules.pop();
    assert!(!records_match(&plan, &short));
    let mut thin = records(&plan);
    let _ = thin.modules[0].symbols.pop();
    assert!(!records_match(&plan, &thin));
}

/// A package whose entry point binds one function with raw docs.
fn generate(name: &str, version: PackageVersion, raw: &str) -> String {
    let spec = PackageSpec { namespace: "preview".to_string(), name: name.to_string(), version };
    let entry = FileId { package: Some(spec.copy()), vpath: VirtualPath::new("lib.typ") };
    let manifest = format!(
        "[package]\nname = \"{name}\"\nversion = \"{}\"\nentrypoint = \"lib.typ\"\n",
        version.show()
    );
    let docs = RawDocs { text: raw.to_string(), converted: Err("no converter".to_string()) };
    let known = Known {
        evaluated: vec![(
            entry.copy(),
            Ok(Evaluated { name: "lib".to_string(), repr: "<module lib>".to_string() }),
        )],
        scopes: vec![(entry.copy(), vec![binding("f", function(entry, Some(docs), "x"))])],
    };
    let info = PackageInfo::from((PathBuf::from("/packages"), spec));
    let plan = match plan_md_docs(&info, &Ok(manifest.into_bytes()), &known).unwrap() {
        Planning::Done(plan) => plan,
        Planning::Ask(request) => panic!("{request:?}"),
    };
    let records = records(&plan);
    assert!(records_match(&plan, &records));
    generate_md_docs(&plan, &records)
}

#[test]
fn tidy() {
    let md = generate("tidy", PackageVersion::parse("0.3.0").unwrap(), "plain");
    assert!(md.starts_with("# @preview/tidy:0.3.0\n"));
    assert!(md.contains("\nplain\n<!-- end:symbol symbol-function-f -->\n"));
}

#[test]
fn touying() {
    let md = generate("touying", PackageVersion::parse("0.5.2").unwrap(), "```typ\n#f()\n```");
    assert!(md.starts_with("# @preview/touying:0.5.2\n"));
    assert!(md.contains("\n`````typ\n```typ\n#f()\n```\n`````\n<!-- end:symbol"));
}

#[test]
fn cetz() {
    let md = generate("cetz", PackageVersion::parse("0.2.2").unwrap(), "");
    assert!(md.starts_with("# @preview/cetz:0.2.2\n"));
    assert!(md.ends_with(&format!("<!-- end:package {} -->\n", b64("{\"files\":[]}"))));
}
