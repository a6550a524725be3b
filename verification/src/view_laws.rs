//! That the views of the library's types leave nothing out.

use vstd::prelude::*;
use crate::collections::eco_texts;
use crate::docs::{Docs, DocsView, TidyParamDocs};
use crate::listing::SymbolsInfo;
use crate::manifest::PackageManifest;
use crate::markdown::{ModuleRecords, Records};
use crate::package::{FileId, PackageSpec};
use crate::plan::{DocPlan, DocScope, ModuleSection, PendingModule, Submodule, SymbolSection};
use crate::records::{FileMeta, PackageMeta, PackageMetaEnd};
use crate::scan::{Binding, Known, Request, RequestView};
use crate::signature::{DocParamSpec, DocSignature};
use crate::symbols::{SymbolInfo, ValueView};
use crate::value::{Span, Value};

verus! {

/// Whether a text is the one behind an optional string.
pub open spec fn same_opt(shown: Option<Seq<char>>, text: Option<String>) -> bool {
    &&& text is Some ==> shown == Some(text->0@)
    &&& text is None ==> shown is None
}

/// Whether two texts are those behind an optional pair of strings.
pub open spec fn same_pair(
    shown: Option<(Seq<char>, Seq<char>)>,
    pair: Option<(String, String)>,
) -> bool {
    match pair {
        Some((a, b)) => shown == Some((a@, b@)),
        None => shown is None,
    }
}

/// The view of a parameter shows all of it.
pub proof fn parameter_views(param: DocParamSpec)
    ensures
        param@.name == param.name@,
        param@.docs == param.docs@,
        same_pair(param@.cano_type, param.cano_type),
        same_opt(param@.type_repr, param.type_repr),
        same_opt(param@.expr, param.expr),
        param@.positional == param.positional,
        param@.named == param.named,
        param@.variadic == param.variadic,
        param@.settable == param.settable,
{
}

/// The view of a signature shows all of it.
pub proof fn signature_views(sig: DocSignature, name: Seq<char>)
    ensures
        sig@.pos.len() == sig.pos@.len(),
        forall|i: int| 0 <= i < sig.pos@.len() ==> #[trigger] sig@.pos[i] == sig.pos@[i]@,
        sig@.named.dom() == sig.named@.dom(),
        sig.named@.contains_key(name) ==> sig@.named[name] == sig.named@[name]@,
        sig.rest is Some ==> sig@.rest == Some(sig.rest->0@),
        sig.rest is None ==> sig@.rest is None,
        same_pair(sig@.ret_ty, sig.ret_ty),
{
    assert(sig@.named.dom() =~= sig.named@.dom());
}

/// The view of a symbol shows all of it.
pub proof fn symbol_views_show_all(symbol: SymbolInfo)
    ensures
        symbol@.children.len() == symbol.children@.len(),
        forall|i: int|
            0 <= i < symbol.children@.len() ==> #[trigger] symbol@.children[i]
                == symbol.children@[i]@,
        ({
            let view = symbol@.head;
            let head = symbol.head;
            &&& view == head@
            &&& view.name == head.name@
            &&& view.kind == head.kind@
            &&& view.loc == head.loc
            &&& view.export_again == head.export_again
            &&& same_opt(view.external_link, head.external_link)
            &&& same_opt(view.oneliner, head.oneliner)
            &&& head.docs is Some ==> view.docs == Some(*head.docs->0)
            &&& head.docs is None ==> view.docs is None
            &&& head.signature is Some ==> view.signature == Some(head.signature->0@)
            &&& head.signature is None ==> view.signature is None
            &&& head.parsed_docs is Some ==> view.parsed_docs == Some(head.parsed_docs->0@)
            &&& head.parsed_docs is None ==> view.parsed_docs is None
            &&& same_opt(view.constant, head.constant)
            &&& head.fid is Some ==> view.fid == Some(head.fid->0@)
            &&& head.fid is None ==> view.fid is None
            &&& head.span is Some ==> view.span == Some(head.span->0@)
            &&& head.span is None ==> view.span is None
            &&& view.name_range == head.name_range
            &&& head.value is Some ==> view.value == Some((*head.value->0)@)
            &&& head.value is None ==> view.value is None
        }),
{
    crate::symbols::lemma_symbol_view(symbol);
}

/// The views of a value and of a place show all of them.
pub proof fn value_views(value: Value, span: Span)
    ensures
        span.id is Some ==> span@.id == Some(span.id->0@),
        span.id is None ==> span@.id is None,
        span@.range == span.range,
        match value {
            Value::Module(module) => value@ == (ValueView::Module {
                name: module.name@,
                file: if module.file is Some {
                    Some(module.file->0@)
                } else {
                    None
                },
                repr: module.repr@,
            }),
            Value::Type(repr) => value@ == ValueView::Type(repr@),
            Value::Func(func) => value@ == ValueView::Func(func),
            Value::Label(repr) => value@ == ValueView::Label(repr@),
            Value::Other(repr) => value@ == ValueView::Other(repr@),
        },
{
}

/// The views of docs show all of them.
pub proof fn docs_views(docs: Docs, param: TidyParamDocs)
    ensures
        param@.name == param.name@ && param@.docs == param.docs@ && param@.types == param.types@,
        match docs {
            Docs::Function(docs_in) => {
                &&& docs@ matches DocsView::Function(text, params)
                &&& text == docs_in.docs@
                &&& params.len() == docs_in.params@.len()
                &&& forall|i: int|
                    0 <= i < params.len() ==> #[trigger] params[i] == docs_in.params@[i]@
            },
            Docs::Variable(docs_in) => docs@ == DocsView::Variable(docs_in.docs@),
            Docs::Module(docs_in) => docs@ == DocsView::Module(docs_in.docs@),
            Docs::Plain(text) => docs@ == DocsView::Plain(text@),
        },
{
}

/// The views of packages, files and manifests show all of them.
pub proof fn package_views(spec: PackageSpec, file: FileId, manifest: PackageManifest)
    ensures
        spec@.namespace == spec.namespace@,
        spec@.name == spec.name@,
        spec@.version == spec.version,
        file.package is Some ==> file@.package == Some(file.package->0@),
        file.package is None ==> file@.package is None,
        file@.path.len() == file.vpath.segments@.len(),
        forall|i: int|
            0 <= i < file@.path.len() ==> #[trigger] file@.path[i] == file.vpath.segments@[i]@,
        manifest@.name == manifest.package.name@,
        manifest@.version == manifest.package.version,
        manifest@.entrypoint == manifest.package.entrypoint@,
        manifest@.compiler == manifest.package.compiler,
        manifest.template is Some ==> manifest@.template == Some(
            (manifest.template->0.path@, manifest.template->0.entrypoint@),
        ),
        manifest.template is None ==> manifest@.template is None,
{
}

/// The views of what is known and of what is asked for show all of it.
pub proof fn knowledge_views(known: Known, binding: Binding, request: Request, k: int)
    ensures
        binding@.name == binding.name@,
        binding@.value == (*binding.value)@,
        match request {
            Request::Evaluate(file) => request@ == RequestView::Evaluate(file@),
            Request::Scope(file) => request@ == RequestView::Scope(file@),
        },
        known@.evaluated.len() == known.evaluated@.len(),
        0 <= k < known.evaluated@.len() ==> {
            let (file, outcome) = known.evaluated@[k];
            &&& known@.evaluated[k].0 == file@
            &&& outcome matches Ok(module) ==> known@.evaluated[k].1 == Ok::<
                (Seq<char>, Seq<char>),
                Seq<char>,
            >((module.name@, module.repr@))
            &&& outcome matches Err(message) ==> known@.evaluated[k].1 == Err::<
                (Seq<char>, Seq<char>),
                Seq<char>,
            >(message@)
        },
        known@.scopes.len() == known.scopes@.len(),
        0 <= k < known.scopes@.len() ==> {
            let (file, bindings) = known.scopes@[k];
            &&& known@.scopes[k].0 == file@
            &&& known@.scopes[k].1.len() == bindings@.len()
            &&& forall|i: int|
                0 <= i < bindings@.len() ==> #[trigger] known@.scopes[k].1[i] == bindings@[i]@
        },
{
}

/// The view of a list of symbols shows the tree and all paths.
pub proof fn list_views(symbols: SymbolsInfo, text: Seq<char>)
    ensures
        symbols@.root == symbols.root@,
        symbols@.module_uses.contains_key(text) <==> symbols.module_uses@.contains_key(text),
        symbols.module_uses@.contains_key(text) ==> symbols@.module_uses[text] == eco_texts(
            symbols.module_uses@[text],
        ),
{
}

/// The views of the parts of a plan show all of them.
pub proof fn section_views_show_all(
    section: SymbolSection,
    module: ModuleSection,
    waiting: PendingModule,
    scope: DocScope,
    text: Seq<char>,
)
    ensures
        section@.head == section.head@,
        section@.ident == section.ident@,
        same_opt(section@.link, section.link),
        same_opt(section@.fault, section.fault),
        match section.submodule {
            Some(Submodule::Documented(link)) => section@.submodule == Some(
                crate::plan::SubmoduleView::Documented(link@),
            ),
            Some(Submodule::Builtin) => section@.submodule == Some(
                crate::plan::SubmoduleView::Builtin,
            ),
            None => section@.submodule is None,
        },
        module@.info == module.info@,
        module.info@.prefix == module.info.prefix@,
        module.info@.name == module.info.name@,
        module.info@.loc == module.info.loc,
        module.info@.parent_ident == module.info.parent_ident@,
        module.info@.aka == eco_texts(module.info.aka),
        module@.symbols.len() == module.symbols@.len(),
        forall|i: int|
            0 <= i < module.symbols@.len() ==> #[trigger] module@.symbols[i] == module.symbols@[i]@,
        waiting@.parent_ident == waiting.parent_ident@,
        waiting@.name == waiting.name@,
        waiting.file is Some ==> waiting@.file == Some(waiting.file->0@),
        waiting.file is None ==> waiting@.file is None,
        waiting@.children.len() == waiting.children@.len(),
        forall|i: int|
            0 <= i < waiting.children@.len() ==> #[trigger] waiting@.children[i]
                == waiting.children@[i]@,
        scope@.title == scope.title@,
        scope@.package == scope.package@,
        scope@.uses.contains_key(text) <==> scope.uses@.contains_key(text),
        scope.uses@.contains_key(text) ==> scope@.uses[text] == eco_texts(scope.uses@[text]),
{
}

/// The view of a plan shows all of it.
pub proof fn plan_views(plan: DocPlan)
    ensures
        plan@.title == plan.title@,
        plan@.package == plan.package@,
        plan@.modules.len() == plan.modules@.len(),
        forall|i: int|
            0 <= i < plan.modules@.len() ==> #[trigger] plan@.modules[i] == plan.modules@[i]@,
        plan@.errors.len() == plan.result.errors@.len(),
        forall|i: int|
            0 <= i < plan.result.errors@.len() ==> #[trigger] plan@.errors[i]
                == plan.result.errors@[i]@,
        plan@.end == plan.end@,
{
}

/// The views of records show all of them.
pub proof fn record_views(
    package: PackageMeta,
    file: FileMeta,
    end: PackageMetaEnd,
    module: ModuleRecords,
    records: Records,
)
    ensures
        package@.namespace == package.namespace@,
        package@.name == package.name@,
        package@.version == package.version@,
        package.manifest is Some ==> package@.manifest == Some(package.manifest->0@),
        package.manifest is None ==> package@.manifest is None,
        file@.package == file.package,
        file@.path == file.path@,
        end@.packages.len() == end.packages@.len(),
        forall|i: int|
            0 <= i < end.packages@.len() ==> #[trigger] end@.packages[i] == end.packages@[i]@,
        end@.files.len() == end.files@.len(),
        forall|i: int| 0 <= i < end.files@.len() ==> #[trigger] end@.files[i] == end.files@[i]@,
        module@.info == module.info@,
        module@.symbols.len() == module.symbols@.len(),
        forall|i: int|
            0 <= i < module.symbols@.len() ==> #[trigger] module@.symbols[i] == module.symbols@[i]@,
        records@.package == records.package@,
        records@.modules.len() == records.modules@.len(),
        forall|i: int|
            0 <= i < records.modules@.len() ==> #[trigger] records@.modules[i]
                == records.modules@[i]@,
        records@.result == records.result@,
        records@.end == records.end@,
{
}

} // verus!
