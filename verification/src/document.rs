//! Working out what the documentation of a package says.

use std::collections::VecDeque;
use ecow::EcoVec;
use vstd::prelude::*;
use vstd::string::*;
use crate::collections::{eco_clone, eco_first, eco_new, eco_texts, Files};
use crate::docs::{parse_docs, Docs};
use crate::listing::{
    is_entry, is_listing, is_plannable, list_symbols, listing, listing_agrees, uses_match,
    uses_view, Listing, ListingView, SymbolsInfo,
};
use crate::manifest::{get_manifest, manifest_in, read_view, ManifestView, PackageManifest};
use crate::package::{
    copy_file, file_id_repr, file_view, info_spec, info_title, resides_in, show_title, FileId,
    FileIdView, PackageInfo, PackageSpec, PackageSpecView,
};
use crate::plan::{
    convert_fault, documentable, info_scope, journey_start, lemma_queue_shrinks, links, located,
    module_end, module_faults, module_file, module_link, module_start, module_views, pending_ready,
    pending_views, planned, queue_after, queue_ready, queue_size, record_link, section_faults,
    section_views, submodule_of, submodule_view, symbol_ident, symbol_link, symbol_section,
    undotted, universe_link, with_module, with_queue, with_symbol, with_symbols, ConvertResult,
    DocPlan, DocScope, JourneyView, ModuleInfo, ModuleSection, PendingModule, ProgressView,
    ScopeView, Submodule, SymbolSection,
};
use crate::records::{describe_files, PackageMeta, PackageMetaView};
use crate::scan::{Known, Request, ScanView};
use crate::signature::{docs_signature, DocSignature};
use crate::symbols::{
    lemma_symbol_view, symbol_views, SymbolInfo, SymbolInfoHead, SymbolView,
};
use crate::table::Table;
use crate::text::{replace_text, views};
use crate::value::Value;

verus! {

/// How it is said that docs could not be converted.
fn convert_error(title: &str, message: &str) -> (text: String)
    ensures
        text@ == convert_fault(title@, message@),
{
    let mut text: String = "failed to convert docs in ".to_owned();
    text.append(title);
    text.append(": ");
    text.append(message);
    proof {
        reveal_strlit("-->");
    }
    replace_text(text.as_str(), "-->", "—>")
}

/// The identifier of a symbol in a module.
pub fn make_ident(kind: &str, primary: &str, name: &str) -> (ident: String)
    ensures
        ident@ == symbol_ident(kind@, primary@, name@),
{
    let mut ident: String = "symbol-".to_owned();
    ident.append(kind);
    ident.append("-");
    if primary.unicode_len() > 0 {
        ident.append(primary);
        ident.append(".");
    }
    ident.append(name);
    ident
}

fn without_dots(text: &str) -> (res: String)
    ensures
        res@ == undotted(text@),
{
    proof {
        reveal_strlit(".");
    }
    replace_text(text, ".", "")
}

fn make_module_link(primary: &str) -> (link: String)
    ensures
        link@ == module_link(primary@),
{
    let mut link: String = "module-".to_owned();
    link.append(primary);
    without_dots(link.as_str())
}

fn make_symbol_link(kind: &str, name: &str, primary: &str) -> (link: String)
    ensures
        link@ == symbol_link(kind@, name@, primary@),
{
    let mut link: String = "#".to_owned();
    link.append(kind);
    link.append("-");
    link.append(name);
    link.append("-in-");
    link.append(primary);
    without_dots(link.as_str())
}

fn make_record_link(kind: &str, name: &str, primary: &str) -> (link: String)
    ensures
        link@ == record_link(kind@, name@, primary@),
{
    let mut link: String = "#symbol-".to_owned();
    link.append(kind);
    link.append("-");
    link.append(primary);
    link.append(".");
    link.append(name);
    link
}

fn make_universe_link(package: &PackageSpec) -> (link: String)
    ensures
        link@ == universe_link(package@),
{
    let mut link: String = "https://typst.app/universe/package/".to_owned();
    link.append(package.name.as_str());
    link.append("/");
    link.append(package.version.show().as_str());
    link
}

impl DocScope {
    /// The paths to the module of a file.
    pub fn akas(&self, file: &Option<FileId>) -> (paths: EcoVec<String>)
        requires
            file is Some ==> self@.has(file->0@),
        ensures
            eco_texts(paths) == self@.akas(file_view(*file)),
    {
        match file {
            Some(file) => {
                let text: String = file_id_repr(file);
                assert(uses_view(self.uses@).contains_key(text@));
                match self.uses.get(&text) {
                    Some(paths) => eco_clone(paths),
                    None => {
                        assert(false);
                        eco_new()
                    },
                }
            },
            None => eco_new(),
        }
    }

    /// The best path to the module of a file.
    pub fn primary(&self, file: &Option<FileId>) -> (path: String)
        requires
            file is Some ==> self@.has(file->0@),
        ensures
            path@ == self@.primary(file_view(*file)),
    {
        eco_first(&self.akas(file))
    }

    /// Where the docs of a symbol are found that comes from elsewhere.
    fn find_links(&self, head: &SymbolInfoHead) -> (res: Option<(String, String)>)
        requires
            head@.export_again && head@.fid is Some && resides_in(head@.fid->0, self@.package)
                ==> self@.has(head@.fid->0),
        ensures
            match res {
                Some((link, record)) => links(self@, head@) == Some((link@, record@)),
                None => links(self@, head@) is None,
            },
    {
        if !head.export_again {
            return None;
        }
        match &head.fid {
            Some(file) => match &file.package {
                Some(package) => if package.same(&self.package) {
                    let primary: String = self.primary(&head.fid);
                    let kind: &str = head.kind.as_str();
                    let name: &str = head.name.as_str();
                    Some(
                        (
                            make_symbol_link(kind, name, primary.as_str()),
                            make_record_link(kind, name, primary.as_str()),
                        ),
                    )
                } else {
                    let link: String = make_universe_link(package);
                    Some((link.clone(), link))
                },
                None => {
                    let link: String = "https://typst.app/docs".to_owned();
                    Some((link.clone(), link))
                },
            },
            None => None,
        }
    }
}

fn locate(files: &mut Files, head: &SymbolInfoHead, site: &Option<FileId>) -> (loc: Option<
    (usize, usize, usize),
>)
    requires
        old(files).well_formed(),
    ensures
        final(files).well_formed(),
        (loc, final(files)@) == located(old(files)@, head@, file_view(*site)),
{
    if let Some(span) = &head.span {
        if let Some(file) = &span.id {
            let number: usize = files.number(file);
            if let Some((start, end)) = span.range {
                return Some((number, start, end));
            }
        }
    }
    if let Some(file) = &head.fid {
        return Some((files.number(file), 0, 0));
    }
    if let Some(span) = &head.span {
        if let Some(file) = &span.id {
            return Some((files.number(file), 0, 0));
        }
    }
    if let Some(file) = site {
        return Some((files.number(file), 0, 0));
    }
    None
}

/// How far the documentation of one module has come.
struct Progress {
    files: Files,
    met: Table<FileId, ()>,
    waiting: Vec<PendingModule>,
    sections: Vec<SymbolSection>,
}

impl View for Progress {
    type V = ProgressView;

    closed spec fn view(&self) -> ProgressView {
        ProgressView {
            files: self.files@,
            met: self.met@.dom(),
            waiting: pending_views(self.waiting@),
            sections: section_views(self.sections@),
        }
    }
}

fn find_submodule(scope: &DocScope, symbol: &SymbolInfo) -> (res: Option<Submodule>)
    requires
        symbol@.children.len() > 0 && symbol@.head.fid is Some ==> scope@.has(symbol@.head.fid->0),
    ensures
        submodule_view(res) == submodule_of(scope@, symbol@),
{
    proof {
        lemma_symbol_view(*symbol);
    }
    if symbol.children.len() == 0 {
        return None;
    }
    match &symbol.head.fid {
        Some(_) => {
            let primary: String = scope.primary(&symbol.head.fid);
            Some(Submodule::Documented(make_module_link(primary.as_str())))
        },
        None => Some(Submodule::Builtin),
    }
}

fn copy_module_file(head: &SymbolInfoHead) -> (file: Option<FileId>)
    ensures
        file_view(file) == module_file(head@),
{
    match &head.value {
        Some(value) => match &**value {
            Value::Module(module) => copy_file(&module.file),
            _ => None,
        },
        None => None,
    }
}

fn document_symbol(
    scope: &DocScope,
    site: &Option<FileId>,
    primary: &str,
    progress: &mut Progress,
    symbol: SymbolInfo,
)
    requires
        old(progress).files.well_formed(),
        primary@ == scope@.primary(file_view(*site)),
        scope@.ready(symbol@),
    ensures
        final(progress).files.well_formed(),
        final(progress)@ == with_symbol(scope@, file_view(*site), old(progress)@, symbol@),
{
    let ghost before = progress@;
    let ghost whole = symbol@;
    proof {
        lemma_symbol_view(symbol);
    }
    let submodule: Option<Submodule> = find_submodule(scope, &symbol);
    let SymbolInfo { head, children } = symbol;
    let ghost plain = head@;
    let mut head: SymbolInfoHead = head;
    let loc: Option<(usize, usize, usize)> = locate(&mut progress.files, &head, site);
    let found: Option<(String, String)> = scope.find_links(&head);
    let signature: Option<DocSignature> = match &head.value {
        Some(value) => docs_signature(&**value, head.name_range),
        None => None,
    };
    let ident: String = make_ident(head.kind.as_str(), primary, head.name.as_str());
    let mut content: Option<Docs> = None;
    let mut fault: Option<String> = None;
    if let Some(docs) = &head.docs {
        match &docs.converted {
            Ok(converted) => {
                content = Some(parse_docs(head.kind.as_str(), converted));
            },
            Err(message) => {
                let inner: String = convert_error(scope.title.as_str(), message.as_str());
                fault = Some(convert_error(scope.title.as_str(), inner.as_str()));
            },
        }
    }
    let fresh: bool = children.len() > 0 && match &head.fid {
        Some(file) => progress.met.get(file).is_none(),
        None => false,
    };
    let file: Option<FileId> = copy_module_file(&head);
    let owner: Option<FileId> = copy_file(&head.fid);
    let name: String = head.name.clone();
    head.loc = loc;
    head.signature = signature;
    if content.is_some() {
        head.parsed_docs = content;
        head.docs = None;
    }
    let mut link: Option<String> = None;
    if let Some((reader, record)) = found {
        link = Some(reader);
        head.external_link = Some(record);
    }
    if fresh {
        if let Some(owner) = owner {
            progress.met.insert(owner, ());
        }
        let module: PendingModule = PendingModule {
            parent_ident: ident.clone(),
            name,
            file,
            children,
        };
        let ghost waiting = pending_views(progress.waiting@);
        let ghost added = module@;
        progress.waiting.push(module);
        assert(pending_views(progress.waiting@) =~= waiting.push(added));
    }
    let section: SymbolSection = SymbolSection { head, ident, link, fault, submodule };
    let ghost sections = section_views(progress.sections@);
    let ghost shown = section@;
    progress.sections.push(section);
    proof {
        assert(section_views(progress.sections@) =~= sections.push(shown));
        assert(shown == symbol_section(scope@, file_view(*site), before.files, whole));
        assert(progress@.met =~= with_symbol(scope@, file_view(*site), before, whole).met);
    }
}

/// How far the documentation of a package has come.
struct Journey {
    files: Files,
    met: Table<FileId, ()>,
    modules: Vec<ModuleSection>,
}

impl View for Journey {
    type V = JourneyView;

    closed spec fn view(&self) -> JourneyView {
        JourneyView {
            files: self.files@,
            met: self.met@.dom(),
            modules: module_views(self.modules@),
        }
    }
}

proof fn lemma_waiting_ready(
    scope: ScopeView,
    site: Option<FileIdView>,
    progress: ProgressView,
    symbols: Seq<SymbolView>,
)
    requires
        queue_ready(scope, progress.waiting),
        forall|i: int| 0 <= i < symbols.len() ==> scope.ready(#[trigger] symbols[i]),
    ensures
        queue_ready(scope, with_symbols(scope, site, progress, symbols).waiting),
    decreases symbols.len(),
{
    if symbols.len() > 0 {
        let init = symbols.drop_last();
        assert forall|i: int| 0 <= i < init.len() implies scope.ready(#[trigger] init[i]) by {
            assert(init[i] == symbols[i]);
        }
        lemma_waiting_ready(scope, site, progress, init);
        let before = with_symbols(scope, site, progress, init);
        let after = with_symbols(scope, site, progress, symbols);
        assert(scope.ready(symbols[symbols.len() - 1]));
        assert forall|i: int| 0 <= i < after.waiting.len() implies pending_ready(
            scope,
            #[trigger] after.waiting[i],
        ) by {
            if i < before.waiting.len() {
                assert(after.waiting[i] == before.waiting[i]);
            }
        }
    }
}

fn document_module(scope: &DocScope, journey: Journey, module: PendingModule) -> (res: (
    Journey,
    Vec<PendingModule>,
))
    requires
        journey.files.well_formed(),
        pending_ready(scope@, module@),
    ensures
        res.0.files.well_formed(),
        res.0@ == with_module(scope@, journey@, module@),
        pending_views(res.1@) == module_end(scope@, journey@, module@).waiting,
{
    let ghost before = journey@;
    let ghost whole = module@;
    let PendingModule { parent_ident, name, file, children } = module;
    let Journey { files, met, modules } = journey;
    let aka: EcoVec<String> = scope.akas(&file);
    let primary: String = eco_first(&aka);
    let mut files: Files = files;
    let loc: Option<usize> = match &file {
        Some(file) => Some(files.number(file)),
        None => None,
    };
    let mut progress: Progress = Progress {
        files,
        met,
        waiting: Vec::new(),
        sections: Vec::new(),
    };
    let ghost start = progress@;
    let ghost site = file_view(file);
    let ghost symbols = symbol_views(children@);
    proof {
        assert(start.waiting =~= Seq::empty());
        assert(start.sections =~= Seq::empty());
        assert(start == module_start(before, whole));
        assert(symbols.take(0) =~= Seq::empty());
        assert(symbols == whole.children);
        assert forall|i: int| 0 <= i < symbols.len() implies scope@.ready(#[trigger] symbols[i]) by {
            assert(scope@.ready(whole.children[i]));
        }
    }
    for symbol in it: children
        invariant
            it.seq() == children@,
            symbols == symbol_views(children@),
            site == file_view(file),
            primary@ == scope@.primary(site),
            forall|i: int| 0 <= i < symbols.len() ==> scope@.ready(#[trigger] symbols[i]),
            progress.files.well_formed(),
            progress@ == with_symbols(scope@, site, start, symbols.take(it.index() as int)),
    {
        let ghost n = it.index() as int;
        proof {
            assert(symbols[n] == symbol@);
            assert(symbols.take(n + 1).drop_last() =~= symbols.take(n));
            assert(symbols.take(n + 1).last() == symbol@);
        }
        document_symbol(scope, &file, primary.as_str(), &mut progress, symbol);
    }
    assert(symbols.take(children@.len() as int) =~= symbols);
    let Progress { files, met, waiting, sections } = progress;
    let info: ModuleInfo = ModuleInfo { prefix: primary, name, loc, parent_ident, aka };
    let section: ModuleSection = ModuleSection { info, symbols: sections };
    let ghost done = module_views(modules@);
    let ghost added = section@;
    let mut modules: Vec<ModuleSection> = modules;
    modules.push(section);
    assert(module_views(modules@) =~= done.push(added));
    (Journey { files, met, modules }, waiting)
}

fn document_queue(scope: &DocScope, root: PendingModule) -> (journey: Journey)
    requires
        pending_ready(scope@, root@),
    ensures
        journey.files.well_formed(),
        journey@ == with_queue(scope@, journey_start(), seq![root@]),
{
    let mut journey: Journey = Journey {
        files: Files::new(),
        met: Table::new(),
        modules: Vec::new(),
    };
    let ghost expected = with_queue(scope@, journey_start(), seq![root@]);
    let ghost first = root@;
    let mut queue: VecDeque<PendingModule> = VecDeque::new();
    queue.push_back(root);
    proof {
        assert(journey@.modules =~= Seq::empty());
        assert(journey@.met =~= Set::empty());
        assert(pending_views(queue@) =~= seq![first]);
    }
    loop
        invariant
            journey.files.well_formed(),
            queue_ready(scope@, pending_views(queue@)),
            with_queue(scope@, journey@, pending_views(queue@)) == expected,
        ensures
            journey.files.well_formed(),
            journey@ == expected,
        decreases queue_size(pending_views(queue@)),
    {
        let ghost all = pending_views(queue@);
        let ghost before = journey@;
        match queue.pop_front() {
            None => {
                break;
            },
            Some(module) => {
                proof {
                    assert(all[0] == module@);
                    lemma_queue_shrinks(scope@, before, all);
                    assert(pending_ready(scope@, all[0]));
                    lemma_waiting_ready(
                        scope@,
                        module@.file,
                        module_start(before, module@),
                        module@.children,
                    );
                }
                let (next, waiting) = document_module(scope, journey, module);
                journey = next;
                let ghost met = pending_views(waiting@);
                let ghost rest = all.skip(1);
                assert(pending_views(queue@) =~= rest + met.take(0));
                for module in it: waiting
                    invariant
                        it.seq() == waiting@,
                        met == pending_views(waiting@),
                        pending_views(queue@) =~= rest + met.take(it.index() as int),
                {
                    let ghost n = it.index() as int;
                    let ghost so_far = pending_views(queue@);
                    let ghost added = module@;
                    queue.push_back(module);
                    proof {
                        assert(met[n] == added);
                        assert(pending_views(queue@) =~= so_far.push(added));
                        assert(met.take(n + 1) =~= met.take(n).push(added));
                    }
                }
                proof {
                    assert(met.take(waiting@.len() as int) =~= met);
                    assert(pending_views(queue@) =~= queue_after(scope@, before, all));
                    let now = pending_views(queue@);
                    assert forall|i: int| 0 <= i < now.len() implies pending_ready(
                        scope@,
                        #[trigger] now[i],
                    ) by {
                        if i < rest.len() {
                            assert(now[i] == all[i + 1]);
                        } else {
                            assert(now[i] == met[i - rest.len()]);
                        }
                    }
                }
            },
        }
    }
    journey
}

fn collect_faults(modules: &Vec<ModuleSection>) -> (errors: Vec<String>)
    ensures
        views(errors@) == module_faults(module_views(modules@)),
{
    let ghost all = module_views(modules@);
    let mut errors: Vec<String> = Vec::new();
    let mut i: usize = 0;
    assert(views(errors@) =~= module_faults(all.take(0)));
    while i < modules.len()
        invariant
            i <= modules.len(),
            all == module_views(modules@),
            views(errors@) == module_faults(all.take(i as int)),
        decreases modules.len() - i,
    {
        let sections: &Vec<SymbolSection> = &modules[i].symbols;
        let ghost shown = section_views(sections@);
        let ghost before = views(errors@);
        let mut k: usize = 0;
        assert(views(errors@) =~= before + section_faults(shown.take(0)));
        while k < sections.len()
            invariant
                k <= sections.len(),
                shown == section_views(sections@),
                views(errors@) =~= before + section_faults(shown.take(k as int)),
            decreases sections.len() - k,
        {
            proof {
                assert(shown[k as int] == sections@[k as int]@);
                assert(shown.take(k + 1).drop_last() =~= shown.take(k as int));
                assert(shown.take(k + 1).last() == shown[k as int]);
            }
            if let Some(fault) = &sections[k].fault {
                let ghost so_far = views(errors@);
                errors.push(fault.clone());
                assert(views(errors@) =~= so_far.push(fault@));
            }
            k = k + 1;
        }
        proof {
            assert(shown.take(k as int) =~= shown);
            assert(all[i as int] == modules@[i as int]@);
            assert(all.take(i + 1).drop_last() =~= all.take(i as int));
            assert(all.take(i + 1).last() == all[i as int]);
        }
        i = i + 1;
    }
    assert(all.take(i as int) =~= all);
    errors
}

/// Works out what the documentation of a package says of its symbols.
pub fn plan_symbols(scope: DocScope, package: PackageMeta, root: SymbolInfo) -> (plan: DocPlan)
    requires
        documentable(scope@, root@),
    ensures
        plan@ == planned(scope@, package@, root@),
{
    proof {
        lemma_symbol_view(root);
    }
    let SymbolInfo { head, children } = root;
    let first: PendingModule = PendingModule {
        parent_ident: head.name.clone(),
        name: head.name.clone(),
        file: copy_module_file(&head),
        children,
    };
    let Journey { files, met: _, modules } = document_queue(&scope, first);
    let errors: Vec<String> = collect_faults(&modules);
    DocPlan {
        title: scope.title,
        package,
        modules,
        result: ConvertResult { errors },
        end: describe_files(files),
    }
}

/// The plan of the documentation, or what has to be known before there is one.
pub enum Planning {
    /// The plan cannot be made without an answer.
    Ask(Request),
    /// The plan is complete.
    Done(DocPlan),
}

/// What the documentation says of the package itself.
pub open spec fn info_record(info: PackageInfo, manifest: ManifestView) -> PackageMetaView {
    PackageMetaView {
        namespace: info.namespace@,
        name: info.name@,
        version: info.version@,
        manifest: Some(manifest),
    }
}

/// Whether a plan is the one that the rules give for the symbols of a package.
pub open spec fn planning_agrees(
    expected: ListingView,
    title: Seq<char>,
    package: PackageSpecView,
    record: PackageMetaView,
    res: Result<Planning, String>,
) -> bool {
    match expected {
        ListingView::Ask(request) => match res {
            Ok(Planning::Ask(asked)) => asked@ == request,
            _ => false,
        },
        ListingView::Failed(message) => res is Err && res->Err_0@ == message,
        ListingView::Done(root, aliases) => match res {
            Ok(Planning::Done(plan)) => exists|uses: Map<Seq<char>, Seq<Seq<char>>>| #[trigger]
                uses_match(aliases, uses) && plan@ == planned(
                    (ScopeView { title, package, uses }),
                    record,
                    root,
                ),
            _ => false,
        },
    }
}

/// Whether a plan follows from the outcome of listing the symbols of a package:
/// a failure stays the same failure, a question the same question, and every
/// complete list gives a plan.
pub open spec fn plan_follows(
    info: PackageInfo,
    toml_data: Result<Seq<u8>, Seq<char>>,
    listed: Result<Listing, String>,
    res: Result<Planning, String>,
) -> bool {
    match listed {
        Err(message) => res is Err && res->Err_0@ == message@,
        Ok(Listing::Ask(request)) => match res {
            Ok(Planning::Ask(asked)) => asked@ == request@,
            _ => false,
        },
        Ok(Listing::Done(symbols)) => match res {
            Ok(Planning::Done(plan)) => plan@ == planned(
                info_scope(info, symbols@.module_uses),
                info_record(info, manifest_in(toml_data)->Ok_0),
                symbols@.root,
            ),
            _ => false,
        },
    }
}

/// Works out what the documentation of a package says from the outcome of
/// listing its symbols. It fails exactly where the listing failed, with the
/// same message.
pub fn plan_listing(
    spec: &PackageInfo,
    toml_data: &Result<Vec<u8>, String>,
    listed: Result<Listing, String>,
) -> (res: Result<Planning, String>)
    requires
        is_plannable(*spec, read_view(*toml_data), listed),
    ensures
        plan_follows(*spec, read_view(*toml_data), listed, res),
        res is Err <==> listed is Err,
        listed is Err ==> res->Err_0@ == listed->Err_0@,
{
    let symbols: SymbolsInfo = match listed {
        Err(message) => {
            return Err(message);
        },
        Ok(Listing::Ask(request)) => {
            return Ok(Planning::Ask(request));
        },
        Ok(Listing::Done(symbols)) => symbols,
    };
    let package: PackageSpec = match spec.spec() {
        Ok(package) => package,
        Err(message) => {
            assert(false);
            return Err(message);
        },
    };
    let manifest: PackageManifest = match get_manifest(toml_data) {
        Ok(manifest) => manifest,
        Err(message) => {
            assert(false);
            return Err(message);
        },
    };
    let title: String = show_title(
        spec.namespace.as_str(),
        spec.name.as_str(),
        spec.version.as_str(),
    );
    let record: PackageMeta = PackageMeta {
        namespace: spec.namespace.clone(),
        name: spec.name.clone(),
        version: spec.version.clone(),
        manifest: Some(manifest),
    };
    let SymbolsInfo { root, module_uses } = symbols;
    let scope: DocScope = DocScope { title, package, uses: module_uses };
    Ok(Planning::Done(plan_symbols(scope, record, root)))
}

/// Works out what the documentation of a package says, as far as what is known
/// of its files suffices. The outcome of reading the manifest is given.
pub fn plan_md_docs(
    spec: &PackageInfo,
    toml_data: &Result<Vec<u8>, String>,
    known: &Known,
) -> (res: Result<Planning, String>)
    ensures
        match info_spec(*spec) {
            Err(message) => res is Err && res->Err_0@ == message,
            Ok(package) => match manifest_in(read_view(*toml_data)) {
                Err(message) => res is Err && res->Err_0@ == message,
                Ok(manifest) => exists|root: FileIdView| #[trigger]
                    is_entry(package, manifest.entrypoint, root) && planning_agrees(
                        listing((ScanView { package, root, known: known@ })),
                        info_title(*spec),
                        package,
                        info_record(*spec, manifest),
                        res,
                    ),
            },
        },
        exists|listed: Result<Listing, String>| #[trigger]
            is_listing(*spec, read_view(*toml_data), known@, listed) && plan_follows(
                *spec,
                read_view(*toml_data),
                listed,
                res,
            ),
{
    let listed: Result<Listing, String> = list_symbols(spec, toml_data, known);
    let ghost outcome = listed;
    let res: Result<Planning, String> = plan_listing(spec, toml_data, listed);
    proof {
        assert(is_listing(*spec, read_view(*toml_data), known@, outcome));
        if let Ok(package) = info_spec(*spec) {
            if let Ok(manifest) = manifest_in(read_view(*toml_data)) {
                let entry = choose|root: FileIdView| #[trigger]
                    is_entry(package, manifest.entrypoint, root) && listing_agrees(
                        listing((ScanView { package, root, known: known@ })),
                        outcome,
                    );
                assert(is_entry(package, manifest.entrypoint, entry));
                if let Ok(Listing::Done(symbols)) = outcome {
                    if let ListingView::Done(_, aliases) = listing(
                        (ScanView { package, root: entry, known: known@ }),
                    ) {
                        assert(uses_match(aliases, symbols@.module_uses));
                    }
                }
            }
        }
    }
    res
}

} // verus!
