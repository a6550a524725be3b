//! What the documentation of a package says, before it is written out.
//!
//! The modules are documented in the order in which they are met, the root
//! module first. Every symbol gets the place that it stands at, its signature,
//! its parsed docs and the links to what is documented elsewhere.

use ecow::EcoVec;
use vstd::prelude::*;
use crate::collections::{eco_texts, first_or_empty, number_of, numbered_with};
use crate::docs::{parsed, RawDocs};
use crate::listing::uses_view;
use crate::package::{
    file_text, file_view, info_spec, info_title, resides_in, version_text, FileId, FileIdView,
    PackageInfo, PackageSpec, PackageSpecView,
};
use crate::records::{end_record, MetaEndView, PackageMeta, PackageMetaEnd, PackageMetaView};
use crate::signature::{counting_facts, signature_doc, SignatureView};
use crate::symbols::{
    span_file, symbol_views, HeadView, SymbolInfo, SymbolInfoHead, SymbolView, ValueView,
};
use crate::table::Table;
use crate::text::{opt_text, replaced, views};

verus! {

/// Information about a module.
pub struct ModuleInfo {
    /// The best path to the module.
    pub prefix: String,
    /// The name of the module.
    pub name: String,
    /// The number of the module's file, if it has one.
    pub loc: Option<usize>,
    /// The identifier of the symbol through which the module was met.
    pub parent_ident: String,
    /// All paths to the module.
    pub aka: EcoVec<String>,
}

/// What is said of the module behind a symbol.
#[derive(Debug)]
pub enum Submodule {
    /// The module is documented at the given anchor.
    Documented(String),
    /// The module has no file.
    Builtin,
}

/// The documentation of a symbol.
pub struct SymbolSection {
    /// Everything known of the symbol.
    pub head: SymbolInfoHead,
    /// The identifier of the symbol.
    pub ident: String,
    /// Where the docs of a symbol from elsewhere are found.
    pub link: Option<String>,
    /// Why the docs could not be converted.
    pub fault: Option<String>,
    /// What is said of the module behind the symbol, if there is one.
    pub submodule: Option<Submodule>,
}

/// The documentation of a module.
pub struct ModuleSection {
    /// What is known of the module itself.
    pub info: ModuleInfo,
    /// The symbols of the module.
    pub symbols: Vec<SymbolSection>,
}

/// The faults of all docs that could not be converted.
#[derive(Debug)]
pub struct ConvertResult {
    pub errors: Vec<String>,
}

/// What the documentation of a package says.
pub struct DocPlan {
    /// The package in the notation `@namespace/name:version`.
    pub title: String,
    /// What is known of the package.
    pub package: PackageMeta,
    /// The documentation of its modules.
    pub modules: Vec<ModuleSection>,
    /// The faults of docs that could not be converted.
    pub result: ConvertResult,
    /// The files and the packages that the documentation refers to.
    pub end: PackageMetaEnd,
}

pub struct ModuleInfoView {
    pub prefix: Seq<char>,
    pub name: Seq<char>,
    pub loc: Option<usize>,
    pub parent_ident: Seq<char>,
    pub aka: Seq<Seq<char>>,
}

pub enum SubmoduleView {
    Documented(Seq<char>),
    Builtin,
}

pub struct SectionView {
    pub head: HeadView,
    pub ident: Seq<char>,
    pub link: Option<Seq<char>>,
    pub fault: Option<Seq<char>>,
    pub submodule: Option<SubmoduleView>,
}

pub struct ModuleSectionView {
    pub info: ModuleInfoView,
    pub symbols: Seq<SectionView>,
}

pub struct PlanView {
    pub title: Seq<char>,
    pub package: PackageMetaView,
    pub modules: Seq<ModuleSectionView>,
    pub errors: Seq<Seq<char>>,
    pub end: MetaEndView,
}

impl View for ModuleInfo {
    type V = ModuleInfoView;

    open spec fn view(&self) -> ModuleInfoView {
        ModuleInfoView {
            prefix: self.prefix@,
            name: self.name@,
            loc: self.loc,
            parent_ident: self.parent_ident@,
            aka: eco_texts(self.aka),
        }
    }
}

/// The value behind what is said of a module.
pub open spec fn submodule_view(submodule: Option<Submodule>) -> Option<SubmoduleView> {
    match submodule {
        Some(Submodule::Documented(link)) => Some(SubmoduleView::Documented(link@)),
        Some(Submodule::Builtin) => Some(SubmoduleView::Builtin),
        None => None,
    }
}

impl View for SymbolSection {
    type V = SectionView;

    open spec fn view(&self) -> SectionView {
        SectionView {
            head: self.head@,
            ident: self.ident@,
            link: opt_text(self.link),
            fault: opt_text(self.fault),
            submodule: submodule_view(self.submodule),
        }
    }
}

/// The values behind the documentation of some symbols.
pub open spec fn section_views(sections: Seq<SymbolSection>) -> Seq<SectionView> {
    sections.map_values(|section: SymbolSection| section@)
}

impl View for ModuleSection {
    type V = ModuleSectionView;

    open spec fn view(&self) -> ModuleSectionView {
        ModuleSectionView { info: self.info@, symbols: section_views(self.symbols@) }
    }
}

/// The values behind the documentation of some modules.
pub open spec fn module_views(modules: Seq<ModuleSection>) -> Seq<ModuleSectionView> {
    modules.map_values(|module: ModuleSection| module@)
}

impl View for DocPlan {
    type V = PlanView;

    open spec fn view(&self) -> PlanView {
        PlanView {
            title: self.title@,
            package: self.package@,
            modules: module_views(self.modules@),
            errors: views(self.result.errors@),
            end: self.end@,
        }
    }
}

/// What the documentation of a package goes by.
pub struct DocScope {
    /// The package in the notation `@namespace/name:version`.
    pub title: String,
    /// The package.
    pub package: PackageSpec,
    /// The paths to its modules.
    pub uses: Table<String, EcoVec<String>>,
}

pub struct ScopeView {
    pub title: Seq<char>,
    pub package: PackageSpecView,
    pub uses: Map<Seq<char>, Seq<Seq<char>>>,
}

impl View for DocScope {
    type V = ScopeView;

    open spec fn view(&self) -> ScopeView {
        ScopeView { title: self.title@, package: self.package@, uses: uses_view(self.uses@) }
    }
}

impl ScopeView {
    /// Whether the paths to a module are known.
    pub open spec fn has(self, file: FileIdView) -> bool {
        self.uses.contains_key(file_text(file))
    }

    /// The paths to the module of a file.
    pub open spec fn akas(self, file: Option<FileIdView>) -> Seq<Seq<char>> {
        match file {
            Some(file) => self.uses[file_text(file)],
            None => Seq::empty(),
        }
    }

    /// The best path to the module of a file.
    pub open spec fn primary(self, file: Option<FileIdView>) -> Seq<char> {
        first_or_empty(self.akas(file))
    }

    /// Whether a symbol can be documented: the paths are known to every module
    /// that its documentation refers to, and it is a module if it has children.
    pub open spec fn ready(self, symbol: SymbolView) -> bool
        decreases symbol,
    {
        let head = symbol.head;
        &&& head.export_again && head.fid is Some && resides_in(head.fid->0, self.package)
            ==> self.has(head.fid->0)
        &&& symbol.children.len() > 0 && head.fid is Some ==> {
            &&& self.has(head.fid->0)
            &&& head.value is Some && head.value->0 is Module
            &&& module_file(head) is Some ==> self.has(module_file(head)->0)
        }
        &&& forall|i: int|
            0 <= i < symbol.children.len() ==> self.ready(#[trigger] symbol.children[i])
    }
}

/// The file of the module that a symbol is.
pub open spec fn module_file(head: HeadView) -> Option<FileIdView> {
    match head.value {
        Some(ValueView::Module { name: _, file, repr: _ }) => file,
        _ => None,
    }
}

/// A text that does not end the comment that it stands in.
pub open spec fn comment_safe(text: Seq<char>) -> Seq<char> {
    replaced(text, "-->"@, "—>"@)
}

/// How it is said that docs could not be converted.
pub open spec fn convert_fault(title: Seq<char>, message: Seq<char>) -> Seq<char> {
    comment_safe("failed to convert docs in "@ + title + ": "@ + message)
}

/// The identifier of a symbol in a module.
pub open spec fn symbol_ident(kind: Seq<char>, primary: Seq<char>, name: Seq<char>) -> Seq<char> {
    if primary.len() > 0 {
        "symbol-"@ + kind + "-"@ + primary + "."@ + name
    } else {
        "symbol-"@ + kind + "-"@ + name
    }
}

/// A text without dots.
pub open spec fn undotted(text: Seq<char>) -> Seq<char> {
    replaced(text, "."@, ""@)
}

/// The anchor of a module.
pub open spec fn module_link(primary: Seq<char>) -> Seq<char> {
    undotted("module-"@ + primary)
}

/// The anchor of a symbol in a module.
pub open spec fn symbol_link(kind: Seq<char>, name: Seq<char>, primary: Seq<char>) -> Seq<char> {
    undotted("#"@ + kind + "-"@ + name + "-in-"@ + primary)
}

/// Where a symbol stands in the record of its module.
pub open spec fn record_link(kind: Seq<char>, name: Seq<char>, primary: Seq<char>) -> Seq<char> {
    "#symbol-"@ + kind + "-"@ + primary + "."@ + name
}

/// Where a package is published.
pub open spec fn universe_link(package: PackageSpecView) -> Seq<char> {
    "https://typst.app/universe/package/"@ + package.name + "/"@ + version_text(package.version)
}

/// Where the docs of a symbol are found that comes from elsewhere: the link
/// for a reader, and the one in the record of the symbol.
pub open spec fn links(scope: ScopeView, head: HeadView) -> Option<(Seq<char>, Seq<char>)> {
    if head.export_again && head.fid is Some {
        let file = head.fid->0;
        match file.package {
            Some(package) => if package == scope.package {
                let primary = scope.primary(Some(file));
                Some(
                    (
                        symbol_link(head.kind, head.name, primary),
                        record_link(head.kind, head.name, primary),
                    ),
                )
            } else {
                Some((universe_link(package), universe_link(package)))
            },
            None => Some(("https://typst.app/docs"@, "https://typst.app/docs"@)),
        }
    } else {
        None
    }
}

/// The file that a symbol belongs to, in a module with the given file.
pub open spec fn owner(head: HeadView, site: Option<FileIdView>) -> Option<FileIdView> {
    if head.fid is Some {
        head.fid
    } else if span_file(head) is Some {
        span_file(head)
    } else {
        site
    }
}

/// The place of a symbol: that of its span if the source is at hand, and else
/// the file that it belongs to. The files that come up get numbers.
pub open spec fn located(
    files: Seq<FileIdView>,
    head: HeadView,
    site: Option<FileIdView>,
) -> (Option<(usize, usize, usize)>, Seq<FileIdView>) {
    let with_span = match span_file(head) {
        Some(file) => numbered_with(files, file),
        None => files,
    };
    if span_file(head) is Some && head.span->0.range is Some {
        let (start, end) = head.span->0.range->0;
        (Some((number_of(with_span, span_file(head)->0) as usize, start, end)), with_span)
    } else {
        match owner(head, site) {
            Some(file) => {
                let with_owner = numbered_with(with_span, file);
                (Some((number_of(with_owner, file) as usize, 0, 0)), with_owner)
            },
            None => (None, with_span),
        }
    }
}

/// The docs of the signature of a symbol.
pub open spec fn shown_signature(head: HeadView) -> Option<SignatureView> {
    match head.value {
        Some(ValueView::Func(func)) => Some(
            signature_doc(counting_facts(func, head.name_range)),
        ),
        _ => None,
    }
}

/// Why the docs of a symbol could not be converted.
pub open spec fn docs_fault(title: Seq<char>, docs: Option<RawDocs>) -> Option<Seq<char>> {
    match docs {
        Some(docs) => match docs.converted {
            Ok(_) => None,
            Err(message) => Some(convert_fault(title, convert_fault(title, message@))),
        },
        None => None,
    }
}

/// Everything that the documentation knows of a symbol.
pub open spec fn documented_head(
    scope: ScopeView,
    loc: Option<(usize, usize, usize)>,
    head: HeadView,
) -> HeadView {
    let base = HeadView {
        loc,
        signature: shown_signature(head),
        external_link: match links(scope, head) {
            Some((_, link)) => Some(link),
            None => head.external_link,
        },
        ..head
    };
    match head.docs {
        Some(docs) => match docs.converted {
            Ok(content) => HeadView {
                docs: None,
                parsed_docs: Some(parsed(head.kind, content)),
                ..base
            },
            Err(_) => base,
        },
        None => base,
    }
}

/// What is said of the module behind a symbol.
pub open spec fn submodule_of(scope: ScopeView, symbol: SymbolView) -> Option<SubmoduleView> {
    if symbol.children.len() == 0 {
        None
    } else if symbol.head.fid is Some {
        Some(SubmoduleView::Documented(module_link(scope.primary(symbol.head.fid))))
    } else {
        Some(SubmoduleView::Builtin)
    }
}

/// The documentation of a symbol of the module in the file `site`.
pub open spec fn symbol_section(
    scope: ScopeView,
    site: Option<FileIdView>,
    files: Seq<FileIdView>,
    symbol: SymbolView,
) -> SectionView {
    let head = symbol.head;
    SectionView {
        head: documented_head(scope, located(files, head, site).0, head),
        ident: symbol_ident(head.kind, scope.primary(site), head.name),
        link: match links(scope, head) {
            Some((link, _)) => Some(link),
            None => None,
        },
        fault: docs_fault(scope.title, head.docs),
        submodule: submodule_of(scope, symbol),
    }
}

/// A module that waits for its documentation.
pub struct PendingModule {
    /// The identifier of the symbol through which it was met.
    pub parent_ident: String,
    /// Its name.
    pub name: String,
    /// Its file.
    pub file: Option<FileId>,
    /// Its symbols.
    pub children: Vec<SymbolInfo>,
}

pub struct PendingView {
    pub parent_ident: Seq<char>,
    pub name: Seq<char>,
    pub file: Option<FileIdView>,
    pub children: Seq<SymbolView>,
}

impl View for PendingModule {
    type V = PendingView;

    open spec fn view(&self) -> PendingView {
        PendingView {
            parent_ident: self.parent_ident@,
            name: self.name@,
            file: file_view(self.file),
            children: symbol_views(self.children@),
        }
    }
}

/// The values behind some modules that wait.
pub open spec fn pending_views(pending: Seq<PendingModule>) -> Seq<PendingView> {
    pending.map_values(|module: PendingModule| module@)
}

/// The module behind a symbol, met through the symbol with an identifier.
pub open spec fn pending_of(ident: Seq<char>, symbol: SymbolView) -> PendingView {
    PendingView {
        parent_ident: ident,
        name: symbol.head.name,
        file: module_file(symbol.head),
        children: symbol.children,
    }
}

/// How far the documentation of one module has come.
pub struct ProgressView {
    /// The files by number.
    pub files: Seq<FileIdView>,
    /// The modules that were met.
    pub met: Set<FileIdView>,
    /// The modules that were met in this one.
    pub waiting: Seq<PendingView>,
    /// The documentation of the symbols so far.
    pub sections: Seq<SectionView>,
}

/// Whether a symbol is a module that was not met before.
pub open spec fn is_fresh(met: Set<FileIdView>, symbol: SymbolView) -> bool {
    symbol.children.len() > 0 && symbol.head.fid is Some && !met.contains(symbol.head.fid->0)
}

/// With the documentation of one more symbol.
pub open spec fn with_symbol(
    scope: ScopeView,
    site: Option<FileIdView>,
    progress: ProgressView,
    symbol: SymbolView,
) -> ProgressView {
    let section = symbol_section(scope, site, progress.files, symbol);
    let fresh = is_fresh(progress.met, symbol);
    ProgressView {
        files: located(progress.files, symbol.head, site).1,
        met: if fresh {
            progress.met.insert(symbol.head.fid->0)
        } else {
            progress.met
        },
        waiting: if fresh {
            progress.waiting.push(pending_of(section.ident, symbol))
        } else {
            progress.waiting
        },
        sections: progress.sections.push(section),
    }
}

/// With the documentation of some symbols, in order.
pub open spec fn with_symbols(
    scope: ScopeView,
    site: Option<FileIdView>,
    progress: ProgressView,
    symbols: Seq<SymbolView>,
) -> ProgressView
    decreases symbols.len(),
{
    if symbols.len() == 0 {
        progress
    } else {
        with_symbol(
            scope,
            site,
            with_symbols(scope, site, progress, symbols.drop_last()),
            symbols.last(),
        )
    }
}

/// How far the documentation of a package has come.
pub struct JourneyView {
    /// The files by number.
    pub files: Seq<FileIdView>,
    /// The modules that were met.
    pub met: Set<FileIdView>,
    /// The documentation of the modules so far.
    pub modules: Seq<ModuleSectionView>,
}

/// The state in which the symbols of a module are documented.
pub open spec fn module_start(journey: JourneyView, module: PendingView) -> ProgressView {
    ProgressView {
        files: match module.file {
            Some(file) => numbered_with(journey.files, file),
            None => journey.files,
        },
        met: journey.met,
        waiting: Seq::empty(),
        sections: Seq::empty(),
    }
}

/// The state once the symbols of a module are documented.
pub open spec fn module_end(
    scope: ScopeView,
    journey: JourneyView,
    module: PendingView,
) -> ProgressView {
    with_symbols(scope, module.file, module_start(journey, module), module.children)
}

/// What is known of a module.
pub open spec fn module_info(
    scope: ScopeView,
    journey: JourneyView,
    module: PendingView,
) -> ModuleInfoView {
    ModuleInfoView {
        prefix: scope.primary(module.file),
        name: module.name,
        loc: match module.file {
            Some(file) => Some(number_of(module_start(journey, module).files, file) as usize),
            None => None,
        },
        parent_ident: module.parent_ident,
        aka: scope.akas(module.file),
    }
}

/// With the documentation of one more module.
pub open spec fn with_module(
    scope: ScopeView,
    journey: JourneyView,
    module: PendingView,
) -> JourneyView {
    let end = module_end(scope, journey, module);
    JourneyView {
        files: end.files,
        met: end.met,
        modules: journey.modules.push(
            ModuleSectionView {
                info: module_info(scope, journey, module),
                symbols: end.sections,
            },
        ),
    }
}

/// The number of symbols in a tree.
pub open spec fn tree_size(symbol: SymbolView) -> nat
    decreases symbol,
{
    1 + forest_size(symbol.children)
}

/// The number of symbols in some trees.
pub open spec fn forest_size(symbols: Seq<SymbolView>) -> nat
    decreases symbols,
{
    if symbols.len() == 0 {
        0
    } else {
        forest_size(symbols.drop_last()) + tree_size(symbols.last())
    }
}

/// The number of symbols in the modules that wait, themselves included.
pub open spec fn queue_size(queue: Seq<PendingView>) -> nat
    decreases queue.len(),
{
    if queue.len() == 0 {
        0
    } else {
        queue_size(queue.drop_last()) + 1 + forest_size(queue.last().children)
    }
}

pub proof fn lemma_queue_size_concat(a: Seq<PendingView>, b: Seq<PendingView>)
    ensures
        queue_size(a + b) == queue_size(a) + queue_size(b),
    decreases b.len(),
{
    if b.len() == 0 {
        assert(a + b =~= a);
    } else {
        assert((a + b).drop_last() =~= a + b.drop_last());
        lemma_queue_size_concat(a, b.drop_last());
    }
}

pub proof fn lemma_waiting_size(
    scope: ScopeView,
    site: Option<FileIdView>,
    progress: ProgressView,
    symbols: Seq<SymbolView>,
)
    ensures
        queue_size(with_symbols(scope, site, progress, symbols).waiting) <= queue_size(
            progress.waiting,
        ) + forest_size(symbols),
    decreases symbols.len(),
{
    if symbols.len() > 0 {
        lemma_waiting_size(scope, site, progress, symbols.drop_last());
        let before = with_symbols(scope, site, progress, symbols.drop_last());
        let after = with_symbols(scope, site, progress, symbols);
        assert(forest_size(symbols) == forest_size(symbols.drop_last()) + tree_size(
            symbols.last(),
        ));
        assert(tree_size(symbols.last()) == 1 + forest_size(symbols.last().children));
        if is_fresh(before.met, symbols.last()) {
            assert(after.waiting.drop_last() =~= before.waiting);
        }
    }
}

/// The queue once its first module is documented: the others, and behind them
/// the modules that were met in the first.
pub open spec fn queue_after(
    scope: ScopeView,
    journey: JourneyView,
    queue: Seq<PendingView>,
) -> Seq<PendingView> {
    queue.skip(1) + module_end(scope, journey, queue[0]).waiting
}

pub proof fn lemma_queue_shrinks(
    scope: ScopeView,
    journey: JourneyView,
    queue: Seq<PendingView>,
)
    requires
        queue.len() > 0,
    ensures
        queue_size(queue_after(scope, journey, queue)) < queue_size(queue),
{
    let first = queue[0];
    let waiting = module_end(scope, journey, first).waiting;
    lemma_queue_size_concat(queue.skip(1), waiting);
    lemma_queue_size_concat(seq![first], queue.skip(1));
    assert(seq![first] + queue.skip(1) =~= queue);
    assert(seq![first].drop_last() =~= Seq::empty());
    assert(queue_size(seq![first]) == 1 + forest_size(first.children)) by {
        reveal_with_fuel(queue_size, 2);
    }
    lemma_waiting_size(scope, first.file, module_start(journey, first), first.children);
}

/// The documentation of the modules that wait and of those that are met on
/// the way, first come first served.
pub open spec fn with_queue(
    scope: ScopeView,
    journey: JourneyView,
    queue: Seq<PendingView>,
) -> JourneyView
    decreases queue_size(queue),
{
    if queue.len() == 0 {
        journey
    } else {
        proof {
            lemma_queue_shrinks(scope, journey, queue);
        }
        with_queue(
            scope,
            with_module(scope, journey, queue[0]),
            queue_after(scope, journey, queue),
        )
    }
}

/// The faults in the documentation of some symbols, in order.
pub open spec fn section_faults(sections: Seq<SectionView>) -> Seq<Seq<char>>
    decreases sections.len(),
{
    if sections.len() == 0 {
        Seq::empty()
    } else {
        let before = section_faults(sections.drop_last());
        match sections.last().fault {
            Some(fault) => before.push(fault),
            None => before,
        }
    }
}

/// The faults in the documentation of some modules, in order.
pub open spec fn module_faults(modules: Seq<ModuleSectionView>) -> Seq<Seq<char>>
    decreases modules.len(),
{
    if modules.len() == 0 {
        Seq::empty()
    } else {
        module_faults(modules.drop_last()) + section_faults(modules.last().symbols)
    }
}

/// Nothing documented yet.
pub open spec fn journey_start() -> JourneyView {
    JourneyView { files: Seq::empty(), met: Set::empty(), modules: Seq::empty() }
}

/// The documentation of a root module and of all modules that are met from
/// there.
pub open spec fn journey_from(scope: ScopeView, root: SymbolView) -> JourneyView {
    with_queue(scope, journey_start(), seq![pending_of(root.head.name, root)])
}

/// What the documentation of a package says.
pub open spec fn planned(
    scope: ScopeView,
    package: PackageMetaView,
    root: SymbolView,
) -> PlanView {
    let journey = journey_from(scope, root);
    PlanView {
        title: scope.title,
        package,
        modules: journey.modules,
        errors: module_faults(journey.modules),
        end: end_record(journey.files),
    }
}

/// Whether a module that waits can be documented.
pub open spec fn pending_ready(scope: ScopeView, module: PendingView) -> bool {
    &&& module.file is Some ==> scope.has(module.file->0)
    &&& forall|i: int|
        0 <= i < module.children.len() ==> scope.ready(#[trigger] module.children[i])
}

/// Whether the modules that wait can be documented.
pub open spec fn queue_ready(scope: ScopeView, queue: Seq<PendingView>) -> bool {
    forall|i: int| 0 <= i < queue.len() ==> pending_ready(scope, #[trigger] queue[i])
}

/// Whether the symbols of a package can be documented: the root is a module,
/// and the paths are known to every module that the documentation refers to.
pub open spec fn documentable(scope: ScopeView, root: SymbolView) -> bool {
    &&& root.head.value is Some && root.head.value->0 is Module
    &&& pending_ready(scope, pending_of(root.head.name, root))
}

/// The scope in which the symbols of a package are documented.
pub open spec fn info_scope(
    info: PackageInfo,
    uses: Map<Seq<char>, Seq<Seq<char>>>,
) -> ScopeView {
    ScopeView { title: info_title(info), package: info_spec(info)->Ok_0, uses }
}

} // verus!
