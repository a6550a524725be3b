//! The list of all symbols of a package.

use ecow::EcoVec;
use vstd::prelude::*;
use crate::collections::{eco_from, eco_new, eco_texts};
use crate::manifest::{get_manifest, manifest_in, read_view, PackageManifest};
use crate::order::{path_le, ranking, seen, sort_ranked};
use crate::package::{
    file_id_repr, file_text, get_manifest_id, info_spec, info_title, FileId, FileIdView,
    PackageInfo, PackageSpec, PackageSpecView,
};
use crate::path::{followed, portable, settled, split_at_sep};
use crate::plan::{documentable, info_scope};
use crate::scan::{
    alias_view, lookup, scan_value, Evaluated, Found, FoundView, Known, KnownView, Request,
    RequestView, ScanSymbolCtx, ScanView,
};
use crate::scan_laws::listed_symbols_are_documentable;
use crate::symbols::{lemma_symbol_view, symbol_views, SymbolInfo, SymbolView, ValueView};
use crate::table::{entry_map, lemma_entry_map, Table};
use crate::text::views;

verus! {

/// Information about the symbols in a package.
pub struct SymbolsInfo {
    /// The root module information.
    pub root: SymbolInfo,
    /// The module accessible paths.
    pub module_uses: Table<String, EcoVec<String>>,
}

pub struct SymbolsView {
    pub root: SymbolView,
    pub module_uses: Map<Seq<char>, Seq<Seq<char>>>,
}

/// The paths behind the shared texts of some modules.
pub open spec fn uses_view(
    uses: Map<Seq<char>, EcoVec<String>>,
) -> Map<Seq<char>, Seq<Seq<char>>> {
    uses.map_values(|paths: EcoVec<String>| eco_texts(paths))
}

impl View for SymbolsInfo {
    type V = SymbolsView;

    open spec fn view(&self) -> SymbolsView {
        SymbolsView { root: self.root@, module_uses: uses_view(self.module_uses@) }
    }
}

/// The list of symbols, or what has to be known before there is one.
pub enum Listing {
    /// The list cannot go on without an answer.
    Ask(Request),
    /// The list is complete.
    Done(SymbolsInfo),
}

/// What the scan of a package comes to.
pub enum ListingView {
    /// Something has to be known first.
    Ask(RequestView),
    /// The entry point has no module, for the given reason.
    Failed(Seq<char>),
    /// The tree of symbols, and the paths by which the modules are reached.
    Done(SymbolView, Map<FileIdView, Seq<Seq<char>>>),
}

/// Nothing gathered yet.
pub open spec fn nothing_found() -> FoundView {
    FoundView { aliases: Map::empty(), extras: Seq::empty() }
}

/// What the scan of a package comes to: the symbols of the entry point, and
/// behind them the modules that no other one exports.
pub open spec fn listing(scan: ScanView) -> ListingView {
    match lookup(scan.known.evaluated, scan.root) {
        None => ListingView::Ask(RequestView::Evaluate(scan.root)),
        Some(Err(message)) => ListingView::Failed(message),
        Some(Ok((name, repr))) => match scan_value(
            scan,
            nothing_found(),
            name,
            Seq::empty(),
            Some(scan.root),
            ValueView::Module { name, file: Some(scan.root), repr },
        ) {
            Err(request) => ListingView::Ask(request),
            Ok((root, found)) => ListingView::Done(
                SymbolView { head: root.head, children: root.children + found.extras },
                found.aliases,
            ),
        },
    }
}

/// The paths to a module, the best one first.
pub open spec fn sorted_paths(paths: Seq<Seq<char>>) -> Seq<Seq<char>> {
    paths.sort_by(|a: Seq<char>, b: Seq<char>| path_le(a, b))
}

/// Whether the uses of modules are the sorted paths of the files: each file
/// has an entry under its notation, and each entry holds the paths of a file
/// with that notation.
pub open spec fn uses_match(
    aliases: Map<FileIdView, Seq<Seq<char>>>,
    uses: Map<Seq<char>, Seq<Seq<char>>>,
) -> bool {
    &&& forall|file: FileIdView| #[trigger]
        aliases.contains_key(file) ==> uses.contains_key(file_text(file))
    &&& forall|text: Seq<char>| #[trigger]
        uses.contains_key(text) ==> exists|file: FileIdView| #[trigger]
            aliases.contains_key(file) && file_text(file) == text && uses[text] == sorted_paths(
                aliases[file],
            )
}

fn collect_uses(aliases: Table<FileId, Vec<String>>) -> (uses: Table<String, EcoVec<String>>)
    ensures
        uses_match(alias_view(aliases@), uses_view(uses@)),
{
    let ghost all = alias_view(aliases@);
    let entries: Vec<(FileId, Vec<String>)> = aliases.into_entries();
    let mut uses: Table<String, EcoVec<String>> = Table::new();
    proof {
        lemma_entry_map(entries@);
        assert(uses_view(uses@) =~= Map::empty());
    }
    for entry in it: entries
        invariant
            it.seq() == entries@,
            forall|i: int|
                0 <= i < it.index() ==> uses_view(uses@).contains_key(
                    file_text((#[trigger] entries@[i]).0@),
                ),
            forall|text: Seq<char>| #[trigger]
                uses_view(uses@).contains_key(text) ==> exists|i: int|
                    0 <= i < it.index() && file_text((#[trigger] entries@[i]).0@) == text
                        && uses_view(uses@)[text] == sorted_paths(views(entries@[i].1@)),
    {
        let ghost n = it.index() as int;
        let ghost before = uses_view(uses@);
        let (file, paths) = entry;
        let ghost unsorted = paths@;
        let text: String = file_id_repr(&file);
        let sorted: Vec<String> = sort_ranked(paths);
        let shared: EcoVec<String> = eco_from(sorted);
        let ghost listed = eco_texts(shared);
        let ghost key = text@;
        uses.insert(text, shared);
        proof {
            assert(entries@[n].0@ == file@ && entries@[n].1@ == unsorted);
            assert(seen(unsorted) =~= views(unsorted));
            assert(seen(sorted@) =~= views(sorted@));
            assert(ranking::<String>() =~= (|a: Seq<char>, b: Seq<char>| path_le(a, b)));
            assert(listed == sorted_paths(views(unsorted)));
            assert(uses_view(uses@) =~= before.insert(key, listed));
            assert forall|t: Seq<char>| #[trigger]
                uses_view(uses@).contains_key(t) implies exists|i: int|
                0 <= i < n + 1 && file_text((#[trigger] entries@[i]).0@) == t && uses_view(
                    uses@,
                )[t] == sorted_paths(views(entries@[i].1@)) by {
                if t == key {
                    assert(0 <= n < n + 1 && file_text(entries@[n].0@) == t);
                } else {
                    assert(before.contains_key(t));
                    let i = choose|i: int|
                        0 <= i < n && file_text((#[trigger] entries@[i]).0@) == t && before[t]
                            == sorted_paths(views(entries@[i].1@));
                    assert(0 <= i < n + 1 && file_text(entries@[i].0@) == t);
                }
            }
        }
    }
    proof {
        assert forall|file: FileIdView| #[trigger] all.contains_key(file) implies uses_view(
            uses@,
        ).contains_key(file_text(file)) by {
            assert(entry_map(entries@).contains_key(file));
            let i = choose|i: int| 0 <= i < entries@.len() && #[trigger] entries@[i].0@ == file;
            assert(uses_view(uses@).contains_key(file_text(entries@[i].0@)));
        }
        assert forall|text: Seq<char>| #[trigger]
            uses_view(uses@).contains_key(text) implies exists|file: FileIdView| #[trigger]
            all.contains_key(file) && file_text(file) == text && uses_view(uses@)[text]
                == sorted_paths(all[file]) by {
            let i = choose|i: int|
                0 <= i < entries@.len() && file_text((#[trigger] entries@[i]).0@) == text
                    && uses_view(uses@)[text] == sorted_paths(views(entries@[i].1@));
            let file = entries@[i].0@;
            assert(entry_map(entries@).contains_key(entries@[i].0@));
            assert(all.contains_key(file));
            assert(all[file] == views(entries@[i].1@));
        }
    }
    uses
}

/// Whether the list is the one that the rules give.
pub open spec fn listing_agrees(expected: ListingView, res: Result<Listing, String>) -> bool {
    match expected {
        ListingView::Ask(request) => match res {
            Ok(Listing::Ask(asked)) => asked@ == request,
            _ => false,
        },
        ListingView::Failed(message) => res is Err && res->Err_0@ == message,
        ListingView::Done(root, aliases) => match res {
            Ok(Listing::Done(symbols)) => symbols@.root == root && uses_match(
                aliases,
                symbols@.module_uses,
            ),
            _ => false,
        },
    }
}

/// Lists the symbols of a package whose entry point is given, as far as what
/// is known of its files suffices.
pub fn scan_package(scan: &ScanSymbolCtx) -> (res: Result<Listing, String>)
    ensures
        listing_agrees(listing(scan@), res),
{
    let module: &Evaluated = match scan.known.find_evaluated(scan.root) {
        None => {
            return Ok(Listing::Ask(Request::Evaluate(scan.root.copy())));
        },
        Some(Err(message)) => {
            return Err(message.clone());
        },
        Some(Ok(module)) => module,
    };
    let mut found: Found = Found::new();
    match scan.module_sym(&mut found, &eco_new(), scan.root, module) {
        Err(request) => Ok(Listing::Ask(request)),
        Ok(symbol) => {
            let ghost before = symbol@;
            proof {
                lemma_symbol_view(symbol);
            }
            let Found { aliases, extras } = found;
            let SymbolInfo { head, children } = symbol;
            let ghost own = symbol_views(children@);
            let ghost behind = symbol_views(extras@);
            let mut all: Vec<SymbolInfo> = children;
            for extra in it: extras
                invariant
                    it.seq() == extras@,
                    behind == symbol_views(extras@),
                    symbol_views(all@) =~= own + behind.take(it.index() as int),
            {
                let ghost n = it.index() as int;
                let ghost so_far = symbol_views(all@);
                let ghost added = extra@;
                all.push(extra);
                proof {
                    assert(behind[n] == added);
                    assert(symbol_views(all@) =~= so_far.push(added));
                    assert(behind.take(n + 1) =~= behind.take(n).push(added));
                }
            }
            assert(behind.take(extras@.len() as int) =~= behind);
            let root: SymbolInfo = SymbolInfo { head, children: all };
            proof {
                lemma_symbol_view(root);
            }
            Ok(Listing::Done(SymbolsInfo { root, module_uses: collect_uses(aliases) }))
        },
    }
}

/// Whether a file is the entry point of a package whose manifest names the
/// given path. The path is taken from the root of the package.
pub open spec fn is_entry(
    package: PackageSpecView,
    entrypoint: Seq<char>,
    file: FileIdView,
) -> bool {
    &&& file.package == Some(package)
    &&& portable(entrypoint) ==> file.path == followed(
        Seq::empty(),
        split_at_sep(entrypoint, '/'),
    )
}

proof fn lemma_manifest_settled()
    ensures
        settled(seq!["typst.toml"@]),
{
    reveal_strlit("typst.toml");
    let name = "typst.toml"@;
    assert(name[0] == 't');
    assert(seq![name].skip(1) =~= Seq::<Seq<char>>::empty());
    assert(Seq::<Seq<char>>::empty().push(name) =~= seq![name]);
    reveal_with_fuel(followed, 2);
    assert(name != seq!['.']);
    assert(name != seq!['.', '.']);
    assert(followed(Seq::empty(), seq![name]) =~= seq![name]);
}

/// Whether an outcome is one of listing the symbols of a package: the version
/// and the manifest have to be in order, and then the rules decide from the
/// entry point onwards.
pub open spec fn is_listing(
    info: PackageInfo,
    toml_data: Result<Seq<u8>, Seq<char>>,
    known: KnownView,
    res: Result<Listing, String>,
) -> bool {
    match info_spec(info) {
        Err(message) => res is Err && res->Err_0@ == message,
        Ok(package) => match manifest_in(toml_data) {
            Err(message) => res is Err && res->Err_0@ == message,
            Ok(manifest) => exists|root: FileIdView| #[trigger]
                is_entry(package, manifest.entrypoint, root) && listing_agrees(
                    listing((ScanView { package, root, known })),
                    res,
                ),
        },
    }
}

/// Whether a complete list, if the outcome is one, can be documented.
pub open spec fn is_plannable(
    info: PackageInfo,
    toml_data: Result<Seq<u8>, Seq<char>>,
    res: Result<Listing, String>,
) -> bool {
    res matches Ok(Listing::Done(symbols)) ==> {
        &&& info_spec(info) is Ok
        &&& manifest_in(toml_data) is Ok
        &&& documentable(info_scope(info, symbols@.module_uses), symbols@.root)
    }
}

/// List all symbols in a package, as far as what is known of its files
/// suffices. The outcome of reading the manifest is given.
pub fn list_symbols(
    spec: &PackageInfo,
    toml_data: &Result<Vec<u8>, String>,
    known: &Known,
) -> (res: Result<Listing, String>)
    ensures
        is_listing(*spec, read_view(*toml_data), known@, res),
        is_plannable(*spec, read_view(*toml_data), res),
{
    let toml_id: FileId = match get_manifest_id(spec) {
        Ok(file) => file,
        Err(message) => {
            return Err(message);
        },
    };
    let manifest: PackageManifest = match get_manifest(toml_data) {
        Ok(manifest) => manifest,
        Err(message) => {
            return Err(message);
        },
    };
    let package: PackageSpec = match spec.spec() {
        Ok(package) => package,
        Err(message) => {
            return Err(message);
        },
    };
    let entry: FileId = toml_id.join(manifest.package.entrypoint.as_str());
    proof {
        lemma_manifest_settled();
        assert(toml_id@.path.drop_last() =~= Seq::empty());
        assert(is_entry(package@, manifest@.entrypoint, entry@));
    }
    let scan: ScanSymbolCtx = ScanSymbolCtx { package: &package, root: &entry, known };
    let res: Result<Listing, String> = scan_package(&scan);
    proof {
        if let Ok(Listing::Done(symbols)) = &res {
            listed_symbols_are_documentable(scan@, symbols@, info_title(*spec));
        }
    }
    res
}

} // verus!
