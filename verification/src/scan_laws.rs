//! What holds of every scan.

use vstd::prelude::*;
use crate::listing::{listing, nothing_found, uses_match, ListingView, SymbolsView};
use crate::package::{resides_in, FileIdView, PackageSpecView};
use crate::plan::{documentable, ScopeView};
use crate::scan::{
    lemma_pending_entered, lemma_pending_reached, lookup, pending, scan_bindings,
    scan_bindings_keeps, scan_keeps, scan_value, BindingView, FoundView, KnownView, RequestView,
    ScanView,
};
use crate::symbols::{head_of, listed_by, SymbolView, ValueView};
use crate::text::joined;

verus! {

/// Whether every file of the package that owns a symbol of a tree has been
/// recorded, and every symbol with children is a module of the package.
pub open spec fn charted(
    has: spec_fn(FileIdView) -> bool,
    package: PackageSpecView,
    symbol: SymbolView,
) -> bool
    decreases symbol,
{
    let head = symbol.head;
    &&& head.fid is Some && resides_in(head.fid->0, package) ==> has(head.fid->0)
    &&& symbol.children.len() > 0 ==> {
        &&& head.fid is Some
        &&& resides_in(head.fid->0, package)
        &&& head.value matches Some(ValueView::Module { name: _, file, repr: _ })
        &&& file == head.fid
    }
    &&& forall|i: int|
        0 <= i < symbol.children.len() ==> charted(has, package, #[trigger] symbol.children[i])
}

/// The files that a scan has recorded.
pub open spec fn recorded(found: FoundView) -> spec_fn(FileIdView) -> bool {
    |file: FileIdView| found.aliases.contains_key(file)
}

/// Whether the same holds of some trees.
pub open spec fn all_charted(
    has: spec_fn(FileIdView) -> bool,
    package: PackageSpecView,
    symbols: Seq<SymbolView>,
) -> bool {
    forall|i: int| 0 <= i < symbols.len() ==> charted(has, package, #[trigger] symbols[i])
}

proof fn lemma_charted_more(
    few: spec_fn(FileIdView) -> bool,
    many: spec_fn(FileIdView) -> bool,
    package: PackageSpecView,
    symbol: SymbolView,
)
    requires
        forall|file: FileIdView| #[trigger] few(file) ==> many(file),
        charted(few, package, symbol),
    ensures
        charted(many, package, symbol),
    decreases symbol,
{
    assert forall|i: int| 0 <= i < symbol.children.len() implies charted(
        many,
        package,
        #[trigger] symbol.children[i],
    ) by {
        lemma_charted_more(few, many, package, symbol.children[i]);
    }
}

proof fn lemma_all_charted_more(
    before: FoundView,
    after: FoundView,
    package: PackageSpecView,
    symbols: Seq<SymbolView>,
)
    requires
        after.extends(before),
        all_charted(recorded(before), package, symbols),
    ensures
        all_charted(recorded(after), package, symbols),
{
    assert forall|i: int| 0 <= i < symbols.len() implies charted(
        recorded(after),
        package,
        #[trigger] symbols[i],
    ) by {
        assert forall|file: FileIdView| #[trigger] recorded(before)(file) implies recorded(after)(
            file,
        ) by {
            assert(after.aliases.contains_key(file));
        }
        lemma_charted_more(recorded(before), recorded(after), package, symbols[i]);
    }
}

proof fn lemma_scan_charted(
    scan: ScanView,
    found: FoundView,
    name: Seq<char>,
    path: Seq<Seq<char>>,
    site: Option<FileIdView>,
    value: ValueView,
)
    requires
        all_charted(recorded(found), scan.package, found.extras),
    ensures
        scan_value(scan, found, name, path, site, value) matches Ok((symbol, after)) ==> charted(
            recorded(after),
            scan.package,
            symbol,
        ) && all_charted(recorded(after), scan.package, after.extras),
    decreases pending(scan.known.scopes, found), if value is Module { 0nat } else { 1nat },
{
    scan_keeps(scan, found, name, path, site, value);
    let head = listed_by(head_of(name, value), value, site);
    let dotted = joined(path, "."@);
    if head.fid is Some && resides_in(head.fid->0, scan.package) {
        let file = head.fid->0;
        if value is Module {
            let reached = found.reached(file, dotted);
            assert forall|f: FileIdView| #[trigger] recorded(found)(f) implies recorded(reached)(
                f,
            ) by {}
            assert(all_charted(recorded(reached), scan.package, reached.extras)) by {
                assert forall|i: int| 0 <= i < reached.extras.len() implies charted(
                    recorded(reached),
                    scan.package,
                    #[trigger] reached.extras[i],
                ) by {
                    lemma_charted_more(
                        recorded(found),
                        recorded(reached),
                        scan.package,
                        found.extras[i],
                    );
                }
            }
            if found.paths(file).len() == 0 && lookup(scan.known.scopes, file) is Some {
                let bindings = lookup(scan.known.scopes, file)->0;
                lemma_pending_reached(scan.known.scopes, found, file, dotted);
                lemma_bindings_charted(scan, reached, bindings, path, file);
                scan_bindings_keeps(scan, reached, bindings, path, file);
                if let Ok((children, after)) = scan_bindings(
                    scan,
                    reached,
                    bindings,
                    path,
                    file,
                ) {
                    assert(reached.aliases.contains_key(file));
                    assert(after.aliases.contains_key(file));
                    let symbol = SymbolView { head, children };
                    assert forall|i: int| 0 <= i < symbol.children.len() implies charted(
                        recorded(after),
                        scan.package,
                        #[trigger] symbol.children[i],
                    ) by {
                        assert(charted(recorded(after), scan.package, children[i]));
                    }
                }
            }
        } else {
            let entered = found.entered(file);
            assert forall|f: FileIdView| #[trigger] recorded(found)(f) implies recorded(entered)(
                f,
            ) by {}
            assert(all_charted(recorded(entered), scan.package, entered.extras)) by {
                assert forall|i: int| 0 <= i < entered.extras.len() implies charted(
                    recorded(entered),
                    scan.package,
                    #[trigger] entered.extras[i],
                ) by {
                    lemma_charted_more(
                        recorded(found),
                        recorded(entered),
                        scan.package,
                        found.extras[i],
                    );
                }
            }
            lemma_pending_entered(scan.known.scopes, found, file);
            if found.paths(file).len() == 0 {
                if let Some(Ok((module, repr))) = lookup(scan.known.evaluated, file) {
                    let inner = path.push("-"@).push(name);
                    let unexported = ValueView::Module { name: module, file: Some(file), repr };
                    lemma_scan_charted(scan, entered, module, inner, Some(scan.root), unexported);
                    scan_keeps(scan, entered, module, inner, Some(scan.root), unexported);
                    if let Ok((extra, after)) = scan_value(
                        scan,
                        entered,
                        module,
                        inner,
                        Some(scan.root),
                        unexported,
                    ) {
                        let last = after.with_extra(extra);
                        assert(recorded(last) =~= recorded(after));
                        assert(entered.aliases.contains_key(file));
                        assert(after.aliases.contains_key(file));
                        assert forall|i: int| 0 <= i < last.extras.len() implies charted(
                            recorded(last),
                            scan.package,
                            #[trigger] last.extras[i],
                        ) by {
                            if i < after.extras.len() {
                                assert(charted(recorded(after), scan.package, after.extras[i]));
                            }
                        }
                    }
                }
            }
        }
    }
}

proof fn lemma_bindings_charted(
    scan: ScanView,
    found: FoundView,
    bindings: Seq<BindingView>,
    path: Seq<Seq<char>>,
    file: FileIdView,
)
    requires
        all_charted(recorded(found), scan.package, found.extras),
    ensures
        scan_bindings(scan, found, bindings, path, file) matches Ok((symbols, after)) ==> all_charted(
            recorded(after),
            scan.package,
            symbols,
        ) && all_charted(recorded(after), scan.package, after.extras),
    decreases pending(scan.known.scopes, found), 2 + bindings.len(),
{
    if bindings.len() > 0 {
        let first = bindings[0];
        let inner = path.push(first.name);
        scan_keeps(scan, found, first.name, inner, Some(file), first.value);
        lemma_scan_charted(scan, found, first.name, inner, Some(file), first.value);
        if let Ok((symbol, next)) = scan_value(
            scan,
            found,
            first.name,
            inner,
            Some(file),
            first.value,
        ) {
            let rest = bindings.skip(1);
            lemma_bindings_charted(scan, next, rest, path, file);
            scan_bindings_keeps(scan, next, rest, path, file);
            if let Ok((symbols, after)) = scan_bindings(scan, next, rest, path, file) {
                lemma_all_charted_more(next, after, scan.package, seq![symbol]);
                let all = seq![symbol] + symbols;
                assert forall|i: int| 0 <= i < all.len() implies charted(
                    recorded(after),
                    scan.package,
                    #[trigger] all[i],
                ) by {
                    if i == 0 {
                        assert(charted(recorded(after), scan.package, seq![symbol][0]));
                    } else {
                        assert(charted(recorded(after), scan.package, symbols[i - 1]));
                    }
                }
            }
        }
    }
}

proof fn lemma_charted_ready(
    has: spec_fn(FileIdView) -> bool,
    scope: ScopeView,
    symbol: SymbolView,
)
    requires
        forall|file: FileIdView| #[trigger] has(file) ==> scope.has(file),
        charted(has, scope.package, symbol),
    ensures
        scope.ready(symbol),
    decreases symbol,
{
    assert forall|i: int| 0 <= i < symbol.children.len() implies scope.ready(
        #[trigger] symbol.children[i],
    ) by {
        lemma_charted_ready(has, scope, symbol.children[i]);
    }
}

/// The files among some recorded ones.
pub open spec fn among<T>(recorded: Map<FileIdView, T>) -> spec_fn(FileIdView) -> bool {
    |file: FileIdView| recorded.contains_key(file)
}

/// Only modules of the package are listed with their symbols, and every file
/// of the package that owns a symbol is recorded.
pub proof fn only_own_modules_are_entered(scan: ScanView)
    requires
        listing(scan) is Done,
    ensures
        listing(scan) matches ListingView::Done(root, aliases) && all_charted(
            among(aliases),
            scan.package,
            root.children,
        ),
{
    let (name, repr) = lookup(scan.known.evaluated, scan.root)->0->Ok_0;
    let value = ValueView::Module { name, file: Some(scan.root), repr };
    lemma_scan_charted(scan, nothing_found(), name, Seq::empty(), Some(scan.root), value);
    let (symbol, found) = scan_value(
        scan,
        nothing_found(),
        name,
        Seq::empty(),
        Some(scan.root),
        value,
    )->Ok_0;
    assert(recorded(found) =~= among(found.aliases));
    let all = symbol.children + found.extras;
    assert forall|i: int| 0 <= i < all.len() implies charted(
        among(found.aliases),
        scan.package,
        #[trigger] all[i],
    ) by {
        let n = symbol.children.len();
        if i < n {
            assert(charted(recorded(found), scan.package, symbol.children[i]));
        } else {
            assert(charted(recorded(found), scan.package, found.extras[i - n]));
        }
    }
}

/// Every complete list of the symbols of a package can be documented.
pub proof fn listed_symbols_are_documentable(
    scan: ScanView,
    symbols: SymbolsView,
    title: Seq<char>,
)
    requires
        resides_in(scan.root, scan.package),
        listing(scan) matches ListingView::Done(root, aliases) && symbols.root == root
            && uses_match(aliases, symbols.module_uses),
    ensures
        documentable(
            (ScopeView { title, package: scan.package, uses: symbols.module_uses }),
            symbols.root,
        ),
{
    let scope = ScopeView { title, package: scan.package, uses: symbols.module_uses };
    only_own_modules_are_entered(scan);
    if let ListingView::Done(root, aliases) = listing(scan) {
        let has = among(aliases);
        assert forall|file: FileIdView| #[trigger] has(file) implies scope.has(file) by {
            assert(aliases.contains_key(file));
        }
        assert forall|i: int| 0 <= i < root.children.len() implies scope.ready(
            #[trigger] root.children[i],
        ) by {
            lemma_charted_ready(has, scope, root.children[i]);
        }
        lemma_root_recorded(scan);
        assert(has(scan.root));
    }
}

proof fn lemma_root_recorded(scan: ScanView)
    requires
        resides_in(scan.root, scan.package),
        listing(scan) is Done,
    ensures
        listing(scan) matches ListingView::Done(_, aliases) && aliases.contains_key(scan.root),
{
    let (name, repr) = lookup(scan.known.evaluated, scan.root)->0->Ok_0;
    let value = ValueView::Module { name, file: Some(scan.root), repr };
    lemma_scan_charted(scan, nothing_found(), name, Seq::empty(), Some(scan.root), value);
}

/// Whether what is asked for is not known yet.
pub open spec fn is_news(known: KnownView, request: RequestView) -> bool {
    match request {
        RequestView::Evaluate(file) => lookup(known.evaluated, file) is None,
        RequestView::Scope(file) => lookup(known.scopes, file) is None,
    }
}

proof fn lemma_scan_asks_news(
    scan: ScanView,
    found: FoundView,
    name: Seq<char>,
    path: Seq<Seq<char>>,
    site: Option<FileIdView>,
    value: ValueView,
)
    ensures
        scan_value(scan, found, name, path, site, value) matches Err(request) ==> is_news(
            scan.known,
            request,
        ),
    decreases pending(scan.known.scopes, found), if value is Module { 0nat } else { 1nat },
{
    let head = listed_by(head_of(name, value), value, site);
    let dotted = joined(path, "."@);
    if head.fid is Some && resides_in(head.fid->0, scan.package) {
        let file = head.fid->0;
        if found.paths(file).len() == 0 {
            if value is Module {
                if lookup(scan.known.scopes, file) is Some {
                    lemma_pending_reached(scan.known.scopes, found, file, dotted);
                    lemma_bindings_ask_news(
                        scan,
                        found.reached(file, dotted),
                        lookup(scan.known.scopes, file)->0,
                        path,
                        file,
                    );
                }
            } else {
                lemma_pending_entered(scan.known.scopes, found, file);
                if let Some(Ok((module, repr))) = lookup(scan.known.evaluated, file) {
                    lemma_scan_asks_news(
                        scan,
                        found.entered(file),
                        module,
                        path.push("-"@).push(name),
                        Some(scan.root),
                        ValueView::Module { name: module, file: Some(file), repr },
                    );
                }
            }
        }
    }
}

proof fn lemma_bindings_ask_news(
    scan: ScanView,
    found: FoundView,
    bindings: Seq<BindingView>,
    path: Seq<Seq<char>>,
    file: FileIdView,
)
    ensures
        scan_bindings(scan, found, bindings, path, file) matches Err(request) ==> is_news(
            scan.known,
            request,
        ),
    decreases pending(scan.known.scopes, found), 2 + bindings.len(),
{
    if bindings.len() > 0 {
        let first = bindings[0];
        let inner = path.push(first.name);
        scan_keeps(scan, found, first.name, inner, Some(file), first.value);
        lemma_scan_asks_news(scan, found, first.name, inner, Some(file), first.value);
        if let Ok((_, next)) = scan_value(
            scan,
            found,
            first.name,
            inner,
            Some(file),
            first.value,
        ) {
            lemma_bindings_ask_news(scan, next, bindings.skip(1), path, file);
        }
    }
}

/// A scan never asks for what is known already, so each answer brings it
/// forward.
pub proof fn listing_asks_news(scan: ScanView)
    ensures
        listing(scan) matches ListingView::Ask(request) ==> is_news(scan.known, request),
{
    if let Some(Ok((name, repr))) = lookup(scan.known.evaluated, scan.root) {
        lemma_scan_asks_news(
            scan,
            nothing_found(),
            name,
            Seq::empty(),
            Some(scan.root),
            ValueView::Module { name, file: Some(scan.root), repr },
        );
    }
}

/// Whether everything that is known before is known afterwards, and no
/// different.
pub open spec fn learns(before: KnownView, after: KnownView) -> bool {
    &&& forall|file: FileIdView|
        #![trigger lookup(after.evaluated, file)]
        lookup(before.evaluated, file) is Some ==> lookup(after.evaluated, file) == lookup(
            before.evaluated,
            file,
        )
    &&& forall|file: FileIdView|
        #![trigger lookup(after.scopes, file)]
        lookup(before.scopes, file) is Some ==> lookup(after.scopes, file) == lookup(
            before.scopes,
            file,
        )
}

proof fn lemma_scan_learns(
    scan: ScanView,
    more: ScanView,
    found: FoundView,
    name: Seq<char>,
    path: Seq<Seq<char>>,
    site: Option<FileIdView>,
    value: ValueView,
)
    requires
        more.package == scan.package,
        more.root == scan.root,
        learns(scan.known, more.known),
    ensures
        scan_value(scan, found, name, path, site, value) is Ok ==> scan_value(
            more,
            found,
            name,
            path,
            site,
            value,
        ) == scan_value(scan, found, name, path, site, value),
    decreases pending(scan.known.scopes, found), if value is Module { 0nat } else { 1nat },
{
    let head = listed_by(head_of(name, value), value, site);
    let dotted = joined(path, "."@);
    if head.fid is Some && resides_in(head.fid->0, scan.package) {
        let file = head.fid->0;
        if found.paths(file).len() == 0 {
            if value is Module {
                assert(lookup(scan.known.scopes, file) is Some ==> lookup(more.known.scopes, file)
                    == lookup(scan.known.scopes, file));
                if lookup(scan.known.scopes, file) is Some {
                    lemma_pending_reached(scan.known.scopes, found, file, dotted);
                    lemma_bindings_learn(
                        scan,
                        more,
                        found.reached(file, dotted),
                        lookup(scan.known.scopes, file)->0,
                        path,
                        file,
                    );
                }
            } else {
                lemma_pending_entered(scan.known.scopes, found, file);
                assert(lookup(scan.known.evaluated, file) is Some ==> lookup(
                    more.known.evaluated,
                    file,
                ) == lookup(scan.known.evaluated, file));
                if let Some(Ok((module, repr))) = lookup(scan.known.evaluated, file) {
                    lemma_scan_learns(
                        scan,
                        more,
                        found.entered(file),
                        module,
                        path.push("-"@).push(name),
                        Some(scan.root),
                        ValueView::Module { name: module, file: Some(file), repr },
                    );
                }
            }
        }
    }
}

proof fn lemma_bindings_learn(
    scan: ScanView,
    more: ScanView,
    found: FoundView,
    bindings: Seq<BindingView>,
    path: Seq<Seq<char>>,
    file: FileIdView,
)
    requires
        more.package == scan.package,
        more.root == scan.root,
        learns(scan.known, more.known),
    ensures
        scan_bindings(scan, found, bindings, path, file) is Ok ==> scan_bindings(
            more,
            found,
            bindings,
            path,
            file,
        ) == scan_bindings(scan, found, bindings, path, file),
    decreases pending(scan.known.scopes, found), 2 + bindings.len(),
{
    if bindings.len() > 0 {
        let first = bindings[0];
        let inner = path.push(first.name);
        scan_keeps(scan, found, first.name, inner, Some(file), first.value);
        scan_keeps(more, found, first.name, inner, Some(file), first.value);
        lemma_scan_learns(scan, more, found, first.name, inner, Some(file), first.value);
        if let Ok((_, next)) = scan_value(
            scan,
            found,
            first.name,
            inner,
            Some(file),
            first.value,
        ) {
            lemma_bindings_learn(scan, more, next, bindings.skip(1), path, file);
        }
    }
}

/// A complete list of symbols, and a failure, stay what they are when more
/// becomes known.
pub proof fn listing_is_final(scan: ScanView, more: ScanView)
    requires
        more.package == scan.package,
        more.root == scan.root,
        learns(scan.known, more.known),
        !(listing(scan) is Ask),
    ensures
        listing(more) == listing(scan),
{
    assert(lookup(scan.known.evaluated, scan.root) is Some);
    assert(lookup(more.known.evaluated, scan.root) == lookup(scan.known.evaluated, scan.root));
    if let Some(Ok((name, repr))) = lookup(scan.known.evaluated, scan.root) {
        lemma_scan_learns(
            scan,
            more,
            nothing_found(),
            name,
            Seq::empty(),
            Some(scan.root),
            ValueView::Module { name, file: Some(scan.root), repr },
        );
    }
}

} // verus!
