//! What the tree of listed symbols has to do with what the modules bind.

use vstd::prelude::*;
use crate::listing::{listing, nothing_found, ListingView};
use crate::package::{resides_in, FileIdView, PackageSpecView};
use crate::scan::{
    lemma_pending_entered, lemma_pending_reached, lookup, pending, scan_bindings,
    scan_bindings_keeps, scan_keeps, scan_value, BindingView, FoundView, KnownView, ScanView,
};
use crate::symbols::{head_of, listed_by, SymbolView, ValueView};
use crate::text::joined;

verus! {

/// Whether some symbols are those that the module of a file binds: one for
/// each binding, in order, under its name and with its value.
pub open spec fn lists_scope(
    known: KnownView,
    file: FileIdView,
    symbols: Seq<SymbolView>,
) -> bool {
    lookup(known.scopes, file) matches Some(bindings) && {
        &&& symbols.len() == bindings.len()
        &&& forall|i: int|
            0 <= i < symbols.len() ==> {
                &&& (#[trigger] symbols[i]).head.name == bindings[i].name
                &&& symbols[i].head.value == Some(bindings[i].value)
                &&& symbols[i].head == listed_by(
                    head_of(bindings[i].name, bindings[i].value),
                    bindings[i].value,
                    Some(file),
                )
            }
    }
}

/// Whether the children of every symbol of a tree are those that the module of
/// its file binds.
pub open spec fn mirrors(known: KnownView, symbol: SymbolView) -> bool
    decreases symbol,
{
    &&& symbol.children.len() > 0 ==> symbol.head.fid is Some && lists_scope(
        known,
        symbol.head.fid->0,
        symbol.children,
    )
    &&& forall|i: int|
        0 <= i < symbol.children.len() ==> mirrors(known, #[trigger] symbol.children[i])
}

/// Whether a symbol is a module of the package as evaluating its file gave it.
pub open spec fn is_evaluated(scan: ScanView, symbol: SymbolView) -> bool {
    &&& symbol.head.value matches Some(ValueView::Module { name, file: Some(file), repr })
    &&& symbol.head.name == name
    &&& symbol.head.fid == Some(file)
    &&& resides_in(file, scan.package)
    &&& lookup(scan.known.evaluated, file) == Some(
        Ok::<(Seq<char>, Seq<char>), Seq<char>>((name, repr)),
    )
}

/// Whether some modules are modules of the package with what they bind.
pub open spec fn all_evaluated(scan: ScanView, symbols: Seq<SymbolView>) -> bool {
    forall|i: int|
        0 <= i < symbols.len() ==> is_evaluated(scan, #[trigger] symbols[i]) && mirrors(
            scan.known,
            symbols[i],
        )
}

proof fn lemma_scan_mirrors(
    scan: ScanView,
    found: FoundView,
    name: Seq<char>,
    path: Seq<Seq<char>>,
    site: Option<FileIdView>,
    value: ValueView,
)
    requires
        all_evaluated(scan, found.extras),
    ensures
        scan_value(scan, found, name, path, site, value) matches Ok((symbol, after)) ==> {
            &&& symbol.head == listed_by(head_of(name, value), value, site)
            &&& mirrors(scan.known, symbol)
            &&& all_evaluated(scan, after.extras)
        },
    decreases pending(scan.known.scopes, found), if value is Module { 0nat } else { 1nat },
{
    let head = listed_by(head_of(name, value), value, site);
    let dotted = joined(path, "."@);
    if head.fid is Some && resides_in(head.fid->0, scan.package) {
        let file = head.fid->0;
        if found.paths(file).len() == 0 {
            if value is Module {
                if lookup(scan.known.scopes, file) is Some {
                    let bindings = lookup(scan.known.scopes, file)->0;
                    let reached = found.reached(file, dotted);
                    lemma_pending_reached(scan.known.scopes, found, file, dotted);
                    lemma_bindings_mirror(scan, reached, bindings, path, file);
                    if let Ok((children, after)) = scan_bindings(
                        scan,
                        reached,
                        bindings,
                        path,
                        file,
                    ) {
                        let symbol = SymbolView { head, children };
                        assert(lists_scope(scan.known, file, symbol.children));
                        assert forall|i: int| 0 <= i < symbol.children.len() implies mirrors(
                            scan.known,
                            #[trigger] symbol.children[i],
                        ) by {
                            assert(mirrors(scan.known, children[i]));
                        }
                    }
                }
            } else {
                lemma_pending_entered(scan.known.scopes, found, file);
                if let Some(Ok((module, repr))) = lookup(scan.known.evaluated, file) {
                    let inner = path.push("-"@).push(name);
                    let unexported = ValueView::Module { name: module, file: Some(file), repr };
                    let entered = found.entered(file);
                    lemma_scan_mirrors(
                        scan,
                        entered,
                        module,
                        inner,
                        Some(scan.root),
                        unexported,
                    );
                    if let Ok((extra, after)) = scan_value(
                        scan,
                        entered,
                        module,
                        inner,
                        Some(scan.root),
                        unexported,
                    ) {
                        let last = after.with_extra(extra);
                        assert(is_evaluated(scan, extra));
                        assert forall|i: int| 0 <= i < last.extras.len() implies is_evaluated(
                            scan,
                            #[trigger] last.extras[i],
                        ) && mirrors(scan.known, last.extras[i]) by {
                            if i < after.extras.len() {
                                assert(last.extras[i] == after.extras[i]);
                            }
                        }
                    }
                }
            }
        }
    }
}

proof fn lemma_bindings_mirror(
    scan: ScanView,
    found: FoundView,
    bindings: Seq<BindingView>,
    path: Seq<Seq<char>>,
    file: FileIdView,
)
    requires
        all_evaluated(scan, found.extras),
    ensures
        scan_bindings(scan, found, bindings, path, file) matches Ok((symbols, after)) ==> {
            &&& symbols.len() == bindings.len()
            &&& forall|i: int|
                0 <= i < symbols.len() ==> (#[trigger] symbols[i]).head == listed_by(
                    head_of(bindings[i].name, bindings[i].value),
                    bindings[i].value,
                    Some(file),
                ) && mirrors(scan.known, symbols[i])
            &&& all_evaluated(scan, after.extras)
        },
    decreases pending(scan.known.scopes, found), 2 + bindings.len(),
{
    if bindings.len() > 0 {
        let first = bindings[0];
        let inner = path.push(first.name);
        scan_keeps(scan, found, first.name, inner, Some(file), first.value);
        lemma_scan_mirrors(scan, found, first.name, inner, Some(file), first.value);
        if let Ok((symbol, next)) = scan_value(
            scan,
            found,
            first.name,
            inner,
            Some(file),
            first.value,
        ) {
            let rest = bindings.skip(1);
            lemma_bindings_mirror(scan, next, rest, path, file);
            if let Ok((symbols, after)) = scan_bindings(scan, next, rest, path, file) {
                let all = seq![symbol] + symbols;
                assert forall|i: int| 0 <= i < all.len() implies (#[trigger] all[i]).head
                    == listed_by(
                    head_of(bindings[i].name, bindings[i].value),
                    bindings[i].value,
                    Some(file),
                ) && mirrors(scan.known, all[i]) by {
                    if i > 0 {
                        assert(all[i] == symbols[i - 1]);
                        assert(rest[i - 1] == bindings[i]);
                    }
                }
            }
        }
    }
}

/// The root of a complete list is the module of the entry point. Below it come
/// first the symbols that it binds, one for each binding and in order, and
/// behind them modules of the package. Every symbol of the tree with children
/// has for children the symbols that its module binds.
pub proof fn listed_symbols_mirror_the_modules(scan: ScanView)
    requires
        resides_in(scan.root, scan.package),
        listing(scan) is Done,
    ensures
        listing(scan) matches ListingView::Done(root, _) && {
            let n = lookup(scan.known.scopes, scan.root)->0.len() as int;
            &&& is_evaluated(scan, root)
            &&& root.head.fid == Some(scan.root)
            &&& lookup(scan.known.scopes, scan.root) is Some
            &&& n <= root.children.len()
            &&& lists_scope(scan.known, scan.root, root.children.take(n))
            &&& forall|i: int|
                0 <= i < root.children.len() ==> mirrors(scan.known, #[trigger] root.children[i])
            &&& forall|i: int|
                n <= i < root.children.len() ==> is_evaluated(scan, #[trigger] root.children[i])
        },
{
    let (name, repr) = lookup(scan.known.evaluated, scan.root)->0->Ok_0;
    let value = ValueView::Module { name, file: Some(scan.root), repr };
    let path = Seq::<Seq<char>>::empty();
    let start = nothing_found();
    lemma_scan_mirrors(scan, start, name, path, Some(scan.root), value);
    let reached = start.reached(scan.root, joined(path, "."@));
    let bindings = lookup(scan.known.scopes, scan.root)->0;
    lemma_bindings_mirror(scan, reached, bindings, path, scan.root);
    let (children, after) = scan_bindings(scan, reached, bindings, path, scan.root)->Ok_0;
    if let ListingView::Done(root, _) = listing(scan) {
        assert(root.children == children + after.extras);
        let n = bindings.len() as int;
        assert(root.children.take(n) =~= children);
        assert forall|i: int| 0 <= i < root.children.len() implies mirrors(
            scan.known,
            #[trigger] root.children[i],
        ) && (i >= n ==> is_evaluated(scan, root.children[i])) by {
            if i < n {
                assert(root.children[i] == children[i]);
            } else {
                assert(root.children[i] == after.extras[i - n]);
            }
        }
    }
}

/// Whether the paths to the modules of a tree are recorded, where the tree
/// itself is reached by the given path: each module has the path that its name
/// and the names of the modules above it make.
pub open spec fn walked(
    package: PackageSpecView,
    aliases: Map<FileIdView, Seq<Seq<char>>>,
    path: Seq<Seq<char>>,
    symbol: SymbolView,
) -> bool
    decreases symbol,
{
    let head = symbol.head;
    &&& head.value is Some && head.value->0 is Module && head.fid is Some && resides_in(
        head.fid->0,
        package,
    ) ==> aliases.contains_key(head.fid->0) && aliases[head.fid->0].contains(joined(path, "."@))
    &&& forall|i: int|
        0 <= i < symbol.children.len() ==> walked(
            package,
            aliases,
            path.push((#[trigger] symbol.children[i]).head.name),
            symbol.children[i],
        )
}

/// Whether a module that no other one exports is reached by a path that ends
/// in a hyphen and the name of a symbol.
pub open spec fn walked_aside(
    package: PackageSpecView,
    aliases: Map<FileIdView, Seq<Seq<char>>>,
    symbol: SymbolView,
) -> bool {
    exists|above: Seq<Seq<char>>, name: Seq<char>| #[trigger]
        walked(package, aliases, above.push("-"@).push(name), symbol)
}

proof fn lemma_walked_more(
    package: PackageSpecView,
    before: FoundView,
    after: FoundView,
    path: Seq<Seq<char>>,
    symbol: SymbolView,
)
    requires
        after.extends(before),
        walked(package, before.aliases, path, symbol),
    ensures
        walked(package, after.aliases, path, symbol),
    decreases symbol,
{
    let head = symbol.head;
    if head.fid is Some {
        let file = head.fid->0;
        let x = joined(path, "."@);
        if before.aliases.contains_key(file) && before.aliases[file].contains(x) {
            assert(after.aliases.contains_key(file));
            assert(before.paths(file).is_prefix_of(after.paths(file)));
            let k = before.aliases[file].index_of(x);
            let m = before.paths(file).len() as int;
            assert(after.paths(file).subrange(0, m)[k] == after.paths(file)[k]);
            assert(after.aliases[file][k] == x);
        }
    }
    assert forall|i: int| 0 <= i < symbol.children.len() implies walked(
        package,
        after.aliases,
        path.push((#[trigger] symbol.children[i]).head.name),
        symbol.children[i],
    ) by {
        lemma_walked_more(
            package,
            before,
            after,
            path.push(symbol.children[i].head.name),
            symbol.children[i],
        );
    }
}

proof fn lemma_aside_more(
    package: PackageSpecView,
    before: FoundView,
    after: FoundView,
    symbol: SymbolView,
)
    requires
        after.extends(before),
        walked_aside(package, before.aliases, symbol),
    ensures
        walked_aside(package, after.aliases, symbol),
{
    let (above, name) = choose|above: Seq<Seq<char>>, name: Seq<char>| #[trigger]
        walked(package, before.aliases, above.push("-"@).push(name), symbol);
    lemma_walked_more(package, before, after, above.push("-"@).push(name), symbol);
}

/// Whether all modules that no other one exports are reached so.
pub open spec fn all_walked_aside(package: PackageSpecView, found: FoundView) -> bool {
    forall|i: int|
        0 <= i < found.extras.len() ==> walked_aside(
            package,
            found.aliases,
            #[trigger] found.extras[i],
        )
}

proof fn lemma_all_aside_more(package: PackageSpecView, before: FoundView, after: FoundView)
    requires
        after.extends(before),
        after.extras == before.extras,
        all_walked_aside(package, before),
    ensures
        all_walked_aside(package, after),
{
    assert forall|i: int| 0 <= i < after.extras.len() implies walked_aside(
        package,
        after.aliases,
        #[trigger] after.extras[i],
    ) by {
        lemma_aside_more(package, before, after, before.extras[i]);
    }
}

proof fn lemma_steps_extend(found: FoundView, file: FileIdView, path: Seq<char>)
    ensures
        found.entered(file).extends(found),
        found.reached(file, path).extends(found),
{
    assert forall|f: FileIdView|
        #![trigger found.reached(file, path).paths(f)]
        found.paths(f).is_prefix_of(found.reached(file, path).paths(f)) by {
        let after = found.reached(file, path).paths(f);
        assert(after.subrange(0, found.paths(f).len() as int) =~= found.paths(f));
    }
    assert forall|f: FileIdView|
        #![trigger found.entered(file).paths(f)]
        found.paths(f).is_prefix_of(found.entered(file).paths(f)) by {
        let after = found.entered(file).paths(f);
        assert(after.subrange(0, found.paths(f).len() as int) =~= found.paths(f));
    }
    assert(found.extras.subrange(0, found.extras.len() as int) =~= found.extras);
}

proof fn lemma_scan_walked(
    scan: ScanView,
    found: FoundView,
    name: Seq<char>,
    path: Seq<Seq<char>>,
    site: Option<FileIdView>,
    value: ValueView,
)
    requires
        all_walked_aside(scan.package, found),
    ensures
        scan_value(scan, found, name, path, site, value) matches Ok((symbol, after)) ==> {
            &&& walked(scan.package, after.aliases, path, symbol)
            &&& symbol.head.name == name
            &&& all_walked_aside(scan.package, after)
        },
    decreases pending(scan.known.scopes, found), if value is Module { 0nat } else { 1nat },
{
    let head = listed_by(head_of(name, value), value, site);
    let dotted = joined(path, "."@);
    if head.fid is Some && resides_in(head.fid->0, scan.package) {
        let file = head.fid->0;
        lemma_steps_extend(found, file, dotted);
        if value is Module {
            let reached = found.reached(file, dotted);
            lemma_all_aside_more(scan.package, found, reached);
            let n = found.paths(file).len() as int;
            assert(reached.aliases[file][n] == dotted);
            assert(reached.aliases[file].contains(dotted));
            if found.paths(file).len() == 0 && lookup(scan.known.scopes, file) is Some {
                let bindings = lookup(scan.known.scopes, file)->0;
                lemma_pending_reached(scan.known.scopes, found, file, dotted);
                lemma_bindings_walked(scan, reached, bindings, path, file);
                scan_bindings_keeps(scan, reached, bindings, path, file);
                if let Ok((children, after)) = scan_bindings(
                    scan,
                    reached,
                    bindings,
                    path,
                    file,
                ) {
                    let plain = SymbolView { head, children: Seq::empty() };
                    assert(walked(scan.package, reached.aliases, path, plain));
                    lemma_walked_more(scan.package, reached, after, path, plain);
                    let symbol = SymbolView { head, children };
                    assert forall|i: int| 0 <= i < symbol.children.len() implies walked(
                        scan.package,
                        after.aliases,
                        path.push((#[trigger] symbol.children[i]).head.name),
                        symbol.children[i],
                    ) by {
                        assert(walked(
                            scan.package,
                            after.aliases,
                            path.push(children[i].head.name),
                            children[i],
                        ));
                    }
                }
            }
        } else {
            let entered = found.entered(file);
            lemma_all_aside_more(scan.package, found, entered);
            lemma_pending_entered(scan.known.scopes, found, file);
            if found.paths(file).len() == 0 {
                if let Some(Ok((module, repr))) = lookup(scan.known.evaluated, file) {
                    let inner = path.push("-"@).push(name);
                    let unexported = ValueView::Module { name: module, file: Some(file), repr };
                    lemma_scan_walked(
                        scan,
                        entered,
                        module,
                        inner,
                        Some(scan.root),
                        unexported,
                    );
                    if let Ok((extra, after)) = scan_value(
                        scan,
                        entered,
                        module,
                        inner,
                        Some(scan.root),
                        unexported,
                    ) {
                        let last = after.with_extra(extra);
                        assert(walked(scan.package, last.aliases, inner, extra));
                        assert(walked_aside(scan.package, last.aliases, extra));
                        assert forall|i: int| 0 <= i < last.extras.len() implies walked_aside(
                            scan.package,
                            last.aliases,
                            #[trigger] last.extras[i],
                        ) by {
                            if i < after.extras.len() {
                                assert(last.extras[i] == after.extras[i]);
                            }
                        }
                    }
                }
            }
        }
    }
}

proof fn lemma_bindings_walked(
    scan: ScanView,
    found: FoundView,
    bindings: Seq<BindingView>,
    path: Seq<Seq<char>>,
    file: FileIdView,
)
    requires
        all_walked_aside(scan.package, found),
    ensures
        scan_bindings(scan, found, bindings, path, file) matches Ok((symbols, after)) ==> {
            &&& forall|i: int|
                0 <= i < symbols.len() ==> walked(
                    scan.package,
                    after.aliases,
                    path.push((#[trigger] symbols[i]).head.name),
                    symbols[i],
                )
            &&& all_walked_aside(scan.package, after)
        },
    decreases pending(scan.known.scopes, found), 2 + bindings.len(),
{
    if bindings.len() > 0 {
        let first = bindings[0];
        let inner = path.push(first.name);
        scan_keeps(scan, found, first.name, inner, Some(file), first.value);
        lemma_scan_walked(scan, found, first.name, inner, Some(file), first.value);
        if let Ok((symbol, next)) = scan_value(
            scan,
            found,
            first.name,
            inner,
            Some(file),
            first.value,
        ) {
            let rest = bindings.skip(1);
            lemma_bindings_walked(scan, next, rest, path, file);
            scan_bindings_keeps(scan, next, rest, path, file);
            if let Ok((symbols, after)) = scan_bindings(scan, next, rest, path, file) {
                lemma_walked_more(scan.package, next, after, inner, symbol);
                let all = seq![symbol] + symbols;
                assert forall|i: int| 0 <= i < all.len() implies walked(
                    scan.package,
                    after.aliases,
                    path.push((#[trigger] all[i]).head.name),
                    all[i],
                ) by {
                    if i > 0 {
                        assert(all[i] == symbols[i - 1]);
                    }
                }
            }
        }
    }
}

/// The root module is reached by the empty path, each module below it by the
/// names that lead to it, and each module that no other one exports by a path
/// that ends in a hyphen and the name of a symbol.
pub proof fn paths_follow_the_names(scan: ScanView)
    requires
        resides_in(scan.root, scan.package),
        listing(scan) is Done,
    ensures
        listing(scan) matches ListingView::Done(root, aliases) && {
            let n = lookup(scan.known.scopes, scan.root)->0.len() as int;
            &&& aliases.contains_key(scan.root)
            &&& aliases[scan.root].contains(Seq::<char>::empty())
            &&& forall|i: int|
                0 <= i < n ==> walked(
                    scan.package,
                    aliases,
                    seq![(#[trigger] root.children[i]).head.name],
                    root.children[i],
                )
            &&& forall|i: int|
                n <= i < root.children.len() ==> walked_aside(
                    scan.package,
                    aliases,
                    #[trigger] root.children[i],
                )
        },
{
    let (name, repr) = lookup(scan.known.evaluated, scan.root)->0->Ok_0;
    let value = ValueView::Module { name, file: Some(scan.root), repr };
    let path = Seq::<Seq<char>>::empty();
    let start = nothing_found();
    lemma_scan_walked(scan, start, name, path, Some(scan.root), value);
    let reached = start.reached(scan.root, joined(path, "."@));
    let bindings = lookup(scan.known.scopes, scan.root)->0;
    lemma_bindings_walked(scan, reached, bindings, path, scan.root);
    scan_bindings_keeps(scan, reached, bindings, path, scan.root);
    let (children, after) = scan_bindings(scan, reached, bindings, path, scan.root)->Ok_0;
    if let ListingView::Done(root, _) = listing(scan) {
        let n = bindings.len() as int;
        assert(root.children == children + after.extras);
        assert forall|i: int| 0 <= i < n implies walked(
            scan.package,
            after.aliases,
            seq![(#[trigger] root.children[i]).head.name],
            root.children[i],
        ) by {
            assert(root.children[i] == children[i]);
            assert(path.push(children[i].head.name) =~= seq![children[i].head.name]);
        }
        assert forall|i: int| n <= i < root.children.len() implies walked_aside(
            scan.package,
            after.aliases,
            #[trigger] root.children[i],
        ) by {
            assert(root.children[i] == after.extras[i - n]);
        }
    }
}

/// How often a module of the package occurs in a tree.
pub open spec fn mentions(package: PackageSpecView, symbol: SymbolView, file: FileIdView) -> nat
    decreases symbol,
{
    mentions_all(package, symbol.children, file) + if symbol.head.value is Some
        && symbol.head.value->0 is Module && symbol.head.fid == Some(file) && resides_in(
        file,
        package,
    ) {
        1nat
    } else {
        0nat
    }
}

/// How often a module of the package occurs in some trees.
pub open spec fn mentions_all(
    package: PackageSpecView,
    symbols: Seq<SymbolView>,
    file: FileIdView,
) -> nat
    decreases symbols,
{
    if symbols.len() == 0 {
        0
    } else {
        mentions_all(package, symbols.drop_last(), file) + mentions(package, symbols.last(), file)
    }
}

proof fn lemma_mentions_concat(
    package: PackageSpecView,
    a: Seq<SymbolView>,
    b: Seq<SymbolView>,
    file: FileIdView,
)
    ensures
        mentions_all(package, a + b, file) == mentions_all(package, a, file) + mentions_all(
            package,
            b,
            file,
        ),
    decreases b.len(),
{
    if b.len() == 0 {
        assert(a + b =~= a);
    } else {
        assert((a + b).drop_last() =~= a + b.drop_last());
        lemma_mentions_concat(package, a, b.drop_last(), file);
    }
}

proof fn lemma_mentions_one(package: PackageSpecView, symbol: SymbolView, file: FileIdView)
    ensures
        mentions_all(package, seq![symbol], file) == mentions(package, symbol, file),
        mentions(package, symbol, file) == mentions_all(package, symbol.children, file)
            + if symbol.head.value is Some && symbol.head.value->0 is Module && symbol.head.fid
            == Some(file) && resides_in(file, package) {
            1nat
        } else {
            0nat
        },
{
    assert(seq![symbol].drop_last() =~= Seq::empty());
    assert(mentions_all(package, seq![symbol].drop_last(), file) == 0);
    assert(mentions_all(package, seq![symbol], file) == mentions_all(
        package,
        seq![symbol].drop_last(),
        file,
    ) + mentions(package, seq![symbol].last(), file));
}

proof fn lemma_scan_mentions(
    scan: ScanView,
    found: FoundView,
    name: Seq<char>,
    path: Seq<Seq<char>>,
    site: Option<FileIdView>,
    value: ValueView,
    of: FileIdView,
)
    ensures
        scan_value(scan, found, name, path, site, value) matches Ok((symbol, after))
            ==> after.paths(of).len() == found.paths(of).len() + mentions(
            scan.package,
            symbol,
            of,
        ) + mentions_all(scan.package, after.extras.skip(found.extras.len() as int), of),
    decreases pending(scan.known.scopes, found), if value is Module { 0nat } else { 1nat },
{
    scan_keeps(scan, found, name, path, site, value);
    let head = listed_by(head_of(name, value), value, site);
    let dotted = joined(path, "."@);
    let n = found.extras.len() as int;
    let plain = SymbolView { head, children: Seq::empty() };
    lemma_mentions_one(scan.package, plain, of);
    assert(found.extras.skip(n) =~= Seq::empty());
    if head.fid is Some && resides_in(head.fid->0, scan.package) {
        let file = head.fid->0;
        if value is Module {
            let reached = found.reached(file, dotted);
            assert(reached.extras.skip(n) =~= Seq::empty());
            assert(of != file ==> reached.paths(of) == found.paths(of));
            if found.paths(file).len() == 0 && lookup(scan.known.scopes, file) is Some {
                let bindings = lookup(scan.known.scopes, file)->0;
                lemma_pending_reached(scan.known.scopes, found, file, dotted);
                lemma_bindings_mentions(scan, reached, bindings, path, file, of);
                if let Ok((children, after)) = scan_bindings(
                    scan,
                    reached,
                    bindings,
                    path,
                    file,
                ) {
                    lemma_mentions_one(scan.package, SymbolView { head, children }, of);
                }
            }
        } else {
            let entered = found.entered(file);
            lemma_pending_entered(scan.known.scopes, found, file);
            assert(entered.extras.skip(n) =~= Seq::empty());
            assert(entered.paths(of) == found.paths(of));
            if found.paths(file).len() == 0 {
                if let Some(Ok((module, repr))) = lookup(scan.known.evaluated, file) {
                    let inner = path.push("-"@).push(name);
                    let unexported = ValueView::Module { name: module, file: Some(file), repr };
                    lemma_scan_mentions(
                        scan,
                        entered,
                        module,
                        inner,
                        Some(scan.root),
                        unexported,
                        of,
                    );
                    scan_keeps(scan, entered, module, inner, Some(scan.root), unexported);
                    if let Ok((extra, after)) = scan_value(
                        scan,
                        entered,
                        module,
                        inner,
                        Some(scan.root),
                        unexported,
                    ) {
                        let last = after.with_extra(extra);
                        assert(n <= after.extras.len());
                        assert(last.extras.skip(n) =~= after.extras.skip(n) + seq![extra]);
                        lemma_mentions_concat(
                            scan.package,
                            after.extras.skip(n),
                            seq![extra],
                            of,
                        );
                        lemma_mentions_one(scan.package, extra, of);
                        assert(last.paths(of) == after.paths(of));
                    }
                }
            }
        }
    }
}

proof fn lemma_bindings_mentions(
    scan: ScanView,
    found: FoundView,
    bindings: Seq<BindingView>,
    path: Seq<Seq<char>>,
    file: FileIdView,
    of: FileIdView,
)
    ensures
        scan_bindings(scan, found, bindings, path, file) matches Ok((symbols, after))
            ==> after.paths(of).len() == found.paths(of).len() + mentions_all(
            scan.package,
            symbols,
            of,
        ) + mentions_all(scan.package, after.extras.skip(found.extras.len() as int), of),
    decreases pending(scan.known.scopes, found), 2 + bindings.len(),
{
    let n = found.extras.len() as int;
    assert(found.extras.skip(n) =~= Seq::empty());
    if bindings.len() > 0 {
        let first = bindings[0];
        let inner = path.push(first.name);
        scan_keeps(scan, found, first.name, inner, Some(file), first.value);
        lemma_scan_mentions(scan, found, first.name, inner, Some(file), first.value, of);
        if let Ok((symbol, next)) = scan_value(
            scan,
            found,
            first.name,
            inner,
            Some(file),
            first.value,
        ) {
            let rest = bindings.skip(1);
            lemma_bindings_mentions(scan, next, rest, path, file, of);
            scan_bindings_keeps(scan, next, rest, path, file);
            if let Ok((symbols, after)) = scan_bindings(scan, next, rest, path, file) {
                let m = next.extras.len() as int;
                assert(found.extras.is_prefix_of(next.extras));
                assert(next.extras.is_prefix_of(after.extras));
                assert(after.extras.skip(n) =~= next.extras.skip(n) + after.extras.skip(m)) by {
                    assert forall|i: int| 0 <= i < m implies after.extras[i] == next.extras[i] by {
                        assert(after.extras.subrange(0, m)[i] == after.extras[i]);
                    }
                }
                lemma_mentions_concat(
                    scan.package,
                    next.extras.skip(n),
                    after.extras.skip(m),
                    of,
                );
                lemma_mentions_concat(scan.package, seq![symbol], symbols, of);
                lemma_mentions_one(scan.package, symbol, of);
            }
        }
    }
}

/// A module has as many paths as it occurs in the tree, and the root module
/// one more.
pub proof fn every_occurrence_has_a_path(scan: ScanView, file: FileIdView)
    requires
        resides_in(scan.root, scan.package),
        listing(scan) matches ListingView::Done(_, aliases) && aliases.contains_key(file),
    ensures
        listing(scan) matches ListingView::Done(root, aliases) && aliases[file].len()
            == mentions_all(scan.package, root.children, file) + if file == scan.root {
            1nat
        } else {
            0nat
        },
{
    let (name, repr) = lookup(scan.known.evaluated, scan.root)->0->Ok_0;
    let path = Seq::<Seq<char>>::empty();
    let start = nothing_found();
    let reached = start.reached(scan.root, joined(path, "."@));
    let bindings = lookup(scan.known.scopes, scan.root)->0;
    lemma_bindings_mentions(scan, reached, bindings, path, scan.root, file);
    let (children, after) = scan_bindings(scan, reached, bindings, path, scan.root)->Ok_0;
    assert(after.extras.skip(0) =~= after.extras);
    lemma_mentions_concat(scan.package, children, after.extras, file);
}

/// Whether two scans of a package differ at most in what the module of the
/// entry point binds.
pub open spec fn differ_at_the_root(scan: ScanView, other: ScanView) -> bool {
    &&& other.package == scan.package
    &&& other.root == scan.root
    &&& other.known.evaluated == scan.known.evaluated
    &&& forall|file: FileIdView|
        file != scan.root ==> #[trigger] lookup(other.known.scopes, file) == lookup(
            scan.known.scopes,
            file,
        )
}

proof fn lemma_scan_alike(
    scan: ScanView,
    other: ScanView,
    found: FoundView,
    name: Seq<char>,
    path: Seq<Seq<char>>,
    site: Option<FileIdView>,
    value: ValueView,
)
    requires
        differ_at_the_root(scan, other),
        found.paths(scan.root).len() > 0,
    ensures
        scan_value(other, found, name, path, site, value) == scan_value(
            scan,
            found,
            name,
            path,
            site,
            value,
        ),
    decreases pending(scan.known.scopes, found), if value is Module { 0nat } else { 1nat },
{
    let head = listed_by(head_of(name, value), value, site);
    let dotted = joined(path, "."@);
    if head.fid is Some && resides_in(head.fid->0, scan.package) {
        let file = head.fid->0;
        if found.paths(file).len() == 0 {
            assert(lookup(other.known.scopes, file) == lookup(scan.known.scopes, file));
            if value is Module {
                if lookup(scan.known.scopes, file) is Some {
                    lemma_pending_reached(scan.known.scopes, found, file, dotted);
                    lemma_bindings_alike(
                        scan,
                        other,
                        found.reached(file, dotted),
                        lookup(scan.known.scopes, file)->0,
                        path,
                        file,
                    );
                }
            } else {
                lemma_pending_entered(scan.known.scopes, found, file);
                if let Some(Ok((module, repr))) = lookup(scan.known.evaluated, file) {
                    lemma_scan_alike(
                        scan,
                        other,
                        found.entered(file),
                        module,
                        path.push("-"@).push(name),
                        Some(scan.root),
                        ValueView::Module { name: module, file: Some(file), repr },
                    );
                }
            }
        }
    }
}

proof fn lemma_bindings_alike(
    scan: ScanView,
    other: ScanView,
    found: FoundView,
    bindings: Seq<BindingView>,
    path: Seq<Seq<char>>,
    file: FileIdView,
)
    requires
        differ_at_the_root(scan, other),
        found.paths(scan.root).len() > 0,
    ensures
        scan_bindings(other, found, bindings, path, file) == scan_bindings(
            scan,
            found,
            bindings,
            path,
            file,
        ),
    decreases pending(scan.known.scopes, found), 2 + bindings.len(),
{
    if bindings.len() > 0 {
        let first = bindings[0];
        let inner = path.push(first.name);
        scan_keeps(scan, found, first.name, inner, Some(file), first.value);
        scan_keeps(other, found, first.name, inner, Some(file), first.value);
        lemma_scan_alike(scan, other, found, first.name, inner, Some(file), first.value);
        if let Ok((_, next)) = scan_value(
            scan,
            found,
            first.name,
            inner,
            Some(file),
            first.value,
        ) {
            assert(found.paths(scan.root).is_prefix_of(next.paths(scan.root)));
            lemma_bindings_alike(scan, other, next, bindings.skip(1), path, file);
        }
    }
}

proof fn lemma_bindings_split(
    scan: ScanView,
    found: FoundView,
    a: Seq<BindingView>,
    b: Seq<BindingView>,
    path: Seq<Seq<char>>,
    file: FileIdView,
)
    requires
        scan_bindings(scan, found, a + b, path, file) is Ok,
    ensures
        scan_bindings(scan, found, a, path, file) matches Ok((some, midway)) && {
            let (all, after) = scan_bindings(scan, found, a + b, path, file)->Ok_0;
            &&& all.len() == a.len() + b.len()
            &&& some.len() == a.len()
            &&& all.take(a.len() as int) == some
            &&& after.extends(midway)
        },
    decreases a.len(),
{
    scan_bindings_keeps(scan, found, a, path, file);
    scan_bindings_keeps(scan, found, a + b, path, file);
    let (all, after) = scan_bindings(scan, found, a + b, path, file)->Ok_0;
    if a.len() == 0 {
        assert(all.take(0) =~= Seq::empty());
    } else {
        let first = a[0];
        let inner = path.push(first.name);
        assert((a + b)[0] == first);
        assert((a + b).skip(1) =~= a.skip(1) + b);
        scan_keeps(scan, found, first.name, inner, Some(file), first.value);
        let (symbol, next) = scan_value(
            scan,
            found,
            first.name,
            inner,
            Some(file),
            first.value,
        )->Ok_0;
        lemma_bindings_split(scan, next, a.skip(1), b, path, file);
        let (rest, _) = scan_bindings(scan, next, a.skip(1) + b, path, file)->Ok_0;
        let (some, _) = scan_bindings(scan, next, a.skip(1), path, file)->Ok_0;
        assert(all == seq![symbol] + rest);
        assert(rest.take(a.skip(1).len() as int) == some);
        assert(all.take(a.len() as int) =~= seq![symbol] + some);
        let (own, midway) = scan_bindings(scan, found, a, path, file)->Ok_0;
        assert(own == seq![symbol] + some);
        assert(after.extends(midway));
    }
}

/// Where the module of the entry point binds more behind what it bound, the
/// list only grows: the symbols of what it bound stay the same, the modules
/// behind them stay in front and in their order, and so do the paths to each
/// module.
pub proof fn lists_grow_with_the_entry_point(
    scan: ScanView,
    other: ScanView,
    a: Seq<BindingView>,
    b: Seq<BindingView>,
    file: FileIdView,
)
    requires
        resides_in(scan.root, scan.package),
        differ_at_the_root(scan, other),
        lookup(scan.known.scopes, scan.root) == Some(a),
        lookup(other.known.scopes, scan.root) == Some(a + b),
        listing(other) is Done,
    ensures
        listing(scan) matches ListingView::Done(few, paths) && (listing(
            other,
        ) matches ListingView::Done(many, more) && {
            let n = a.len() as int;
            &&& few.head == many.head
            &&& few.children.len() >= n
            &&& many.children.len() >= n + b.len()
            &&& few.children.take(n) == many.children.take(n)
            &&& few.children.skip(n).is_prefix_of(many.children.skip(n + b.len()))
            &&& paths.contains_key(file) ==> more.contains_key(file) && paths[file].is_prefix_of(
                more[file],
            )
        }),
{
    let (name, repr) = lookup(scan.known.evaluated, scan.root)->0->Ok_0;
    let path = Seq::<Seq<char>>::empty();
    let dotted = joined(path, "."@);
    let start = nothing_found();
    let reached = start.reached(scan.root, dotted);
    assert(reached.paths(scan.root).len() > 0);
    lemma_bindings_alike(scan, other, reached, a, path, scan.root);
    lemma_bindings_split(other, reached, a, b, path, scan.root);
    let (all, after) = scan_bindings(other, reached, a + b, path, scan.root)->Ok_0;
    let (some, midway) = scan_bindings(scan, reached, a, path, scan.root)->Ok_0;
    let n = a.len() as int;
    assert((some + midway.extras).take(n) =~= some);
    assert((all + after.extras).take(n) =~= all.take(n));
    assert((some + midway.extras).skip(n) =~= midway.extras);
    assert((all + after.extras).skip(n + b.len()) =~= after.extras);
    if midway.aliases.contains_key(file) {
        assert(after.aliases.contains_key(file));
        assert(midway.paths(file).is_prefix_of(after.paths(file)));
    }
}

} // verus!
