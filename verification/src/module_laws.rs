//! What holds of the modules that every scan enters.

use vstd::prelude::*;
use crate::collections::first_or_empty;
use crate::listing::{listing, nothing_found, sorted_paths, uses_match, ListingView};
use crate::order::{path_le, ranking, Ranked};
use crate::package::{file_text, resides_in, spec_text, FileIdView};
use crate::path::slashed;
use crate::scan::{
    lemma_pending_entered, lemma_pending_reached, lookup, pending, scan_bindings,
    scan_bindings_keeps, scan_keeps, scan_value, BindingView, FoundView, ScanView,
};
use crate::symbols::{head_of, listed_by, SymbolView, ValueView};
use crate::text::{byte_len, joined};

verus! {

/// How often the module of a file is listed with its symbols in a tree.
pub open spec fn entries(symbol: SymbolView, file: FileIdView) -> nat
    decreases symbol,
{
    entries_all(symbol.children, file) + if symbol.children.len() > 0 && symbol.head.fid == Some(
        file,
    ) {
        1nat
    } else {
        0nat
    }
}

/// How often the module of a file is listed with its symbols in some trees.
pub open spec fn entries_all(symbols: Seq<SymbolView>, file: FileIdView) -> nat
    decreases symbols,
{
    if symbols.len() == 0 {
        0
    } else {
        entries_all(symbols.drop_last(), file) + entries(symbols.last(), file)
    }
}

pub proof fn lemma_entries_concat(a: Seq<SymbolView>, b: Seq<SymbolView>, file: FileIdView)
    ensures
        entries_all(a + b, file) == entries_all(a, file) + entries_all(b, file),
    decreases b.len(),
{
    if b.len() == 0 {
        assert(a + b =~= a);
    } else {
        assert((a + b).drop_last() =~= a + b.drop_last());
        lemma_entries_concat(a, b.drop_last(), file);
    }
}

pub proof fn lemma_entries_one(symbol: SymbolView, file: FileIdView)
    ensures
        entries_all(seq![symbol], file) == entries(symbol, file),
        entries(symbol, file) == entries_all(symbol.children, file) + if symbol.children.len() > 0
            && symbol.head.fid == Some(file) {
            1nat
        } else {
            0nat
        },
{
    assert(seq![symbol].drop_last() =~= Seq::empty());
    assert(entries_all(seq![symbol].drop_last(), file) == 0);
    assert(entries_all(seq![symbol], file) == entries_all(seq![symbol].drop_last(), file) + entries(
        seq![symbol].last(),
        file,
    ));
}

/// Whether the first path to a module was found since `before`.
pub open spec fn newly_reached(before: FoundView, after: FoundView, file: FileIdView) -> nat {
    if before.paths(file).len() == 0 && after.paths(file).len() > 0 {
        1
    } else {
        0
    }
}

/// Whether the module of a file is known to bind something.
pub open spec fn binds_some(scan: ScanView, file: FileIdView) -> bool {
    lookup(scan.known.scopes, file) is Some && lookup(scan.known.scopes, file)->0.len() > 0
}

proof fn lemma_scan_once(
    scan: ScanView,
    found: FoundView,
    name: Seq<char>,
    path: Seq<Seq<char>>,
    site: Option<FileIdView>,
    value: ValueView,
    of: FileIdView,
)
    ensures
        scan_value(scan, found, name, path, site, value) matches Ok((symbol, after)) ==> entries(
            symbol,
            of,
        ) + entries_all(after.extras.skip(found.extras.len() as int), of) <= newly_reached(
            found,
            after,
            of,
        ),
        scan_value(scan, found, name, path, site, value) matches Ok((symbol, after)) ==> binds_some(
            scan,
            of,
        ) ==> entries(symbol, of) + entries_all(
            after.extras.skip(found.extras.len() as int),
            of,
        ) == newly_reached(found, after, of),
    decreases pending(scan.known.scopes, found), if value is Module { 0nat } else { 1nat },
{
    scan_keeps(scan, found, name, path, site, value);
    let head = listed_by(head_of(name, value), value, site);
    let dotted = joined(path, "."@);
    let n = found.extras.len() as int;
    let plain = SymbolView { head, children: Seq::empty() };
    lemma_entries_one(plain, of);
    assert(found.extras.skip(n) =~= Seq::empty());
    if head.fid is Some && resides_in(head.fid->0, scan.package) {
        let file = head.fid->0;
        if value is Module {
            let reached = found.reached(file, dotted);
            assert(reached.extras.skip(n) =~= Seq::empty());
            if found.paths(file).len() == 0 && lookup(scan.known.scopes, file) is Some {
                let bindings = lookup(scan.known.scopes, file)->0;
                lemma_pending_reached(scan.known.scopes, found, file, dotted);
                lemma_bindings_once(scan, reached, bindings, path, file, of);
                scan_bindings_keeps(scan, reached, bindings, path, file);
                if let Ok((children, after)) = scan_bindings(
                    scan,
                    reached,
                    bindings,
                    path,
                    file,
                ) {
                    lemma_entries_one(SymbolView { head, children }, of);
                    assert(reached.paths(of).is_prefix_of(after.paths(of)));
                    if of != file {
                        assert(reached.paths(of) == found.paths(of));
                    }
                }
            }
        } else {
            let entered = found.entered(file);
            lemma_pending_entered(scan.known.scopes, found, file);
            assert(entered.extras.skip(n) =~= Seq::empty());
            assert(entered.paths(of) == found.paths(of));
            if found.paths(file).len() == 0 {
                if let Some(Ok((module, repr))) = lookup(scan.known.evaluated, file) {
                    let inner = path.push("-"@).push(name);
                    let unexported = ValueView::Module { name: module, file: Some(file), repr };
                    lemma_scan_once(
                        scan,
                        entered,
                        module,
                        inner,
                        Some(scan.root),
                        unexported,
                        of,
                    );
                    scan_keeps(scan, entered, module, inner, Some(scan.root), unexported);
                    if let Ok((extra, after)) = scan_value(
                        scan,
                        entered,
                        module,
                        inner,
                        Some(scan.root),
                        unexported,
                    ) {
                        let last = after.with_extra(extra);
                        assert(n <= after.extras.len());
                        assert(last.extras.skip(n) =~= after.extras.skip(n) + seq![extra]);
                        lemma_entries_concat(after.extras.skip(n), seq![extra], of);
                        lemma_entries_one(extra, of);
                        assert(last.paths(of) == after.paths(of));
                    }
                }
            }
        }
    }
}

proof fn lemma_bindings_once(
    scan: ScanView,
    found: FoundView,
    bindings: Seq<BindingView>,
    path: Seq<Seq<char>>,
    file: FileIdView,
    of: FileIdView,
)
    ensures
        scan_bindings(scan, found, bindings, path, file) matches Ok((symbols, after))
            ==> entries_all(symbols, of) + entries_all(
            after.extras.skip(found.extras.len() as int),
            of,
        ) <= newly_reached(found, after, of),
        scan_bindings(scan, found, bindings, path, file) matches Ok((symbols, after))
            ==> binds_some(scan, of) ==> entries_all(symbols, of) + entries_all(
            after.extras.skip(found.extras.len() as int),
            of,
        ) == newly_reached(found, after, of),
    decreases pending(scan.known.scopes, found), 2 + bindings.len(),
{
    let n = found.extras.len() as int;
    assert(found.extras.skip(n) =~= Seq::empty());
    if bindings.len() > 0 {
        let first = bindings[0];
        let inner = path.push(first.name);
        scan_keeps(scan, found, first.name, inner, Some(file), first.value);
        lemma_scan_once(scan, found, first.name, inner, Some(file), first.value, of);
        if let Ok((symbol, next)) = scan_value(
            scan,
            found,
            first.name,
            inner,
            Some(file),
            first.value,
        ) {
            let rest = bindings.skip(1);
            lemma_bindings_once(scan, next, rest, path, file, of);
            scan_bindings_keeps(scan, next, rest, path, file);
            if let Ok((symbols, after)) = scan_bindings(scan, next, rest, path, file) {
                let m = next.extras.len() as int;
                assert(found.extras.is_prefix_of(next.extras));
                assert(next.extras.is_prefix_of(after.extras));
                assert(n <= m <= after.extras.len());
                assert(after.extras.subrange(0, m) == next.extras);
                assert(after.extras.skip(n) =~= next.extras.skip(n) + after.extras.skip(m)) by {
                    assert forall|i: int| 0 <= i < m implies after.extras[i] == next.extras[i] by {
                        assert(after.extras.subrange(0, m)[i] == after.extras[i]);
                    }
                }
                lemma_entries_concat(next.extras.skip(n), after.extras.skip(m), of);
                lemma_entries_concat(seq![symbol], symbols, of);
                lemma_entries_one(symbol, of);
                assert(found.paths(of).is_prefix_of(next.paths(of)));
                assert(next.paths(of).is_prefix_of(after.paths(of)));
            }
        }
    }
}

/// No module of a package is listed twice with its symbols, and the root
/// module not once below itself. A module that is so listed has been reached
/// by a path.
pub proof fn modules_are_entered_once(scan: ScanView, file: FileIdView)
    requires
        resides_in(scan.root, scan.package),
        listing(scan) is Done,
    ensures
        listing(scan) matches ListingView::Done(root, aliases) ==> {
            &&& entries_all(root.children, file) <= 1
            &&& entries_all(root.children, scan.root) == 0
            &&& entries_all(root.children, file) > 0 ==> aliases.contains_key(file)
                && aliases[file].len() > 0
        },
{
    let (name, repr) = lookup(scan.known.evaluated, scan.root)->0->Ok_0;
    let start = nothing_found();
    let path = Seq::<Seq<char>>::empty();
    let reached = start.reached(scan.root, joined(path, "."@));
    let bindings = lookup(scan.known.scopes, scan.root)->0;
    lemma_bindings_once(scan, reached, bindings, path, scan.root, file);
    lemma_bindings_once(scan, reached, bindings, path, scan.root, scan.root);
    let (children, after) = scan_bindings(scan, reached, bindings, path, scan.root)->Ok_0;
    assert(after.extras.skip(0) =~= after.extras);
    lemma_entries_concat(children, after.extras, file);
    lemma_entries_concat(children, after.extras, scan.root);
}

/// Every module that has been reached by a path and binds something is listed
/// with its symbols exactly once below the root, whether another module exports
/// it or none does. Only the root module is not listed below itself.
pub proof fn reached_modules_are_listed(scan: ScanView, file: FileIdView)
    requires
        resides_in(scan.root, scan.package),
        file != scan.root,
        listing(scan) matches ListingView::Done(_, aliases) && aliases.contains_key(file)
            && aliases[file].len() > 0,
        lookup(scan.known.scopes, file) matches Some(bindings) && bindings.len() > 0,
    ensures
        listing(scan) matches ListingView::Done(root, _) && entries_all(root.children, file) == 1,
{
    let (name, repr) = lookup(scan.known.evaluated, scan.root)->0->Ok_0;
    let start = nothing_found();
    let path = Seq::<Seq<char>>::empty();
    let reached = start.reached(scan.root, joined(path, "."@));
    let bindings = lookup(scan.known.scopes, scan.root)->0;
    assert(binds_some(scan, file));
    lemma_bindings_once(scan, reached, bindings, path, scan.root, file);
    let (children, after) = scan_bindings(scan, reached, bindings, path, scan.root)->Ok_0;
    assert(after.extras.skip(0) =~= after.extras);
    lemma_entries_concat(children, after.extras, file);
}

/// Whether all recorded files are files of the package, and each of them but
/// one has been reached as a module or cannot be evaluated.
pub open spec fn accounted(scan: ScanView, found: FoundView, but: Option<FileIdView>) -> bool {
    forall|file: FileIdView| #[trigger]
        found.aliases.contains_key(file) ==> {
            &&& resides_in(file, scan.package)
            &&& found.aliases[file].len() > 0 || but == Some(file) || (lookup(
                scan.known.evaluated,
                file,
            ) is Some && lookup(scan.known.evaluated, file)->0 is Err)
        }
}

/// The file of a module that the scan is about to reach.
pub open spec fn about_to_reach(scan: ScanView, value: ValueView) -> Option<FileIdView> {
    match value {
        ValueView::Module { name: _, file: Some(file), repr: _ } => if resides_in(
            file,
            scan.package,
        ) {
            Some(file)
        } else {
            None
        },
        _ => None,
    }
}

proof fn lemma_scan_accounted(
    scan: ScanView,
    found: FoundView,
    name: Seq<char>,
    path: Seq<Seq<char>>,
    site: Option<FileIdView>,
    value: ValueView,
)
    requires
        accounted(scan, found, about_to_reach(scan, value)),
    ensures
        scan_value(scan, found, name, path, site, value) matches Ok((_, after)) ==> accounted(
            scan,
            after,
            None,
        ),
    decreases pending(scan.known.scopes, found), if value is Module { 0nat } else { 1nat },
{
    let head = listed_by(head_of(name, value), value, site);
    let dotted = joined(path, "."@);
    if head.fid is Some && resides_in(head.fid->0, scan.package) {
        let file = head.fid->0;
        if value is Module {
            let reached = found.reached(file, dotted);
            assert(accounted(scan, reached, None));
            if found.paths(file).len() == 0 && lookup(scan.known.scopes, file) is Some {
                let bindings = lookup(scan.known.scopes, file)->0;
                lemma_pending_reached(scan.known.scopes, found, file, dotted);
                lemma_bindings_accounted(scan, reached, bindings, path, file);
            }
        } else {
            let entered = found.entered(file);
            lemma_pending_entered(scan.known.scopes, found, file);
            if found.paths(file).len() == 0 {
                assert(accounted(scan, entered, Some(file)));
                if let Some(Ok((module, repr))) = lookup(scan.known.evaluated, file) {
                    let inner = path.push("-"@).push(name);
                    let unexported = ValueView::Module { name: module, file: Some(file), repr };
                    lemma_scan_accounted(
                        scan,
                        entered,
                        module,
                        inner,
                        Some(scan.root),
                        unexported,
                    );
                }
            } else {
                assert(entered.aliases =~= found.aliases);
            }
        }
    }
}

proof fn lemma_bindings_accounted(
    scan: ScanView,
    found: FoundView,
    bindings: Seq<BindingView>,
    path: Seq<Seq<char>>,
    file: FileIdView,
)
    requires
        accounted(scan, found, None),
    ensures
        scan_bindings(scan, found, bindings, path, file) matches Ok((_, after)) ==> accounted(
            scan,
            after,
            None,
        ),
    decreases pending(scan.known.scopes, found), 2 + bindings.len(),
{
    if bindings.len() > 0 {
        let first = bindings[0];
        let inner = path.push(first.name);
        scan_keeps(scan, found, first.name, inner, Some(file), first.value);
        lemma_scan_accounted(scan, found, first.name, inner, Some(file), first.value);
        if let Ok((_, next)) = scan_value(
            scan,
            found,
            first.name,
            inner,
            Some(file),
            first.value,
        ) {
            lemma_bindings_accounted(scan, next, bindings.skip(1), path, file);
        }
    }
}

/// Only files of the package are recorded, and each of them is listed as a
/// module even if no other module exports it, unless it cannot be evaluated.
pub proof fn unexported_modules_are_listed(scan: ScanView, file: FileIdView)
    requires
        listing(scan) matches ListingView::Done(_, aliases) && aliases.contains_key(file),
    ensures
        resides_in(file, scan.package),
        listing(scan) matches ListingView::Done(_, aliases) && (aliases[file].len() > 0 || (lookup(
            scan.known.evaluated,
            file,
        ) is Some && lookup(scan.known.evaluated, file)->0 is Err)),
{
    let (name, repr) = lookup(scan.known.evaluated, scan.root)->0->Ok_0;
    lemma_scan_accounted(
        scan,
        nothing_found(),
        name,
        Seq::empty(),
        Some(scan.root),
        ValueView::Module { name, file: Some(scan.root), repr },
    );
}

/// The path by which a module is shown is one of its paths, and none of them
/// is shorter.
pub proof fn primary_path_is_shortest(paths: Seq<Seq<char>>)
    requires
        paths.len() > 0,
    ensures
        paths.contains(first_or_empty(sorted_paths(paths))),
        forall|i: int|
            0 <= i < paths.len() ==> byte_len(first_or_empty(sorted_paths(paths))) <= byte_len(
                #[trigger] paths[i],
            ),
{
    broadcast use vstd::seq_lib::group_to_multiset_ensures;

    let le = |a: Seq<char>, b: Seq<char>| path_le(a, b);
    let sorted = sorted_paths(paths);
    String::ranks_totally();
    assert(ranking::<String>() =~= le);
    paths.lemma_sort_by_ensures(le);
    assert(sorted.len() == sorted.to_multiset().len());
    assert(paths.len() == paths.to_multiset().len());
    let first = sorted[0];
    assert(sorted.contains(first));
    assert(paths.to_multiset().count(first) > 0);
    assert forall|i: int| 0 <= i < paths.len() implies byte_len(first) <= byte_len(
        #[trigger] paths[i],
    ) by {
        assert(paths.contains(paths[i]));
        assert(sorted.to_multiset().count(paths[i]) > 0);
        assert(sorted.contains(paths[i]));
        let k = sorted.index_of(paths[i]);
        assert(sorted[k] == paths[i]);
        if k > 0 {
            assert(le(sorted[0], sorted[k]));
        }
    }
}

/// Whether the components of a path can be told apart where slashes join them.
pub open spec fn separable(path: Seq<Seq<char>>) -> bool {
    forall|i: int|
        0 <= i < path.len() ==> (#[trigger] path[i]).len() > 0 && !path[i].contains('/')
}

proof fn lemma_joined_tail(path: Seq<Seq<char>>)
    requires
        separable(path),
        path.len() > 0,
    ensures
        ({
            let text = joined(path, seq!['/']);
            let last = path.last();
            &&& text.len() >= last.len()
            &&& text.skip(text.len() - last.len()) == last
            &&& path.len() == 1 ==> text == last
            &&& path.len() > 1 ==> text.len() > last.len() && text[text.len() - last.len() - 1]
                == '/' && text.take(text.len() - last.len() - 1) == joined(
                path.drop_last(),
                seq!['/'],
            )
        }),
{
    let text = joined(path, seq!['/']);
    let last = path.last();
    assert(text.skip(text.len() - last.len()) =~= last);
    if path.len() > 1 {
        assert(text.take(text.len() - last.len() - 1) =~= joined(path.drop_last(), seq!['/']));
    }
}

proof fn lemma_tail_not_longer(a: Seq<Seq<char>>, b: Seq<Seq<char>>)
    requires
        separable(a),
        separable(b),
        a.len() > 0,
        b.len() > 0,
        joined(a, seq!['/']) == joined(b, seq!['/']),
    ensures
        b.last().len() <= a.last().len(),
{
    lemma_joined_tail(a);
    lemma_joined_tail(b);
    let text = joined(a, seq!['/']);
    if b.last().len() > a.last().len() {
        let at = text.len() - a.last().len() - 1;
        assert(a.len() > 1);
        assert(text[at] == '/');
        let from = text.len() - b.last().len();
        assert(b.last()[at - from] == text.skip(from)[at - from]);
        assert(b.last() == b[b.len() - 1]);
        assert(b[b.len() - 1].contains('/'));
    }
}

proof fn lemma_joined_differs(a: Seq<Seq<char>>, b: Seq<Seq<char>>)
    requires
        separable(a),
        separable(b),
        joined(a, seq!['/']) == joined(b, seq!['/']),
    ensures
        a == b,
    decreases a.len(),
{
    if a.len() == 0 || b.len() == 0 {
        if a.len() > 0 {
            lemma_joined_tail(a);
            assert(a[a.len() - 1].len() > 0);
        }
        if b.len() > 0 {
            lemma_joined_tail(b);
            assert(b[b.len() - 1].len() > 0);
        }
        assert(a =~= b);
    } else {
        lemma_joined_tail(a);
        lemma_joined_tail(b);
        lemma_tail_not_longer(a, b);
        lemma_tail_not_longer(b, a);
        assert(a.last() == b.last());
        if a.len() > 1 && b.len() > 1 {
            let c = a.drop_last();
            let d = b.drop_last();
            assert forall|i: int| 0 <= i < c.len() implies (#[trigger] c[i]).len() > 0
                && !c[i].contains('/') by {
                assert(c[i] == a[i]);
            }
            assert forall|i: int| 0 <= i < d.len() implies (#[trigger] d[i]).len() > 0
                && !d[i].contains('/') by {
                assert(d[i] == b[i]);
            }
            lemma_joined_differs(c, d);
            assert(a =~= c.push(a.last()));
            assert(b =~= d.push(b.last()));
        } else {
            assert(a =~= b);
        }
    }
}

/// Two files of one package have different notations.
pub proof fn file_text_identifies(a: FileIdView, b: FileIdView)
    requires
        a.package == b.package,
        separable(a.path),
        separable(b.path),
        file_text(a) == file_text(b),
    ensures
        a == b,
{
    if a.package is Some {
        let n = spec_text(a.package->0).len() as int;
        assert(file_text(a).skip(n) =~= slashed(a.path));
        assert(file_text(b).skip(n) =~= slashed(b.path));
    }
    assert(slashed(a.path).skip(1) =~= joined(a.path, seq!['/']));
    assert(slashed(b.path).skip(1) =~= joined(b.path, seq!['/']));
    lemma_joined_differs(a.path, b.path);
}

/// Under the notation of a file that was recorded stand the paths to its
/// module, and no others.
pub proof fn uses_are_the_paths(
    scan: ScanView,
    uses: Map<Seq<char>, Seq<Seq<char>>>,
    file: FileIdView,
)
    requires
        listing(scan) matches ListingView::Done(_, aliases) && {
            &&& uses_match(aliases, uses)
            &&& aliases.contains_key(file)
            &&& forall|other: FileIdView| #[trigger]
                aliases.contains_key(other) ==> separable(other.path)
        },
    ensures
        uses.contains_key(file_text(file)),
        listing(scan) matches ListingView::Done(_, aliases) && uses[file_text(file)]
            == sorted_paths(aliases[file]),
{
    if let ListingView::Done(_, aliases) = listing(scan) {
        let text = file_text(file);
        assert(uses.contains_key(text));
        let other = choose|other: FileIdView| #[trigger]
            aliases.contains_key(other) && file_text(other) == text && uses[text] == sorted_paths(
                aliases[other],
            );
        unexported_modules_are_listed(scan, file);
        unexported_modules_are_listed(scan, other);
        file_text_identifies(file, other);
    }
}

/// Whether a text is made of certain characters.
pub open spec fn made_of(safe: spec_fn(char) -> bool, text: Seq<char>) -> bool {
    forall|i: int| 0 <= i < text.len() ==> safe(#[trigger] text[i])
}

/// Whether some texts are made of certain characters.
pub open spec fn all_made_of(safe: spec_fn(char) -> bool, texts: Seq<Seq<char>>) -> bool {
    forall|i: int| 0 <= i < texts.len() ==> made_of(safe, #[trigger] texts[i])
}

/// Whether the names that some bindings bind are made of certain characters.
pub open spec fn names_made_of(safe: spec_fn(char) -> bool, bindings: Seq<BindingView>) -> bool {
    forall|i: int| 0 <= i < bindings.len() ==> made_of(safe, (#[trigger] bindings[i]).name)
}

/// Whether all names that the modules of a package bind are made of certain
/// characters.
pub open spec fn scopes_made_of(
    safe: spec_fn(char) -> bool,
    scopes: Seq<(FileIdView, Seq<BindingView>)>,
) -> bool {
    forall|i: int| 0 <= i < scopes.len() ==> names_made_of(safe, (#[trigger] scopes[i]).1)
}

/// Whether all recorded paths are made of certain characters.
pub open spec fn paths_made_of(safe: spec_fn(char) -> bool, found: FoundView) -> bool {
    forall|file: FileIdView| #[trigger]
        found.aliases.contains_key(file) ==> all_made_of(safe, found.aliases[file])
}

proof fn lemma_lookup_made_of(
    safe: spec_fn(char) -> bool,
    scopes: Seq<(FileIdView, Seq<BindingView>)>,
    file: FileIdView,
)
    requires
        scopes_made_of(safe, scopes),
        lookup(scopes, file) is Some,
    ensures
        names_made_of(safe, lookup(scopes, file)->0),
    decreases scopes.len(),
{
    assert(names_made_of(safe, scopes[0].1));
    if scopes[0].0 != file {
        let rest = scopes.skip(1);
        assert forall|i: int| 0 <= i < rest.len() implies names_made_of(
            safe,
            (#[trigger] rest[i]).1,
        ) by {
            assert(rest[i] == scopes[i + 1]);
        }
        lemma_lookup_made_of(safe, rest, file);
    }
}

proof fn lemma_joined_made_of(safe: spec_fn(char) -> bool, path: Seq<Seq<char>>)
    requires
        all_made_of(safe, path),
        safe('.'),
    ensures
        made_of(safe, joined(path, "."@)),
    decreases path.len(),
{
    reveal_strlit(".");
    if path.len() == 1 {
        assert(made_of(safe, path[0]));
    } else if path.len() > 1 {
        let init = path.drop_last();
        assert forall|i: int| 0 <= i < init.len() implies made_of(safe, #[trigger] init[i]) by {
            assert(init[i] == path[i]);
        }
        lemma_joined_made_of(safe, init);
        assert(made_of(safe, path[path.len() - 1]));
        let text = joined(path, "."@);
        let n = joined(init, "."@).len() as int;
        assert forall|i: int| 0 <= i < text.len() implies safe(#[trigger] text[i]) by {
            if i < n {
                assert(text[i] == joined(init, "."@)[i]);
            } else if i == n {
                assert(text[i] == '.');
            } else {
                assert(text[i] == path.last()[i - n - 1]);
            }
        }
    }
}

proof fn lemma_scan_made_of(
    safe: spec_fn(char) -> bool,
    scan: ScanView,
    found: FoundView,
    name: Seq<char>,
    path: Seq<Seq<char>>,
    site: Option<FileIdView>,
    value: ValueView,
)
    requires
        safe('.'),
        safe('-'),
        scopes_made_of(safe, scan.known.scopes),
        paths_made_of(safe, found),
        all_made_of(safe, path),
        value is Module || made_of(safe, name),
    ensures
        scan_value(scan, found, name, path, site, value) matches Ok((_, after)) ==> paths_made_of(
            safe,
            after,
        ),
    decreases pending(scan.known.scopes, found), if value is Module { 0nat } else { 1nat },
{
    let head = listed_by(head_of(name, value), value, site);
    let dotted = joined(path, "."@);
    if head.fid is Some && resides_in(head.fid->0, scan.package) {
        let file = head.fid->0;
        if value is Module {
            let reached = found.reached(file, dotted);
            lemma_joined_made_of(safe, path);
            assert(paths_made_of(safe, reached)) by {
                let before = found.paths(file);
                let after = before.push(dotted);
                assert forall|i: int| 0 <= i < after.len() implies made_of(
                    safe,
                    #[trigger] after[i],
                ) by {
                    if i < before.len() {
                        assert(after[i] == found.aliases[file][i]);
                    }
                }
            }
            if found.paths(file).len() == 0 && lookup(scan.known.scopes, file) is Some {
                let bindings = lookup(scan.known.scopes, file)->0;
                lemma_pending_reached(scan.known.scopes, found, file, dotted);
                lemma_lookup_made_of(safe, scan.known.scopes, file);
                lemma_bindings_made_of(safe, scan, reached, bindings, path, file);
            }
        } else {
            let entered = found.entered(file);
            lemma_pending_entered(scan.known.scopes, found, file);
            assert(paths_made_of(safe, entered));
            if found.paths(file).len() == 0 {
                if let Some(Ok((module, repr))) = lookup(scan.known.evaluated, file) {
                    let inner = path.push("-"@).push(name);
                    let unexported = ValueView::Module { name: module, file: Some(file), repr };
                    reveal_strlit("-");
                    assert forall|i: int| 0 <= i < inner.len() implies made_of(
                        safe,
                        #[trigger] inner[i],
                    ) by {
                        if i < path.len() {
                            assert(inner[i] == path[i]);
                        } else if i == path.len() {
                            assert(inner[i] == "-"@);
                        }
                    }
                    lemma_scan_made_of(
                        safe,
                        scan,
                        entered,
                        module,
                        inner,
                        Some(scan.root),
                        unexported,
                    );
                }
            }
        }
    }
}

proof fn lemma_bindings_made_of(
    safe: spec_fn(char) -> bool,
    scan: ScanView,
    found: FoundView,
    bindings: Seq<BindingView>,
    path: Seq<Seq<char>>,
    file: FileIdView,
)
    requires
        safe('.'),
        safe('-'),
        scopes_made_of(safe, scan.known.scopes),
        paths_made_of(safe, found),
        all_made_of(safe, path),
        names_made_of(safe, bindings),
    ensures
        scan_bindings(scan, found, bindings, path, file) matches Ok((_, after)) ==> paths_made_of(
            safe,
            after,
        ),
    decreases pending(scan.known.scopes, found), 2 + bindings.len(),
{
    if bindings.len() > 0 {
        let first = bindings[0];
        let inner = path.push(first.name);
        assert forall|i: int| 0 <= i < inner.len() implies made_of(safe, #[trigger] inner[i]) by {
            if i < path.len() {
                assert(inner[i] == path[i]);
            }
        }
        scan_keeps(scan, found, first.name, inner, Some(file), first.value);
        lemma_scan_made_of(safe, scan, found, first.name, inner, Some(file), first.value);
        if let Ok((_, next)) = scan_value(
            scan,
            found,
            first.name,
            inner,
            Some(file),
            first.value,
        ) {
            let rest = bindings.skip(1);
            assert forall|i: int| 0 <= i < rest.len() implies made_of(
                safe,
                (#[trigger] rest[i]).name,
            ) by {
                assert(rest[i] == bindings[i + 1]);
            }
            lemma_bindings_made_of(safe, scan, next, rest, path, file);
        }
    }
}

/// The paths to the modules hold no other characters than dots, hyphens and
/// those of the names that modules bind. So the path by which a module is
/// shown can stand in HTML if the names can.
pub proof fn paths_are_made_of_names(
    safe: spec_fn(char) -> bool,
    scan: ScanView,
    uses: Map<Seq<char>, Seq<Seq<char>>>,
    text: Seq<char>,
)
    requires
        safe('.'),
        safe('-'),
        scopes_made_of(safe, scan.known.scopes),
        listing(scan) matches ListingView::Done(_, aliases) && uses_match(aliases, uses),
        uses.contains_key(text),
    ensures
        made_of(safe, first_or_empty(uses[text])),
{
    let (name, repr) = lookup(scan.known.evaluated, scan.root)->0->Ok_0;
    lemma_scan_made_of(
        safe,
        scan,
        nothing_found(),
        name,
        Seq::empty(),
        Some(scan.root),
        ValueView::Module { name, file: Some(scan.root), repr },
    );
    if let ListingView::Done(_, aliases) = listing(scan) {
        let file = choose|file: FileIdView| #[trigger]
            aliases.contains_key(file) && file_text(file) == text && uses[text] == sorted_paths(
                aliases[file],
            );
        assert(all_made_of(safe, aliases[file]));
        if aliases[file].len() > 0 {
            primary_path_is_shortest(aliases[file]);
            let i = aliases[file].index_of(first_or_empty(uses[text]));
            assert(aliases[file][i] == first_or_empty(uses[text]));
        } else {
            lemma_sorted_empty(aliases[file]);
        }
    }
}

proof fn lemma_sorted_empty(paths: Seq<Seq<char>>)
    requires
        paths.len() == 0,
    ensures
        sorted_paths(paths).len() == 0,
{
    broadcast use vstd::seq_lib::group_to_multiset_ensures;

    let le = |a: Seq<char>, b: Seq<char>| path_le(a, b);
    String::ranks_totally();
    assert(ranking::<String>() =~= le);
    paths.lemma_sort_by_ensures(le);
    assert(sorted_paths(paths).len() == sorted_paths(paths).to_multiset().len());
    assert(paths.len() == paths.to_multiset().len());
}

} // verus!
