//! What listing and planning come to, from the version of a package onwards.

use vstd::prelude::*;
use vstd::utf8::encode_utf8;
use crate::document::{plan_follows, planning_agrees, Planning};
use crate::listing::{
    is_entry, is_listing, listing, listing_agrees, nothing_found, sorted_paths, uses_match, Listing,
    ListingView,
};
use crate::manifest::{manifest_in, read_view};
use crate::order::{lex_le, path_le, ranking, Ranked};
use crate::package::{
    file_text, info_spec, resides_in, FileIdView, PackageInfo, PackageSpecView,
};
use crate::path::{followed, portable, sep_at, split_at_sep};
use crate::plan::{journey_from, planned, ScopeView};
use crate::records::PackageMetaView;
use crate::scan::{
    lemma_pending_entered, lemma_pending_reached, lookup, pending, scan_bindings, scan_keeps,
    scan_value, BindingView, FoundView, KnownView, RequestView, ScanView,
};
use crate::symbols::{head_of, listed_by, ValueView};
use crate::text::joined;

verus! {

/// Sorting the paths to a module neither adds nor drops one, and puts those of
/// fewer bytes first, in lexicographic order where they are equally long.
pub proof fn paths_are_sorted(paths: Seq<Seq<char>>)
    ensures
        sorted_paths(paths).to_multiset() == paths.to_multiset(),
        sorted_paths(paths).len() == paths.len(),
        forall|i: int, j: int|
            #![trigger sorted_paths(paths)[i], sorted_paths(paths)[j]]
            0 <= i < j < paths.len() ==> {
                let (a, b) = (sorted_paths(paths)[i], sorted_paths(paths)[j]);
                &&& encode_utf8(a).len() <= encode_utf8(b).len()
                &&& encode_utf8(a).len() == encode_utf8(b).len() ==> lex_le(a, b)
            },
{
    broadcast use vstd::seq_lib::group_to_multiset_ensures;

    let le = |a: Seq<char>, b: Seq<char>| path_le(a, b);
    let sorted = sorted_paths(paths);
    String::ranks_totally();
    assert(ranking::<String>() =~= le);
    paths.lemma_sort_by_ensures(le);
    assert(sorted.len() == sorted.to_multiset().len());
    assert(paths.len() == paths.to_multiset().len());
    assert forall|i: int, j: int|
        #![trigger sorted_paths(paths)[i], sorted_paths(paths)[j]]
        0 <= i < j < paths.len() implies {
        let (a, b) = (sorted_paths(paths)[i], sorted_paths(paths)[j]);
        &&& encode_utf8(a).len() <= encode_utf8(b).len()
        &&& encode_utf8(a).len() == encode_utf8(b).len() ==> lex_le(a, b)
    } by {
        assert(le(sorted[i], sorted[j]));
    }
}

/// Whether a text is the name of a file or a directory.
pub open spec fn is_plain(name: Seq<char>) -> bool {
    &&& name.len() > 0
    &&& !name.contains('/')
    &&& name != "."@
    &&& name != ".."@
}

/// Some names with slashes between them.
pub open spec fn with_slashes(names: Seq<Seq<char>>) -> Seq<char>
    decreases names.len(),
{
    if names.len() == 0 {
        Seq::empty()
    } else if names.len() == 1 {
        names[0]
    } else {
        names[0] + "/"@ + with_slashes(names.skip(1))
    }
}

proof fn lemma_first_slash(name: Seq<char>, rest: Seq<char>)
    requires
        !name.contains('/'),
    ensures
        sep_at(name, '/') == name.len(),
        sep_at(name + seq!['/'] + rest, '/') == name.len(),
    decreases name.len(),
{
    let all = name + seq!['/'] + rest;
    if name.len() > 0 {
        assert(name.contains(name[0]));
        let tail = name.skip(1);
        assert forall|i: int| 0 <= i < tail.len() implies tail[i] != '/' by {
            assert(name.contains(name[i + 1]));
        }
        lemma_first_slash(tail, rest);
        assert(all.skip(1) =~= tail + seq!['/'] + rest);
    }
}

proof fn lemma_names_split(names: Seq<Seq<char>>)
    requires
        names.len() > 0,
        forall|i: int| 0 <= i < names.len() ==> is_plain(#[trigger] names[i]),
    ensures
        split_at_sep(with_slashes(names), '/') == names,
    decreases names.len(),
{
    let name = names[0];
    assert(is_plain(name));
    reveal_strlit("/");
    assert("/"@ =~= seq!['/']);
    if names.len() == 1 {
        lemma_first_slash(name, Seq::empty());
        assert(names =~= seq![name]);
    } else {
        let rest = names.skip(1);
        assert forall|i: int| 0 <= i < rest.len() implies is_plain(#[trigger] rest[i]) by {
            assert(is_plain(names[i + 1]));
        }
        lemma_names_split(rest);
        let tail = with_slashes(rest);
        let all = with_slashes(names);
        assert(all == name + seq!['/'] + tail);
        lemma_first_slash(name, tail);
        assert(all.take(name.len() as int) =~= name);
        assert(all.skip(1int + name.len()) =~= tail);
        assert(names =~= seq![name] + rest);
    }
}

proof fn lemma_names_followed(at: Seq<Seq<char>>, names: Seq<Seq<char>>)
    requires
        forall|i: int| 0 <= i < names.len() ==> is_plain(#[trigger] names[i]),
    ensures
        followed(at, names) == at + names,
    decreases names.len(),
{
    if names.len() == 0 {
        assert(at + names =~= at);
    } else {
        let name = names[0];
        assert(is_plain(name));
        reveal_strlit(".");
        reveal_strlit("..");
        assert("."@ =~= seq!['.']);
        assert(".."@ =~= seq!['.', '.']);
        let rest = names.skip(1);
        assert forall|i: int| 0 <= i < rest.len() implies is_plain(#[trigger] rest[i]) by {
            assert(is_plain(names[i + 1]));
        }
        lemma_names_followed(at.push(name), rest);
        assert(at.push(name) + rest =~= at + names);
    }
}

/// The entry point of a package lies in the package, below its root, under
/// the very names that the manifest gives.
pub proof fn entry_points_are_named_by_the_manifest(
    package: PackageSpecView,
    names: Seq<Seq<char>>,
    file: FileIdView,
)
    requires
        names.len() > 0,
        forall|i: int| 0 <= i < names.len() ==> is_plain(#[trigger] names[i]),
        portable(with_slashes(names)),
        is_entry(package, with_slashes(names), file),
    ensures
        file.package == Some(package),
        file.path == names,
{
    lemma_names_split(names);
    lemma_names_followed(Seq::empty(), names);
    assert(Seq::<Seq<char>>::empty() + names =~= names);
}

/// A scan begins with the module of the entry point: it asks for the module
/// where that is not known, and fails exactly where there is none, for the
/// very reason that was given.
pub proof fn scans_begin_with_the_entry_point(scan: ScanView, message: Seq<char>)
    ensures
        lookup(scan.known.evaluated, scan.root) is None ==> listing(scan) == ListingView::Ask(
            RequestView::Evaluate(scan.root),
        ),
        listing(scan) == ListingView::Failed(message) <==> lookup(scan.known.evaluated, scan.root)
            == Some(Err::<(Seq<char>, Seq<char>), Seq<char>>(message)),
{
}

/// The file that a request is about.
pub open spec fn asked_file(request: RequestView) -> FileIdView {
    match request {
        RequestView::Evaluate(file) => file,
        RequestView::Scope(file) => file,
    }
}

proof fn lemma_scan_asks_own(
    scan: ScanView,
    found: FoundView,
    name: Seq<char>,
    path: Seq<Seq<char>>,
    site: Option<FileIdView>,
    value: ValueView,
)
    ensures
        scan_value(scan, found, name, path, site, value) matches Err(request) ==> asked_file(
            request,
        ).package == Some(scan.package),
    decreases pending(scan.known.scopes, found), if value is Module { 0nat } else { 1nat },
{
    let head = listed_by(head_of(name, value), value, site);
    let dotted = joined(path, "."@);
    if head.fid is Some && resides_in(head.fid->0, scan.package) {
        let file = head.fid->0;
        if found.paths(file).len() == 0 {
            if value is Module {
                if lookup(scan.known.scopes, file) is Some {
                    lemma_pending_reached(scan.known.scopes, found, file, dotted);
                    lemma_bindings_ask_own(
                        scan,
                        found.reached(file, dotted),
                        lookup(scan.known.scopes, file)->0,
                        path,
                        file,
                    );
                }
            } else {
                lemma_pending_entered(scan.known.scopes, found, file);
                if let Some(Ok((module, repr))) = lookup(scan.known.evaluated, file) {
                    lemma_scan_asks_own(
                        scan,
                        found.entered(file),
                        module,
                        path.push("-"@).push(name),
                        Some(scan.root),
                        ValueView::Module { name: module, file: Some(file), repr },
                    );
                }
            }
        }
    }
}

proof fn lemma_bindings_ask_own(
    scan: ScanView,
    found: FoundView,
    bindings: Seq<BindingView>,
    path: Seq<Seq<char>>,
    file: FileIdView,
)
    ensures
        scan_bindings(scan, found, bindings, path, file) matches Err(request) ==> asked_file(
            request,
        ).package == Some(scan.package),
    decreases pending(scan.known.scopes, found), 2 + bindings.len(),
{
    if bindings.len() > 0 {
        let first = bindings[0];
        let inner = path.push(first.name);
        scan_keeps(scan, found, first.name, inner, Some(file), first.value);
        lemma_scan_asks_own(scan, found, first.name, inner, Some(file), first.value);
        if let Ok((_, next)) = scan_value(
            scan,
            found,
            first.name,
            inner,
            Some(file),
            first.value,
        ) {
            lemma_bindings_ask_own(scan, next, bindings.skip(1), path, file);
        }
    }
}

/// A scan asks for files of the package only.
pub proof fn scans_ask_for_own_files(scan: ScanView, request: RequestView)
    requires
        scan.root.package == Some(scan.package),
        listing(scan) == ListingView::Ask(request),
    ensures
        asked_file(request).package == Some(scan.package),
{
    if let Some(Ok((name, repr))) = lookup(scan.known.evaluated, scan.root) {
        lemma_scan_asks_own(
            scan,
            nothing_found(),
            name,
            Seq::empty(),
            Some(scan.root),
            ValueView::Module { name, file: Some(scan.root), repr },
        );
    }
}

/// The outcome of a scan is handed out as it is: a question stays that
/// question, a failure fails with its message, and a list has that tree and
/// one entry of uses for each module reached.
pub proof fn listings_are_handed_out(
    expected: ListingView,
    res: Result<Listing, String>,
    file: FileIdView,
)
    requires
        listing_agrees(expected, res),
    ensures
        expected is Failed <==> res is Err,
        expected matches ListingView::Failed(message) ==> res->Err_0@ == message,
        expected matches ListingView::Ask(request) ==> {
            &&& res matches Ok(Listing::Ask(asked))
            &&& asked@ == request
        },
        expected matches ListingView::Done(root, aliases) ==> {
            &&& res matches Ok(Listing::Done(symbols))
            &&& symbols@.root == root
            &&& aliases.contains_key(file) ==> symbols@.module_uses.contains_key(
                file_text(file),
            )
        },
{
}

/// A list is made exactly of a package whose version can be parsed and whose
/// manifest can be read; else listing fails with what is wrong with the
/// version, or else with the manifest.
pub proof fn packages_are_listed(
    info: PackageInfo,
    toml_data: Result<Seq<u8>, Seq<char>>,
    known: KnownView,
    res: Result<Listing, String>,
)
    requires
        is_listing(info, toml_data, known, res),
    ensures
        info_spec(info) matches Err(message) ==> res is Err && res->Err_0@ == message,
        info_spec(info) is Ok && manifest_in(toml_data) is Err ==> res is Err && res->Err_0@
            == manifest_in(toml_data)->Err_0,
        info_spec(info) matches Ok(package) ==> (manifest_in(toml_data) matches Ok(manifest) ==>
            exists|root: FileIdView| #[trigger]
            is_entry(package, manifest.entrypoint, root) && listing_agrees(
                listing((ScanView { package, root, known })),
                res,
            )),
{
}

/// A plan agrees with the outcome of a scan in the same way: the question or
/// the failure is that of the scan, and a complete list is planned as a whole,
/// with the paths of its modules.
pub proof fn plans_are_handed_out(
    expected: ListingView,
    title: Seq<char>,
    package: PackageSpecView,
    record: PackageMetaView,
    res: Result<Planning, String>,
)
    requires
        planning_agrees(expected, title, package, record, res),
    ensures
        expected is Failed <==> res is Err,
        expected matches ListingView::Failed(message) ==> res->Err_0@ == message,
        expected matches ListingView::Ask(request) ==> {
            &&& res matches Ok(Planning::Ask(asked))
            &&& asked@ == request
        },
        expected matches ListingView::Done(root, aliases) ==> {
            &&& res matches Ok(Planning::Done(plan))
            &&& exists|uses: Map<Seq<char>, Seq<Seq<char>>>| #[trigger]
                uses_match(aliases, uses) && plan@ == planned(
                    (ScopeView { title, package, uses }),
                    record,
                    root,
                )
        },
{
}

/// A plan is made of a list as it stands: its title and its record name the
/// package by the three texts given, and its modules are those of the list.
pub proof fn plans_follow_lists(
    info: PackageInfo,
    toml_data: Result<Seq<u8>, Seq<char>>,
    listed: Result<Listing, String>,
    res: Result<Planning, String>,
)
    requires
        info_spec(info) is Ok,
        manifest_in(toml_data) is Ok,
        plan_follows(info, toml_data, listed, res),
    ensures
        listed is Err <==> res is Err,
        listed matches Err(message) ==> res->Err_0@ == message@,
        listed matches Ok(Listing::Ask(request)) ==> {
            &&& res matches Ok(Planning::Ask(asked))
            &&& asked@ == request@
        },
        listed matches Ok(Listing::Done(symbols)) ==> {
            &&& res matches Ok(Planning::Done(plan))
            &&& plan@.title == "@"@ + info.namespace@ + "/"@ + info.name@ + ":"@ + info.version@
            &&& plan@.package.namespace == info.namespace@
            &&& plan@.package.name == info.name@
            &&& plan@.package.version == info.version@
            &&& plan@.package.manifest == Some(manifest_in(toml_data)->Ok_0)
            &&& plan@.modules == journey_from(
                (ScopeView {
                    title: plan@.title,
                    package: info_spec(info)->Ok_0,
                    uses: symbols@.module_uses,
                }),
                symbols@.root,
            ).modules
        },
{
    reveal_strlit("@");
    reveal_strlit("/");
    reveal_strlit(":");
    assert("@"@ =~= seq!['@'] && "/"@ =~= seq!['/'] && ":"@ =~= seq![':']);
}

/// The outcome of reading a file is seen as it is.
pub proof fn read_data_is_seen(bytes: Vec<u8>, fault: String)
    ensures
        read_view(Ok(bytes)) == Ok::<Seq<u8>, Seq<char>>(bytes@),
        read_view(Err(fault)) == Err::<Seq<u8>, Seq<char>>(fault@),
{
}

} // verus!
