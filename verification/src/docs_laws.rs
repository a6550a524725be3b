//! What holds of docs, packages and manifests.

use vstd::prelude::*;
use vstd::utf8::{decode_utf8, valid_utf8};
use crate::collections::{first_or_empty, number_of};
use crate::docs::{
    conversion_result, docs_text, identified, parsed, Conversion, ConvertedDocs, DocsView,
    TidyParamView, TidyParses,
};
use crate::document::info_record;
use crate::manifest::{manifest_in, manifest_of, utf8_fault, ManifestView};
use crate::package::{
    file_text, info_spec, info_title, manifest_file, resides_in, version_of, version_text,
    FileIdView, PackageInfo, PackageSpecView,
};
use crate::path::slashed;
use crate::records::{
    end_record, lemma_number_stays, lemma_roots, package_record, package_root, roots_of,
    PackageMetaView,
};
use crate::scan::lookup;
use crate::text::joined;

verus! {

/// Whether the docs about a function are those that its parser found, with
/// every parameter in its place.
pub open spec fn shows_function(shown: DocsView, parses: TidyParses) -> bool {
    shown matches DocsView::Function(text, params) && parses.function matches Ok(docs) && {
        &&& text == docs.docs@
        &&& params.len() == docs.params@.len()
        &&& forall|i: int|
            0 <= i < params.len() ==> {
                &&& (#[trigger] params[i]).name == docs.params@[i].name@
                &&& params[i].docs == docs.params@[i].docs@
                &&& params[i].types == docs.params@[i].types@
            }
    }
}

/// Docs are read by the parser for the kind of the symbol, and its fault is the
/// fault. There is no parser for other kinds.
pub proof fn docs_are_read_by_kind(parses: TidyParses, kind: Seq<char>)
    ensures
        parses.function is Ok ==> identified("function"@, parses) is Ok && shows_function(
            identified("function"@, parses)->Ok_0,
            parses,
        ),
        parses.function is Err ==> identified("function"@, parses) == Err::<
            DocsView,
            Seq<char>,
        >(parses.function->Err_0@),
        parses.variable is Ok ==> identified("variable"@, parses) == Ok::<DocsView, Seq<char>>(
            DocsView::Variable(parses.variable->Ok_0.docs@),
        ),
        parses.variable is Err ==> identified("variable"@, parses) == Err::<
            DocsView,
            Seq<char>,
        >(parses.variable->Err_0@),
        parses.module is Ok ==> identified("module"@, parses) == Ok::<DocsView, Seq<char>>(
            DocsView::Module(parses.module->Ok_0.docs@),
        ),
        parses.module is Err ==> identified("module"@, parses) == Err::<DocsView, Seq<char>>(
            parses.module->Err_0@,
        ),
        kind != "function"@ && kind != "variable"@ && kind != "module"@ ==> identified(kind, parses)
            == Err::<DocsView, Seq<char>>("unknown kind "@ + kind),
{
    reveal_strlit("function");
    reveal_strlit("variable");
    reveal_strlit("module");
    assert("function"@[0] == 'f' && "variable"@[0] == 'v' && "module"@[0] == 'm');
}

/// Docs with the structure for their kind are kept so; all others stay the
/// plain text.
pub proof fn docs_without_structure_stay_plain(kind: Seq<char>, docs: ConvertedDocs)
    ensures
        identified(kind, docs.parses) is Ok ==> parsed(kind, docs) == identified(
            kind,
            docs.parses,
        )->Ok_0,
        identified(kind, docs.parses) is Err ==> parsed(kind, docs) == DocsView::Plain(
            docs.content@,
        ),
{
}

/// The markdown text of docs is the one that they hold.
pub proof fn docs_hold_their_text(text: Seq<char>, params: Seq<TidyParamView>)
    ensures
        docs_text(DocsView::Function(text, params)) == text,
        docs_text(DocsView::Variable(text)) == text,
        docs_text(DocsView::Module(text)) == text,
        docs_text(DocsView::Plain(text)) == text,
{
}

/// A conversion gives its markdown. Only the failure of the converter itself is
/// said to be one.
pub proof fn conversions_are_reported(text: String)
    ensures
        conversion_result(Conversion::Markdown(text)) == Ok::<Seq<char>, Seq<char>>(text@),
        conversion_result(Conversion::Failed(text)) == Err::<Seq<char>, Seq<char>>(
            "failed to convert to markdown: "@ + text@,
        ),
        conversion_result(Conversion::Refused(text)) == Err::<Seq<char>, Seq<char>>(text@),
{
}

/// A manifest file is worth what its text parses to. Each of the three faults
/// has its own message, in this order: the file cannot be read, is not UTF-8,
/// is no manifest.
pub proof fn manifests_are_reported(fault: Seq<char>, bytes: Seq<u8>)
    ensures
        manifest_in(Err(fault)) == Err::<ManifestView, Seq<char>>(
            "failed to read package manifest ("@ + fault + ")"@,
        ),
        !valid_utf8(bytes) ==> manifest_in(Ok(bytes)) == Err::<ManifestView, Seq<char>>(
            "package manifest is not valid UTF-8 ("@ + utf8_fault(bytes) + ")"@,
        ),
        valid_utf8(bytes) && manifest_of(decode_utf8(bytes)) is Ok ==> manifest_in(Ok(bytes))
            == manifest_of(decode_utf8(bytes)),
        valid_utf8(bytes) && manifest_of(decode_utf8(bytes)) is Err ==> manifest_in(Ok(bytes))
            == Err::<ManifestView, Seq<char>>(
            "package manifest is malformed ("@ + manifest_of(decode_utf8(bytes))->Err_0 + ")"@,
        ),
{
}

/// The package that some information is about has its namespace, its name and
/// its version, and there is one exactly if the version can be parsed. Its
/// manifest is a file in its root. The documentation is headed by the three
/// texts and records them.
pub proof fn packages_are_named(info: PackageInfo, manifest: ManifestView)
    ensures
        info_spec(info) is Ok <==> version_of(info.version@) is Ok,
        info_spec(info) is Err ==> info_spec(info)->Err_0 == version_of(info.version@)->Err_0,
        info_spec(info) matches Ok(package) ==> {
            &&& package.namespace == info.namespace@
            &&& package.name == info.name@
            &&& version_of(info.version@)->Ok_0 == (
                package.version.major,
                package.version.minor,
                package.version.patch,
            )
            &&& manifest_file(package).package == Some(package)
            &&& manifest_file(package).path.len() == 1
            &&& manifest_file(package).path[0] == "typst.toml"@
        },
        info_title(info) == "@"@ + info.namespace@ + "/"@ + info.name@ + ":"@ + info.version@,
        info_record(info, manifest).namespace == info.namespace@,
        info_record(info, manifest).name == info.name@,
        info_record(info, manifest).version == info.version@,
        info_record(info, manifest).manifest == Some(manifest),
{
    reveal_strlit("@");
    reveal_strlit("/");
    reveal_strlit(":");
    assert("@"@ =~= seq!['@'] && "/"@ =~= seq!['/'] && ":"@ =~= seq![':']);
}

/// A file is written as its path from a slash onwards, behind its package if
/// it has one, and resides in exactly that package.
pub proof fn files_are_written_with_their_packages(file: FileIdView, package: PackageSpecView)
    ensures
        file.package is None ==> file_text(file) == "/"@ + joined(file.path, "/"@),
        file.package == Some(package) ==> file_text(file) == "@"@ + package.namespace + "/"@
            + package.name + ":"@ + version_text(package.version) + ("/"@ + joined(
            file.path,
            "/"@,
        )),
        resides_in(file, package) <==> file.package is Some && file.package->0 == package,
{
    reveal_strlit("@");
    reveal_strlit("/");
    reveal_strlit(":");
    assert("@"@ =~= seq!['@'] && "/"@ =~= seq!['/'] && ":"@ =~= seq![':']);
    assert(slashed(file.path) == "/"@ + joined(file.path, "/"@));
}

/// A package that the documentation refers to is recorded with its namespace,
/// its name and its version, and without a manifest.
pub proof fn referred_packages_are_recorded(package: PackageSpecView)
    ensures
        package_record(package_root(package)).namespace == package.namespace,
        package_record(package_root(package)).name == package.name,
        package_record(package_root(package)).version == version_text(package.version),
        package_record(package_root(package)).manifest is None,
{
}

proof fn lemma_no_other_roots(files: Seq<FileIdView>, package: PackageSpecView)
    requires
        roots_of(files).contains(package_root(package)),
    ensures
        exists|i: int| 0 <= i < files.len() && (#[trigger] files[i]).package == Some(package),
    decreases files.len(),
{
    let init = files.drop_last();
    let n = files.len() - 1;
    let root = package_root(package);
    if files[n].package != Some(package) {
        let k = roots_of(files).index_of(root);
        assert(roots_of(files)[k] == root);
        if files[n].package is Some {
            assert(package_root(files[n].package->0).package != root.package);
        }
        assert(roots_of(init)[k] == root);
        lemma_no_other_roots(init, package);
        let i = choose|i: int| 0 <= i < init.len() && (#[trigger] init[i]).package == Some(package);
        assert(files[i].package == Some(package));
    }
}

/// Packages are recorded in the order in which their first files come, each of
/// them once, and no others. A further file changes nothing in the records of
/// the files before it.
pub proof fn packages_are_recorded_as_they_come(files: Seq<FileIdView>, file: FileIdView)
    ensures
        end_record(Seq::empty()).packages.len() == 0,
        end_record(Seq::empty()).files.len() == 0,
        ({
            let before = end_record(files);
            let after = end_record(files.push(file));
            let old_one = exists|i: int|
                0 <= i < files.len() && (#[trigger] files[i]).package == file.package;
            &&& after.files.len() == files.len() + 1
            &&& after.files.drop_last() == before.files
            &&& after.files.last().path == file.path
            &&& file.package is None || old_one ==> after.packages == before.packages
            &&& file.package is None ==> after.files.last().package is None
            &&& file.package is Some && !old_one ==> {
                let package = file.package->0;
                &&& after.packages == before.packages.push(
                    (PackageMetaView {
                        namespace: package.namespace,
                        name: package.name,
                        version: version_text(package.version),
                        manifest: None,
                    }),
                )
                &&& after.files.last().package == Some(before.packages.len() as usize)
            }
        }),
{
    let all = files.push(file);
    assert(all.drop_last() =~= files);
    lemma_roots(files);
    lemma_roots(all);
    let few = roots_of(files);
    let many = roots_of(all);
    assert(few.is_prefix_of(many)) by {
        assert(many.subrange(0, few.len() as int) =~= few);
    }
    let before = end_record(files);
    let after = end_record(all);
    assert forall|i: int| 0 <= i < files.len() implies after.files[i] == before.files[i] by {
        assert(all[i] == files[i]);
        if files[i].package is Some {
            let root = package_root(files[i].package->0);
            assert(few.contains(root));
            lemma_number_stays(few, many, root);
        }
    }
    assert(after.files.drop_last() =~= before.files);
    let old_one = exists|i: int|
        0 <= i < files.len() && (#[trigger] files[i]).package == file.package;
    if file.package is Some {
        let root = package_root(file.package->0);
        if old_one {
            let i = choose|i: int|
                0 <= i < files.len() && (#[trigger] files[i]).package == file.package;
            assert(few.contains(root));
        } else {
            if few.contains(root) {
                lemma_no_other_roots(files, file.package->0);
            }
            assert(many == few.push(root));
            assert(many[few.len() as int] == root);
            assert(many.contains(root));
            assert(number_of(many, root) == few.len());
            assert(after.packages =~= before.packages.push(package_record(root)));
        }
    }
}

/// The first of some texts is taken, and the empty one where there is none.
pub proof fn first_text_is_taken(texts: Seq<Seq<char>>, first: Seq<char>)
    ensures
        first_or_empty(Seq::<Seq<char>>::empty()) == Seq::<char>::empty(),
        first_or_empty(seq![first] + texts) == first,
{
    assert((seq![first] + texts)[0] == first);
}

/// What is known under a file is what was entered for it first; nothing is
/// known under a file without an entry.
pub proof fn known_is_what_was_entered<T>(entries: Seq<(FileIdView, T)>, file: FileIdView, k: int)
    ensures
        (forall|i: int| 0 <= i < entries.len() ==> (#[trigger] entries[i]).0 != file) ==> lookup(
            entries,
            file,
        ) is None,
        0 <= k < entries.len() && entries[k].0 == file && (forall|i: int|
            0 <= i < k ==> (#[trigger] entries[i]).0 != file) ==> lookup(entries, file) == Some(
            entries[k].1,
        ),
    decreases entries.len(),
{
    if entries.len() > 0 && entries[0].0 != file {
        let rest = entries.skip(1);
        known_is_what_was_entered(rest, file, k - 1);
        if forall|i: int| 0 <= i < entries.len() ==> (#[trigger] entries[i]).0 != file {
            assert forall|i: int| 0 <= i < rest.len() implies (#[trigger] rest[i]).0 != file by {
                assert(rest[i] == entries[i + 1]);
            }
        }
        if 0 <= k < entries.len() && entries[k].0 == file && (forall|i: int|
            0 <= i < k ==> (#[trigger] entries[i]).0 != file) {
            assert(k > 0);
            assert(rest[k - 1] == entries[k]);
            assert forall|i: int| 0 <= i < k - 1 implies (#[trigger] rest[i]).0 != file by {
                assert(rest[i] == entries[i + 1]);
            }
        }
    } else if entries.len() > 0 {
        assert(entries[0].0 == file);
    }
}

} // verus!
