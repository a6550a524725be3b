//! The records that the documentation of a package carries.

use vstd::prelude::*;
use vstd::string::*;
use crate::collections::{number_of, numbered_with, Files};
use crate::manifest::{ManifestView, PackageManifest};
use crate::package::{version_text, FileId, FileIdView, PackageSpecView};
use crate::path::VirtualPath;

verus! {

/// Information about a package.
#[derive(Debug)]
pub struct PackageMeta {
    /// The namespace the package lives in.
    pub namespace: String,
    /// The name of the package within its namespace.
    pub name: String,
    /// The package's version.
    pub version: String,
    /// The package's manifest information.
    pub manifest: Option<PackageManifest>,
}

/// The packages and the files that the documentation refers to by number.
#[derive(Debug)]
pub struct PackageMetaEnd {
    /// The packages by number.
    pub packages: Vec<PackageMeta>,
    /// The files by number.
    pub files: Vec<FileMeta>,
}

/// Information about a file.
#[derive(Debug)]
pub struct FileMeta {
    /// The number of the package the file resides in, if any.
    pub package: Option<usize>,
    /// The path of the file within the project or the package.
    pub path: VirtualPath,
}

pub struct PackageMetaView {
    pub namespace: Seq<char>,
    pub name: Seq<char>,
    pub version: Seq<char>,
    pub manifest: Option<ManifestView>,
}

pub struct FileMetaView {
    pub package: Option<usize>,
    pub path: Seq<Seq<char>>,
}

pub struct MetaEndView {
    pub packages: Seq<PackageMetaView>,
    pub files: Seq<FileMetaView>,
}

impl View for PackageMeta {
    type V = PackageMetaView;

    open spec fn view(&self) -> PackageMetaView {
        PackageMetaView {
            namespace: self.namespace@,
            name: self.name@,
            version: self.version@,
            manifest: match self.manifest {
                Some(manifest) => Some(manifest@),
                None => None,
            },
        }
    }
}

impl View for FileMeta {
    type V = FileMetaView;

    open spec fn view(&self) -> FileMetaView {
        FileMetaView { package: self.package, path: self.path@ }
    }
}

/// The values behind some packages.
pub open spec fn package_metas(packages: Seq<PackageMeta>) -> Seq<PackageMetaView> {
    packages.map_values(|package: PackageMeta| package@)
}

/// The values behind some files.
pub open spec fn file_metas(files: Seq<FileMeta>) -> Seq<FileMetaView> {
    files.map_values(|file: FileMeta| file@)
}

impl View for PackageMetaEnd {
    type V = MetaEndView;

    open spec fn view(&self) -> MetaEndView {
        MetaEndView { packages: package_metas(self.packages@), files: file_metas(self.files@) }
    }
}

/// The root directory of a package, which stands for the package where
/// packages are numbered.
pub open spec fn package_root(package: PackageSpecView) -> FileIdView {
    FileIdView { package: Some(package), path: Seq::empty() }
}

/// The roots of the packages of some files, in the order in which the packages
/// come first.
pub open spec fn roots_of(files: Seq<FileIdView>) -> Seq<FileIdView>
    decreases files.len(),
{
    if files.len() == 0 {
        Seq::empty()
    } else {
        let before = roots_of(files.drop_last());
        match files.last().package {
            Some(package) => numbered_with(before, package_root(package)),
            None => before,
        }
    }
}

/// What the documentation says of a package that it refers to.
pub open spec fn package_record(root: FileIdView) -> PackageMetaView {
    let package = root.package->0;
    PackageMetaView {
        namespace: package.namespace,
        name: package.name,
        version: version_text(package.version),
        manifest: None,
    }
}

/// What the documentation says of a file that it refers to.
pub open spec fn file_record(roots: Seq<FileIdView>, file: FileIdView) -> FileMetaView {
    FileMetaView {
        package: match file.package {
            Some(package) => Some(number_of(roots, package_root(package)) as usize),
            None => None,
        },
        path: file.path,
    }
}

/// What the documentation says of the files that it refers to by number, and
/// of their packages.
pub open spec fn end_record(files: Seq<FileIdView>) -> MetaEndView {
    let roots = roots_of(files);
    MetaEndView {
        packages: roots.map_values(|root: FileIdView| package_record(root)),
        files: files.map_values(|file: FileIdView| file_record(roots, file)),
    }
}

/// A file keeps its number while further files come.
pub proof fn lemma_number_stays(
    before: Seq<FileIdView>,
    after: Seq<FileIdView>,
    file: FileIdView,
)
    requires
        before.is_prefix_of(after),
        after.no_duplicates(),
        before.contains(file),
    ensures
        number_of(after, file) == number_of(before, file),
        0 <= number_of(after, file) < before.len(),
        after[number_of(after, file)] == file,
{
    let n = before.index_of(file);
    assert(before[n] == file);
    assert(after.subrange(0, before.len() as int)[n] == after[n]);
    assert(after.contains(file));
    let m = after.index_of(file);
    assert(after[m] == file);
}

/// The roots hold no package twice, each of them is the root of a package, and
/// every package of the files is among them.
pub proof fn lemma_roots(files: Seq<FileIdView>)
    ensures
        roots_of(files).no_duplicates(),
        forall|i: int|
            0 <= i < roots_of(files).len() ==> (#[trigger] roots_of(files)[i]).package is Some
                && roots_of(files)[i] == package_root(roots_of(files)[i].package->0),
        forall|i: int|
            0 <= i < files.len() && (#[trigger] files[i]).package is Some ==> roots_of(
                files,
            ).contains(package_root(files[i].package->0)),
    decreases files.len(),
{
    if files.len() > 0 {
        let init = files.drop_last();
        lemma_roots(init);
        let before = roots_of(init);
        let after = roots_of(files);
        assert(before.is_prefix_of(after)) by {
            assert(after.subrange(0, before.len() as int) =~= before);
        }
        assert forall|i: int|
            0 <= i < files.len() && (#[trigger] files[i]).package is Some implies after.contains(
            package_root(files[i].package->0),
        ) by {
            let root = package_root(files[i].package->0);
            if i < init.len() {
                assert(init[i] == files[i]);
                assert(before.contains(root));
                let n = before.index_of(root);
                assert(after[n] == root);
            } else if !before.contains(root) {
                assert(after.last() == root);
            }
        }
    }
}

/// The roots of the first of some files are the first of the roots.
pub proof fn lemma_roots_prefix(files: Seq<FileIdView>, n: int)
    requires
        0 <= n <= files.len(),
    ensures
        roots_of(files.take(n)).is_prefix_of(roots_of(files)),
    decreases files.len() - n,
{
    if n == files.len() {
        assert(files.take(n) =~= files);
        assert(roots_of(files).subrange(0, roots_of(files).len() as int) =~= roots_of(files));
    } else {
        lemma_roots_prefix(files, n + 1);
        assert(files.take(n + 1).drop_last() =~= files.take(n));
        let a = roots_of(files.take(n));
        let b = roots_of(files.take(n + 1));
        let c = roots_of(files);
        assert(b.subrange(0, a.len() as int) =~= a);
        assert(c.subrange(0, a.len() as int) =~= b.subrange(0, a.len() as int));
    }
}

/// Every file is listed under its number with the number of its package.
pub proof fn end_record_is_complete(files: Seq<FileIdView>, n: int)
    requires
        0 <= n < files.len(),
        roots_of(files).len() <= usize::MAX,
    ensures
        end_record(files).files.len() == files.len(),
        end_record(files).files[n].path == files[n].path,
        end_record(files).files[n].package is Some <==> files[n].package is Some,
        files[n].package is Some ==> {
            let package = files[n].package->0;
            let k = end_record(files).files[n].package->0 as int;
            &&& 0 <= k < end_record(files).packages.len()
            &&& end_record(files).packages[k] == package_record(package_root(package))
        },
{
    lemma_roots(files);
    if files[n].package is Some {
        let root = package_root(files[n].package->0);
        assert(roots_of(files).contains(root));
        let k = roots_of(files).index_of(root);
        assert(roots_of(files)[k] == root);
    }
}

fn describe_package(root: &FileId) -> (meta: PackageMeta)
    requires
        root@.package is Some,
    ensures
        meta@ == package_record(root@),
{
    match &root.package {
        Some(package) => PackageMeta {
            namespace: package.namespace.clone(),
            name: package.name.clone(),
            version: package.version.show(),
            manifest: None,
        },
        None => {
            assert(false);
            PackageMeta {
                namespace: String::new(),
                name: String::new(),
                version: String::new(),
                manifest: None,
            }
        },
    }
}

fn describe_packages(roots: Files) -> (packages: Vec<PackageMeta>)
    requires
        forall|i: int| 0 <= i < roots@.len() ==> (#[trigger] roots@[i]).package is Some,
    ensures
        package_metas(packages@) == roots@.map_values(|root: FileIdView| package_record(root)),
{
    let ghost all = roots@;
    let list: Vec<FileId> = roots.into_list();
    let ghost listed = list@.map_values(|file: FileId| file@);
    let ghost expected = all.map_values(|root: FileIdView| package_record(root));
    let mut packages: Vec<PackageMeta> = Vec::new();
    let mut i: usize = 0;
    while i < list.len()
        invariant
            i <= list.len(),
            listed == list@.map_values(|file: FileId| file@),
            listed == all,
            expected == all.map_values(|root: FileIdView| package_record(root)),
            forall|i: int| 0 <= i < all.len() ==> (#[trigger] all[i]).package is Some,
            package_metas(packages@) =~= expected.take(i as int),
        decreases list.len() - i,
    {
        assert(listed[i as int] == list@[i as int]@);
        let meta: PackageMeta = describe_package(&list[i]);
        let ghost before = package_metas(packages@);
        let ghost added = meta@;
        packages.push(meta);
        proof {
            assert(added == expected[i as int]);
            assert(package_metas(packages@) =~= before.push(added));
            assert(expected.take(i + 1) =~= expected.take(i as int).push(added));
        }
        i = i + 1;
    }
    assert(listed.len() == list@.len());
    assert(expected.take(i as int) =~= expected);
    packages
}

/// What the documentation says of the files that it refers to by number, and
/// of their packages.
pub fn describe_files(files: Files) -> (end: PackageMetaEnd)
    ensures
        end@ == end_record(files@),
{
    let ghost all = files@;
    let ghost roots_all = roots_of(all);
    let ghost expected = all.map_values(|file: FileIdView| file_record(roots_all, file));
    let list: Vec<FileId> = files.into_list();
    let ghost listed = list@.map_values(|file: FileId| file@);
    let mut roots: Files = Files::new();
    let mut metas: Vec<FileMeta> = Vec::new();
    let mut i: usize = 0;
    proof {
        lemma_roots(all);
        assert(all.take(0) =~= Seq::empty());
    }
    while i < list.len()
        invariant
            i <= list.len(),
            listed == list@.map_values(|file: FileId| file@),
            listed == all,
            roots_all == roots_of(all),
            roots_all.no_duplicates(),
            expected == all.map_values(|file: FileIdView| file_record(roots_all, file)),
            roots.well_formed(),
            roots@ == roots_of(all.take(i as int)),
            file_metas(metas@) =~= expected.take(i as int),
        decreases list.len() - i,
    {
        let file: &FileId = &list[i];
        proof {
            assert(listed[i as int] == list@[i as int]@);
            assert(all.take(i + 1).drop_last() =~= all.take(i as int));
            assert(all.take(i + 1).last() == file@);
            lemma_roots_prefix(all, i + 1);
        }
        let package: Option<usize> = match &file.package {
            Some(package) => {
                let root: FileId = FileId {
                    package: Some(package.copy()),
                    vpath: VirtualPath { segments: Vec::new() },
                };
                assert(root@.path =~= Seq::empty());
                let ghost before = roots@;
                let number: usize = roots.number(&root);
                proof {
                    let now = roots_of(all.take(i + 1));
                    assert(roots@ == now);
                    assert(now.contains(root@)) by {
                        if before.contains(root@) {
                        } else {
                            assert(now.last() == root@);
                        }
                    }
                    lemma_number_stays(now, roots_all, root@);
                }
                Some(number)
            },
            None => None,
        };
        let meta: FileMeta = FileMeta { package, path: file.vpath.copy() };
        let ghost before = file_metas(metas@);
        let ghost added = meta@;
        metas.push(meta);
        proof {
            assert(added == expected[i as int]);
            assert(file_metas(metas@) =~= before.push(added));
            assert(expected.take(i + 1) =~= expected.take(i as int).push(added));
        }
        i = i + 1;
    }
    proof {
        assert(listed.len() == list@.len());
        assert(all.take(i as int) =~= all);
        assert(expected.take(i as int) =~= expected);
    }
    PackageMetaEnd { packages: describe_packages(roots), files: metas }
}

} // verus!
