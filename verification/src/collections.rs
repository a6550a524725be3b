//! The shared lists of texts and the numbered files.

use ecow::EcoVec;
use indexmap::IndexSet;
use itertools::Itertools;
use vstd::prelude::*;
use vstd::string::*;
use crate::package::{FileId, FileIdView, PackageSpec, PackageSpecView, PackageVersion};
use crate::path::VirtualPath;
use crate::text::{joined, views};

verus! {

/// A vector whose copies share their items until one of them changes.
#[verifier::external_type_specification]
#[verifier::external_body]
#[verifier::reject_recursive_types(T)]
pub struct ExEcoVec<T>(EcoVec<T>);

/// A set that numbers its items in the order in which they came.
#[verifier::external_type_specification]
#[verifier::external_body]
#[verifier::reject_recursive_types(T)]
#[verifier::reject_recursive_types(S)]
pub struct ExIndexSet<T, S>(IndexSet<T, S>);

/// The texts that a shared vector holds, in order.
pub uninterp spec fn eco_texts(texts: EcoVec<String>) -> Seq<Seq<char>>;

/// `EcoVec::new`: a vector without items.
#[verifier::external_body]
pub(crate) fn eco_new() -> (texts: EcoVec<String>)
    ensures
        eco_texts(texts) == Seq::<Seq<char>>::empty(),
{
    EcoVec::new()
}

/// `EcoVec::push`: the item comes behind the others.
#[verifier::external_body]
pub(crate) fn eco_push(texts: &mut EcoVec<String>, text: String)
    ensures
        eco_texts(*final(texts)) == eco_texts(*old(texts)).push(text@),
{
    texts.push(text);
}

/// `<EcoVec as Clone>::clone`: a vector with the same items.
#[verifier::external_body]
pub(crate) fn eco_clone(texts: &EcoVec<String>) -> (copy: EcoVec<String>)
    ensures
        eco_texts(copy) == eco_texts(*texts),
{
    texts.clone()
}

/// `<EcoVec as From<Vec>>::from`: a vector with the items of the given one, in
/// their order.
#[verifier::external_body]
pub(crate) fn eco_from(texts: Vec<String>) -> (shared: EcoVec<String>)
    ensures
        eco_texts(shared) == views(texts@),
{
    EcoVec::from(texts)
}

/// `EcoVec::as_slice`: the items in order.
#[verifier::external_body]
pub(crate) fn eco_slice(texts: &EcoVec<String>) -> (items: &[String])
    ensures
        views(items@) == eco_texts(*texts),
{
    texts.as_slice()
}

/// `itertools::Itertools::join`: the texts in order with `sep` between
/// neighbours.
#[verifier::external_body]
pub(crate) fn join_items(items: &[String], sep: &str) -> (text: String)
    ensures
        text@ == joined(views(items@), sep@),
{
    Itertools::join(&mut items.iter(), sep)
}

/// The texts of a shared vector in order, with `sep` between neighbours.
pub fn eco_join(texts: &EcoVec<String>, sep: &str) -> (text: String)
    ensures
        text@ == joined(eco_texts(*texts), sep@),
{
    join_items(eco_slice(texts), sep)
}

/// The first of some texts, or the empty text if there is none.
pub open spec fn first_or_empty(texts: Seq<Seq<char>>) -> Seq<char> {
    if texts.len() > 0 {
        texts[0]
    } else {
        Seq::empty()
    }
}

/// The first text of a shared vector, or the empty text if there is none.
pub fn eco_first(texts: &EcoVec<String>) -> (text: String)
    ensures
        text@ == first_or_empty(eco_texts(*texts)),
{
    let items: &[String] = eco_slice(texts);
    assert(views(items@).len() == items@.len());
    if items.len() > 0 {
        assert(views(items@)[0] == items@[0]@);
        items[0].clone()
    } else {
        String::new()
    }
}

/// A package in the shape of an item of a numbered set.
pub type PackageKey = (String, String, (u32, u32, u32));

/// A file in the shape of an item of a numbered set.
pub type FileKey = (Option<PackageKey>, Vec<String>);

/// The package that a key stands for.
pub open spec fn package_of(key: PackageKey) -> PackageSpecView {
    PackageSpecView {
        namespace: key.0@,
        name: key.1@,
        version: PackageVersion { major: key.2.0, minor: key.2.1, patch: key.2.2 },
    }
}

/// The file that a key stands for.
pub open spec fn file_of(key: FileKey) -> FileIdView {
    FileIdView {
        package: match key.0 {
            Some(package) => Some(package_of(package)),
            None => None,
        },
        path: views(key.1@),
    }
}

/// The files that some keys stand for.
pub open spec fn files_of(keys: Seq<FileKey>) -> Seq<FileIdView> {
    keys.map_values(|key: FileKey| file_of(key))
}

/// The files of a numbered set, by number.
pub uninterp spec fn numbered(files: IndexSet<FileKey>) -> Seq<FileIdView>;

/// `IndexSet::new`: a set without items.
#[verifier::external_body]
fn set_new() -> (files: IndexSet<FileKey>)
    ensures
        numbered(files) == Seq::<FileIdView>::empty(),
{
    IndexSet::new()
}

/// `IndexSet::insert_full`: an item that is in the set already keeps its
/// number and leaves the set as it was; another one comes behind the others.
/// Either way the number of the item is returned, and whether it was new.
#[verifier::external_body]
fn set_insert(files: &mut IndexSet<FileKey>, key: FileKey) -> (res: (usize, bool))
    ensures
        numbered(*final(files)) == numbered_with(numbered(*old(files)), file_of(key)),
        res.0 < numbered(*final(files)).len(),
        numbered(*final(files))[res.0 as int] == file_of(key),
        res.1 == !numbered(*old(files)).contains(file_of(key)),
{
    files.insert_full(key)
}

/// `<IndexSet as IntoIterator>::into_iter`: the items by number.
#[verifier::external_body]
fn set_into(files: IndexSet<FileKey>) -> (keys: Vec<FileKey>)
    ensures
        files_of(keys@) == numbered(files),
{
    files.into_iter().collect()
}

/// The numbered files once a file has got its number.
pub open spec fn numbered_with(files: Seq<FileIdView>, file: FileIdView) -> Seq<FileIdView> {
    if files.contains(file) {
        files
    } else {
        files.push(file)
    }
}

/// The number of a file.
pub open spec fn number_of(files: Seq<FileIdView>, file: FileIdView) -> int {
    files.index_of(file)
}

/// Files with numbers from 0 onwards, in the order in which they came.
pub struct Files {
    set: IndexSet<FileKey>,
}

impl View for Files {
    type V = Seq<FileIdView>;

    closed spec fn view(&self) -> Seq<FileIdView> {
        numbered(self.set)
    }
}

fn package_key(package: &PackageSpec) -> (key: PackageKey)
    ensures
        package_of(key) == package@,
{
    let version: PackageVersion = package.version;
    (
        package.namespace.clone(),
        package.name.clone(),
        (version.major, version.minor, version.patch),
    )
}

fn package_from_key(key: PackageKey) -> (package: PackageSpec)
    ensures
        package@ == package_of(key),
{
    let (namespace, name, (major, minor, patch)) = key;
    PackageSpec { namespace, name, version: PackageVersion { major, minor, patch } }
}

fn file_key(file: &FileId) -> (key: FileKey)
    ensures
        file_of(key) == file@,
{
    let package: Option<PackageKey> = match &file.package {
        Some(package) => Some(package_key(package)),
        None => None,
    };
    (package, file.vpath.copy().segments)
}

impl Files {
    /// Whether no file has two numbers.
    pub open spec fn well_formed(self) -> bool {
        self@.no_duplicates()
    }

    /// No files.
    pub fn new() -> (files: Files)
        ensures
            files.well_formed(),
            files@ == Seq::<FileIdView>::empty(),
    {
        Files { set: set_new() }
    }

    /// The number of a file, which gets the next one if it has none yet.
    pub fn number(&mut self, file: &FileId) -> (number: usize)
        requires
            old(self).well_formed(),
        ensures
            final(self).well_formed(),
            final(self)@ == numbered_with(old(self)@, file@),
            number as int == number_of(final(self)@, file@),
            number < final(self)@.len(),
    {
        let (number, _) = set_insert(&mut self.set, file_key(file));
        proof {
            assert(self@[number as int] == file@);
            assert(self@.contains(file@));
            let other = self@.index_of(file@);
            assert(self@[other] == file@);
        }
        number
    }

    /// The files by number.
    pub fn into_list(self) -> (files: Vec<FileId>)
        ensures
            files@.map_values(|file: FileId| file@) == self@,
    {
        let keys: Vec<FileKey> = set_into(self.set);
        let ghost expected = files_of(keys@);
        let mut files: Vec<FileId> = Vec::new();
        for key in it: keys
            invariant
                it.seq() == keys@,
                expected == files_of(keys@),
                files@.map_values(|file: FileId| file@) =~= expected.take(it.index() as int),
        {
            let (package_part, segments) = key;
            let package: Option<PackageSpec> = match package_part {
                Some(package) => Some(package_from_key(package)),
                None => None,
            };
            let file: FileId = FileId { package, vpath: VirtualPath { segments } };
            proof {
                assert(file@ == file_of(key));
                assert(expected[it.index() as int] == file_of(key));
                assert(expected.take(it.index() + 1) =~= expected.take(it.index() as int).push(
                    file@,
                ));
            }
            files.push(file);
        }
        assert(expected.take(keys@.len() as int) =~= expected);
        files
    }
}

} // verus!
