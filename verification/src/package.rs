//! Packages, their manifests and their files.

use std::path::PathBuf;
use vstd::prelude::*;
use vstd::string::*;
use crate::path::{
    followed, lemma_single_component, portable, settled, slashed, split_at_sep, VirtualPath,
};
use crate::text::decimal;

verus! {

/// A path in the file system, which is carried along and never looked into.
#[verifier::external_type_specification]
#[verifier::external_body]
pub struct ExPathBuf(PathBuf);

/// A package's version.
#[derive(Clone, Copy, Debug, PartialEq, Eq, Structural)]
pub struct PackageVersion {
    pub major: u32,
    pub minor: u32,
    pub patch: u32,
}

/// The three numbers with dots between them.
pub open spec fn version_text(version: PackageVersion) -> Seq<char> {
    decimal(version.major as nat) + seq!['.'] + decimal(version.minor as nat) + seq!['.'] + decimal(
        version.patch as nat,
    )
}

/// What parsing a text as a version number gives: the three numbers, or the
/// message that says what is wrong with the text.
pub uninterp spec fn version_of(text: Seq<char>) -> Result<(u32, u32, u32), Seq<char>>;

/// `<typst::syntax::package::PackageVersion as FromStr>::from_str`: the
/// outcome depends on the text alone.
#[verifier::external_body]
fn parse_version(text: &str) -> (res: Result<(u32, u32, u32), String>)
    ensures
        version_of(text@) == (match res {
            Ok(numbers) => Ok::<(u32, u32, u32), Seq<char>>(numbers),
            Err(message) => Err(message@),
        }),
{
    let parsed = text.parse::<typst::syntax::package::PackageVersion>();
    parsed.map(|version| (version.major, version.minor, version.patch)).map_err(
        |message| message.to_string(),
    )
}

/// `<typst::syntax::package::PackageVersion as Display>::fmt`: the numbers in
/// decimal notation with dots between them, which parse to the same numbers.
#[verifier::external_body]
fn show_version(major: u32, minor: u32, patch: u32) -> (text: String)
    ensures
        text@ == version_text((PackageVersion { major, minor, patch })),
        version_of(text@) is Ok && version_of(text@)->Ok_0 == (major, minor, patch),
{
    typst::syntax::package::PackageVersion { major, minor, patch }.to_string()
}

impl PackageVersion {
    /// The version in the notation that [`parse`](Self::parse) reads.
    pub fn show(&self) -> (text: String)
        ensures
            text@ == version_text(*self),
            version_of(text@) is Ok && version_of(text@)->Ok_0 == (
                self.major,
                self.minor,
                self.patch,
            ),
    {
        show_version(self.major, self.minor, self.patch)
    }

    /// The version that a text stands for.
    pub fn parse(text: &str) -> (res: Result<PackageVersion, String>)
        ensures
            match version_of(text@) {
                Ok((major, minor, patch)) => res == Ok::<PackageVersion, String>(
                    (PackageVersion { major, minor, patch }),
                ),
                Err(message) => res is Err && res->Err_0@ == message,
            },
    {
        match parse_version(text) {
            Ok((major, minor, patch)) => Ok(PackageVersion { major, minor, patch }),
            Err(message) => Err(message),
        }
    }
}

/// Identifies a package.
#[derive(Debug)]
pub struct PackageSpec {
    /// The namespace the package lives in.
    pub namespace: String,
    /// The name of the package within its namespace.
    pub name: String,
    /// The package's version.
    pub version: PackageVersion,
}

pub struct PackageSpecView {
    pub namespace: Seq<char>,
    pub name: Seq<char>,
    pub version: PackageVersion,
}

impl View for PackageSpec {
    type V = PackageSpecView;

    open spec fn view(&self) -> PackageSpecView {
        PackageSpecView { namespace: self.namespace@, name: self.name@, version: self.version }
    }
}

/// The notation `@namespace/name:version`.
pub open spec fn title_text(namespace: Seq<char>, name: Seq<char>, version: Seq<char>) -> Seq<char> {
    seq!['@'] + namespace + seq!['/'] + name + seq![':'] + version
}

/// The notation `@namespace/name:version`.
pub fn show_title(namespace: &str, name: &str, version: &str) -> (text: String)
    ensures
        text@ == title_text(namespace@, name@, version@),
{
    let mut text: String = String::new();
    text.push('@');
    text.append(namespace);
    text.push('/');
    text.append(name);
    text.push(':');
    text.append(version);
    assert(text@ =~= title_text(namespace@, name@, version@));
    text
}

impl PackageSpec {
    /// The package in the notation `@namespace/name:version`.
    pub fn show(&self) -> (text: String)
        ensures
            text@ == spec_text(self@),
    {
        let version: String = self.version.show();
        show_title(self.namespace.as_str(), self.name.as_str(), version.as_str())
    }

    /// A copy of the specification.
    pub fn copy(&self) -> (res: PackageSpec)
        ensures
            res@ == self@,
    {
        PackageSpec {
            namespace: self.namespace.clone(),
            name: self.name.clone(),
            version: self.version,
        }
    }

    /// Whether two specifications identify the same package.
    pub fn same(&self, other: &PackageSpec) -> (same: bool)
        ensures
            same == (self@ == other@),
    {
        self.namespace.eq(&other.namespace) && self.name.eq(&other.name) && self.version
            == other.version
    }
}

/// The notation of a package specification.
pub open spec fn spec_text(spec: PackageSpecView) -> Seq<char> {
    title_text(spec.namespace, spec.name, version_text(spec.version))
}

/// Identifies a file in a project or in a package.
#[derive(Debug)]
pub struct FileId {
    /// The package the file resides in, if any.
    pub package: Option<PackageSpec>,
    /// The path of the file within the project or the package.
    pub vpath: VirtualPath,
}

pub struct FileIdView {
    pub package: Option<PackageSpecView>,
    pub path: Seq<Seq<char>>,
}

/// The value behind an optional package.
pub open spec fn package_view(package: Option<PackageSpec>) -> Option<PackageSpecView> {
    match package {
        Some(spec) => Some(spec@),
        None => None,
    }
}

impl View for FileId {
    type V = FileIdView;

    open spec fn view(&self) -> FileIdView {
        FileIdView { package: package_view(self.package), path: self.vpath@ }
    }
}

/// The value behind an optional file.
pub open spec fn file_view(file: Option<FileId>) -> Option<FileIdView> {
    match file {
        Some(file) => Some(file@),
        None => None,
    }
}

/// Whether a file resides in a package.
pub open spec fn resides_in(file: FileIdView, package: PackageSpecView) -> bool {
    file.package == Some(package)
}

impl FileId {
    /// A copy of the identifier.
    pub fn copy(&self) -> (res: FileId)
        ensures
            res@ == self@,
    {
        let package: Option<PackageSpec> = match &self.package {
            Some(spec) => Some(spec.copy()),
            None => None,
        };
        FileId { package, vpath: self.vpath.copy() }
    }

    /// Whether two identifiers stand for the same file.
    pub fn same(&self, other: &FileId) -> (same: bool)
        ensures
            same == (self@ == other@),
    {
        let same_package: bool = match (&self.package, &other.package) {
            (Some(a), Some(b)) => a.same(b),
            (None, None) => true,
            _ => false,
        };
        same_package && self.vpath.same(&other.vpath)
    }

    /// Whether the file resides in a package.
    pub fn in_package(&self, package: &PackageSpec) -> (res: bool)
        ensures
            res == resides_in(self@, package@),
    {
        match &self.package {
            Some(spec) => spec.same(package),
            None => false,
        }
    }

    /// The file that a path stands for in the directory of this one.
    pub fn join(&self, path: &str) -> (res: FileId)
        ensures
            res@.package == self@.package,
            settled(self@.path) && portable(path@) ==> res@.path == followed(
                if self@.path.len() == 0 || (path@.len() > 0 && path@[0] == '/') {
                    Seq::empty()
                } else {
                    self@.path.drop_last()
                },
                split_at_sep(path@, '/'),
            ),
    {
        let package: Option<PackageSpec> = match &self.package {
            Some(spec) => Some(spec.copy()),
            None => None,
        };
        FileId { package, vpath: self.vpath.join(path) }
    }
}

/// A copy of an optional file.
pub fn copy_file(file: &Option<FileId>) -> (res: Option<FileId>)
    ensures
        file_view(res) == file_view(*file),
{
    match file {
        Some(file) => Some(file.copy()),
        None => None,
    }
}

/// The notation of a file: its package, if it has one, and its path from the
/// root with slashes.
pub open spec fn file_text(file: FileIdView) -> Seq<char> {
    match file.package {
        Some(spec) => spec_text(spec) + slashed(file.path),
        None => slashed(file.path),
    }
}

/// The notation of a file by which the uses of modules are looked up.
pub fn file_id_repr(file: &FileId) -> (text: String)
    ensures
        text@ == file_text(file@),
{
    match &file.package {
        Some(spec) => spec.show().concat(file.vpath.unix_slash().as_str()),
        None => file.vpath.unix_slash(),
    }
}

/// Information about a package.
#[derive(Debug)]
pub struct PackageInfo {
    /// The path to the package if any.
    pub path: PathBuf,
    /// The namespace the package lives in.
    pub namespace: String,
    /// The name of the package within its namespace.
    pub name: String,
    /// The package's version.
    pub version: String,
}

/// The package that the information is about, or the message that says what
/// is wrong with its version.
pub open spec fn info_spec(info: PackageInfo) -> Result<PackageSpecView, Seq<char>> {
    match version_of(info.version@) {
        Ok((major, minor, patch)) => Ok(
            PackageSpecView {
                namespace: info.namespace@,
                name: info.name@,
                version: PackageVersion { major, minor, patch },
            },
        ),
        Err(message) => Err(message),
    }
}

/// The title of the documentation of a package.
pub open spec fn info_title(info: PackageInfo) -> Seq<char> {
    title_text(info.namespace@, info.name@, info.version@)
}

impl From<(PathBuf, PackageSpec)> for PackageInfo {
    fn from(located: (PathBuf, PackageSpec)) -> (res: Self)
        ensures
            res.path == located.0,
            res.namespace == located.1.namespace,
            res.name == located.1.name,
            res.version@ == version_text(located.1.version),
            info_spec(res) == Ok::<PackageSpecView, Seq<char>>(located.1@),
    {
        let (path, spec) = located;
        let version: String = spec.version.show();
        PackageInfo { path, namespace: spec.namespace, name: spec.name, version }
    }
}

impl vstd::std_specs::convert::FromSpecImpl<(PathBuf, PackageSpec)> for PackageInfo {
    open spec fn obeys_from_spec() -> bool {
        false
    }

    open spec fn from_spec(located: (PathBuf, PackageSpec)) -> Self {
        arbitrary()
    }
}

impl PackageInfo {
    /// The package that the information is about, or the message that says
    /// what is wrong with its version.
    pub fn spec(&self) -> (res: Result<PackageSpec, String>)
        ensures
            match info_spec(*self) {
                Ok(spec) => res is Ok && res->Ok_0@ == spec,
                Err(message) => res is Err && res->Err_0@ == message,
            },
    {
        match PackageVersion::parse(self.version.as_str()) {
            Ok(version) => Ok(
                PackageSpec { namespace: self.namespace.clone(), name: self.name.clone(), version },
            ),
            Err(message) => Err(message),
        }
    }
}

/// The file with the manifest of a package.
pub open spec fn manifest_file(package: PackageSpecView) -> FileIdView {
    FileIdView { package: Some(package), path: seq!["typst.toml"@] }
}

/// The file with the manifest of a package, or the message that says what is
/// wrong with the package's version.
pub fn get_manifest_id(spec: &PackageInfo) -> (res: Result<FileId, String>)
    ensures
        match info_spec(*spec) {
            Ok(package) => res is Ok && res->Ok_0@ == manifest_file(package),
            Err(message) => res is Err && res->Err_0@ == message,
        },
{
    match spec.spec() {
        Ok(package) => {
            let vpath: VirtualPath = VirtualPath::new("typst.toml");
            proof {
                reveal_strlit("typst.toml");
                assert("typst.toml"@[0] == 't');
                lemma_single_component("typst.toml"@);
            }
            Ok(FileId { package: Some(package), vpath })
        },
        Err(message) => Err(message),
    }
}

} // verus!
