//! Package manifests.

use vstd::prelude::*;
use vstd::string::*;
use vstd::utf8::{decode_utf8, valid_utf8};
use crate::package::PackageVersion;

verus! {

/// A parsed package manifest.
#[derive(Debug)]
pub struct PackageManifest {
    /// Details about the package itself.
    pub package: ManifestPackage,
    /// Details about the template, if the package is one.
    pub template: Option<TemplateInfo>,
}

/// The `[package]` key in the manifest.
#[derive(Debug)]
pub struct ManifestPackage {
    /// The name of the package within its namespace.
    pub name: String,
    /// The package's version.
    pub version: PackageVersion,
    /// The path of the entrypoint into the package.
    pub entrypoint: String,
    /// The minimum required compiler version for the package.
    pub compiler: Option<PackageVersion>,
}

/// The `[template]` key in the manifest.
#[derive(Debug)]
pub struct TemplateInfo {
    /// The path of the starting point within the package.
    pub path: String,
    /// The path of the entrypoint relative to the starting point's `path`.
    pub entrypoint: String,
}

pub struct ManifestView {
    pub name: Seq<char>,
    pub version: PackageVersion,
    pub entrypoint: Seq<char>,
    pub compiler: Option<PackageVersion>,
    pub template: Option<(Seq<char>, Seq<char>)>,
}

impl View for PackageManifest {
    type V = ManifestView;

    open spec fn view(&self) -> ManifestView {
        ManifestView {
            name: self.package.name@,
            version: self.package.version,
            entrypoint: self.package.entrypoint@,
            compiler: self.package.compiler,
            template: match self.template {
                Some(template) => Some((template.path@, template.entrypoint@)),
                None => None,
            },
        }
    }
}

/// What parsing a text as a manifest gives: the manifest, or the message that
/// says what is wrong with the text.
pub uninterp spec fn manifest_of(text: Seq<char>) -> Result<ManifestView, Seq<char>>;

/// `toml::from_str` into `typst::syntax::package::PackageManifest`, and
/// `toml::de::Error::message` where that fails: the outcome depends on the
/// text alone.
#[verifier::external_body]
fn parse_manifest(text: &str) -> (res: Result<PackageManifest, String>)
    ensures
        manifest_of(text@) == (match res {
            Ok(manifest) => Ok::<ManifestView, Seq<char>>(manifest@),
            Err(message) => Err(message@),
        }),
{
    let version = |v: typst::syntax::package::PackageVersion|
        PackageVersion { major: v.major, minor: v.minor, patch: v.patch };
    let parsed = toml::from_str::<typst::syntax::package::PackageManifest>(text);
    let m = parsed.map_err(|fault| fault.message().to_string())?;
    let package = ManifestPackage {
        name: m.package.name.to_string(),
        version: version(m.package.version),
        entrypoint: m.package.entrypoint.to_string(),
        compiler: m.package.compiler.map(version),
    };
    let template = m.template.map(
        |t| TemplateInfo { path: t.path.to_string(), entrypoint: t.entrypoint.to_string() },
    );
    Ok(PackageManifest { package, template })
}

/// How the fault of bytes that are not valid UTF-8 is described.
pub uninterp spec fn utf8_fault(bytes: Seq<u8>) -> Seq<char>;

/// `std::str::from_utf8`, with its error in words: the characters that the
/// bytes encode if they are valid UTF-8, and else a description of the fault
/// that depends on the bytes alone.
#[verifier::external_body]
fn utf8_text(bytes: &[u8]) -> (res: Result<String, String>)
    ensures
        res is Ok <==> valid_utf8(bytes@),
        res is Ok ==> res->Ok_0@ == decode_utf8(bytes@),
        res is Err ==> res->Err_0@ == utf8_fault(bytes@),
{
    match std::str::from_utf8(bytes) {
        Ok(text) => Ok(text.to_string()),
        Err(fault) => Err(fault.to_string()),
    }
}

/// What a manifest file is worth: the manifest in its text, or a message that
/// says whether the file cannot be read, is not valid UTF-8 or is malformed.
pub open spec fn manifest_in(data: Result<Seq<u8>, Seq<char>>) -> Result<ManifestView, Seq<char>> {
    match data {
        Err(fault) => Err("failed to read package manifest ("@ + fault + ")"@),
        Ok(bytes) => if !valid_utf8(bytes) {
            Err("package manifest is not valid UTF-8 ("@ + utf8_fault(bytes) + ")"@)
        } else {
            match manifest_of(decode_utf8(bytes)) {
                Ok(manifest) => Ok(manifest),
                Err(fault) => Err("package manifest is malformed ("@ + fault + ")"@),
            }
        },
    }
}

/// The value behind the outcome of reading a file.
pub open spec fn read_view(data: Result<Vec<u8>, String>) -> Result<Seq<u8>, Seq<char>> {
    match data {
        Ok(bytes) => Ok(bytes@),
        Err(fault) => Err(fault@),
    }
}

fn in_brackets(before: &str, fault: &str) -> (message: String)
    ensures
        message@ == before@ + fault@ + ")"@,
{
    let mut message: String = String::new();
    message.append(before);
    message.append(fault);
    message.append(")");
    assert(message@ =~= before@ + fault@ + ")"@);
    message
}

/// Parses the manifest of a package, from the outcome of reading its file.
pub fn get_manifest(toml_data: &Result<Vec<u8>, String>) -> (res: Result<PackageManifest, String>)
    ensures
        match manifest_in(read_view(*toml_data)) {
            Ok(manifest) => res is Ok && res->Ok_0@ == manifest,
            Err(message) => res is Err && res->Err_0@ == message,
        },
{
    let data: &Vec<u8> = match toml_data {
        Ok(data) => data,
        Err(fault) => {
            return Err(in_brackets("failed to read package manifest (", fault.as_str()));
        },
    };
    let text: String = match utf8_text(data.as_slice()) {
        Ok(text) => text,
        Err(fault) => {
            return Err(in_brackets("package manifest is not valid UTF-8 (", fault.as_str()));
        },
    };
    match parse_manifest(text.as_str()) {
        Ok(manifest) => Ok(manifest),
        Err(fault) => Err(in_brackets("package manifest is malformed (", fault.as_str())),
    }
}

} // verus!
