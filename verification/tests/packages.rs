use std::path::PathBuf;

use base64::Engine;
use package_docs::encoding::{can_encode, jbase64};
use package_docs::manifest::get_manifest;
use package_docs::package::{
    file_id_repr, get_manifest_id, FileId, PackageInfo, PackageSpec, PackageVersion,
};
use package_docs::path::VirtualPath;

fn tidy_spec() -> PackageSpec {
    PackageSpec {
        namespace: "preview".to_string(),
        name: "tidy".to_string(),
        version: PackageVersion { major: 0, minor: 3, patch: 0 },
    }
}

fn tidy_info(version: &str) -> PackageInfo {
    PackageInfo {
        path: PathBuf::from("/packages/tidy"),
        namespace: "preview".to_string(),
        name: "tidy".to_string(),
        version: version.to_string(),
    }
}

#[test]
fn package_info_keeps_the_specification() {
    let info = PackageInfo::from((PathBuf::from("/packages/tidy"), tidy_spec()));
    assert_eq!(info.path, PathBuf::from("/packages/tidy"));
    assert_eq!(info.namespace, "preview");
    assert_eq!(info.name, "tidy");
    assert_eq!(info.version, "0.3.0");
    let spec = info.spec().unwrap();
    assert!(spec.same(&tidy_spec()));
    assert_eq!(spec.show(), "@preview/tidy:0.3.0");
}

#[test]
fn versions_are_parsed_and_shown() {
    let version = PackageVersion::parse("10.0.27").unwrap();
    assert_eq!((version.major, version.minor, version.patch), (10, 0, 27));
    assert_eq!(version.show(), "10.0.27");
    assert_eq!(
        PackageVersion::parse("1.x.0").unwrap_err(),
        "`x` is not a valid minor version"
    );
    assert_eq!(
        PackageVersion::parse("1.2").unwrap_err(),
        "version number is missing patch version"
    );
    assert_eq!(
        PackageVersion::parse("1.2.3.4").unwrap_err(),
        "version number has unexpected fourth component: `4`"
    );
}

#[test]
fn manifest_id_is_in_the_root_of_the_package() {
    let id = get_manifest_id(&tidy_info("0.3.0")).unwrap();
    assert!(id.in_package(&tidy_spec()));
    assert_eq!(id.vpath.segments, vec!["typst.toml".to_string()]);
    assert_eq!(file_id_repr(&id), "@preview/tidy:0.3.0/typst.toml");
}

#[test]
fn manifest_id_needs_a_valid_version() {
    let message = get_manifest_id(&tidy_info("three")).unwrap_err();
    assert_eq!(message, "`three` is not a valid major version");
}

#[test]
fn manifest_is_parsed() {
    let text = "[package]\nname = \"tidy\"\nversion = \"0.3.0\"\nentrypoint = \"src/tidy.typ\"\ncompiler = \"0.11.0\"\n\n[template]\npath = \"template\"\nentrypoint = \"main.typ\"\n";
    let manifest = get_manifest(&Ok(text.as_bytes().to_vec())).unwrap();
    assert_eq!(manifest.package.name, "tidy");
    assert_eq!(manifest.package.version, PackageVersion { major: 0, minor: 3, patch: 0 });
    assert_eq!(manifest.package.entrypoint, "src/tidy.typ");
    assert_eq!(
        manifest.package.compiler,
        Some(PackageVersion { major: 0, minor: 11, patch: 0 })
    );
    let template = manifest.template.unwrap();
    assert_eq!(template.path, "template");
    assert_eq!(template.entrypoint, "main.typ");
}

#[test]
fn manifest_that_cannot_be_read_is_reported() {
    let message = get_manifest(&Err("file not found".to_string())).unwrap_err();
    assert_eq!(message, "failed to read package manifest (file not found)");
}

#[test]
fn manifest_that_is_not_utf8_is_reported() {
    let bytes: Vec<u8> = vec![b'a', 0xff];
    let fault = std::str::from_utf8(&bytes).unwrap_err().to_string();
    let message = get_manifest(&Ok(bytes)).unwrap_err();
    assert_eq!(message, format!("package manifest is not valid UTF-8 ({fault})"));
}

#[test]
fn manifest_that_is_malformed_is_reported() {
    let message = get_manifest(&Ok(b"[package]\nname = \"tidy\"\n".to_vec())).unwrap_err();
    assert_eq!(message, "package manifest is malformed (missing field `version`)");
}

#[test]
fn virtual_paths_are_normalized() {
    let path = VirtualPath::new("src/./parts/../tidy.typ");
    assert_eq!(path.segments, vec!["src".to_string(), "tidy.typ".to_string()]);
    assert_eq!(path.unix_slash(), "/src/tidy.typ");
    let next = path.join("util/names.typ");
    assert_eq!(
        next.segments,
        vec!["src".to_string(), "util".to_string(), "names.typ".to_string()]
    );
    assert_eq!(path.join("/lib.typ").segments, vec!["lib.typ".to_string()]);
    assert_eq!(path.join("../lib.typ").segments, vec!["lib.typ".to_string()]);
    assert_eq!(VirtualPath::new("../x").segments, vec!["..".to_string(), "x".to_string()]);
}

#[test]
fn unix_slash_agrees_with_reflexo() {
    for text in ["typst.toml", "src/tidy.typ", "a/b/../c", "/x//y/./z.typ", "../up.typ", ""] {
        let path = VirtualPath::new(text);
        let typst_path = typst::syntax::VirtualPath::new(text);
        assert_eq!(
            path.unix_slash(),
            reflexo::path::unix_slash(typst_path.as_rooted_path())
        );
    }
}

#[test]
fn files_are_shown_with_their_package() {
    let file = FileId { package: Some(tidy_spec()), vpath: VirtualPath::new("src/tidy.typ") };
    assert_eq!(file_id_repr(&file), "@preview/tidy:0.3.0/src/tidy.typ");
    let local = FileId { package: None, vpath: VirtualPath::new("main.typ") };
    assert_eq!(file_id_repr(&local), "/main.typ");
    assert!(!local.in_package(&tidy_spec()));
    assert!(file.same(&file.copy()));
    assert!(!file.same(&local));
    let entry = get_manifest_id(&tidy_info("0.3.0")).unwrap().join("src/tidy.typ");
    assert!(entry.same(&file));
}

#[test]
fn records_are_base64_of_their_json() {
    assert_eq!(jbase64(""), "");
    assert_eq!(jbase64("{"), "ew==");
    assert_eq!(jbase64("{}"), "e30=");
    assert_eq!(jbase64("[1]"), "WzFd");
    let json = "{\"name\":\"größe\"}";
    assert!(can_encode(json));
    let decoded = base64::engine::general_purpose::STANDARD.decode(jbase64(json)).unwrap();
    assert_eq!(decoded, json.as_bytes());
}
