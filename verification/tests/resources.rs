use j2me_kit::me::image::ImageResources;
use j2me_kit::platform::resources::{
    parse_application_properties, resolve_class_resource_name, resolve_class_resource_name_utf16,
    validate_entry_name, JarResources, MemoryResources, ResourceSource,
};
use j2me_kit::platform::PlatformError;
use std::io::{Cursor, Write};

fn synthetic_jar() -> Vec<u8> {
    let mut output = Cursor::new(Vec::new());
    {
        let mut archive = zip::ZipWriter::new(&mut output);
        let options = zip::write::SimpleFileOptions::default();
        archive.start_file("META-INF/MANIFEST.MF", options).unwrap();
        archive.write_all(b"MIDlet-Name: Manifest Name\r\nLong: one\r\n two\r\n").unwrap();
        archive.start_file("images/icon.bin", options).unwrap();
        archive.write_all(&[0, 127, 128, 255]).unwrap();
        archive.start_file("emoji/👻.bin", options).unwrap();
        archive.write_all(&[9]).unwrap();
        archive.finish().unwrap();
    }
    output.into_inner()
}

fn jar_with(names: &[&str]) -> Vec<u8> {
    let mut output = Cursor::new(Vec::new());
    {
        let mut archive = zip::ZipWriter::new(&mut output);
        let options = zip::write::SimpleFileOptions::default();
        for name in names {
            archive.start_file(*name, options).unwrap();
            archive.write_all(&[1, 2, 3]).unwrap();
        }
        archive.finish().unwrap();
    }
    output.into_inner()
}

#[test]
fn jar_lookup_normalizes_a_leading_slash() {
    let resources = JarResources::from_bytes(&synthetic_jar(), None).unwrap();
    assert_eq!(resources.bytes("/images/icon.bin"), Some(&[0, 127, 128, 255][..]));
    assert_eq!(resources.bytes("images/icon.bin"), resources.bytes("/images/icon.bin"));
    assert_eq!(resources.entries().len(), 3);
}

#[test]
fn class_resource_lookup_is_absolute_or_package_relative() {
    let mut resources = MemoryResources::new();
    resources.insert("asset.bin", vec![1]).insert("fixtures/local.bin", vec![2]);

    assert_eq!(resolve_class_resource_name("java.lang.String", "/asset.bin"), "asset.bin");
    assert_eq!(resolve_class_resource_name("fixtures.Loader", "local.bin"), "fixtures/local.bin");
    assert_eq!(resolve_class_resource_name("Loader", "asset.bin"), "asset.bin");
    assert_eq!(resources.class_resource_bytes("java.lang.String", "/asset.bin"), Some(&[1][..]));
    assert_eq!(resources.class_resource_bytes("fixtures.Loader", "local.bin"), Some(&[2][..]));
}

#[test]
fn class_resource_lookup_strips_exactly_one_leading_slash() {
    let mut resources = MemoryResources::new();
    resources.insert("asset.bin", vec![1]);

    assert_eq!(resolve_class_resource_name("java.lang.String", "//asset.bin"), "/asset.bin");
    assert_eq!(resources.class_resource_bytes("java.lang.String", "//asset.bin"), None);
}

#[test]
fn class_resource_utf16_accepts_pairs_and_rejects_lone_surrogates() {
    let resources = JarResources::from_bytes(&synthetic_jar(), None).unwrap();
    let non_bmp_name: Vec<u16> = "/emoji/👻.bin".encode_utf16().collect();

    assert_eq!(
        resolve_class_resource_name_utf16("java.lang.String", &non_bmp_name),
        Some("emoji/👻.bin".to_owned())
    );
    assert_eq!(resources.class_resource_bytes_utf16("java.lang.String", &non_bmp_name), Some(&[9][..]));
    assert_eq!(resolve_class_resource_name_utf16("java.lang.String", &[b'/' as u16, 0xd800]), None);
    assert_eq!(resources.class_resource_bytes_utf16("java.lang.String", &[b'/' as u16, 0xdc00]), None);
}

#[test]
fn jad_overrides_manifest_and_continuations_are_joined() {
    let resources =
        JarResources::from_bytes(&synthetic_jar(), Some(b"MIDlet-Name: Installed Name\r\nJad-Only: yes\r\n")).unwrap();
    assert_eq!(resources.application_property("MIDlet-Name"), Some("Installed Name"));
    assert_eq!(resources.application_property("Long"), Some("onetwo"));
    assert_eq!(resources.application_property("Jad-Only"), Some("yes"));
}

#[test]
fn named_manifest_sections_do_not_override_midlet_properties() {
    let properties =
        parse_application_properties(b"MIDlet-Name: Main\r\n\r\nName: icon.png\r\nMIDlet-Name: Section\r\n");
    assert_eq!(properties.get("MIDlet-Name").map(String::as_str), Some("Main"));
    assert!(!properties.contains_key("Name"));
}

#[test]
fn memory_source_is_deterministic_and_implements_image_resources() {
    let mut resources = MemoryResources::new();
    resources.insert("/b", vec![255]).insert("/a", vec![128, 1]).property("MIDlet-Name", "Fixture");
    assert_eq!(resources.entries(), vec!["a", "b"]);
    assert_eq!(resources.load("/a"), Some(vec![-128, 1]));
    assert_eq!(resources.application_property("MIDlet-Name"), Some("Fixture"));
}

#[test]
fn unsafe_and_duplicate_archive_entries_are_rejected() {
    assert!(validate_entry_name("../outside").is_err());
    assert!(validate_entry_name("dir\\file").is_err());
    assert!(validate_entry_name("/absolute").is_err());
    assert!(validate_entry_name("normal/asset.bin").is_ok());
}

#[test]
fn entry_name_rules_cover_every_segment() {
    for bad in ["", "a//b", "a/", "a/./b", "a/..", ".", "..", "nul\0byte"] {
        assert_eq!(
            validate_entry_name(bad),
            Err(PlatformError::Resource(format!("unsafe or non-canonical entry name {bad:?}")))
        );
    }
    for good in ["a", ".hidden", "a/..b", "a/b.c/d", "...", "x/.../y"] {
        assert!(validate_entry_name(good).is_ok(), "{good}");
    }
}

#[test]
fn jar_refuses_unsafe_names_and_keeps_directories_out() {
    let refused = JarResources::from_bytes(&jar_with(&["ok.bin", "../escape.bin"]), None);
    assert_eq!(
        refused.err(),
        Some(PlatformError::Resource("unsafe or non-canonical entry name \"../escape.bin\"".to_string()))
    );
    let mut output = Cursor::new(Vec::new());
    {
        let mut archive = zip::ZipWriter::new(&mut output);
        let options = zip::write::SimpleFileOptions::default();
        archive.add_directory("dir/", options).unwrap();
        archive.start_file("dir/file.bin", options).unwrap();
        archive.write_all(&[7]).unwrap();
        archive.finish().unwrap();
    }
    let resources = JarResources::from_bytes(&output.into_inner(), None).unwrap();
    assert_eq!(resources.entries(), vec!["dir/file.bin"]);
    assert_eq!(resources.len(), 1);
    assert!(!resources.is_empty());
}

#[test]
fn jar_refuses_bytes_that_are_not_an_archive() {
    assert!(matches!(JarResources::from_bytes(b"not a zip", None), Err(PlatformError::Archive(_))));
}

#[test]
fn properties_join_continuations_and_later_names_win() {
    let properties = parse_application_properties(b"A: 1\nno colon here\n  ignored: x\nB : two \n  more\nA: 3\n");
    assert_eq!(properties.get("A").map(String::as_str), Some("3"));
    assert_eq!(properties.get("B").map(String::as_str), Some("two more"));
    assert!(!properties.contains_key("no colon here"));
    assert!(!properties.contains_key("ignored"));
    let continued_without_name = parse_application_properties(b" orphan\nC: x");
    assert_eq!(continued_without_name.get("C").map(String::as_str), Some("x"));
    assert!(!continued_without_name.contains_key(" orphan"));
}

#[test]
fn jad_only_properties_apply_without_a_manifest() {
    let resources = JarResources::from_bytes(&jar_with(&["a.bin"]), Some(b"Key: v")).unwrap();
    assert_eq!(resources.application_property("Key"), Some("v"));
    assert_eq!(resources.application_property("Missing"), None);
    assert_eq!(resources.load("/a.bin"), Some(vec![1, 2, 3]));
    assert_eq!(resources.load("/b.bin"), None);
}
