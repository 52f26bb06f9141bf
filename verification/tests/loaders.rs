//! Tests of the mapping loader (through the real TOML parser) and of the
//! standard-library listing parser.

use pydeps::mapping::MappingTable;
use pydeps::mapping::load_mapping;
use pydeps::resolve::extract_libraries_from_file;
use pydeps::stdlib::StdlibSet;
use pydeps::stdlib::parse_standard_libraries;

fn b(s: &str) -> Vec<u8> {
    s.as_bytes().to_vec()
}

#[test]
fn mapping_loaded_from_toml_document() {
    let (m, ok) = load_mapping(&b("cv2 = \"opencv-python\"\nPIL = \"Pillow\"\n"));
    assert!(ok);
    assert_eq!(m.get(&b("cv2")), Some(b("opencv-python")));
    assert_eq!(m.get(&b("PIL")), Some(b("Pillow")));
    assert_eq!(m.get(&b("numpy")), None);
}

#[test]
fn mapping_ignores_non_string_values() {
    let (m, ok) = load_mapping(&b("threads = 3\ncv2 = \"opencv-python\"\n"));
    assert!(ok);
    assert_eq!(m.get(&b("threads")), None);
    assert_eq!(m.get(&b("cv2")), Some(b("opencv-python")));
}

#[test]
fn malformed_mapping_degrades_to_empty_table() {
    let (m, ok) = load_mapping(&b("= not toml at all ["));
    assert!(!ok);
    assert_eq!(m.get(&b("cv2")), None);
}

#[test]
fn empty_mapping_document_is_empty_table() {
    let (m, ok) = load_mapping(&b(""));
    assert!(ok);
    assert_eq!(m.get(&b("anything")), None);
}

#[test]
fn loaded_mapping_drives_resolution() {
    let (m, ok) = load_mapping(&b("cv2 = \"opencv-python\"\n"));
    assert!(ok);
    let stdlib = StdlibSet::from_names(Vec::new());
    let empty: Vec<pydeps::fstree::FsEntry> = Vec::new();
    let r = extract_libraries_from_file(&b("import cv2\n"), &empty, &m, &stdlib);
    assert_eq!(r, vec![b("opencv-python")]);
}

#[test]
fn stdlib_listing_parsed_into_registry() {
    let out = b("['os', 'sys', 'collections', 'json']\n");
    let s = parse_standard_libraries(&out);
    assert!(s.contains(&b("os")));
    assert!(s.contains(&b("sys")));
    assert!(s.contains(&b("collections")));
    assert!(s.contains(&b("json")));
    assert!(!s.contains(&b("numpy")));
}

#[test]
fn stdlib_listing_single_name() {
    let s = parse_standard_libraries(&b("['os']"));
    assert!(s.contains(&b("os")));
    assert!(!s.contains(&b("")));
}

#[test]
fn registry_from_fixed_names() {
    let s = StdlibSet::from_names(vec![b("os"), b("sys")]);
    assert!(s.contains(&b("os")));
    assert!(!s.contains(&b("io")));
}

#[test]
fn mapping_add_then_get() {
    let mut m = MappingTable::new();
    m.add(b("yaml"), b("PyYAML"));
    assert_eq!(m.get(&b("yaml")), Some(b("PyYAML")));
    assert_eq!(m.get(&b("toml")), None);
}
