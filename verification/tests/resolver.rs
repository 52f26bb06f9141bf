//! End-to-end tests of the dependency resolver: scanning, precedence,
//! filtering, and the final sorted list.

use pydeps::fstree::FsEntry;
use pydeps::fstree::find_all_python_files;
use pydeps::fstree::find_requirements_txt;
use pydeps::fstree::is_local_module;
use pydeps::fstree::venv_exists;
use pydeps::manifest::parse_requirements_txt;
use pydeps::mapping::MappingTable;
use pydeps::resolve::extract_imported_libraries;
use pydeps::resolve::extract_libraries_from_directory;
use pydeps::resolve::extract_libraries_from_file;
use pydeps::stdlib::StdlibSet;

fn b(s: &str) -> Vec<u8> {
    s.as_bytes().to_vec()
}

fn file(name: &str, content: &str) -> FsEntry {
    FsEntry::File { name: b(name), content: b(content) }
}

fn dir(name: &str, entries: Vec<FsEntry>) -> FsEntry {
    FsEntry::Dir { name: b(name), entries }
}

fn std_set(names: &[&str]) -> StdlibSet {
    StdlibSet::from_names(names.iter().map(|n| b(n)).collect())
}

fn no_dir() -> Vec<FsEntry> {
    Vec::new()
}

#[test]
fn scenario_hints_and_standard_library() {
    let source = "import os\nimport numpy\nfrom collections import OrderedDict\nimport sklearn  # install: scikit-learn\n";
    let mapping = MappingTable::new();
    let stdlib = std_set(&["os", "collections", "sys"]);
    let empty = no_dir();
    let r = extract_libraries_from_file(&b(source), &empty, &mapping, &stdlib);
    assert_eq!(r, vec![b("numpy"), b("scikit-learn")]);
}

#[test]
fn scenario_mapping_table() {
    let mut mapping = MappingTable::new();
    mapping.add(b("cv2"), b("opencv-python"));
    let stdlib = std_set(&["os"]);
    let empty = no_dir();
    let r = extract_libraries_from_file(&b("import cv2\n"), &empty, &mapping, &stdlib);
    assert_eq!(r, vec![b("opencv-python")]);
}

#[test]
fn scenario_local_module_file() {
    let mapping = MappingTable::new();
    let stdlib = std_set(&["os"]);
    let same_dir = vec![file("utils.py", "x = 1\n")];
    let r = extract_libraries_from_file(&b("import utils\n"), &same_dir, &mapping, &stdlib);
    assert_eq!(r, Vec::<Vec<u8>>::new());
}

#[test]
fn relative_imports_never_appear() {
    let mapping = MappingTable::new();
    let stdlib = std_set(&[]);
    let empty = no_dir();
    let source = "from . import helpers\nfrom .utils import x\nimport ..deep\n";
    let r = extract_libraries_from_file(&b(source), &empty, &mapping, &stdlib);
    assert_eq!(r, Vec::<Vec<u8>>::new());
}

#[test]
fn relative_import_with_hint_keeps_hint() {
    let mapping = MappingTable::new();
    let stdlib = std_set(&[]);
    let empty = no_dir();
    let r = extract_libraries_from_file(
        &b("from .vendored import thing  # install: special-pkg\n"),
        &empty,
        &mapping,
        &stdlib,
    );
    assert_eq!(r, vec![b("special-pkg")]);
}

#[test]
fn hint_value_bypasses_standard_library_filter() {
    let mapping = MappingTable::new();
    let stdlib = std_set(&["os"]);
    let empty = no_dir();
    let r = extract_libraries_from_file(&b("import os  # install: os\n"), &empty, &mapping, &stdlib);
    assert_eq!(r, vec![b("os")]);
}

#[test]
fn hint_value_appears_once_despite_duplicates() {
    let mapping = MappingTable::new();
    let stdlib = std_set(&[]);
    let empty = no_dir();
    let source = "import sklearn  # install: scikit-learn\nimport scikit_learn  # install: scikit-learn\n";
    let r = extract_libraries_from_file(&b(source), &empty, &mapping, &stdlib);
    assert_eq!(r, vec![b("scikit-learn")]);
}

#[test]
fn result_is_sorted_and_deduplicated() {
    let mapping = MappingTable::new();
    let stdlib = std_set(&[]);
    let empty = no_dir();
    let source = "import zlib2\nimport alpha\nimport numpy\nimport alpha\nimport numpy.random\n";
    let r = extract_libraries_from_file(&b(source), &empty, &mapping, &stdlib);
    assert_eq!(r, vec![b("alpha"), b("numpy"), b("zlib2")]);
}

#[test]
fn dotted_module_collapses_to_top_segment() {
    let mapping = MappingTable::new();
    let stdlib = std_set(&[]);
    let empty = no_dir();
    let r = extract_libraries_from_file(&b("import numpy.random.mtrand\n"), &empty, &mapping, &stdlib);
    assert_eq!(r, vec![b("numpy")]);
}

#[test]
fn alias_and_import_list_take_first_module() {
    let mapping = MappingTable::new();
    let stdlib = std_set(&[]);
    let empty = no_dir();
    let r = extract_libraries_from_file(
        &b("import numpy as np\nimport aaa, bbb\nfrom requests import get, post\n"),
        &empty,
        &mapping,
        &stdlib,
    );
    assert_eq!(r, vec![b("aaa"), b("numpy"), b("requests")]);
}

#[test]
fn indented_imports_are_recognized() {
    let mapping = MappingTable::new();
    let stdlib = std_set(&[]);
    let empty = no_dir();
    let source = "try:\n    import ujson\nexcept ImportError:\n    import simplejson\n";
    let r = extract_libraries_from_file(&b(source), &empty, &mapping, &stdlib);
    assert_eq!(r, vec![b("simplejson"), b("ujson")]);
}

#[test]
fn words_containing_import_are_not_imports() {
    let mapping = MappingTable::new();
    let stdlib = std_set(&[]);
    let empty = no_dir();
    let source = "important = 1\nimports = 2\nfromage = 3\nx = importlib\n";
    let r = extract_libraries_from_file(&b(source), &empty, &mapping, &stdlib);
    assert_eq!(r, Vec::<Vec<u8>>::new());
}

#[test]
fn directory_scan_aggregates_and_deduplicates() {
    let mapping = MappingTable::new();
    let stdlib = std_set(&["os"]);
    let root = vec![
        file("a.py", "import numpy\nimport os\n"),
        file("b.py", "import numpy\nimport pandas\n"),
        dir("pkg", vec![file("c.py", "import requests\n")]),
    ];
    let r = extract_libraries_from_directory(&root, &mapping, &stdlib);
    assert_eq!(r, vec![b("numpy"), b("pandas"), b("requests")]);
}

#[test]
fn directory_scan_skips_environment_directories() {
    let mapping = MappingTable::new();
    let stdlib = std_set(&[]);
    let root = vec![
        file("a.py", "import numpy\n"),
        dir("venv", vec![file("inner.py", "import hiddenlib\n")]),
        dir("__pycache__", vec![file("x.py", "import cachedlib\n")]),
        dir("node_modules", vec![file("y.py", "import nodelib\n")]),
        dir(".git", vec![file("z.py", "import gitlib\n")]),
    ];
    let r = extract_libraries_from_directory(&root, &mapping, &stdlib);
    assert_eq!(r, vec![b("numpy")]);
}

#[test]
fn manifest_takes_precedence_over_scanning() {
    let mapping = MappingTable::new();
    let stdlib = std_set(&[]);
    let root = vec![
        file("a.py", "import numpy\n"),
        file("requirements.txt", "zeta==1.0\nalpha>=2\n"),
    ];
    let r = extract_libraries_from_directory(&root, &mapping, &stdlib);
    assert_eq!(r, vec![b("alpha"), b("zeta")]);
}

#[test]
fn manifest_found_in_nested_directory() {
    let mapping = MappingTable::new();
    let stdlib = std_set(&[]);
    let root = vec![
        file("a.py", "import numpy\n"),
        dir("a", vec![dir("bb", vec![dir("c", vec![file("requirements.txt", "flask\n")])])]),
    ];
    let r = extract_libraries_from_directory(&root, &mapping, &stdlib);
    assert_eq!(r, vec![b("flask")]);
}

#[test]
fn manifest_below_depth_bound_is_not_found() {
    let mapping = MappingTable::new();
    let stdlib = std_set(&[]);
    let deep = dir(
        "a",
        vec![dir("bb", vec![dir("c", vec![dir("d", vec![file("requirements.txt", "flask\n")])])])],
    );
    let root = vec![file("a.py", "import numpy\n"), deep];
    assert!(find_requirements_txt(&root).is_none());
    let r = extract_libraries_from_directory(&root, &mapping, &stdlib);
    assert_eq!(r, vec![b("numpy")]);
}

#[test]
fn manifest_parsing_skips_comments_flags_and_versions() {
    let root = vec![file(
        "requirements.txt",
        "# pinned\n-r base.txt\n\nnumpy==1.24.0\npandas >= 1.0\nscikit_learn\nrich[all]\n",
    )];
    let c = find_requirements_txt(&root).unwrap();
    assert_eq!(c, b("# pinned\n-r base.txt\n\nnumpy==1.24.0\npandas >= 1.0\nscikit_learn\nrich[all]\n"));
    let mapping = MappingTable::new();
    let stdlib = std_set(&[]);
    let r = extract_libraries_from_directory(&root, &mapping, &stdlib);
    assert_eq!(r, vec![b("numpy"), b("pandas"), b("rich"), b("scikit_learn")]);
}

#[test]
fn manifest_reader_keeps_first_occurrence_only() {
    let toks = parse_requirements_txt(&b("zeta\nalpha\nzeta==1.0\nalpha\nbeta\n"));
    assert_eq!(toks, vec![b("zeta"), b("alpha"), b("beta")]);
}

#[test]
fn duplicate_manifest_lines_yield_one_entry() {
    let mapping = MappingTable::new();
    let stdlib = std_set(&[]);
    let root = vec![file("requirements.txt", "numpy==1.0\nnumpy==2.0\nflask\n")];
    let r = extract_libraries_from_directory(&root, &mapping, &stdlib);
    assert_eq!(r, vec![b("flask"), b("numpy")]);
}

#[test]
fn local_module_via_package_directory() {
    let mapping = MappingTable::new();
    let stdlib = std_set(&[]);
    let root = vec![
        dir("mypkg", vec![file("__init__.py", "")]),
        file("main.py", "import mypkg\nimport numpy\n"),
    ];
    let r = extract_libraries_from_directory(&root, &mapping, &stdlib);
    assert_eq!(r, vec![b("numpy")]);
}

#[test]
fn local_module_via_common_source_directory() {
    let mapping = MappingTable::new();
    let stdlib = std_set(&[]);
    let root = vec![
        dir("src", vec![file("helpers.py", "")]),
        dir("core", vec![dir("engine", vec![])]),
        file("main.py", "import helpers\nimport engine\nimport numpy\n"),
    ];
    let r = extract_libraries_from_directory(&root, &mapping, &stdlib);
    assert_eq!(r, vec![b("numpy")]);
}

#[test]
fn is_local_module_checks_file_dir_then_root() {
    let file_dir = vec![file("neighbor.py", "")];
    let root = vec![dir("lib", vec![file("shared.py", "")])];
    assert!(is_local_module(&b("neighbor"), &file_dir, &root));
    assert!(is_local_module(&b("shared"), &file_dir, &root));
    assert!(!is_local_module(&b("numpy"), &file_dir, &root));
}

#[test]
fn venv_exists_looks_in_root() {
    let root = vec![dir("venv", vec![]), file("main.py", "")];
    assert!(venv_exists(&b("venv"), &root));
    assert!(venv_exists(&b("main.py"), &root));
    assert!(!venv_exists(&b("other"), &root));
}

#[test]
fn python_files_enumerated_in_walk_order() {
    let root = vec![
        file("b.py", "b"),
        dir("sub", vec![file("c.py", "c")]),
        file("a.py", "a"),
        file("notes.txt", "n"),
    ];
    let files = find_all_python_files(&root);
    assert_eq!(files, vec![b("b"), b("c"), b("a")]);
}

#[test]
fn per_file_extraction_keeps_occurrence_order() {
    let mapping = MappingTable::new();
    let empty = no_dir();
    let refs = extract_imported_libraries(&b("import zeta\nimport alpha\n"), &empty, &empty, &mapping);
    assert_eq!(refs.len(), 2);
    assert_eq!(refs[0].name, b("zeta"));
    assert!(!refs[0].hinted);
    assert_eq!(refs[1].name, b("alpha"));
    assert!(!refs[1].hinted);
}

#[test]
fn resolving_twice_yields_identical_lists() {
    let mapping = MappingTable::new();
    let stdlib = std_set(&["os"]);
    let root = vec![
        file("a.py", "import numpy\nimport os\nimport sklearn  # install: scikit-learn\n"),
        dir("pkg", vec![file("b.py", "import requests\n")]),
    ];
    let first = extract_libraries_from_directory(&root, &mapping, &stdlib);
    let second = extract_libraries_from_directory(&root, &mapping, &stdlib);
    assert_eq!(first, second);
}

#[test]
fn hinted_name_survives_in_directory_scan() {
    let mapping = MappingTable::new();
    let stdlib = std_set(&["os"]);
    let root = vec![file("a.py", "import os  # install: os\nimport numpy\n")];
    let r = extract_libraries_from_directory(&root, &mapping, &stdlib);
    assert_eq!(r, vec![b("numpy"), b("os")]);
}

#[test]
fn empty_project_yields_empty_list() {
    let mapping = MappingTable::new();
    let stdlib = std_set(&[]);
    let root = no_dir();
    let r = extract_libraries_from_directory(&root, &mapping, &stdlib);
    assert_eq!(r, Vec::<Vec<u8>>::new());
}

#[test]
fn hint_requires_clean_line_tail() {
    let mapping = MappingTable::new();
    let stdlib = std_set(&[]);
    let empty = no_dir();
    let r = extract_libraries_from_file(
        &b("import abc2  # install: pkg-one extra words\n"),
        &empty,
        &mapping,
        &stdlib,
    );
    assert_eq!(r, vec![b("abc2")]);
}

#[test]
fn crlf_line_endings_are_tolerated() {
    let mapping = MappingTable::new();
    let stdlib = std_set(&[]);
    let empty = no_dir();
    let r = extract_libraries_from_file(
        &b("import numpy\r\nimport sklearn  # install: scikit-learn\r\n"),
        &empty,
        &mapping,
        &stdlib,
    );
    assert_eq!(r, vec![b("numpy"), b("scikit-learn")]);
}

#[test]
fn keywords_match_case_sensitively() {
    let mapping = MappingTable::new();
    let stdlib = std_set(&[]);
    let empty = no_dir();
    let r = extract_libraries_from_file(
        &b("IMPORT numpy\nImport pandas\nFROM requests IMPORT get\n"),
        &empty,
        &mapping,
        &stdlib,
    );
    assert_eq!(r, Vec::<Vec<u8>>::new());
}

#[test]
fn hint_on_non_import_line_is_ignored() {
    let mapping = MappingTable::new();
    let stdlib = std_set(&[]);
    let empty = no_dir();
    let r = extract_libraries_from_file(&b("x = 1  # install: nothing\n"), &empty, &mapping, &stdlib);
    assert_eq!(r, Vec::<Vec<u8>>::new());
}
