//! The project tree: an immutable picture of the scanned directory, and the
//! walks over it — manifest discovery with bounded depth, source-file
//! enumeration, and the local-module test. Directories named for virtual
//! environments, bytecode caches or foreign dependencies, and hidden
//! directories, are skipped by every walk.

use vstd::prelude::*;

use crate::bytes::bytes_eq;
use crate::bytes::copy_bytes;

verus! {

/// One entry of a directory: a file with its contents, or a subdirectory
/// with its own entries. A directory is a list of entries in the order the
/// reader produced them.
pub enum FsEntry {
    File { name: Vec<u8>, content: Vec<u8> },
    Dir { name: Vec<u8>, entries: Vec<FsEntry> },
}

/// The name of an entry.
pub open spec fn entry_name(e: FsEntry) -> Seq<u8> {
    match e {
        FsEntry::File { name, content } => name@,
        FsEntry::Dir { name, entries } => name@,
    }
}

/// The name `venv`.
pub open spec fn venv_dir_name() -> Seq<u8> {
    seq![118u8, 101u8, 110u8, 118u8]
}

/// The name `__pycache__`.
pub open spec fn pycache_dir_name() -> Seq<u8> {
    seq![95u8, 95u8, 112u8, 121u8, 99u8, 97u8, 99u8, 104u8, 101u8, 95u8, 95u8]
}

/// The name `node_modules`.
pub open spec fn node_modules_dir_name() -> Seq<u8> {
    seq![110u8, 111u8, 100u8, 101u8, 95u8, 109u8, 111u8, 100u8, 117u8, 108u8, 101u8, 115u8]
}

/// The name `requirements.txt`.
pub open spec fn requirements_name() -> Seq<u8> {
    seq![
        114u8,
        101u8,
        113u8,
        117u8,
        105u8,
        114u8,
        101u8,
        109u8,
        101u8,
        110u8,
        116u8,
        115u8,
        46u8,
        116u8,
        120u8,
        116u8,
    ]
}

/// The suffix `.py`.
pub open spec fn dot_py() -> Seq<u8> {
    seq![46u8, 112u8, 121u8]
}

/// Directories every walk skips: `venv`, `__pycache__`, `node_modules`, and
/// hidden directories.
pub open spec fn ignored_dir(name: Seq<u8>) -> bool {
    name == venv_dir_name() || name == pycache_dir_name() || name == node_modules_dir_name() || (
    name.len() > 0 && name[0] == 46)
}

/// A file name with the `.py` extension: at least one byte of stem, then
/// `.py`.
pub open spec fn has_py_ext(name: Seq<u8>) -> bool {
    name.len() >= 4 && name[name.len() - 3] == 46 && name[name.len() - 2] == 112 && name[name.len()
        - 1] == 121
}

/// Some entry of the directory, file or subdirectory, bears `name`.
pub open spec fn dir_has_entry(entries: Seq<FsEntry>, name: Seq<u8>) -> bool {
    exists|i: int| 0 <= i < entries.len() && entry_name(entries[i]) == name
}

/// Some subdirectory of the directory bears `name`.
pub open spec fn dir_has_subdir(entries: Seq<FsEntry>, name: Seq<u8>) -> bool {
    exists|i: int|
        0 <= i < entries.len() && (entries[i] matches FsEntry::Dir { .. }) && entry_name(entries[i])
            == name
}

/// The module resolves inside one directory: as a source file `<module>.py`
/// or as a package subdirectory `<module>`.
pub open spec fn local_in_dir(entries: Seq<FsEntry>, module: Seq<u8>) -> bool {
    dir_has_entry(entries, module + dot_py()) || dir_has_subdir(entries, module)
}

/// The name `src`.
pub open spec fn src_dir_name() -> Seq<u8> {
    seq![115u8, 114u8, 99u8]
}

/// The name `lib`.
pub open spec fn lib_dir_name() -> Seq<u8> {
    seq![108u8, 105u8, 98u8]
}

/// The name `app`.
pub open spec fn app_dir_name() -> Seq<u8> {
    seq![97u8, 112u8, 112u8]
}

/// The name `core`.
pub open spec fn core_dir_name() -> Seq<u8> {
    seq![99u8, 111u8, 114u8, 101u8]
}

/// The conventional source subdirectories also searched under the project
/// root: `src`, `lib`, `app`, `core`.
pub open spec fn is_common_dir_name(name: Seq<u8>) -> bool {
    name == src_dir_name() || name == lib_dir_name() || name == app_dir_name() || name
        == core_dir_name()
}

/// The module resolves inside one of the conventional subdirectories of the
/// project root.
pub open spec fn local_in_common(root: Seq<FsEntry>, module: Seq<u8>) -> bool {
    exists|i: int|
        #![trigger root[i]]
        0 <= i < root.len() && (root[i] matches FsEntry::Dir { name, entries } && is_common_dir_name(
            name@,
        ) && local_in_dir(entries@, module))
}

/// The module is local to the project: it resolves in the scanned file's
/// directory, at the project root, or in a conventional subdirectory of the
/// root. First match wins; absence everywhere classifies it as external.
pub open spec fn is_local(module: Seq<u8>, file_dir: Seq<FsEntry>, root: Seq<FsEntry>) -> bool {
    local_in_dir(file_dir, module) || local_in_dir(root, module) || local_in_common(root, module)
}

/// The name `venv` as bytes.
pub fn venv_dir_lit() -> (r: Vec<u8>)
    ensures
        r@ == venv_dir_name(),
{
    let mut r: Vec<u8> = Vec::new();
    r.push(118);
    r.push(101);
    r.push(110);
    r.push(118);
    proof {
        assert(r@ =~= venv_dir_name());
    }
    r
}

/// The name `__pycache__` as bytes.
pub fn pycache_dir_lit() -> (r: Vec<u8>)
    ensures
        r@ == pycache_dir_name(),
{
    let mut r: Vec<u8> = Vec::new();
    r.push(95);
    r.push(95);
    r.push(112);
    r.push(121);
    r.push(99);
    r.push(97);
    r.push(99);
    r.push(104);
    r.push(101);
    r.push(95);
    r.push(95);
    proof {
        assert(r@ =~= pycache_dir_name());
    }
    r
}

/// The name `node_modules` as bytes.
pub fn node_modules_dir_lit() -> (r: Vec<u8>)
    ensures
        r@ == node_modules_dir_name(),
{
    let mut r: Vec<u8> = Vec::new();
    r.push(110);
    r.push(111);
    r.push(100);
    r.push(101);
    r.push(95);
    r.push(109);
    r.push(111);
    r.push(100);
    r.push(117);
    r.push(108);
    r.push(101);
    r.push(115);
    proof {
        assert(r@ =~= node_modules_dir_name());
    }
    r
}

/// The name `requirements.txt` as bytes.
pub fn requirements_lit() -> (r: Vec<u8>)
    ensures
        r@ == requirements_name(),
{
    let mut r: Vec<u8> = Vec::new();
    r.push(114);
    r.push(101);
    r.push(113);
    r.push(117);
    r.push(105);
    r.push(114);
    r.push(101);
    r.push(109);
    r.push(101);
    r.push(110);
    r.push(116);
    r.push(115);
    r.push(46);
    r.push(116);
    r.push(120);
    r.push(116);
    proof {
        assert(r@ =~= requirements_name());
    }
    r
}

/// Whether a directory of this name is skipped by every walk.
pub fn is_ignored_dir(name: &Vec<u8>) -> (r: bool)
    ensures
        r == ignored_dir(name@),
{
    if name.len() > 0 && name[0] == 46 {
        return true;
    }
    let v = venv_dir_lit();
    if bytes_eq(name, &v) {
        return true;
    }
    let p = pycache_dir_lit();
    if bytes_eq(name, &p) {
        return true;
    }
    let n = node_modules_dir_lit();
    if bytes_eq(name, &n) {
        return true;
    }
    false
}

/// Whether a file name carries the `.py` extension.
pub fn has_py_ext_x(name: &Vec<u8>) -> (r: bool)
    ensures
        r == has_py_ext(name@),
{
    name.len() >= 4 && name[name.len() - 3] == 46 && name[name.len() - 2] == 112 && name[name.len()
        - 1] == 121
}

/// `<module>.py` as bytes.
pub fn append_py(module: &Vec<u8>) -> (r: Vec<u8>)
    ensures
        r@ == module@ + dot_py(),
{
    let mut r = copy_bytes(module);
    r.push(46);
    r.push(112);
    r.push(121);
    proof {
        assert(r@ =~= module@ + dot_py());
    }
    r
}

/// Whether some entry of the directory bears `name`, executable.
fn dir_has_entry_x(entries: &Vec<FsEntry>, name: &Vec<u8>) -> (r: bool)
    ensures
        r == dir_has_entry(entries@, name@),
{
    let mut i: usize = 0;
    while i < entries.len()
        invariant
            i <= entries.len(),
            forall|j: int| 0 <= j < i ==> entry_name(entries@[j]) != name@,
        decreases entries.len() - i,
    {
        let n = match &entries[i] {
            FsEntry::File { name: n, .. } => n,
            FsEntry::Dir { name: n, .. } => n,
        };
        if bytes_eq(n, name) {
            proof {
                assert(entry_name(entries@[i as int]) == name@);
            }
            return true;
        }
        i += 1;
    }
    proof {
        if dir_has_entry(entries@, name@) {
            let k = choose|k: int| 0 <= k < entries@.len() && entry_name(entries@[k]) == name@;
        }
    }
    false
}

/// Whether some subdirectory of the directory bears `name`, executable.
fn dir_has_subdir_x(entries: &Vec<FsEntry>, name: &Vec<u8>) -> (r: bool)
    ensures
        r == dir_has_subdir(entries@, name@),
{
    let mut i: usize = 0;
    while i < entries.len()
        invariant
            i <= entries.len(),
            forall|j: int|
                0 <= j < i ==> !((entries@[j] matches FsEntry::Dir { .. }) && entry_name(
                    entries@[j],
                ) == name@),
        decreases entries.len() - i,
    {
        match &entries[i] {
            FsEntry::Dir { name: n, .. } => {
                if bytes_eq(n, name) {
                    proof {
                        assert((entries@[i as int] matches FsEntry::Dir { .. }) && entry_name(
                            entries@[i as int],
                        ) == name@);
                    }
                    return true;
                }
            },
            FsEntry::File { .. } => {},
        }
        i += 1;
    }
    proof {
        if dir_has_subdir(entries@, name@) {
            let k = choose|k: int|
                0 <= k < entries@.len() && (entries@[k] matches FsEntry::Dir { .. }) && entry_name(
                    entries@[k],
                ) == name@;
        }
    }
    false
}

/// Whether `name` names a conventional source subdirectory.
fn is_common_dir_x(name: &Vec<u8>) -> (r: bool)
    ensures
        r == is_common_dir_name(name@),
{
    let mut s: Vec<u8> = Vec::new();
    s.push(115);
    s.push(114);
    s.push(99);
    proof {
        assert(s@ =~= src_dir_name());
    }
    if bytes_eq(name, &s) {
        return true;
    }
    let mut l: Vec<u8> = Vec::new();
    l.push(108);
    l.push(105);
    l.push(98);
    proof {
        assert(l@ =~= lib_dir_name());
    }
    if bytes_eq(name, &l) {
        return true;
    }
    let mut a: Vec<u8> = Vec::new();
    a.push(97);
    a.push(112);
    a.push(112);
    proof {
        assert(a@ =~= app_dir_name());
    }
    if bytes_eq(name, &a) {
        return true;
    }
    let mut c: Vec<u8> = Vec::new();
    c.push(99);
    c.push(111);
    c.push(114);
    c.push(101);
    proof {
        assert(c@ =~= core_dir_name());
    }
    if bytes_eq(name, &c) {
        return true;
    }
    false
}

/// Decides whether a module name refers to in-project code: a `<module>.py`
/// file or a `<module>` package in the scanned file's directory, at the
/// project root, or in a conventional subdirectory of the root.
pub fn is_local_module(module: &Vec<u8>, file_dir: &Vec<FsEntry>, project_root: &Vec<FsEntry>) -> (r:
    bool)
    ensures
        r == is_local(module@, file_dir@, project_root@),
{
    let py = append_py(module);
    if dir_has_entry_x(file_dir, &py) {
        return true;
    }
    if dir_has_subdir_x(file_dir, module) {
        return true;
    }
    if dir_has_entry_x(project_root, &py) {
        return true;
    }
    if dir_has_subdir_x(project_root, module) {
        return true;
    }
    let mut i: usize = 0;
    while i < project_root.len()
        invariant
            i <= project_root.len(),
            py@ == module@ + dot_py(),
            !local_in_dir(file_dir@, module@),
            !local_in_dir(project_root@, module@),
            forall|j: int|
                #![trigger project_root@[j]]
                0 <= j < i ==> !(project_root@[j] matches FsEntry::Dir { name, entries }
                    && is_common_dir_name(name@) && local_in_dir(entries@, module@)),
        decreases project_root.len() - i,
    {
        match &project_root[i] {
            FsEntry::Dir { name, entries } => {
                if is_common_dir_x(name) {
                    if dir_has_entry_x(entries, &py) || dir_has_subdir_x(entries, module) {
                        proof {
                            assert(project_root@[i as int] matches FsEntry::Dir {
                                name: n,
                                entries: es,
                            } && is_common_dir_name(n@) && local_in_dir(es@, module@));
                        }
                        return true;
                    }
                }
            },
            FsEntry::File { .. } => {},
        }
        i += 1;
    }
    proof {
        if local_in_common(project_root@, module@) {
            let k = choose|k: int|
                #![trigger project_root@[k]]
                0 <= k < project_root@.len() && (project_root@[k] matches FsEntry::Dir {
                    name,
                    entries,
                } && is_common_dir_name(name@) && local_in_dir(entries@, module@));
        }
    }
    false
}

/// Whether an entry of this name stands in the given listing; asked of the
/// virtual environment's directory before one is created for it.
pub fn venv_exists(venv_name: &Vec<u8>, root: &Vec<FsEntry>) -> (r: bool)
    ensures
        r == dir_has_entry(root@, venv_name@),
{
    dir_has_entry_x(root, venv_name)
}

/// The manifest search: the contents of the first `requirements.txt` found
/// from entry `i` of a directory at the given depth on, files before the
/// subdirectories that follow them, subdirectories entered in order up to
/// three levels below the root, skipped directories never entered.
pub open spec fn manifest_from(entries: Seq<FsEntry>, i: int, depth: int) -> Option<Seq<u8>>
    decreases entries, entries.len() - i,
{
    if !(0 <= i < entries.len()) {
        None
    } else {
        match entries[i] {
            FsEntry::File { name, content } => {
                if name@ == requirements_name() {
                    Some(content@)
                } else {
                    manifest_from(entries, i + 1, depth)
                }
            },
            FsEntry::Dir { name, entries: sub } => {
                if !ignored_dir(name@) && depth < 3 {
                    match manifest_from(sub@, 0, depth + 1) {
                        Some(c) => Some(c),
                        None => manifest_from(entries, i + 1, depth),
                    }
                } else {
                    manifest_from(entries, i + 1, depth)
                }
            },
        }
    }
}

/// The manifest search from a directory at `depth`, executable.
fn manifest_search(entries: &Vec<FsEntry>, depth: u32) -> (r: Option<Vec<u8>>)
    requires
        depth <= 3,
    ensures
        r.deep_view() == manifest_from(entries@, 0, depth as int),
    decreases entries@,
{
    let req = requirements_lit();
    let mut i: usize = 0;
    while i < entries.len()
        invariant
            i <= entries.len(),
            req@ == requirements_name(),
            depth <= 3,
            manifest_from(entries@, 0, depth as int) == manifest_from(
                entries@,
                i as int,
                depth as int,
            ),
        decreases entries.len() - i,
    {
        match &entries[i] {
            FsEntry::File { name, content } => {
                if bytes_eq(name, &req) {
                    let c = copy_bytes(content);
                    proof {
                        assert(c.deep_view() =~= c@);
                    }
                    return Some(c);
                }
            },
            FsEntry::Dir { name, entries: sub } => {
                if !is_ignored_dir(name) && depth < 3 {
                    let found = manifest_search(sub, depth + 1);
                    match found {
                        Some(c) => {
                            proof {
                                assert(c.deep_view() =~= c@);
                            }
                            return Some(c);
                        },
                        None => {},
                    }
                }
            },
        }
        i += 1;
    }
    None
}

/// Finds the manifest beneath a project root: the first `requirements.txt`
/// in the bounded, deterministic walk, with its contents.
pub fn find_requirements_txt(root: &Vec<FsEntry>) -> (r: Option<Vec<u8>>)
    ensures
        r.deep_view() == manifest_from(root@, 0, 0),
{
    manifest_search(root, 0)
}

/// The contents of every Python source file under a directory, in walk
/// order: a directory's files and subdirectories in entry order, skipped
/// directories never entered, no depth bound.
pub open spec fn py_files_from(entries: Seq<FsEntry>, i: int) -> Seq<Seq<u8>>
    decreases entries, entries.len() - i,
{
    if !(0 <= i < entries.len()) {
        Seq::empty()
    } else {
        match entries[i] {
            FsEntry::File { name, content } => {
                if has_py_ext(name@) {
                    seq![content@] + py_files_from(entries, i + 1)
                } else {
                    py_files_from(entries, i + 1)
                }
            },
            FsEntry::Dir { name, entries: sub } => {
                if !ignored_dir(name@) {
                    py_files_from(sub@, 0) + py_files_from(entries, i + 1)
                } else {
                    py_files_from(entries, i + 1)
                }
            },
        }
    }
}

/// Appends the contents of every Python source file under a directory.
fn collect_py(entries: &Vec<FsEntry>, acc: &mut Vec<Vec<u8>>)
    ensures
        final(acc).deep_view() == old(acc).deep_view() + py_files_from(entries@, 0),
    decreases entries@,
{
    let ghost base = acc.deep_view();
    let mut i: usize = 0;
    proof {
        assert(base + Seq::<Seq<u8>>::empty() =~= base);
    }
    while i < entries.len()
        invariant
            i <= entries.len(),
            acc.deep_view() + py_files_from(entries@, i as int) == base + py_files_from(
                entries@,
                0,
            ),
        decreases entries.len() - i,
    {
        match &entries[i] {
            FsEntry::File { name, content } => {
                if has_py_ext_x(name) {
                    let c = copy_bytes(content);
                    let ghost old_dv = acc.deep_view();
                    proof {
                        assert(c.deep_view() =~= c@);
                    }
                    acc.push(c);
                    proof {
                        assert(acc.deep_view() =~= old_dv.push(content@));
                        assert(py_files_from(entries@, i as int) == seq![content@]
                            + py_files_from(entries@, i + 1));
                        assert(old_dv + py_files_from(entries@, i as int) =~= acc.deep_view()
                            + py_files_from(entries@, i + 1));
                    }
                }
            },
            FsEntry::Dir { name, entries: sub } => {
                if !is_ignored_dir(name) {
                    let ghost old_dv = acc.deep_view();
                    collect_py(sub, acc);
                    proof {
                        assert(py_files_from(entries@, i as int) == py_files_from(sub@, 0)
                            + py_files_from(entries@, i + 1));
                        assert(old_dv + py_files_from(entries@, i as int) =~= acc.deep_view()
                            + py_files_from(entries@, i + 1));
                    }
                }
            },
        }
        i += 1;
    }
    proof {
        assert(acc.deep_view() + py_files_from(entries@, entries@.len() as int) =~= acc.deep_view());
    }
}

/// Enumerates the contents of every Python source file under a directory,
/// in walk order.
pub fn find_all_python_files(root: &Vec<FsEntry>) -> (r: Vec<Vec<u8>>)
    ensures
        r.deep_view() == py_files_from(root@, 0),
{
    let mut r: Vec<Vec<u8>> = Vec::new();
    collect_py(root, &mut r);
    proof {
        assert(Seq::<Seq<u8>>::empty() + py_files_from(root@, 0) =~= py_files_from(root@, 0));
    }
    r
}

} // verus!
