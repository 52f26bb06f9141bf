//! The dependency resolver: turns scanned references into the final package
//! list. Precedence per reference: an explicit install hint is authoritative;
//! a relative import is discarded; a local module is discarded; otherwise the
//! mapping names the package, defaulting to the module's top-level segment.
//! A manifest found beneath the root replaces scanning entirely. The
//! standard-library filter removes known runtime modules, except names that
//! arrived as hints. The result is always strictly sorted and duplicate-free.

use vstd::prelude::*;

use crate::bytes::copy_bytes;
use crate::bytes::lemma_sorted_dedup_of_dedup_first;
use crate::bytes::lemma_strictly_sorted_distinct;
use crate::bytes::sort_names;
use crate::bytes::sorted_dedup;
use crate::bytes::strictly_sorted;
use crate::fstree::FsEntry;
use crate::fstree::has_py_ext;
use crate::fstree::has_py_ext_x;
use crate::fstree::ignored_dir;
use crate::fstree::is_ignored_dir;
use crate::fstree::is_local;
use crate::fstree::is_local_module;
use crate::fstree::find_requirements_txt;
use crate::fstree::manifest_from;
use crate::manifest::manifest_list;
use crate::manifest::parse_requirements_txt;
use crate::mapping::MappingTable;
use crate::mapping::lookup;
use crate::scanner::RawRef;
use crate::scanner::RefSpec;
use crate::scanner::copy_range;
use crate::scanner::scan_source;
use crate::scanner::source_refs;
use crate::stdlib::StdlibSet;

verus! {

/// One resolved name, in specification form: the package name handed on to
/// aggregation, and whether it came from an explicit install hint.
pub struct NameSpec {
    pub name: Seq<u8>,
    pub hinted: bool,
}

/// One resolved name.
pub struct ResolvedName {
    /// The package name handed on to aggregation.
    pub name: Vec<u8>,
    /// Whether the name came from an explicit install hint; hinted names
    /// bypass the standard-library filter.
    pub hinted: bool,
}

impl View for ResolvedName {
    type V = NameSpec;

    open spec fn view(&self) -> NameSpec {
        NameSpec { name: self.name@, hinted: self.hinted }
    }
}

impl DeepView for ResolvedName {
    type V = NameSpec;

    open spec fn deep_view(&self) -> NameSpec {
        self.view()
    }
}

/// The end of the run of bytes other than `.` that starts at `i`.
pub open spec fn dot_end(s: Seq<u8>, i: int) -> int
    decreases s.len() - i,
{
    if 0 <= i < s.len() && s[i] != 46 {
        dot_end(s, i + 1)
    } else {
        i
    }
}

/// The module's top-level name: its text up to the first `.`.
pub open spec fn first_segment(module: Seq<u8>) -> Seq<u8> {
    module.subrange(0, dot_end(module, 0))
}

/// What one reference contributes. A hint is authoritative and marked as
/// such; a relative import contributes nothing; a local module contributes
/// nothing; otherwise the mapping's package name for the top-level segment,
/// or that segment itself when the mapping has no entry.
pub open spec fn resolve_ref(
    r: RefSpec,
    file_dir: Seq<FsEntry>,
    root: Seq<FsEntry>,
    m: Seq<(Seq<u8>, Seq<u8>)>,
) -> Option<NameSpec> {
    match r.hint {
        Some(h) => Some(NameSpec { name: h, hinted: true }),
        None => {
            if r.module.len() > 0 && r.module[0] == 46 {
                None
            } else {
                let top = first_segment(r.module);
                if is_local(top, file_dir, root) {
                    None
                } else {
                    match lookup(m, top) {
                        Some(p) => Some(NameSpec { name: p, hinted: false }),
                        None => Some(NameSpec { name: top, hinted: false }),
                    }
                }
            }
        },
    }
}

/// What the references `refs` contribute from index `i` on, in order.
pub open spec fn resolve_refs(
    refs: Seq<RefSpec>,
    i: int,
    file_dir: Seq<FsEntry>,
    root: Seq<FsEntry>,
    m: Seq<(Seq<u8>, Seq<u8>)>,
) -> Seq<NameSpec>
    decreases refs.len() - i,
{
    if !(0 <= i < refs.len()) {
        Seq::empty()
    } else {
        match resolve_ref(refs[i], file_dir, root, m) {
            Some(n) => seq![n] + resolve_refs(refs, i + 1, file_dir, root, m),
            None => resolve_refs(refs, i + 1, file_dir, root, m),
        }
    }
}

/// The end of the run of bytes other than `.`, executable.
fn dot_end_x(s: &Vec<u8>, from: usize) -> (r: usize)
    requires
        from <= s.len(),
    ensures
        r as int == dot_end(s@, from as int),
        from <= r <= s.len(),
{
    let mut i: usize = from;
    while i < s.len() && s[i] != 46
        invariant
            from <= i <= s.len(),
            dot_end(s@, from as int) == dot_end(s@, i as int),
        decreases s.len() - i,
    {
        i += 1;
    }
    i
}

/// Resolves one reference against the scanned file's directory, the project
/// root and the mapping.
pub fn resolve_reference(
    r: &RawRef,
    file_dir: &Vec<FsEntry>,
    project_root: &Vec<FsEntry>,
    mapping: &MappingTable,
) -> (o: Option<ResolvedName>)
    ensures
        o.deep_view() == resolve_ref(r@, file_dir@, project_root@, mapping@),
{
    match &r.hint {
        Some(h) => {
            let name = copy_bytes(h);
            proof {
                assert(r@.hint == Some(h@));
            }
            Some(ResolvedName { name, hinted: true })
        },
        None => {
            proof {
                assert(r@.hint is None);
            }
            if r.module.len() > 0 && r.module[0] == 46 {
                return None;
            }
            let e = dot_end_x(&r.module, 0);
            let top = copy_range(&r.module, 0, e);
            if is_local_module(&top, file_dir, project_root) {
                None
            } else {
                let looked = mapping.get(&top);
                match looked {
                    Some(p) => {
                        proof {
                            assert(p.deep_view() =~= p@);
                        }
                        Some(ResolvedName { name: p, hinted: false })
                    },
                    None => Some(ResolvedName { name: top, hinted: false }),
                }
            }
        },
    }
}

/// Scans one source text and resolves each of its references; the order of
/// occurrence is kept, and nothing is yet filtered against the standard
/// library.
pub fn extract_imported_libraries(
    content: &Vec<u8>,
    file_dir: &Vec<FsEntry>,
    project_root: &Vec<FsEntry>,
    mapping: &MappingTable,
) -> (r: Vec<ResolvedName>)
    ensures
        r.deep_view() == resolve_refs(source_refs(content@), 0, file_dir@, project_root@, mapping@),
{
    let refs = scan_source(content);
    let ghost rv = refs.deep_view();
    let mut r: Vec<ResolvedName> = Vec::new();
    let mut i: usize = 0;
    proof {
        assert(r.deep_view() + resolve_refs(rv, 0, file_dir@, project_root@, mapping@)
            =~= resolve_refs(rv, 0, file_dir@, project_root@, mapping@));
    }
    while i < refs.len()
        invariant
            i <= refs.len(),
            rv == refs.deep_view(),
            rv.len() == refs.len(),
            resolve_refs(rv, 0, file_dir@, project_root@, mapping@) == r.deep_view()
                + resolve_refs(rv, i as int, file_dir@, project_root@, mapping@),
        decreases refs.len() - i,
    {
        proof {
            assert(refs@[i as int]@ == rv[i as int]);
        }
        let o = resolve_reference(&refs[i], file_dir, project_root, mapping);
        let ghost old_dv = r.deep_view();
        match o {
            Some(n) => {
                r.push(n);
                proof {
                    assert(r.deep_view() =~= old_dv.push(n@));
                    assert(resolve_refs(rv, i as int, file_dir@, project_root@, mapping@) == seq![
                        n@,
                    ] + resolve_refs(rv, i + 1, file_dir@, project_root@, mapping@));
                    assert(old_dv + resolve_refs(rv, i as int, file_dir@, project_root@, mapping@)
                        =~= r.deep_view() + resolve_refs(
                        rv,
                        i + 1,
                        file_dir@,
                        project_root@,
                        mapping@,
                    ));
                }
            },
            None => {
                proof {
                    assert(resolve_refs(rv, i as int, file_dir@, project_root@, mapping@)
                        == resolve_refs(rv, i + 1, file_dir@, project_root@, mapping@));
                }
            },
        }
        i += 1;
    }
    proof {
        assert(r.deep_view() + resolve_refs(rv, rv.len() as int, file_dir@, project_root@, mapping@)
            =~= r.deep_view());
    }
    r
}

/// Every resolved name of every Python source file under a directory, in
/// walk order: a file's directory is the one that holds it, the project
/// root is the scanned root.
pub open spec fn scan_from(
    entries: Seq<FsEntry>,
    i: int,
    root: Seq<FsEntry>,
    m: Seq<(Seq<u8>, Seq<u8>)>,
) -> Seq<NameSpec>
    decreases entries, entries.len() - i,
{
    if !(0 <= i < entries.len()) {
        Seq::empty()
    } else {
        match entries[i] {
            FsEntry::File { name, content } => {
                if has_py_ext(name@) {
                    resolve_refs(source_refs(content@), 0, entries, root, m) + scan_from(
                        entries,
                        i + 1,
                        root,
                        m,
                    )
                } else {
                    scan_from(entries, i + 1, root, m)
                }
            },
            FsEntry::Dir { name, entries: sub } => {
                if !ignored_dir(name@) {
                    scan_from(sub@, 0, root, m) + scan_from(entries, i + 1, root, m)
                } else {
                    scan_from(entries, i + 1, root, m)
                }
            },
        }
    }
}

/// Appends the resolved names of every source file under `entries`.
fn collect_resolved(
    entries: &Vec<FsEntry>,
    root: &Vec<FsEntry>,
    mapping: &MappingTable,
    acc: &mut Vec<ResolvedName>,
)
    ensures
        final(acc).deep_view() == old(acc).deep_view() + scan_from(entries@, 0, root@, mapping@),
    decreases entries@,
{
    let ghost base = acc.deep_view();
    let mut i: usize = 0;
    proof {
        assert(base + Seq::<NameSpec>::empty() =~= base);
    }
    while i < entries.len()
        invariant
            i <= entries.len(),
            acc.deep_view() + scan_from(entries@, i as int, root@, mapping@) == base + scan_from(
                entries@,
                0,
                root@,
                mapping@,
            ),
        decreases entries.len() - i,
    {
        match &entries[i] {
            FsEntry::File { name, content } => {
                if has_py_ext_x(name) {
                    let mut libs = extract_imported_libraries(content, entries, root, mapping);
                    let ghost old_dv = acc.deep_view();
                    let ghost libs_dv = libs.deep_view();
                    acc.append(&mut libs);
                    proof {
                        assert(acc.deep_view() =~= old_dv + libs_dv);
                        assert(scan_from(entries@, i as int, root@, mapping@) == libs_dv
                            + scan_from(entries@, i + 1, root@, mapping@));
                        assert(old_dv + scan_from(entries@, i as int, root@, mapping@)
                            =~= acc.deep_view() + scan_from(entries@, i + 1, root@, mapping@));
                    }
                }
            },
            FsEntry::Dir { name, entries: sub } => {
                if !is_ignored_dir(name) {
                    let ghost old_dv = acc.deep_view();
                    collect_resolved(sub, root, mapping, acc);
                    proof {
                        assert(scan_from(entries@, i as int, root@, mapping@) == scan_from(
                            sub@,
                            0,
                            root@,
                            mapping@,
                        ) + scan_from(entries@, i + 1, root@, mapping@));
                        assert(old_dv + scan_from(entries@, i as int, root@, mapping@)
                            =~= acc.deep_view() + scan_from(entries@, i + 1, root@, mapping@));
                    }
                }
            },
        }
        i += 1;
    }
    proof {
        assert(acc.deep_view() + scan_from(entries@, entries@.len() as int, root@, mapping@)
            =~= acc.deep_view());
    }
}

/// The standard-library filter over resolved names from index `i` on: a
/// hinted name always stays; any other name stays only when the registry
/// does not list it. The survivors' names are kept in order.
pub open spec fn filter_std(names: Seq<NameSpec>, i: int, std: Seq<Seq<u8>>) -> Seq<Seq<u8>>
    decreases names.len() - i,
{
    if !(0 <= i < names.len()) {
        Seq::empty()
    } else {
        let rest = filter_std(names, i + 1, std);
        if names[i].hinted || !std.contains(names[i].name) {
            seq![names[i].name] + rest
        } else {
            rest
        }
    }
}

/// Applies the standard-library filter, executable.
pub fn filter_standard(names: &Vec<ResolvedName>, stdlib: &StdlibSet) -> (r: Vec<Vec<u8>>)
    ensures
        r.deep_view() == filter_std(names.deep_view(), 0, stdlib@),
{
    let ghost nv = names.deep_view();
    let mut r: Vec<Vec<u8>> = Vec::new();
    let mut i: usize = 0;
    proof {
        assert(r.deep_view() + filter_std(nv, 0, stdlib@) =~= filter_std(nv, 0, stdlib@));
    }
    while i < names.len()
        invariant
            i <= names.len(),
            nv == names.deep_view(),
            nv.len() == names.len(),
            filter_std(nv, 0, stdlib@) == r.deep_view() + filter_std(nv, i as int, stdlib@),
        decreases names.len() - i,
    {
        proof {
            assert(nv[i as int] == names@[i as int]@);
        }
        let keep = if names[i].hinted {
            true
        } else {
            !stdlib.contains(&names[i].name)
        };
        let ghost old_dv = r.deep_view();
        if keep {
            let n = copy_bytes(&names[i].name);
            proof {
                assert(n.deep_view() =~= n@);
            }
            r.push(n);
            proof {
                assert(r.deep_view() =~= old_dv.push(nv[i as int].name));
                assert(filter_std(nv, i as int, stdlib@) == seq![nv[i as int].name] + filter_std(
                    nv,
                    i + 1,
                    stdlib@,
                ));
                assert(old_dv + filter_std(nv, i as int, stdlib@) =~= r.deep_view() + filter_std(
                    nv,
                    i + 1,
                    stdlib@,
                ));
            }
        } else {
            proof {
                assert(filter_std(nv, i as int, stdlib@) == filter_std(nv, i + 1, stdlib@));
            }
        }
        i += 1;
    }
    proof {
        assert(r.deep_view() + filter_std(nv, nv.len() as int, stdlib@) =~= r.deep_view());
    }
    r
}

/// The package list for a project directory: the manifest's tokens when a
/// manifest stands beneath the root — scanning then plays no part — else
/// every scanned and resolved name that survives the standard-library
/// filter; either way sorted with duplicates removed.
pub open spec fn dir_result(
    root: Seq<FsEntry>,
    m: Seq<(Seq<u8>, Seq<u8>)>,
    std: Seq<Seq<u8>>,
) -> Seq<Seq<u8>> {
    match manifest_from(root, 0, 0) {
        Some(c) => sorted_dedup(manifest_list(c)),
        None => sorted_dedup(filter_std(scan_from(root, 0, root, m), 0, std)),
    }
}

/// The package list for a single source file scanned on its own: its
/// directory serves as both scan context and project root.
pub open spec fn file_result(
    content: Seq<u8>,
    dir: Seq<FsEntry>,
    m: Seq<(Seq<u8>, Seq<u8>)>,
    std: Seq<Seq<u8>>,
) -> Seq<Seq<u8>> {
    sorted_dedup(filter_std(resolve_refs(source_refs(content), 0, dir, dir, m), 0, std))
}

/// Resolves a whole project directory to its package list.
pub fn extract_libraries_from_directory(
    root: &Vec<FsEntry>,
    mapping: &MappingTable,
    stdlib: &StdlibSet,
) -> (r: Vec<Vec<u8>>)
    ensures
        r.deep_view() == dir_result(root@, mapping@, stdlib@),
        strictly_sorted(r.deep_view()),
        forall|p: int, q: int| 0 <= p < q < r.deep_view().len() ==> r.deep_view()[p]
            != r.deep_view()[q],
{
    let found = find_requirements_txt(root);
    let r = match found {
        Some(c) => {
            proof {
                assert(c.deep_view() =~= c@);
            }
            let toks = parse_requirements_txt(&c);
            proof {
                lemma_sorted_dedup_of_dedup_first(manifest_list(c@));
            }
            sort_names(&toks)
        },
        None => {
            let mut acc: Vec<ResolvedName> = Vec::new();
            proof {
                assert(acc.deep_view() =~= Seq::<NameSpec>::empty());
                assert(Seq::<NameSpec>::empty() + scan_from(root@, 0, root@, mapping@)
                    =~= scan_from(root@, 0, root@, mapping@));
            }
            collect_resolved(root, root, mapping, &mut acc);
            let names = filter_standard(&acc, stdlib);
            sort_names(&names)
        },
    };
    proof {
        lemma_strictly_sorted_distinct(r.deep_view());
    }
    r
}

/// Resolves a single source file to its package list.
pub fn extract_libraries_from_file(
    content: &Vec<u8>,
    file_dir: &Vec<FsEntry>,
    mapping: &MappingTable,
    stdlib: &StdlibSet,
) -> (r: Vec<Vec<u8>>)
    ensures
        r.deep_view() == file_result(content@, file_dir@, mapping@, stdlib@),
        strictly_sorted(r.deep_view()),
        forall|p: int, q: int| 0 <= p < q < r.deep_view().len() ==> r.deep_view()[p]
            != r.deep_view()[q],
{
    let resolved = extract_imported_libraries(content, file_dir, file_dir, mapping);
    let names = filter_standard(&resolved, stdlib);
    let r = sort_names(&names);
    proof {
        lemma_strictly_sorted_distinct(r.deep_view());
    }
    r
}

} // verus!
