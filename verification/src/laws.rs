//! The resolver's laws: properties of the pipeline as a whole, stated over
//! the same specification functions that the executable functions' contracts
//! use.

use vstd::prelude::*;

use crate::bytes::dedup_first;
use crate::bytes::lemma_sorted_dedup;
use crate::bytes::lemma_sorted_dedup_of_dedup_first;
use crate::bytes::lemma_strictly_sorted_distinct;
use crate::bytes::sorted_dedup;
use crate::fstree::FsEntry;
use crate::fstree::has_py_ext;
use crate::fstree::ignored_dir;
use crate::fstree::manifest_from;
use crate::manifest::manifest_list;
use crate::resolve::NameSpec;
use crate::resolve::dir_result;
use crate::resolve::file_result;
use crate::resolve::filter_std;
use crate::resolve::resolve_ref;
use crate::resolve::resolve_refs;
use crate::resolve::scan_from;
use crate::scanner::RefSpec;
use crate::scanner::source_refs;

verus! {

/// Determinism, hence idempotence: the package list is a function of the
/// project tree, the mapping and the registry alone, so resolving an
/// unchanged project twice yields the identical list. Both the directory
/// and the single-file pipeline are covered.
pub proof fn lemma_resolution_deterministic(
    root1: Seq<FsEntry>,
    root2: Seq<FsEntry>,
    content1: Seq<u8>,
    content2: Seq<u8>,
    m1: Seq<(Seq<u8>, Seq<u8>)>,
    m2: Seq<(Seq<u8>, Seq<u8>)>,
    s1: Seq<Seq<u8>>,
    s2: Seq<Seq<u8>>,
)
    requires
        root1 == root2,
        content1 == content2,
        m1 == m2,
        s1 == s2,
    ensures
        dir_result(root1, m1, s1) == dir_result(root2, m2, s2),
        file_result(content1, root1, m1, s1) == file_result(content2, root2, m2, s2),
{
}

/// A reference whose module name is relative (dot-prefixed) contributes its
/// install hint when it carries one, and nothing at all otherwise: the
/// relative module name itself never reaches the output, whatever the
/// mapping or the directories hold.
pub proof fn lemma_relative_import_discarded(
    r: RefSpec,
    file_dir: Seq<FsEntry>,
    root: Seq<FsEntry>,
    m: Seq<(Seq<u8>, Seq<u8>)>,
)
    requires
        r.module.len() > 0,
        r.module[0] == 46,
    ensures
        resolve_ref(r, file_dir, root, m) == match r.hint {
            Some(h) => Some(NameSpec { name: h, hinted: true }),
            None => None::<NameSpec>,
        },
{
}

/// A reference that resolves to `n` puts `n` into the per-file list.
pub proof fn lemma_resolve_refs_contains(
    refs: Seq<RefSpec>,
    i: int,
    k: int,
    file_dir: Seq<FsEntry>,
    root: Seq<FsEntry>,
    m: Seq<(Seq<u8>, Seq<u8>)>,
    n: NameSpec,
)
    requires
        0 <= i <= k < refs.len(),
        resolve_ref(refs[k], file_dir, root, m) == Some(n),
    ensures
        resolve_refs(refs, i, file_dir, root, m).contains(n),
    decreases k - i,
{
    if i == k {
        assert(resolve_refs(refs, i, file_dir, root, m)[0] == n);
    } else {
        lemma_resolve_refs_contains(refs, i + 1, k, file_dir, root, m, n);
        let rest = resolve_refs(refs, i + 1, file_dir, root, m);
        let t = choose|t: int| 0 <= t < rest.len() && rest[t] == n;
        match resolve_ref(refs[i], file_dir, root, m) {
            Some(x) => {
                assert(resolve_refs(refs, i, file_dir, root, m)[t + 1] == n);
            },
            None => {},
        }
    }
}

/// Only references put names into the per-file list: whatever it contains,
/// some reference resolved to it.
pub proof fn lemma_resolve_refs_only(
    refs: Seq<RefSpec>,
    i: int,
    file_dir: Seq<FsEntry>,
    root: Seq<FsEntry>,
    m: Seq<(Seq<u8>, Seq<u8>)>,
    n: NameSpec,
)
    requires
        0 <= i,
        resolve_refs(refs, i, file_dir, root, m).contains(n),
    ensures
        exists|k: int|
            i <= k < refs.len() && resolve_ref(#[trigger] refs[k], file_dir, root, m) == Some(n),
    decreases refs.len() - i,
{
    let whole = resolve_refs(refs, i, file_dir, root, m);
    let t = choose|t: int| 0 <= t < whole.len() && whole[t] == n;
    match resolve_ref(refs[i], file_dir, root, m) {
        Some(x) => {
            if t == 0 {
                assert(resolve_ref(refs[i], file_dir, root, m) == Some(n));
            } else {
                let rest = resolve_refs(refs, i + 1, file_dir, root, m);
                assert(rest[t - 1] == n);
                lemma_resolve_refs_only(refs, i + 1, file_dir, root, m, n);
            }
        },
        None => {
            lemma_resolve_refs_only(refs, i + 1, file_dir, root, m, n);
        },
    }
}

/// Only surviving resolved names pass the standard-library filter: whatever
/// it keeps was among the resolved names, either hinted or unknown to the
/// registry.
pub proof fn lemma_filter_std_only(names: Seq<NameSpec>, i: int, std: Seq<Seq<u8>>, y: Seq<u8>)
    requires
        0 <= i,
        filter_std(names, i, std).contains(y),
    ensures
        exists|k: int|
            i <= k < names.len() && (#[trigger] names[k]).name == y && (names[k].hinted
                || !std.contains(y)),
    decreases names.len() - i,
{
    let whole = filter_std(names, i, std);
    let t = choose|t: int| 0 <= t < whole.len() && whole[t] == y;
    if names[i].hinted || !std.contains(names[i].name) {
        if t == 0 {
            assert(names[i].name == y && (names[i].hinted || !std.contains(y)));
        } else {
            let rest = filter_std(names, i + 1, std);
            assert(rest[t - 1] == y);
            lemma_filter_std_only(names, i + 1, std, y);
        }
    } else {
        lemma_filter_std_only(names, i + 1, std, y);
    }
}

/// Every name in a single-file run's package list is what some scanned
/// reference resolved to. With `lemma_relative_import_discarded` this pins
/// down where a listed name can come from: an install hint, or the mapped
/// top-level segment of a reference that was neither relative nor local —
/// a relative reference's own module name is never among them.
pub proof fn lemma_file_result_names_sourced(
    content: Seq<u8>,
    dir: Seq<FsEntry>,
    m: Seq<(Seq<u8>, Seq<u8>)>,
    std: Seq<Seq<u8>>,
    y: Seq<u8>,
)
    requires
        file_result(content, dir, m, std).contains(y),
    ensures
        exists|k: int|
            0 <= k < source_refs(content).len() && (resolve_ref(
                #[trigger] source_refs(content)[k],
                dir,
                dir,
                m,
            ) matches Some(n) && n.name == y),
{
    let refs = source_refs(content);
    let names = resolve_refs(refs, 0, dir, dir, m);
    lemma_sorted_dedup(filter_std(names, 0, std));
    lemma_filter_std_only(names, 0, std, y);
    let k2 = choose|k2: int|
        0 <= k2 < names.len() && (#[trigger] names[k2]).name == y && (names[k2].hinted
            || !std.contains(y));
    assert(names.contains(names[k2]));
    lemma_resolve_refs_only(refs, 0, dir, dir, m, names[k2]);
}

/// A hinted resolved name passes the standard-library filter, even when the
/// registry lists it.
pub proof fn lemma_filter_keeps_hinted(names: Seq<NameSpec>, i: int, k: int, std: Seq<Seq<u8>>)
    requires
        0 <= i <= k < names.len(),
        names[k].hinted,
    ensures
        filter_std(names, i, std).contains(names[k].name),
    decreases k - i,
{
    if i == k {
        assert(filter_std(names, i, std)[0] == names[k].name);
    } else {
        lemma_filter_keeps_hinted(names, i + 1, k, std);
        let rest = filter_std(names, i + 1, std);
        let t = choose|t: int| 0 <= t < rest.len() && rest[t] == names[k].name;
        if names[i].hinted || !std.contains(names[i].name) {
            assert(filter_std(names, i, std)[t + 1] == names[k].name);
        }
    }
}

/// An explicit install hint's value appears in the package list of a
/// single-file run exactly once — it is in the list, and the list holds no
/// name twice — even when the hint's value or the reference's module is a
/// standard-library or local module, and whatever the mapping says.
pub proof fn lemma_hint_in_file_result(
    content: Seq<u8>,
    dir: Seq<FsEntry>,
    m: Seq<(Seq<u8>, Seq<u8>)>,
    std: Seq<Seq<u8>>,
    k: int,
    h: Seq<u8>,
)
    requires
        0 <= k < source_refs(content).len(),
        source_refs(content)[k].hint == Some(h),
    ensures
        file_result(content, dir, m, std).contains(h),
        forall|p: int, q: int|
            0 <= p < q < file_result(content, dir, m, std).len() ==> file_result(
                content,
                dir,
                m,
                std,
            )[p] != file_result(content, dir, m, std)[q],
{
    let refs = source_refs(content);
    let n = NameSpec { name: h, hinted: true };
    assert(resolve_ref(refs[k], dir, dir, m) == Some(n));
    lemma_resolve_refs_contains(refs, 0, k, dir, dir, m, n);
    let names = resolve_refs(refs, 0, dir, dir, m);
    let k2 = choose|t: int| 0 <= t < names.len() && names[t] == n;
    lemma_filter_keeps_hinted(names, 0, k2, std);
    lemma_sorted_dedup(filter_std(names, 0, std));
    lemma_strictly_sorted_distinct(file_result(content, dir, m, std));
}

/// One step of the directory walk: what a directory's own source file
/// resolved to, and what a subdirectory's walk gathered, is in the
/// directory's walk. Applied along a path from the root to a file, this
/// places any one file's resolved names — its hints among them — in the
/// whole project's scan.
pub proof fn lemma_scan_from_step(
    entries: Seq<FsEntry>,
    i: int,
    idx: int,
    root: Seq<FsEntry>,
    m: Seq<(Seq<u8>, Seq<u8>)>,
    n: NameSpec,
)
    requires
        0 <= i <= idx < entries.len(),
        match entries[idx] {
            FsEntry::File { name, content } => has_py_ext(name@) && resolve_refs(
                source_refs(content@),
                0,
                entries,
                root,
                m,
            ).contains(n),
            FsEntry::Dir { name, entries: sub } => !ignored_dir(name@) && scan_from(
                sub@,
                0,
                root,
                m,
            ).contains(n),
        },
    ensures
        scan_from(entries, i, root, m).contains(n),
    decreases idx - i,
{
    if i == idx {
        match entries[idx] {
            FsEntry::File { name, content } => {
                let part = resolve_refs(source_refs(content@), 0, entries, root, m);
                let t = choose|t: int| 0 <= t < part.len() && part[t] == n;
                assert(scan_from(entries, i, root, m)[t] == n);
            },
            FsEntry::Dir { name, entries: sub } => {
                let part = scan_from(sub@, 0, root, m);
                let t = choose|t: int| 0 <= t < part.len() && part[t] == n;
                assert(scan_from(entries, i, root, m)[t] == n);
            },
        }
    } else {
        lemma_scan_from_step(entries, i + 1, idx, root, m, n);
        let rest = scan_from(entries, i + 1, root, m);
        let t = choose|t: int| 0 <= t < rest.len() && rest[t] == n;
        match entries[i] {
            FsEntry::File { name, content } => {
                if has_py_ext(name@) {
                    let part = resolve_refs(source_refs(content@), 0, entries, root, m);
                    assert(scan_from(entries, i, root, m)[part.len() + t] == n);
                }
            },
            FsEntry::Dir { name, entries: sub } => {
                if !ignored_dir(name@) {
                    let part = scan_from(sub@, 0, root, m);
                    assert(scan_from(entries, i, root, m)[part.len() + t] == n);
                }
            },
        }
    }
}

/// Only the scan puts names into a directory run's list when no manifest
/// stands beneath the root: whatever the list contains, some scanned
/// reference resolved to it, and it was hinted or unknown to the registry.
pub proof fn lemma_directory_names_sourced(
    root: Seq<FsEntry>,
    m: Seq<(Seq<u8>, Seq<u8>)>,
    std: Seq<Seq<u8>>,
    y: Seq<u8>,
)
    requires
        manifest_from(root, 0, 0) is None,
        dir_result(root, m, std).contains(y),
    ensures
        exists|k: int|
            0 <= k < scan_from(root, 0, root, m).len() && (#[trigger] scan_from(
                root,
                0,
                root,
                m,
            )[k]).name == y && (scan_from(root, 0, root, m)[k].hinted || !std.contains(y)),
{
    let names = scan_from(root, 0, root, m);
    lemma_sorted_dedup(filter_std(names, 0, std));
    lemma_filter_std_only(names, 0, std, y);
}

/// With no manifest beneath the root, a hinted name among the scanned,
/// resolved references of the project appears in the directory run's
/// package list exactly once, whatever the registry and the mapping hold.
pub proof fn lemma_hint_in_directory_result(
    root: Seq<FsEntry>,
    m: Seq<(Seq<u8>, Seq<u8>)>,
    std: Seq<Seq<u8>>,
    k: int,
)
    requires
        manifest_from(root, 0, 0) is None,
        0 <= k < scan_from(root, 0, root, m).len(),
        scan_from(root, 0, root, m)[k].hinted,
    ensures
        dir_result(root, m, std).contains(scan_from(root, 0, root, m)[k].name),
        forall|p: int, q: int|
            0 <= p < q < dir_result(root, m, std).len() ==> dir_result(root, m, std)[p]
                != dir_result(root, m, std)[q],
{
    let names = scan_from(root, 0, root, m);
    lemma_filter_keeps_hinted(names, 0, k, std);
    lemma_sorted_dedup(filter_std(names, 0, std));
    lemma_strictly_sorted_distinct(dir_result(root, m, std));
}

/// A manifest beneath the scanned root is the entire result: the package
/// list is exactly the manifest reader's output — the manifest's tokens,
/// each name once — sorted, and neither the mapping, nor the registry, nor
/// anything scanning could contribute plays any part.
pub proof fn lemma_manifest_precedence(
    root: Seq<FsEntry>,
    c: Seq<u8>,
    m1: Seq<(Seq<u8>, Seq<u8>)>,
    s1: Seq<Seq<u8>>,
    m2: Seq<(Seq<u8>, Seq<u8>)>,
    s2: Seq<Seq<u8>>,
)
    requires
        manifest_from(root, 0, 0) == Some(c),
    ensures
        dir_result(root, m1, s1) == sorted_dedup(manifest_list(c)),
        dir_result(root, m1, s1) == sorted_dedup(dedup_first(manifest_list(c))),
        dir_result(root, m1, s1) == dir_result(root, m2, s2),
{
    lemma_sorted_dedup_of_dedup_first(manifest_list(c));
}

} // verus!
