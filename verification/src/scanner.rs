//! The module scanner: finds import statements in Python source text.
//!
//! A line is recognized when, after optional leading whitespace, it starts
//! with `from <module> import ...` or `import <module> ...`. The module is a
//! dotted name; only its text up to the first byte that is not a word byte or
//! `.` is taken. A trailing `# install: <package>` comment on a recognized
//! line is an explicit install hint and is captured with the reference.
//!
//! The keywords are matched case-sensitively, as the language defines them:
//! a case-insensitive match would take identifiers such as `Import` for
//! statements. The scanner does not understand execution context: an import
//! inside a conditional or `try` block counts like any other.

use vstd::prelude::*;

use crate::bytes::is_module_byte;
use crate::bytes::is_package_byte;
use crate::bytes::is_space;
use crate::bytes::module_byte;
use crate::bytes::package_byte;
use crate::bytes::space_byte;

verus! {

/// One import reference as the scanner reports it, in specification form:
/// the dotted module text and the install hint, if the line carried one.
pub struct RefSpec {
    pub module: Seq<u8>,
    pub hint: Option<Seq<u8>>,
}

/// One import reference as the scanner reports it.
pub struct RawRef {
    /// The dotted module text as written (e.g. `numpy.random`).
    pub module: Vec<u8>,
    /// The package named by a trailing `# install: <package>` comment.
    pub hint: Option<Vec<u8>>,
}

impl View for RawRef {
    type V = RefSpec;

    open spec fn view(&self) -> RefSpec {
        RefSpec {
            module: self.module@,
            hint: match self.hint {
                Some(h) => Some(h@),
                None => None,
            },
        }
    }
}

impl DeepView for RawRef {
    type V = RefSpec;

    open spec fn deep_view(&self) -> RefSpec {
        self.view()
    }
}

/// The first position at or after `i` that does not hold a space byte.
pub open spec fn skip_spaces(s: Seq<u8>, i: int) -> int
    decreases s.len() - i,
{
    if 0 <= i < s.len() && is_space(s[i]) {
        skip_spaces(s, i + 1)
    } else {
        i
    }
}

/// The end of the run of module bytes that starts at `i`.
pub open spec fn module_run_end(s: Seq<u8>, i: int) -> int
    decreases s.len() - i,
{
    if 0 <= i < s.len() && is_module_byte(s[i]) {
        module_run_end(s, i + 1)
    } else {
        i
    }
}

/// The end of the run of package-name bytes that starts at `i`.
pub open spec fn package_run_end(s: Seq<u8>, i: int) -> int
    decreases s.len() - i,
{
    if 0 <= i < s.len() && is_package_byte(s[i]) {
        package_run_end(s, i + 1)
    } else {
        i
    }
}

/// The word `from`.
pub open spec fn kw_from() -> Seq<u8> {
    seq![102u8, 114u8, 111u8, 109u8]
}

/// The word `import`.
pub open spec fn kw_import() -> Seq<u8> {
    seq![105u8, 109u8, 112u8, 111u8, 114u8, 116u8]
}

/// The directive `install:`.
pub open spec fn kw_install() -> Seq<u8> {
    seq![105u8, 110u8, 115u8, 116u8, 97u8, 108u8, 108u8, 58u8]
}

/// The text `kw` occurs in `s` at position `i`.
pub open spec fn starts_at(s: Seq<u8>, i: int, kw: Seq<u8>) -> bool {
    0 <= i && i + kw.len() <= s.len() && s.subrange(i, i + kw.len() as int) == kw
}

/// The module of a `from <module> import ...` line, if the line is one.
pub open spec fn from_module(line: Seq<u8>) -> Option<Seq<u8>> {
    let i = skip_spaces(line, 0);
    if starts_at(line, i, kw_from()) && i + 4 < line.len() && is_space(line[i + 4]) {
        let j = skip_spaces(line, i + 4);
        let k = module_run_end(line, j);
        if j < k && k < line.len() && is_space(line[k]) && starts_at(
            line,
            skip_spaces(line, k),
            kw_import(),
        ) {
            Some(line.subrange(j, k))
        } else {
            None
        }
    } else {
        None
    }
}

/// The module of an `import <module> ...` line, if the line is one.
pub open spec fn import_module(line: Seq<u8>) -> Option<Seq<u8>> {
    let i = skip_spaces(line, 0);
    if starts_at(line, i, kw_import()) && i + 6 < line.len() && is_space(line[i + 6]) {
        let j = skip_spaces(line, i + 6);
        let k = module_run_end(line, j);
        if j < k {
            Some(line.subrange(j, k))
        } else {
            None
        }
    } else {
        None
    }
}

/// The module of an import line of either form; `from` is tried first, as
/// the two forms cannot both apply to one line.
pub open spec fn line_module(line: Seq<u8>) -> Option<Seq<u8>> {
    if from_module(line) is Some {
        from_module(line)
    } else {
        import_module(line)
    }
}

/// The install hint of a `# install: <package>` comment whose `#` stands at
/// `i`, provided nothing but whitespace follows the package name.
pub open spec fn hint_at(line: Seq<u8>, i: int) -> Option<Seq<u8>> {
    let j = skip_spaces(line, i + 1);
    if starts_at(line, j, kw_install()) {
        let m = skip_spaces(line, j + 8);
        let k = package_run_end(line, m);
        if m < k && skip_spaces(line, k) == line.len() {
            Some(line.subrange(m, k))
        } else {
            None
        }
    } else {
        None
    }
}

/// The install hint found at or after position `i`, if any.
pub open spec fn hint_from(line: Seq<u8>, i: int) -> Option<Seq<u8>>
    decreases line.len() - i,
{
    if i >= line.len() {
        None
    } else if line[i] == 35 && hint_at(line, i) is Some {
        hint_at(line, i)
    } else {
        hint_from(line, i + 1)
    }
}

/// The install hint of a line, if it carries one.
pub open spec fn line_hint(line: Seq<u8>) -> Option<Seq<u8>> {
    hint_from(line, 0)
}

/// What the scanner reports for one line: nothing for a line that is not an
/// import statement, else the module together with the line's hint.
pub open spec fn line_reference(line: Seq<u8>) -> Option<RefSpec> {
    match line_module(line) {
        Some(m) => Some(RefSpec { module: m, hint: line_hint(line) }),
        None => None,
    }
}

/// The position of the newline that ends the line starting at `i`, or the
/// end of the text.
pub open spec fn line_end(s: Seq<u8>, i: int) -> int
    decreases s.len() - i,
{
    if 0 <= i < s.len() && s[i] != 10 {
        line_end(s, i + 1)
    } else {
        i
    }
}

/// `line_end` stays within `[i, s.len()]`.
pub proof fn lemma_line_end_bounds(s: Seq<u8>, i: int)
    requires
        0 <= i <= s.len(),
    ensures
        i <= line_end(s, i) <= s.len(),
    decreases s.len() - i,
{
    if i < s.len() && s[i] != 10 {
        lemma_line_end_bounds(s, i + 1);
    }
}

/// `line_end` is the first newline at or after `i`: a range free of
/// newlines that ends at a newline or at the end of the text determines it.
pub proof fn lemma_line_end_is(s: Seq<u8>, i: int, e: int)
    requires
        0 <= i <= e <= s.len(),
        forall|j: int| i <= j < e ==> s[j] != 10,
        e < s.len() ==> s[e] == 10,
    ensures
        line_end(s, i) == e,
    decreases e - i,
{
    if i < e {
        lemma_line_end_is(s, i + 1, e);
    }
}

/// The lines of `s` from position `i` on, split at newline bytes; the final
/// line is the text after the last newline, possibly empty.
pub open spec fn lines_from(s: Seq<u8>, i: int) -> Seq<Seq<u8>>
    decreases s.len() - i,
        when 0 <= i <= s.len()
        via lines_from_decreases
{
    let e = line_end(s, i);
    if e >= s.len() {
        seq![s.subrange(i, s.len() as int)]
    } else {
        seq![s.subrange(i, e)] + lines_from(s, e + 1)
    }
}

#[via_fn]
proof fn lines_from_decreases(s: Seq<u8>, i: int) {
    lemma_line_end_bounds(s, i);
}

/// The lines of a source text.
pub open spec fn lines_of(s: Seq<u8>) -> Seq<Seq<u8>> {
    lines_from(s, 0)
}

/// The references of the lines `ls` from index `i` on, in line order.
pub open spec fn refs_of_lines(ls: Seq<Seq<u8>>, i: int) -> Seq<RefSpec>
    decreases ls.len() - i,
{
    if !(0 <= i < ls.len()) {
        Seq::empty()
    } else {
        match line_reference(ls[i]) {
            Some(r) => seq![r] + refs_of_lines(ls, i + 1),
            None => refs_of_lines(ls, i + 1),
        }
    }
}

/// Every import reference of a source text, in order of occurrence.
pub open spec fn source_refs(content: Seq<u8>) -> Seq<RefSpec> {
    refs_of_lines(lines_of(content), 0)
}

/// A copy of `line[from..to]`.
pub fn copy_range(line: &Vec<u8>, from: usize, to: usize) -> (r: Vec<u8>)
    requires
        from <= to <= line.len(),
    ensures
        r@ == line@.subrange(from as int, to as int),
{
    let mut r: Vec<u8> = Vec::new();
    let mut i: usize = from;
    while i < to
        invariant
            from <= i <= to <= line.len(),
            r@ == line@.subrange(from as int, i as int),
        decreases to - i,
    {
        r.push(line[i]);
        proof {
            assert(r@ =~= line@.subrange(from as int, i + 1));
        }
        i += 1;
    }
    r
}

/// Executable `skip_spaces`.
pub fn skip_spaces_x(line: &Vec<u8>, from: usize) -> (r: usize)
    requires
        from <= line.len(),
    ensures
        r as int == skip_spaces(line@, from as int),
        from <= r <= line.len(),
{
    let mut i: usize = from;
    while i < line.len() && space_byte(line[i])
        invariant
            from <= i <= line.len(),
            skip_spaces(line@, from as int) == skip_spaces(line@, i as int),
        decreases line.len() - i,
    {
        i += 1;
    }
    i
}

/// Executable `module_run_end`.
pub fn module_run_end_x(line: &Vec<u8>, from: usize) -> (r: usize)
    requires
        from <= line.len(),
    ensures
        r as int == module_run_end(line@, from as int),
        from <= r <= line.len(),
{
    let mut i: usize = from;
    while i < line.len() && module_byte(line[i])
        invariant
            from <= i <= line.len(),
            module_run_end(line@, from as int) == module_run_end(line@, i as int),
        decreases line.len() - i,
    {
        i += 1;
    }
    i
}

/// Executable `package_run_end`.
pub fn package_run_end_x(line: &Vec<u8>, from: usize) -> (r: usize)
    requires
        from <= line.len(),
    ensures
        r as int == package_run_end(line@, from as int),
        from <= r <= line.len(),
{
    let mut i: usize = from;
    while i < line.len() && package_byte(line[i])
        invariant
            from <= i <= line.len(),
            package_run_end(line@, from as int) == package_run_end(line@, i as int),
        decreases line.len() - i,
    {
        i += 1;
    }
    i
}

/// Whether `kw` occurs in `line` at position `i`.
pub fn match_at(line: &Vec<u8>, i: usize, kw: &Vec<u8>) -> (r: bool)
    ensures
        r == starts_at(line@, i as int, kw@),
{
    if line.len() < kw.len() || i > line.len() - kw.len() {
        return false;
    }
    let mut j: usize = 0;
    while j < kw.len()
        invariant
            j <= kw.len(),
            i + kw.len() <= line.len(),
            forall|t: int| 0 <= t < j ==> line@[i + t] == kw@[t],
        decreases kw.len() - j,
    {
        if line[i + j] != kw[j] {
            proof {
                if starts_at(line@, i as int, kw@) {
                    assert(line@.subrange(i as int, i + kw@.len() as int)[j as int] == line@[i + j]);
                }
            }
            return false;
        }
        j += 1;
    }
    proof {
        assert(line@.subrange(i as int, i + kw@.len() as int) =~= kw@);
    }
    true
}

/// The word `from` as bytes.
pub fn from_kw() -> (r: Vec<u8>)
    ensures
        r@ == kw_from(),
{
    let mut r: Vec<u8> = Vec::new();
    r.push(102);
    r.push(114);
    r.push(111);
    r.push(109);
    proof {
        assert(r@ =~= kw_from());
    }
    r
}

/// The word `import` as bytes.
pub fn import_kw() -> (r: Vec<u8>)
    ensures
        r@ == kw_import(),
{
    let mut r: Vec<u8> = Vec::new();
    r.push(105);
    r.push(109);
    r.push(112);
    r.push(111);
    r.push(114);
    r.push(116);
    proof {
        assert(r@ =~= kw_import());
    }
    r
}

/// The directive `install:` as bytes.
pub fn install_kw() -> (r: Vec<u8>)
    ensures
        r@ == kw_install(),
{
    let mut r: Vec<u8> = Vec::new();
    r.push(105);
    r.push(110);
    r.push(115);
    r.push(116);
    r.push(97);
    r.push(108);
    r.push(108);
    r.push(58);
    proof {
        assert(r@ =~= kw_install());
    }
    r
}

/// The module of an import line of either form, executable.
fn parse_module(line: &Vec<u8>) -> (r: Option<Vec<u8>>)
    ensures
        match r {
            Some(v) => line_module(line@) == Some(v@),
            None => line_module(line@) is None,
        },
{
    let i = skip_spaces_x(line, 0);
    let fk = from_kw();
    let ik = import_kw();
    if match_at(line, i, &fk) {
        proof {
            assert(!starts_at(line@, i as int, kw_import())) by {
                if starts_at(line@, i as int, kw_import()) {
                    assert(line@.subrange(i as int, i + 6int)[0] == line@[i as int]);
                    assert(line@.subrange(i as int, i + 4int)[0] == line@[i as int]);
                }
            }
        }
        if line.len() - i > 4 && space_byte(line[i + 4]) {
            let j = skip_spaces_x(line, i + 4);
            let k = module_run_end_x(line, j);
            if j < k && k < line.len() && space_byte(line[k]) {
                let m = skip_spaces_x(line, k);
                if match_at(line, m, &ik) {
                    return Some(copy_range(line, j, k));
                }
            }
            return None;
        }
        return None;
    }
    if match_at(line, i, &ik) {
        if line.len() - i > 6 && space_byte(line[i + 6]) {
            let j = skip_spaces_x(line, i + 6);
            let k = module_run_end_x(line, j);
            if j < k {
                return Some(copy_range(line, j, k));
            }
        }
        return None;
    }
    None
}

/// The install hint of the comment whose `#` stands at `i`, executable.
fn try_hint_at(line: &Vec<u8>, i: usize) -> (r: Option<Vec<u8>>)
    requires
        i < line.len(),
    ensures
        match r {
            Some(v) => hint_at(line@, i as int) == Some(v@),
            None => hint_at(line@, i as int) is None,
        },
{
    let j = skip_spaces_x(line, i + 1);
    let kw = install_kw();
    if match_at(line, j, &kw) {
        let m = skip_spaces_x(line, j + 8);
        let k = package_run_end_x(line, m);
        if m < k {
            let e = skip_spaces_x(line, k);
            if e == line.len() {
                return Some(copy_range(line, m, k));
            }
        }
        return None;
    }
    None
}

/// The install hint of a line, executable.
fn parse_hint(line: &Vec<u8>) -> (r: Option<Vec<u8>>)
    ensures
        match r {
            Some(v) => line_hint(line@) == Some(v@),
            None => line_hint(line@) is None,
        },
{
    let mut i: usize = 0;
    while i < line.len()
        invariant
            i <= line.len(),
            line_hint(line@) == hint_from(line@, i as int),
        decreases line.len() - i,
    {
        if line[i] == 35 {
            let h = try_hint_at(line, i);
            match h {
                Some(v) => {
                    return Some(v);
                },
                None => {},
            }
        }
        i += 1;
    }
    None
}

/// One scanned line: the reference it contributes, if it is an import line.
pub fn parse_line(line: &Vec<u8>) -> (r: Option<RawRef>)
    ensures
        match r {
            Some(rr) => line_reference(line@) == Some(rr@),
            None => line_reference(line@) is None,
        },
{
    match parse_module(line) {
        None => None,
        Some(m) => {
            let hint = parse_hint(line);
            Some(RawRef { module: m, hint })
        },
    }
}

/// Splits a source text into its lines.
pub fn split_lines(content: &Vec<u8>) -> (r: Vec<Vec<u8>>)
    ensures
        r.deep_view() == lines_of(content@),
{
    let ghost s = content@;
    let mut r: Vec<Vec<u8>> = Vec::new();
    let mut start: usize = 0;
    let mut i: usize = 0;
    while i < content.len()
        invariant
            start <= i <= content.len(),
            s == content@,
            forall|j: int| start <= j < i ==> s[j] != 10,
            lines_of(s) == r.deep_view() + lines_from(s, start as int),
        decreases content.len() - i,
    {
        if content[i] == 10 {
            let line = copy_range(content, start, i);
            proof {
                lemma_line_end_is(s, start as int, i as int);
                assert(line.deep_view() =~= line@);
                let old_dv = r.deep_view();
                assert(lines_from(s, start as int) == seq![s.subrange(start as int, i as int)]
                    + lines_from(s, i + 1));
                assert(old_dv + lines_from(s, start as int) =~= old_dv.push(line@) + lines_from(
                    s,
                    i + 1,
                ));
            }
            let ghost old_dv = r.deep_view();
            r.push(line);
            proof {
                assert(r.deep_view() =~= old_dv.push(s.subrange(start as int, i as int)));
            }
            start = i + 1;
        }
        i += 1;
    }
    let line = copy_range(content, start, content.len());
    proof {
        lemma_line_end_is(s, start as int, s.len() as int);
        assert(line.deep_view() =~= line@);
        assert(lines_from(s, start as int) == seq![s.subrange(start as int, s.len() as int)]);
    }
    let ghost old_dv = r.deep_view();
    r.push(line);
    proof {
        assert(r.deep_view() =~= old_dv.push(s.subrange(start as int, s.len() as int)));
        assert(old_dv + lines_from(s, start as int) =~= r.deep_view());
    }
    r
}

/// Scans a source text and returns every import reference in order.
pub fn scan_source(content: &Vec<u8>) -> (refs: Vec<RawRef>)
    ensures
        refs.deep_view() == source_refs(content@),
{
    let lines = split_lines(content);
    let ghost ls = lines.deep_view();
    let mut refs: Vec<RawRef> = Vec::new();
    let mut i: usize = 0;
    while i < lines.len()
        invariant
            i <= lines.len(),
            ls == lines.deep_view(),
            ls.len() == lines.len(),
            refs_of_lines(ls, 0) == refs.deep_view() + refs_of_lines(ls, i as int),
        decreases lines.len() - i,
    {
        proof {
            assert(ls[i as int] =~= lines@[i as int]@);
        }
        let rr = parse_line(&lines[i]);
        let ghost old_dv = refs.deep_view();
        match rr {
            Some(one) => {
                refs.push(one);
                proof {
                    assert(refs.deep_view() =~= old_dv.push(one@));
                    assert(refs_of_lines(ls, i as int) == seq![one@] + refs_of_lines(ls, i + 1));
                    assert(old_dv + refs_of_lines(ls, i as int) =~= refs.deep_view()
                        + refs_of_lines(ls, i + 1));
                }
            },
            None => {
                proof {
                    assert(refs_of_lines(ls, i as int) == refs_of_lines(ls, i + 1));
                }
            },
        }
        i += 1;
    }
    proof {
        assert(refs.deep_view() + refs_of_lines(ls, ls.len() as int) =~= refs.deep_view());
    }
    refs
}

} // verus!
