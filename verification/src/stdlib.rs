//! The standard-library registry: the set of module names bundled with the
//! Python runtime, and the parser for the listing the runtime prints for
//! `list(sys.stdlib_module_names)` — a bracketed, comma-separated sequence
//! of quoted names.

use vstd::prelude::*;

use crate::bytes::bytes_eq;
use crate::bytes::is_space;
use crate::scanner::copy_range;

verus! {

/// True for whitespace that `trim` removes: space bytes and newline.
pub open spec fn is_trim_space(c: u8) -> bool {
    is_space(c) || c == 10
}

/// Executable test for `is_trim_space`.
pub fn trim_space_byte(c: u8) -> (r: bool)
    ensures
        r == is_trim_space(c),
{
    c == 32 || c == 9 || c == 11 || c == 12 || c == 13 || c == 10
}

/// The first position at or after `i` whose byte `p` does not accept, where
/// `p` is one of the stripped classes below.
pub open spec fn skip_class(s: Seq<u8>, i: int, p: spec_fn(u8) -> bool) -> int
    decreases s.len() - i,
{
    if 0 <= i < s.len() && p(s[i]) {
        skip_class(s, i + 1, p)
    } else {
        i
    }
}

/// The position before `e` down to which bytes accepted by `p` reach, when
/// walking backwards from `e`.
pub open spec fn end_class(s: Seq<u8>, e: int, p: spec_fn(u8) -> bool) -> int
    decreases e,
{
    if 0 < e <= s.len() && p(s[e - 1]) {
        end_class(s, e - 1, p)
    } else {
        e
    }
}

/// Bytes accepted when stripping whitespace.
pub open spec fn ws_class() -> spec_fn(u8) -> bool {
    |c: u8| is_trim_space(c)
}

/// Bytes accepted when stripping single quotes.
pub open spec fn quote_class() -> spec_fn(u8) -> bool {
    |c: u8| c == 39
}

/// Bytes accepted when stripping a leading `[`.
pub open spec fn open_bracket_class() -> spec_fn(u8) -> bool {
    |c: u8| c == 91
}

/// Bytes accepted when stripping a trailing `]`.
pub open spec fn close_bracket_class() -> spec_fn(u8) -> bool {
    |c: u8| c == 93
}

/// `s` without leading bytes of class `p`.
pub open spec fn strip_start(s: Seq<u8>, p: spec_fn(u8) -> bool) -> Seq<u8> {
    s.subrange(skip_class(s, 0, p), s.len() as int)
}

/// `s` without trailing bytes of class `p`.
pub open spec fn strip_end(s: Seq<u8>, p: spec_fn(u8) -> bool) -> Seq<u8> {
    s.subrange(0, end_class(s, s.len() as int, p))
}

/// `s` trimmed of whitespace at both ends.
pub open spec fn strip_ws(s: Seq<u8>) -> Seq<u8> {
    strip_end(strip_start(s, ws_class()), ws_class())
}

/// `s` trimmed of single quotes at both ends.
pub open spec fn strip_quotes(s: Seq<u8>) -> Seq<u8> {
    strip_end(strip_start(s, quote_class()), quote_class())
}

/// `s` without leading `[` bytes and trailing `]` bytes.
pub open spec fn strip_brackets(s: Seq<u8>) -> Seq<u8> {
    strip_end(strip_start(s, open_bracket_class()), close_bracket_class())
}

/// One listed name: its piece of the listing trimmed of whitespace, then of
/// the quotes around it.
pub open spec fn listed_name(piece: Seq<u8>) -> Seq<u8> {
    strip_quotes(strip_ws(piece))
}

/// The position of the comma that ends the piece starting at `i`, or the
/// end of the text.
pub open spec fn comma_end(s: Seq<u8>, i: int) -> int
    decreases s.len() - i,
{
    if 0 <= i < s.len() && s[i] != 44 {
        comma_end(s, i + 1)
    } else {
        i
    }
}

/// `comma_end` stays within `[i, s.len()]`.
pub proof fn lemma_comma_end_bounds(s: Seq<u8>, i: int)
    requires
        0 <= i <= s.len(),
    ensures
        i <= comma_end(s, i) <= s.len(),
    decreases s.len() - i,
{
    if i < s.len() && s[i] != 44 {
        lemma_comma_end_bounds(s, i + 1);
    }
}

/// `comma_end` is the first comma at or after `i`.
pub proof fn lemma_comma_end_is(s: Seq<u8>, i: int, e: int)
    requires
        0 <= i <= e <= s.len(),
        forall|j: int| i <= j < e ==> s[j] != 44,
        e < s.len() ==> s[e] == 44,
    ensures
        comma_end(s, i) == e,
    decreases e - i,
{
    if i < e {
        lemma_comma_end_is(s, i + 1, e);
    }
}

/// The comma-separated pieces of `s` from position `i` on.
pub open spec fn pieces_from(s: Seq<u8>, i: int) -> Seq<Seq<u8>>
    decreases s.len() - i,
        when 0 <= i <= s.len()
        via pieces_from_decreases
{
    let e = comma_end(s, i);
    if e >= s.len() {
        seq![s.subrange(i, s.len() as int)]
    } else {
        seq![s.subrange(i, e)] + pieces_from(s, e + 1)
    }
}

#[via_fn]
proof fn pieces_from_decreases(s: Seq<u8>, i: int) {
    lemma_comma_end_bounds(s, i);
}

/// The names in the runtime's listing: the text trimmed, its brackets
/// removed, split at commas, each piece trimmed and unquoted.
pub open spec fn stdlib_names_of(out: Seq<u8>) -> Seq<Seq<u8>> {
    pieces_from(strip_brackets(strip_ws(out)), 0).map_values(|p: Seq<u8>| listed_name(p))
}

/// `s` with leading whitespace removed, executable.
fn strip_start_ws_x(s: &Vec<u8>) -> (r: Vec<u8>)
    ensures
        r@ == strip_start(s@, ws_class()),
{
    let mut i: usize = 0;
    while i < s.len() && trim_space_byte(s[i])
        invariant
            i <= s.len(),
            skip_class(s@, 0, ws_class()) == skip_class(s@, i as int, ws_class()),
        decreases s.len() - i,
    {
        proof {
            assert(ws_class()(s@[i as int]));
        }
        i += 1;
    }
    proof {
        if i < s.len() {
            assert(!ws_class()(s@[i as int]));
        }
    }
    copy_range(s, i, s.len())
}

/// `s` with trailing whitespace removed, executable.
fn strip_end_ws_x(s: &Vec<u8>) -> (r: Vec<u8>)
    ensures
        r@ == strip_end(s@, ws_class()),
{
    let mut e: usize = s.len();
    while e > 0 && trim_space_byte(s[e - 1])
        invariant
            e <= s.len(),
            end_class(s@, s@.len() as int, ws_class()) == end_class(s@, e as int, ws_class()),
        decreases e,
    {
        proof {
            assert(ws_class()(s@[e - 1]));
        }
        e -= 1;
    }
    proof {
        if e > 0 {
            assert(!ws_class()(s@[e - 1]));
        }
    }
    copy_range(s, 0, e)
}

/// `s` trimmed of whitespace at both ends, executable.
pub fn strip_ws_x(s: &Vec<u8>) -> (r: Vec<u8>)
    ensures
        r@ == strip_ws(s@),
{
    let t = strip_start_ws_x(s);
    strip_end_ws_x(&t)
}

/// `s` trimmed of single quotes at both ends, executable.
fn strip_quotes_x(s: &Vec<u8>) -> (r: Vec<u8>)
    ensures
        r@ == strip_quotes(s@),
{
    let mut i: usize = 0;
    while i < s.len() && s[i] == 39
        invariant
            i <= s.len(),
            skip_class(s@, 0, quote_class()) == skip_class(s@, i as int, quote_class()),
        decreases s.len() - i,
    {
        proof {
            assert(quote_class()(s@[i as int]));
        }
        i += 1;
    }
    proof {
        if i < s.len() {
            assert(!quote_class()(s@[i as int]));
        }
    }
    let t = copy_range(s, i, s.len());
    let mut e: usize = t.len();
    while e > 0 && t[e - 1] == 39
        invariant
            e <= t.len(),
            end_class(t@, t@.len() as int, quote_class()) == end_class(t@, e as int, quote_class()),
        decreases e,
    {
        proof {
            assert(quote_class()(t@[e - 1]));
        }
        e -= 1;
    }
    proof {
        if e > 0 {
            assert(!quote_class()(t@[e - 1]));
        }
    }
    copy_range(&t, 0, e)
}

/// `s` without leading `[` bytes and trailing `]` bytes, executable.
fn strip_brackets_x(s: &Vec<u8>) -> (r: Vec<u8>)
    ensures
        r@ == strip_brackets(s@),
{
    let mut i: usize = 0;
    while i < s.len() && s[i] == 91
        invariant
            i <= s.len(),
            skip_class(s@, 0, open_bracket_class()) == skip_class(
                s@,
                i as int,
                open_bracket_class(),
            ),
        decreases s.len() - i,
    {
        proof {
            assert(open_bracket_class()(s@[i as int]));
        }
        i += 1;
    }
    proof {
        if i < s.len() {
            assert(!open_bracket_class()(s@[i as int]));
        }
    }
    let t = copy_range(s, i, s.len());
    let mut e: usize = t.len();
    while e > 0 && t[e - 1] == 93
        invariant
            e <= t.len(),
            end_class(t@, t@.len() as int, close_bracket_class()) == end_class(
                t@,
                e as int,
                close_bracket_class(),
            ),
        decreases e,
    {
        proof {
            assert(close_bracket_class()(t@[e - 1]));
        }
        e -= 1;
    }
    proof {
        if e > 0 {
            assert(!close_bracket_class()(t@[e - 1]));
        }
    }
    copy_range(&t, 0, e)
}

/// Splits `s` at commas, executable.
fn split_commas_x(s: &Vec<u8>) -> (r: Vec<Vec<u8>>)
    ensures
        r.deep_view() == pieces_from(s@, 0),
{
    let ghost sv = s@;
    let mut r: Vec<Vec<u8>> = Vec::new();
    let mut start: usize = 0;
    let mut i: usize = 0;
    while i < s.len()
        invariant
            start <= i <= s.len(),
            sv == s@,
            forall|j: int| start <= j < i ==> sv[j] != 44,
            pieces_from(sv, 0) == r.deep_view() + pieces_from(sv, start as int),
        decreases s.len() - i,
    {
        if s[i] == 44 {
            let piece = copy_range(s, start, i);
            proof {
                lemma_comma_end_is(sv, start as int, i as int);
                assert(piece.deep_view() =~= piece@);
                let old_dv = r.deep_view();
                assert(pieces_from(sv, start as int) == seq![sv.subrange(start as int, i as int)]
                    + pieces_from(sv, i + 1));
                assert(old_dv + pieces_from(sv, start as int) =~= old_dv.push(piece@)
                    + pieces_from(sv, i + 1));
            }
            let ghost old_dv = r.deep_view();
            r.push(piece);
            proof {
                assert(r.deep_view() =~= old_dv.push(sv.subrange(start as int, i as int)));
            }
            start = i + 1;
        }
        i += 1;
    }
    let piece = copy_range(s, start, s.len());
    proof {
        lemma_comma_end_is(sv, start as int, sv.len() as int);
        assert(piece.deep_view() =~= piece@);
        assert(pieces_from(sv, start as int) == seq![sv.subrange(start as int, sv.len() as int)]);
    }
    let ghost old_dv = r.deep_view();
    r.push(piece);
    proof {
        assert(r.deep_view() =~= old_dv.push(sv.subrange(start as int, sv.len() as int)));
        assert(old_dv + pieces_from(sv, start as int) =~= r.deep_view());
    }
    r
}

/// The set of standard-library module names. Built once per run and
/// immutable thereafter; used only as a membership test.
pub struct StdlibSet {
    names: Vec<Vec<u8>>,
}

impl View for StdlibSet {
    type V = Seq<Seq<u8>>;

    closed spec fn view(&self) -> Seq<Seq<u8>> {
        self.names.deep_view()
    }
}

impl StdlibSet {
    /// A registry holding exactly the given names.
    pub fn from_names(names: Vec<Vec<u8>>) -> (r: StdlibSet)
        ensures
            r@ == names.deep_view(),
    {
        StdlibSet { names }
    }

    /// Whether `name` is a standard-library module name.
    pub fn contains(&self, name: &Vec<u8>) -> (r: bool)
        ensures
            r == self@.contains(name@),
    {
        let mut i: usize = 0;
        while i < self.names.len()
            invariant
                i <= self.names.len(),
                self@.len() == self.names.len(),
                forall|j: int| 0 <= j < i ==> self@[j] != name@,
            decreases self.names.len() - i,
        {
            proof {
                assert(self@[i as int] =~= self.names@[i as int]@);
            }
            if bytes_eq(&self.names[i], name) {
                return true;
            }
            i += 1;
        }
        proof {
            if self@.contains(name@) {
                let k = choose|k: int| 0 <= k < self@.len() && self@[k] == name@;
            }
        }
        false
    }
}

/// Parses the runtime's standard-library listing into the registry.
pub fn parse_standard_libraries(out: &Vec<u8>) -> (r: StdlibSet)
    ensures
        r@ == stdlib_names_of(out@),
{
    let t = strip_ws_x(out);
    let core = strip_brackets_x(&t);
    let pieces = split_commas_x(&core);
    let ghost pv = pieces.deep_view();
    let mut names: Vec<Vec<u8>> = Vec::new();
    let mut i: usize = 0;
    while i < pieces.len()
        invariant
            i <= pieces.len(),
            pv == pieces.deep_view(),
            pv.len() == pieces.len(),
            names.deep_view().len() == i,
            forall|j: int| 0 <= j < i ==> names.deep_view()[j] == listed_name(pv[j]),
        decreases pieces.len() - i,
    {
        proof {
            assert(pv[i as int] =~= pieces@[i as int]@);
        }
        let w1 = strip_ws_x(&pieces[i]);
        let one = strip_quotes_x(&w1);
        let ghost old_dv = names.deep_view();
        proof {
            assert(one.deep_view() =~= one@);
        }
        names.push(one);
        proof {
            assert(names.deep_view() =~= old_dv.push(one@));
        }
        i += 1;
    }
    proof {
        assert(names.deep_view() =~= pv.map_values(|p: Seq<u8>| listed_name(p)));
    }
    StdlibSet::from_names(names)
}

} // verus!
