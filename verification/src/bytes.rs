//! Bytes and byte strings: character classes used by the import grammar,
//! lexicographic order on byte strings, and sorted, duplicate-free name lists.

use vstd::prelude::*;

verus! {

/// True for the ASCII whitespace bytes that may separate tokens inside a
/// single line (tab, vertical tab, form feed, carriage return, space;
/// newline excluded: scanning is line by line).
pub open spec fn is_space(c: u8) -> bool {
    c == 32 || c == 9 || c == 11 || c == 12 || c == 13
}

/// True for bytes that may appear in an identifier: ASCII letters, digits, `_`.
pub open spec fn is_word_byte(c: u8) -> bool {
    (48 <= c && c <= 57) || (65 <= c && c <= 90) || (97 <= c && c <= 122) || c == 95
}

/// True for bytes of a dotted module path: identifier bytes and `.`.
pub open spec fn is_module_byte(c: u8) -> bool {
    is_word_byte(c) || c == 46
}

/// True for bytes of a package name (install hints and manifest entries):
/// identifier bytes, `.` and `-`.
pub open spec fn is_package_byte(c: u8) -> bool {
    is_word_byte(c) || c == 46 || c == 45
}

/// Executable test for `is_space`.
pub fn space_byte(c: u8) -> (r: bool)
    ensures
        r == is_space(c),
{
    c == 32 || c == 9 || c == 11 || c == 12 || c == 13
}

/// Executable test for `is_word_byte`.
pub fn word_byte(c: u8) -> (r: bool)
    ensures
        r == is_word_byte(c),
{
    (48 <= c && c <= 57) || (65 <= c && c <= 90) || (97 <= c && c <= 122) || c == 95
}

/// Executable test for `is_module_byte`.
pub fn module_byte(c: u8) -> (r: bool)
    ensures
        r == is_module_byte(c),
{
    word_byte(c) || c == 46
}

/// Executable test for `is_package_byte`.
pub fn package_byte(c: u8) -> (r: bool)
    ensures
        r == is_package_byte(c),
{
    word_byte(c) || c == 46 || c == 45
}

/// Strict lexicographic order on byte strings: `a` comes before `b` when at
/// the first differing position `a` has the smaller byte, or when `a` is a
/// proper prefix of `b`.
pub open spec fn lex_lt(a: Seq<u8>, b: Seq<u8>) -> bool
    decreases a.len(),
{
    if b.len() == 0 {
        false
    } else if a.len() == 0 {
        true
    } else if a[0] < b[0] {
        true
    } else if b[0] < a[0] {
        false
    } else {
        lex_lt(a.drop_first(), b.drop_first())
    }
}

/// `lex_lt` is a strict total order: of `a < b`, `b < a` and `a == b`,
/// exactly one holds.
pub proof fn lemma_lex_lt_trichotomy(a: Seq<u8>, b: Seq<u8>)
    ensures
        a == b ==> !lex_lt(a, b) && !lex_lt(b, a),
        a != b ==> (lex_lt(a, b) <==> !lex_lt(b, a)),
    decreases a.len(),
{
    if a.len() == 0 && b.len() == 0 {
        assert(a =~= b);
    } else if a.len() > 0 && b.len() > 0 && a[0] == b[0] {
        lemma_lex_lt_trichotomy(a.drop_first(), b.drop_first());
        if a.drop_first() == b.drop_first() {
            assert(a =~= b) by {
                assert(a.len() == b.len());
                assert forall|k: int| 0 <= k < a.len() implies a[k] == b[k] by {
                    if k > 0 {
                        assert(a.drop_first()[k - 1] == a[k]);
                        assert(b.drop_first()[k - 1] == b[k]);
                    }
                }
            }
        }
        if a == b {
            assert(a.drop_first() =~= b.drop_first());
        }
    }
}

/// `lex_lt` is transitive.
pub proof fn lemma_lex_lt_trans(a: Seq<u8>, b: Seq<u8>, c: Seq<u8>)
    requires
        lex_lt(a, b),
        lex_lt(b, c),
    ensures
        lex_lt(a, c),
    decreases a.len(),
{
    if a.len() > 0 && b.len() > 0 && c.len() > 0 && a[0] == b[0] && b[0] == c[0] {
        lemma_lex_lt_trans(a.drop_first(), b.drop_first(), c.drop_first());
    }
}

/// On strings that agree on their first `i` bytes, `lex_lt` is decided by
/// the remainders.
pub proof fn lemma_lex_lt_skip(a: Seq<u8>, b: Seq<u8>, i: int)
    requires
        0 <= i <= a.len(),
        i <= b.len(),
        forall|j: int| 0 <= j < i ==> a[j] == b[j],
    ensures
        lex_lt(a, b) == lex_lt(a.skip(i), b.skip(i)),
    decreases i,
{
    if i == 0 {
        assert(a.skip(0) =~= a);
        assert(b.skip(0) =~= b);
    } else {
        lemma_lex_lt_skip(a.drop_first(), b.drop_first(), i - 1);
        assert(a.drop_first().skip(i - 1) =~= a.skip(i));
        assert(b.drop_first().skip(i - 1) =~= b.skip(i));
    }
}

/// Byte-string equality.
pub fn bytes_eq(a: &Vec<u8>, b: &Vec<u8>) -> (r: bool)
    ensures
        r == (a@ == b@),
{
    if a.len() != b.len() {
        return false;
    }
    let mut i: usize = 0;
    while i < a.len()
        invariant
            a.len() == b.len(),
            i <= a.len(),
            forall|j: int| 0 <= j < i ==> a@[j] == b@[j],
        decreases a.len() - i,
    {
        if a[i] != b[i] {
            return false;
        }
        i += 1;
    }
    proof {
        assert(a@ =~= b@);
    }
    true
}

/// Byte-string comparison in the order of `lex_lt`.
pub fn bytes_lt(a: &Vec<u8>, b: &Vec<u8>) -> (r: bool)
    ensures
        r == lex_lt(a@, b@),
{
    let mut i: usize = 0;
    while i < a.len() && i < b.len() && a[i] == b[i]
        invariant
            i <= a.len(),
            i <= b.len(),
            forall|j: int| 0 <= j < i ==> a@[j] == b@[j],
        decreases a.len() - i,
    {
        i += 1;
    }
    let r = if i < a.len() && i < b.len() {
        a[i] < b[i]
    } else {
        i < b.len()
    };
    proof {
        lemma_lex_lt_skip(a@, b@, i as int);
        assert(a@.skip(i as int).len() == a@.len() - i);
        assert(b@.skip(i as int).len() == b@.len() - i);
        if i < a.len() && i < b.len() {
            assert(a@.skip(i as int)[0] == a@[i as int]);
            assert(b@.skip(i as int)[0] == b@[i as int]);
        }
    }
    r
}

/// A fresh copy of a byte string.
pub fn copy_bytes(v: &Vec<u8>) -> (r: Vec<u8>)
    ensures
        r@ == v@,
{
    let mut r: Vec<u8> = Vec::new();
    let mut i: usize = 0;
    while i < v.len()
        invariant
            i <= v.len(),
            r@ == v@.subrange(0, i as int),
        decreases v.len() - i,
    {
        r.push(v[i]);
        proof {
            assert(r@ =~= v@.subrange(0, i + 1));
        }
        i += 1;
    }
    proof {
        assert(v@.subrange(0, v@.len() as int) =~= v@);
    }
    r
}

/// A name list is strictly sorted: strictly ascending in `lex_lt`, hence
/// free of duplicates.
pub open spec fn strictly_sorted(s: Seq<Seq<u8>>) -> bool {
    forall|i: int, j: int| 0 <= i < j < s.len() ==> lex_lt(s[i], s[j])
}

/// A strictly sorted list holds no name twice.
pub proof fn lemma_strictly_sorted_distinct(s: Seq<Seq<u8>>)
    requires
        strictly_sorted(s),
    ensures
        forall|j: int, k: int| 0 <= j < k < s.len() ==> s[j] != s[k],
{
    assert forall|j: int, k: int| 0 <= j < k < s.len() implies s[j] != s[k] by {
        lemma_lex_lt_trichotomy(s[j], s[k]);
    }
}

/// The names of `s` with each first occurrence kept in place and every
/// later repeat dropped.
pub open spec fn dedup_first(s: Seq<Seq<u8>>) -> Seq<Seq<u8>>
    decreases s.len(),
{
    if s.len() == 0 {
        Seq::empty()
    } else {
        let r = dedup_first(s.drop_last());
        if r.contains(s.last()) {
            r
        } else {
            r.push(s.last())
        }
    }
}

/// `dedup_first` keeps exactly the names of its input.
pub proof fn lemma_dedup_first(s: Seq<Seq<u8>>)
    ensures
        forall|y: Seq<u8>|
            #![trigger dedup_first(s).contains(y)]
            #![trigger s.contains(y)]
            dedup_first(s).contains(y) <==> s.contains(y),
    decreases s.len(),
{
    if s.len() > 0 {
        let t = s.drop_last();
        lemma_dedup_first(t);
        assert forall|y: Seq<u8>|
            #![trigger dedup_first(s).contains(y)]
            #![trigger s.contains(y)]
            dedup_first(s).contains(y) <==> s.contains(y) by {
            let r = dedup_first(t);
            if dedup_first(s).contains(y) {
                if r.contains(y) {
                    assert(t.contains(y));
                    let k = choose|k: int| 0 <= k < t.len() && t[k] == y;
                    assert(s[k] == y);
                } else {
                    let k = choose|k: int| 0 <= k < r.push(s.last()).len() && r.push(s.last())[k]
                        == y;
                    assert(y == s.last());
                    assert(s[s.len() - 1] == y);
                }
            }
            if s.contains(y) {
                let k = choose|k: int| 0 <= k < s.len() && s[k] == y;
                if k < s.len() - 1 {
                    assert(t[k] == y);
                    assert(t.contains(y));
                    assert(r.contains(y));
                    if !r.contains(s.last()) {
                        let k2 = choose|k2: int| 0 <= k2 < r.len() && r[k2] == y;
                        assert(r.push(s.last())[k2] == y);
                    }
                } else {
                    assert(y == s.last());
                    if r.contains(y) {
                    } else {
                        assert(r.push(s.last())[r.len() as int] == y);
                    }
                }
            }
        }
    }
}

/// Two strictly sorted lists of the same names are the same list: the
/// strictly sorted arrangement of a set of names is canonical.
pub proof fn lemma_strictly_sorted_unique(u: Seq<Seq<u8>>, v: Seq<Seq<u8>>)
    requires
        strictly_sorted(u),
        strictly_sorted(v),
        forall|y: Seq<u8>| u.contains(y) <==> v.contains(y),
    ensures
        u == v,
    decreases u.len(),
{
    if u.len() == 0 {
        if v.len() > 0 {
            assert(v.contains(v[0]));
            assert(u.contains(v[0]));
        }
        assert(u =~= v);
    } else {
        assert(u.contains(u[0]));
        assert(v.contains(u[0]));
        let j = choose|j: int| 0 <= j < v.len() && v[j] == u[0];
        assert(v.contains(v[0]));
        assert(u.contains(v[0]));
        let i = choose|i: int| 0 <= i < u.len() && u[i] == v[0];
        if u[0] != v[0] {
            assert(lex_lt(v[0], v[j]));
            assert(lex_lt(u[0], u[i]));
            lemma_lex_lt_trichotomy(u[0], v[0]);
            assert(false);
        }
        let ut = u.drop_first();
        let vt = v.drop_first();
        assert forall|p: int, q: int| 0 <= p < q < ut.len() implies lex_lt(ut[p], ut[q]) by {
            assert(ut[p] == u[p + 1]);
            assert(ut[q] == u[q + 1]);
        }
        assert forall|p: int, q: int| 0 <= p < q < vt.len() implies lex_lt(vt[p], vt[q]) by {
            assert(vt[p] == v[p + 1]);
            assert(vt[q] == v[q + 1]);
        }
        assert forall|y: Seq<u8>| ut.contains(y) <==> vt.contains(y) by {
            if ut.contains(y) {
                let k = choose|k: int| 0 <= k < ut.len() && ut[k] == y;
                assert(u[k + 1] == y);
                assert(lex_lt(u[0], y));
                lemma_lex_lt_trichotomy(u[0], y);
                assert(u.contains(y));
                assert(v.contains(y));
                let k2 = choose|k2: int| 0 <= k2 < v.len() && v[k2] == y;
                assert(k2 != 0);
                assert(vt[k2 - 1] == y);
            }
            if vt.contains(y) {
                let k = choose|k: int| 0 <= k < vt.len() && vt[k] == y;
                assert(v[k + 1] == y);
                assert(lex_lt(v[0], y));
                lemma_lex_lt_trichotomy(v[0], y);
                assert(v.contains(y));
                assert(u.contains(y));
                let k2 = choose|k2: int| 0 <= k2 < u.len() && u[k2] == y;
                assert(k2 != 0);
                assert(ut[k2 - 1] == y);
            }
        }
        lemma_strictly_sorted_unique(ut, vt);
        assert(u =~= v) by {
            assert(u.len() == v.len());
            assert forall|k: int| 0 <= k < u.len() implies u[k] == v[k] by {
                if k > 0 {
                    assert(ut[k - 1] == u[k]);
                    assert(vt[k - 1] == v[k]);
                }
            }
        }
    }
}

/// Sorting after first-occurrence deduplication gives what sorting the raw
/// list gives: `sorted_dedup` depends only on which names occur.
pub proof fn lemma_sorted_dedup_of_dedup_first(s: Seq<Seq<u8>>)
    ensures
        sorted_dedup(dedup_first(s)) == sorted_dedup(s),
{
    lemma_dedup_first(s);
    lemma_sorted_dedup(s);
    lemma_sorted_dedup(dedup_first(s));
    assert forall|y: Seq<u8>|
        sorted_dedup(dedup_first(s)).contains(y) <==> sorted_dedup(s).contains(y) by {
        assert(dedup_first(s).contains(y) <==> s.contains(y));
    }
    lemma_strictly_sorted_unique(sorted_dedup(dedup_first(s)), sorted_dedup(s));
}

/// Whether the list holds this name.
pub fn names_contain(v: &Vec<Vec<u8>>, x: &Vec<u8>) -> (r: bool)
    ensures
        r == v.deep_view().contains(x@),
{
    let mut i: usize = 0;
    while i < v.len()
        invariant
            i <= v.len(),
            v.deep_view().len() == v.len(),
            forall|j: int| 0 <= j < i ==> v.deep_view()[j] != x@,
        decreases v.len() - i,
    {
        proof {
            assert(v.deep_view()[i as int] =~= v@[i as int]@);
        }
        if bytes_eq(&v[i], x) {
            return true;
        }
        i += 1;
    }
    proof {
        if v.deep_view().contains(x@) {
            let k = choose|k: int| 0 <= k < v.deep_view().len() && v.deep_view()[k] == x@;
        }
    }
    false
}

/// Keeps each name's first occurrence, in order, and drops later repeats.
pub fn dedup_names(v: &Vec<Vec<u8>>) -> (r: Vec<Vec<u8>>)
    ensures
        r.deep_view() == dedup_first(v.deep_view()),
{
    let ghost dv = v.deep_view();
    let mut r: Vec<Vec<u8>> = Vec::new();
    let mut i: usize = 0;
    proof {
        assert(dv.take(0) =~= Seq::<Seq<u8>>::empty());
        assert(r.deep_view() =~= dedup_first(dv.take(0)));
    }
    while i < v.len()
        invariant
            i <= v.len(),
            dv == v.deep_view(),
            dv.len() == v.len(),
            r.deep_view() == dedup_first(dv.take(i as int)),
        decreases v.len() - i,
    {
        proof {
            assert(dv[i as int] =~= v@[i as int]@);
            assert(dv.take(i + 1).drop_last() =~= dv.take(i as int));
            assert(dv.take(i + 1).last() == dv[i as int]);
        }
        if !names_contain(&r, &v[i]) {
            let c = copy_bytes(&v[i]);
            let ghost old_dv = r.deep_view();
            proof {
                assert(c.deep_view() =~= c@);
            }
            r.push(c);
            proof {
                assert(r.deep_view() =~= old_dv.push(dv[i as int]));
            }
        }
        i += 1;
    }
    proof {
        assert(dv.take(dv.len() as int) =~= dv);
    }
    r
}

/// Insertion of one name into a sorted, duplicate-free name list; a name
/// already present is not added again.
pub open spec fn insert_name(x: Seq<u8>, s: Seq<Seq<u8>>) -> Seq<Seq<u8>>
    decreases s.len(),
{
    if s.len() == 0 {
        seq![x]
    } else if lex_lt(x, s[0]) {
        seq![x] + s
    } else if x == s[0] {
        s
    } else {
        seq![s[0]] + insert_name(x, s.drop_first())
    }
}

/// The strictly sorted, duplicate-free arrangement of the names of `s`.
pub open spec fn sorted_dedup(s: Seq<Seq<u8>>) -> Seq<Seq<u8>>
    decreases s.len(),
{
    if s.len() == 0 {
        Seq::empty()
    } else {
        insert_name(s[0], sorted_dedup(s.drop_first()))
    }
}

/// `insert_name` keeps a sorted list sorted and its contents are the old
/// contents plus the new name.
pub proof fn lemma_insert_name(x: Seq<u8>, s: Seq<Seq<u8>>)
    requires
        strictly_sorted(s),
    ensures
        strictly_sorted(insert_name(x, s)),
        forall|y: Seq<u8>|
            #![trigger insert_name(x, s).contains(y)]
            #![trigger s.contains(y)]
            insert_name(x, s).contains(y) <==> (y == x || s.contains(y)),
        insert_name(x, s).contains(x),
    decreases s.len(),
{
    let r = insert_name(x, s);
    if s.len() == 0 {
        assert(r =~= seq![x]);
        assert forall|y: Seq<u8>| r.contains(y) implies (y == x || s.contains(y)) by {
            let k = choose|k: int| 0 <= k < r.len() && r[k] == y;
            assert(r[k] == x);
        }
        assert(r.contains(x)) by {
            assert(r[0] == x);
        }
    } else if lex_lt(x, s[0]) {
        assert(r =~= seq![x] + s);
        assert forall|i: int, j: int| 0 <= i < j < r.len() implies lex_lt(r[i], r[j]) by {
            if i == 0 {
                if j > 1 {
                    lemma_lex_lt_trans(x, s[0], s[j - 1]);
                }
            }
        }
        assert forall|y: Seq<u8>| r.contains(y) <==> (y == x || s.contains(y)) by {
            if r.contains(y) {
                let k = choose|k: int| 0 <= k < r.len() && r[k] == y;
                if k > 0 {
                    assert(s[k - 1] == y);
                }
            }
            if y == x {
                assert(r[0] == y);
            }
            if s.contains(y) {
                let k = choose|k: int| 0 <= k < s.len() && s[k] == y;
                assert(r[k + 1] == y);
            }
        }
    } else if x == s[0] {
        assert forall|y: Seq<u8>| r.contains(y) <==> (y == x || s.contains(y)) by {
            if y == x {
                assert(s[0] == y);
            }
        }
    } else {
        lemma_lex_lt_trichotomy(x, s[0]);
        assert(lex_lt(s[0], x));
        let t = s.drop_first();
        assert(strictly_sorted(t)) by {
            assert forall|i: int, j: int| 0 <= i < j < t.len() implies lex_lt(t[i], t[j]) by {
                assert(t[i] == s[i + 1]);
                assert(t[j] == s[j + 1]);
            }
        }
        lemma_insert_name(x, t);
        let rt = insert_name(x, t);
        assert(r =~= seq![s[0]] + rt);
        assert forall|i: int, j: int| 0 <= i < j < r.len() implies lex_lt(r[i], r[j]) by {
            if i == 0 {
                assert(rt.contains(r[j])) by {
                    assert(rt[j - 1] == r[j]);
                }
                if r[j] == x {
                } else {
                    assert(t.contains(r[j]));
                    let k = choose|k: int| 0 <= k < t.len() && t[k] == r[j];
                    assert(t[k] == s[k + 1]);
                    assert(lex_lt(s[0], s[k + 1]));
                }
            } else {
                assert(rt[i - 1] == r[i]);
                assert(rt[j - 1] == r[j]);
            }
        }
        assert forall|y: Seq<u8>| r.contains(y) <==> (y == x || s.contains(y)) by {
            if r.contains(y) {
                let k = choose|k: int| 0 <= k < r.len() && r[k] == y;
                if k == 0 {
                    assert(s[0] == y);
                } else {
                    assert(rt[k - 1] == y);
                    assert(rt.contains(y));
                    if y != x {
                        assert(t.contains(y));
                        let k2 = choose|k2: int| 0 <= k2 < t.len() && t[k2] == y;
                        assert(s[k2 + 1] == y);
                    }
                }
            }
            if y == x {
                assert(rt.contains(y));
                let k = choose|k: int| 0 <= k < rt.len() && rt[k] == y;
                assert(r[k + 1] == y);
            }
            if s.contains(y) {
                let k = choose|k: int| 0 <= k < s.len() && s[k] == y;
                if k == 0 {
                    assert(r[0] == y);
                } else {
                    assert(t[k - 1] == y);
                    assert(t.contains(y));
                    assert(rt.contains(y));
                    let k2 = choose|k2: int| 0 <= k2 < rt.len() && rt[k2] == y;
                    assert(r[k2 + 1] == y);
                }
            }
        }
    }
}

/// `sorted_dedup` returns a strictly sorted list with exactly the names of
/// its input.
pub proof fn lemma_sorted_dedup(s: Seq<Seq<u8>>)
    ensures
        strictly_sorted(sorted_dedup(s)),
        forall|y: Seq<u8>|
            #![trigger sorted_dedup(s).contains(y)]
            #![trigger s.contains(y)]
            sorted_dedup(s).contains(y) <==> s.contains(y),
    decreases s.len(),
{
    if s.len() == 0 {
    } else {
        let t = s.drop_first();
        lemma_sorted_dedup(t);
        lemma_insert_name(s[0], sorted_dedup(t));
        assert forall|y: Seq<u8>|
            #![trigger sorted_dedup(s).contains(y)]
            #![trigger s.contains(y)]
            sorted_dedup(s).contains(y) <==> s.contains(y) by {
            assert(insert_name(s[0], sorted_dedup(t)).contains(y) <==> (y == s[0]
                || sorted_dedup(t).contains(y)));
            if sorted_dedup(s).contains(y) {
                if y == s[0] {
                    assert(s.contains(y)) by {
                        assert(s[0] == y);
                    }
                } else {
                    assert(t.contains(y));
                    let k = choose|k: int| 0 <= k < t.len() && t[k] == y;
                    assert(s[k + 1] == y);
                }
            }
            if s.contains(y) {
                let k = choose|k: int| 0 <= k < s.len() && s[k] == y;
                if k > 0 {
                    assert(t[k - 1] == y);
                    assert(t.contains(y));
                }
            }
        }
    }
}

/// Where `insert_name` places a new name in a sorted list: right before the
/// first entry that is not below it, or nowhere when that entry equals it.
pub proof fn lemma_insert_name_at(x: Seq<u8>, s: Seq<Seq<u8>>, i: int)
    requires
        strictly_sorted(s),
        0 <= i <= s.len(),
        forall|j: int| 0 <= j < i ==> lex_lt(s[j], x),
        i < s.len() ==> !lex_lt(s[i], x),
    ensures
        insert_name(x, s) == if i < s.len() && s[i] == x {
            s
        } else {
            s.subrange(0, i) + seq![x] + s.subrange(i, s.len() as int)
        },
    decreases s.len(),
{
    if s.len() == 0 {
        assert(insert_name(x, s) =~= s.subrange(0, 0) + seq![x] + s.subrange(0, 0));
    } else if i == 0 {
        lemma_lex_lt_trichotomy(x, s[0]);
        if s[0] == x {
        } else {
            assert(lex_lt(x, s[0]));
            assert(insert_name(x, s) =~= s.subrange(0, 0) + seq![x] + s.subrange(0, s.len() as int));
        }
    } else {
        lemma_lex_lt_trichotomy(x, s[0]);
        assert(lex_lt(s[0], x));
        let t = s.drop_first();
        assert(strictly_sorted(t)) by {
            assert forall|p: int, q: int| 0 <= p < q < t.len() implies lex_lt(t[p], t[q]) by {
                assert(t[p] == s[p + 1]);
                assert(t[q] == s[q + 1]);
            }
        }
        assert forall|j: int| 0 <= j < i - 1 implies lex_lt(t[j], x) by {
            assert(t[j] == s[j + 1]);
        }
        if i - 1 < t.len() {
            assert(t[i - 1] == s[i]);
        }
        lemma_insert_name_at(x, t, i - 1);
        if i < s.len() && s[i] == x {
            assert(insert_name(x, s) =~= s);
        } else {
            assert(insert_name(x, s) =~= s.subrange(0, i) + seq![x] + s.subrange(i, s.len() as int));
        }
    }
}

/// Inserts a name into a sorted, duplicate-free list of names, keeping it
/// sorted and duplicate-free.
pub fn insert_sorted(acc: &mut Vec<Vec<u8>>, x: Vec<u8>)
    requires
        strictly_sorted(old(acc).deep_view()),
    ensures
        final(acc).deep_view() == insert_name(x.deep_view(), old(acc).deep_view()),
{
    let ghost dv = acc.deep_view();
    proof {
        assert(x.deep_view() =~= x@);
    }
    let mut i: usize = 0;
    while i < acc.len() && bytes_lt(&acc[i], &x)
        invariant
            i <= acc.len(),
            *acc == *old(acc),
            dv == acc.deep_view(),
            forall|j: int| 0 <= j < i ==> lex_lt(dv[j], x@),
        decreases acc.len() - i,
    {
        proof {
            assert(dv[i as int] =~= acc@[i as int]@);
        }
        i += 1;
    }
    proof {
        if i < acc.len() {
            assert(dv[i as int] =~= acc@[i as int]@);
        }
        lemma_insert_name_at(x@, dv, i as int);
    }
    if i < acc.len() && bytes_eq(&acc[i], &x) {
    } else {
        acc.insert(i, x);
        proof {
            assert(acc.deep_view() =~= dv.subrange(0, i as int) + seq![x@] + dv.subrange(
                i as int,
                dv.len() as int,
            ));
        }
    }
}

/// The strictly sorted, duplicate-free list of the names of `v`.
pub fn sort_names(v: &Vec<Vec<u8>>) -> (r: Vec<Vec<u8>>)
    ensures
        r.deep_view() == sorted_dedup(v.deep_view()),
        strictly_sorted(r.deep_view()),
{
    let ghost dv = v.deep_view();
    let mut r: Vec<Vec<u8>> = Vec::new();
    let mut i: usize = v.len();
    proof {
        assert(dv.skip(dv.len() as int) =~= Seq::<Seq<u8>>::empty());
        lemma_sorted_dedup(dv.skip(dv.len() as int));
    }
    while i > 0
        invariant
            i <= v.len(),
            dv == v.deep_view(),
            r.deep_view() == sorted_dedup(dv.skip(i as int)),
            strictly_sorted(r.deep_view()),
        decreases i,
    {
        i -= 1;
        let x = copy_bytes(&v[i]);
        proof {
            assert(x.deep_view() =~= x@);
            assert(dv[i as int] =~= v@[i as int]@);
        }
        insert_sorted(&mut r, x);
        proof {
            let su = dv.skip(i as int);
            assert(su[0] == dv[i as int]);
            assert(su.drop_first() =~= dv.skip(i + 1));
            assert(r.deep_view() == insert_name(su[0], sorted_dedup(su.drop_first())));
            lemma_sorted_dedup(su);
        }
    }
    proof {
        assert(dv.skip(0) =~= dv);
    }
    r
}

} // verus!
