//! The mapping loader: an optional override table from module name to
//! install package name, kept in a TOML document whose top-level string
//! entries form the table.

use vstd::prelude::*;

use crate::bytes::bytes_eq;
use crate::bytes::copy_bytes;

verus! {

/// What the TOML parser returns for a document: `None` when the bytes are
/// not valid UTF-8 or not a valid TOML document, else the top-level table's
/// key/value pairs in the parser's order, a value given as its text when it
/// is a string and as `None` when it is of any other kind.
pub uninterp spec fn toml_table_of(doc: Seq<u8>) -> Option<Seq<(Seq<u8>, Option<Seq<u8>>)>>;

/// Relies on `toml::Table`'s `FromStr` implementation (the `toml` crate):
/// parsing a TOML document yields its top-level table, and the outcome is a
/// function of the document text alone.
#[verifier::external_body]
fn parse_toml_table(content: &Vec<u8>) -> (r: Option<Vec<(Vec<u8>, Option<Vec<u8>>)>>)
    ensures
        r.deep_view() == toml_table_of(content@),
{
    let s = std::str::from_utf8(content).ok()?;
    let t: toml::Table = s.parse().ok()?;
    Some(t.into_iter().map(|(k, v)| (k.into_bytes(), match v {
        toml::Value::String(p) => Some(p.into_bytes()),
        _ => None,
    })).collect())
}

/// The string-valued entries of a parsed table, in table order.
pub open spec fn entries_of_table(t: Seq<(Seq<u8>, Option<Seq<u8>>)>) -> Seq<(Seq<u8>, Seq<u8>)>
    decreases t.len(),
{
    if t.len() == 0 {
        Seq::empty()
    } else {
        match t[0].1 {
            Some(v) => seq![(t[0].0, v)] + entries_of_table(t.drop_first()),
            None => entries_of_table(t.drop_first()),
        }
    }
}

/// The mapping a document denotes: its table's string entries, or the empty
/// mapping when the document does not parse.
pub open spec fn mapping_of(doc: Seq<u8>) -> Seq<(Seq<u8>, Seq<u8>)> {
    match toml_table_of(doc) {
        Some(t) => entries_of_table(t),
        None => Seq::empty(),
    }
}

/// First-match lookup in an association list.
pub open spec fn lookup(m: Seq<(Seq<u8>, Seq<u8>)>, key: Seq<u8>) -> Option<Seq<u8>>
    decreases m.len(),
{
    if m.len() == 0 {
        None
    } else if m[0].0 == key {
        Some(m[0].1)
    } else {
        lookup(m.drop_first(), key)
    }
}

/// The override table from module name to install package name. Read-only
/// after loading; absence of a mapping file yields the empty table.
pub struct MappingTable {
    entries: Vec<(Vec<u8>, Vec<u8>)>,
}

impl View for MappingTable {
    type V = Seq<(Seq<u8>, Seq<u8>)>;

    closed spec fn view(&self) -> Seq<(Seq<u8>, Seq<u8>)> {
        self.entries.deep_view()
    }
}

impl MappingTable {
    /// The empty table.
    pub fn new() -> (r: MappingTable)
        ensures
            r@ == Seq::<(Seq<u8>, Seq<u8>)>::empty(),
    {
        let r = MappingTable { entries: Vec::new() };
        proof {
            assert(r@ =~= Seq::<(Seq<u8>, Seq<u8>)>::empty());
        }
        r
    }

    /// Adds one entry at the end of the table.
    pub fn add(&mut self, key: Vec<u8>, value: Vec<u8>)
        ensures
            final(self)@ == old(self)@.push((key@, value@)),
    {
        let ghost old_dv = self@;
        self.entries.push((key, value));
        proof {
            assert(self@ =~~= old_dv.push((key@, value@)));
        }
    }

    /// The install package name for a module name, when the table has one.
    pub fn get(&self, key: &Vec<u8>) -> (r: Option<Vec<u8>>)
        ensures
            r.deep_view() == lookup(self@, key@),
    {
        let mut i: usize = 0;
        proof {
            assert(self@.skip(0) =~= self@);
        }
        while i < self.entries.len()
            invariant
                i <= self.entries.len(),
                self@.len() == self.entries.len(),
                lookup(self@, key@) == lookup(self@.skip(i as int), key@),
            decreases self.entries.len() - i,
        {
            proof {
                assert(self@.skip(i as int)[0] == self@[i as int]);
                assert(self@[i as int].0 =~= self.entries@[i as int].0@);
                assert(self@[i as int].1 =~= self.entries@[i as int].1@);
                assert(self@.skip(i as int).drop_first() =~= self@.skip(i + 1));
            }
            if bytes_eq(&self.entries[i].0, key) {
                let v = copy_bytes(&self.entries[i].1);
                proof {
                    assert(v.deep_view() =~= v@);
                }
                return Some(v);
            }
            i += 1;
        }
        None
    }
}

/// Loads the override table from the mapping file's bytes. The second
/// result says whether the document was well formed; a malformed document
/// degrades to the empty table.
pub fn load_mapping(content: &Vec<u8>) -> (r: (MappingTable, bool))
    ensures
        r.0@ == mapping_of(content@),
        r.1 == (toml_table_of(content@) is Some),
{
    let parsed = parse_toml_table(content);
    match parsed {
        None => {
            proof {
                assert(parsed.deep_view() == toml_table_of(content@));
            }
            (MappingTable::new(), false)
        },
        Some(t) => {
            let ghost tv = t.deep_view();
            proof {
                assert(parsed.deep_view() == toml_table_of(content@));
            }
            let mut m = MappingTable::new();
            let mut i: usize = 0;
            proof {
                assert(tv.skip(0) =~= tv);
                assert(m@ + entries_of_table(tv) =~= entries_of_table(tv));
            }
            while i < t.len()
                invariant
                    i <= t.len(),
                    tv == t.deep_view(),
                    tv.len() == t.len(),
                    entries_of_table(tv) == m@ + entries_of_table(tv.skip(i as int)),
                decreases t.len() - i,
            {
                let ghost old_dv = m@;
                proof {
                    assert(tv.skip(i as int)[0] == tv[i as int]);
                    assert(tv.skip(i as int).drop_first() =~= tv.skip(i + 1));
                    assert(tv[i as int].0 =~= t@[i as int].0@);
                }
                match &t[i].1 {
                    Some(v) => {
                        proof {
                            assert(t@[i as int].1 == Some(*v));
                            assert(tv[i as int].1 == Some(v.deep_view()));
                            assert(v.deep_view() =~= v@);
                        }
                        let key = copy_bytes(&t[i].0);
                        let value = copy_bytes(v);
                        m.add(key, value);
                        proof {
                            assert(entries_of_table(tv.skip(i as int)) == seq![
                                (tv[i as int].0, v@),
                            ] + entries_of_table(tv.skip(i + 1)));
                            assert(old_dv + entries_of_table(tv.skip(i as int)) =~= m@
                                + entries_of_table(tv.skip(i + 1)));
                        }
                    },
                    None => {
                        proof {
                            assert(t@[i as int].1 is None);
                            assert(tv[i as int].1 is None);
                            assert(entries_of_table(tv.skip(i as int)) == entries_of_table(
                                tv.skip(i + 1),
                            ));
                        }
                    },
                }
                i += 1;
            }
            proof {
                assert(tv.skip(tv.len() as int) =~= Seq::<(Seq<u8>, Option<Seq<u8>>)>::empty());
                assert(m@ + entries_of_table(tv.skip(tv.len() as int)) =~= m@);
            }
            (m, true)
        },
    }
}

} // verus!
