//! The manifest reader: a pinned-dependency file with one requirement per
//! line. Blank lines, `#` comments and `-` option flags are skipped; of any
//! other line the leading package token is taken, up to the first byte that
//! can start a version constraint or an extras marker. The reader's output
//! keeps the tokens in line order and holds each name once.

use vstd::prelude::*;

use crate::bytes::dedup_first;
use crate::bytes::dedup_names;
use crate::bytes::is_package_byte;
use crate::bytes::package_byte;
use crate::bytes::space_byte;
use crate::scanner::copy_range;
use crate::scanner::lines_of;
use crate::scanner::package_run_end;
use crate::scanner::skip_spaces;
use crate::scanner::skip_spaces_x;
use crate::scanner::package_run_end_x;
use crate::scanner::split_lines;

verus! {

/// The package token of one manifest line: nothing for a blank line, a `#`
/// comment, a `-` flag, or a line that starts with no package-name byte;
/// else the leading run of package-name bytes after the indentation.
pub open spec fn manifest_token(line: Seq<u8>) -> Option<Seq<u8>> {
    let a = skip_spaces(line, 0);
    if a >= line.len() {
        None
    } else if line[a] == 35 || line[a] == 45 {
        None
    } else {
        let k = package_run_end(line, a);
        if a < k {
            Some(line.subrange(a, k))
        } else {
            None
        }
    }
}

/// The tokens of the lines `ls` from index `i` on, in line order.
pub open spec fn tokens_of_lines(ls: Seq<Seq<u8>>, i: int) -> Seq<Seq<u8>>
    decreases ls.len() - i,
{
    if !(0 <= i < ls.len()) {
        Seq::empty()
    } else {
        match manifest_token(ls[i]) {
            Some(t) => seq![t] + tokens_of_lines(ls, i + 1),
            None => tokens_of_lines(ls, i + 1),
        }
    }
}

/// Every package token of a manifest, in line order, one entry per line
/// that names one; a name pinned on several lines appears several times
/// here, and once in the reader's output.
pub open spec fn manifest_list(content: Seq<u8>) -> Seq<Seq<u8>> {
    tokens_of_lines(lines_of(content), 0)
}

/// The token of one line, executable.
fn line_token(line: &Vec<u8>) -> (r: Option<Vec<u8>>)
    ensures
        match r {
            Some(v) => manifest_token(line@) == Some(v@),
            None => manifest_token(line@) is None,
        },
{
    let a = skip_spaces_x(line, 0);
    if a >= line.len() {
        return None;
    }
    if line[a] == 35 || line[a] == 45 {
        return None;
    }
    let k = package_run_end_x(line, a);
    if a < k {
        Some(copy_range(line, a, k))
    } else {
        None
    }
}

/// Reads a manifest's package tokens: in line order, each name's first
/// occurrence kept and later repeats dropped.
pub fn parse_requirements_txt(content: &Vec<u8>) -> (r: Vec<Vec<u8>>)
    ensures
        r.deep_view() == dedup_first(manifest_list(content@)),
{
    let lines = split_lines(content);
    let ghost ls = lines.deep_view();
    let mut toks: Vec<Vec<u8>> = Vec::new();
    let mut i: usize = 0;
    while i < lines.len()
        invariant
            i <= lines.len(),
            ls == lines.deep_view(),
            ls.len() == lines.len(),
            tokens_of_lines(ls, 0) == toks.deep_view() + tokens_of_lines(ls, i as int),
        decreases lines.len() - i,
    {
        proof {
            assert(ls[i as int] =~= lines@[i as int]@);
        }
        let t = line_token(&lines[i]);
        let ghost old_dv = toks.deep_view();
        match t {
            Some(v) => {
                proof {
                    assert(v.deep_view() =~= v@);
                }
                toks.push(v);
                proof {
                    assert(toks.deep_view() =~= old_dv.push(v@));
                    assert(tokens_of_lines(ls, i as int) == seq![v@] + tokens_of_lines(ls, i + 1));
                    assert(old_dv + tokens_of_lines(ls, i as int) =~= toks.deep_view()
                        + tokens_of_lines(ls, i + 1));
                }
            },
            None => {
                proof {
                    assert(tokens_of_lines(ls, i as int) == tokens_of_lines(ls, i + 1));
                }
            },
        }
        i += 1;
    }
    proof {
        assert(toks.deep_view() + tokens_of_lines(ls, ls.len() as int) =~= toks.deep_view());
    }
    dedup_names(&toks)
}

} // verus!
