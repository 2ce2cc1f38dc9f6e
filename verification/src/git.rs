//! Counting changed lines in `git diff --numstat` output.
//!
//! Running the version-control process is the caller's concern; the
//! parsing of its tab-separated output is verified here.

use vstd::prelude::*;

use crate::text::parse_u64;
use crate::text::parse_u64_spec;
use crate::text::spec_lines;
use crate::text::spec_split;
use crate::text::split_char;
use crate::text::str_lines;

verus! {

/// The value of one tab-separated field: unparsable fields (a binary
/// file's `-`) count zero.
pub open spec fn field_val(part: Seq<char>) -> nat {
    match parse_u64_spec(part) {
        Some(v) => v as nat,
        None => 0,
    }
}

/// The lines one numstat row counts: added plus deleted.
pub open spec fn line_count(line: Seq<char>) -> nat {
    let parts = spec_split(line, '\t');
    if parts.len() >= 2 {
        field_val(parts[0]) + field_val(parts[1])
    } else if parts.len() == 1 {
        field_val(parts[0])
    } else {
        0
    }
}

/// The total over a sequence of numstat rows.
pub open spec fn numstat_total(lines: Seq<Seq<char>>) -> nat
    decreases lines.len(),
{
    if lines.len() == 0 {
        0
    } else {
        line_count(lines[0]) + numstat_total(lines.drop_first())
    }
}

/// The changed-line count written in a whole numstat output.
pub open spec fn spec_numstat(s: Seq<char>) -> nat {
    numstat_total(spec_lines(s))
}

proof fn lemma_numstat_total_push(lines: Seq<Seq<char>>, x: Seq<char>)
    ensures
        numstat_total(lines.push(x)) == numstat_total(lines) + line_count(x),
    decreases lines.len(),
{
    if lines.len() == 0 {
        assert(lines.push(x)[0] == x);
        assert(lines.push(x).drop_first() =~= Seq::<Seq<char>>::empty());
        assert(numstat_total(Seq::<Seq<char>>::empty()) == 0);
    } else {
        assert(lines.push(x)[0] == lines[0]);
        assert(lines.push(x).drop_first() =~= lines.drop_first().push(x));
        lemma_numstat_total_push(lines.drop_first(), x);
    }
}

fn parse_field(parts: &Vec<String>, i: usize) -> (r: u64)
    requires
        i < parts@.len(),
    ensures
        r == field_val(parts.deep_view()[i as int]),
{
    match parse_u64(parts[i].as_str()) {
        Some(v) => v,
        None => 0,
    }
}

/// Sums the added and deleted counts over every row of a
/// `git diff --numstat` output; rows for binary files contribute zero.
/// A total beyond `u64::MAX` saturates there.
pub fn parse_numstat(output: &str) -> (r: u64)
    ensures
        r == (if spec_numstat(output@) <= u64::MAX {
            spec_numstat(output@) as u64
        } else {
            u64::MAX
        }),
{
    let lines = str_lines(output);
    let ghost dv = lines.deep_view();
    let mut acc: u64 = 0;
    let mut i: usize = 0;
    proof {
        assert(dv.take(0) =~= Seq::<Seq<char>>::empty());
    }
    while i < lines.len()
        invariant
            i <= lines@.len(),
            dv == lines.deep_view(),
            acc == (if numstat_total(dv.take(i as int)) <= u64::MAX {
                numstat_total(dv.take(i as int)) as u64
            } else {
                u64::MAX
            }),
        decreases lines@.len() - i,
    {
        let parts = split_char(lines[i].as_str(), '\t');
        proof {
            assert(parts.deep_view() == spec_split(dv[i as int], '\t'));
            crate::text::lemma_spec_split_len(dv[i as int], '\t');
            assert(parts.deep_view().len() == parts@.len());
        }
        let a = parse_field(&parts, 0);
        let b = if parts.len() >= 2 {
            parse_field(&parts, 1)
        } else {
            0
        };
        let lc = if a > u64::MAX - b {
            u64::MAX
        } else {
            a + b
        };
        acc = if acc > u64::MAX - lc {
            u64::MAX
        } else {
            acc + lc
        };
        proof {
            assert(dv.take(i + 1) =~= dv.take(i as int).push(dv[i as int]));
            lemma_numstat_total_push(dv.take(i as int), dv[i as int]);
        }
        i = i + 1;
    }
    proof {
        assert(dv.take(dv.len() as int) =~= dv);
    }
    acc
}

} // verus!
