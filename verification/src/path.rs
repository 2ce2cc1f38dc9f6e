//! The output resolver and artifact numbering: deciding the directory a
//! new artifact is written into, with a confinement check on pointer-file
//! targets, and computing the next unused sequence number.
//!
//! The caller does the filesystem work: it reads the pointer file,
//! resolves symlinks (canonicalizes) both the pointer target and the
//! workspace root, lists directory entries, and creates the chosen
//! directory. The decisions over those plain values are verified here.

use vstd::prelude::*;
use vstd::string::StrSliceExecFns;
use vstd::string::StringExecFns;

use crate::text::all_digits;
use crate::text::digits_val;
use crate::text::parse_u64;
use crate::text::str_eq;

verus! {

/// What parsing an artifact file name returns: the sequence number of a
/// name of the exact shape `idr-<digits>.md`, when the number fits.
pub open spec fn spec_idr_number(name: Seq<char>) -> Option<u32> {
    if name.len() >= 7 && name.take(4) == "idr-"@ && name.skip(name.len() - 3) == ".md"@ {
        let mid = name.subrange(4, name.len() - 3);
        if mid.len() > 0 && all_digits(mid) && digits_val(mid) <= u32::MAX {
            Some(digits_val(mid) as u32)
        } else {
            None
        }
    } else {
        None
    }
}

/// Parses an artifact file name of the shape `idr-<digits>.md`; any other
/// name, a non-numeric middle included, parses to nothing.
pub fn parse_idr_number(filename: &str) -> (r: Option<u32>)
    ensures
        r == spec_idr_number(filename@),
{
    proof {
        reveal_strlit("idr-");
        reveal_strlit(".md");
    }
    let n = filename.unicode_len();
    if n < 7 {
        return None;
    }
    let prefix = filename.substring_char(0, 4);
    proof {
        assert(prefix@ =~= filename@.take(4));
    }
    if !str_eq(prefix, "idr-") {
        return None;
    }
    let suffix = filename.substring_char(n - 3, n);
    proof {
        assert(suffix@ =~= filename@.skip(n - 3));
    }
    if !str_eq(suffix, ".md") {
        return None;
    }
    let mid = filename.substring_char(4, n - 3);
    proof {
        assert(mid@ =~= filename@.subrange(4, n - 3));
    }
    match parse_u64(mid) {
        Some(v) => if v <= u32::MAX as u64 {
            Some(v as u32)
        } else {
            None
        },
        None => None,
    }
}

/// The greatest sequence number among the file names, zero when none
/// parses.
pub open spec fn max_idr(names: Seq<Seq<char>>) -> u32
    decreases names.len(),
{
    if names.len() == 0 {
        0
    } else {
        let rest = max_idr(names.drop_first());
        match spec_idr_number(names[0]) {
            Some(v) => if v > rest {
                v
            } else {
                rest
            },
            None => rest,
        }
    }
}

proof fn lemma_max_idr_push(names: Seq<Seq<char>>, x: Seq<char>)
    ensures
        max_idr(names.push(x)) == ({
            let rest = max_idr(names);
            match spec_idr_number(x) {
                Some(v) => if v > rest {
                    v
                } else {
                    rest
                },
                None => rest,
            }
        }),
    decreases names.len(),
{
    if names.len() == 0 {
        assert(names.push(x)[0] == x);
        assert(names.push(x).drop_first() =~= Seq::<Seq<char>>::empty());
        assert(max_idr(Seq::<Seq<char>>::empty()) == 0);
    } else {
        assert(names.push(x)[0] == names[0]);
        assert(names.push(x).drop_first() =~= names.drop_first().push(x));
        lemma_max_idr_push(names.drop_first(), x);
    }
}

/// One more than the greatest sequence number found among the directory's
/// file names, or 1 when none matches; names that do not match the
/// artifact shape never influence the result. The count saturates at the
/// type's limit rather than wrapping.
pub fn next_number(names: &Vec<String>) -> (r: u32)
    ensures
        r == (if max_idr(names.deep_view()) < u32::MAX {
            max_idr(names.deep_view()) + 1
        } else {
            u32::MAX as int
        }),
{
    let ghost dv = names.deep_view();
    let mut best: u32 = 0;
    let mut i: usize = 0;
    proof {
        assert(dv.take(0) =~= Seq::<Seq<char>>::empty());
    }
    while i < names.len()
        invariant
            i <= names@.len(),
            dv == names.deep_view(),
            best == max_idr(dv.take(i as int)),
        decreases names@.len() - i,
    {
        match parse_idr_number(names[i].as_str()) {
            Some(v) => if v > best {
                best = v;
            },
            None => (),
        }
        proof {
            assert(dv.take(i + 1) =~= dv.take(i as int).push(dv[i as int]));
            lemma_max_idr_push(dv.take(i as int), dv[i as int]);
        }
        i = i + 1;
    }
    proof {
        assert(dv.take(dv.len() as int) =~= dv);
    }
    if best < u32::MAX {
        best + 1
    } else {
        best
    }
}

/// Whether `base` is a whole-component prefix of `target`, for paths with
/// `/` separators: equality, anything under the root, or `base` followed
/// by a separator.
pub open spec fn spec_path_starts_with(target: Seq<char>, base: Seq<char>) -> bool {
    ||| target == base
    ||| (base.len() == 1 && base[0] == '/' && target.len() > 1 && target[0] == '/')
    ||| (target.len() > base.len() && target.take(base.len() as int) == base && target[base.len() as int]
        == '/')
}

/// Whether `base` is a whole-component prefix of `target`.
pub fn path_starts_with(target: &str, base: &str) -> (r: bool)
    ensures
        r == spec_path_starts_with(target@, base@),
{
    let tn = target.unicode_len();
    let bn = base.unicode_len();
    if str_eq(target, base) {
        return true;
    }
    if bn == 1 && base.get_char(0) == '/' && tn > 1 && target.get_char(0) == '/' {
        return true;
    }
    if tn > bn {
        let prefix = target.substring_char(0, bn);
        proof {
            assert(prefix@ =~= target@.take(bn as int));
        }
        if str_eq(prefix, base) && target.get_char(bn) == '/' {
            return true;
        }
    }
    false
}

/// The index of the last separator, or -1 when there is none.
pub open spec fn last_sep(s: Seq<char>) -> int
    decreases s.len(),
{
    if s.len() == 0 {
        -1
    } else if s.last() == '/' {
        s.len() - 1
    } else {
        last_sep(s.drop_last())
    }
}

/// The parent of a `/`-separated path: the path up to its last separator,
/// `/` itself for a top-level entry; the root, and a path without any
/// separator, have none.
pub open spec fn spec_parent(s: Seq<char>) -> Option<Seq<char>> {
    if s.len() == 1 && s[0] == '/' {
        None
    } else {
        let k = last_sep(s);
        if k < 0 {
            None
        } else if k == 0 {
            Some(seq!['/'])
        } else {
            Some(s.take(k))
        }
    }
}

/// The parent directory of a path.
pub fn parent_of(s: &str) -> (r: Option<String>)
    ensures
        match r {
            Some(p) => spec_parent(s@) == Some(p@),
            None => spec_parent(s@) is None,
        },
{
    proof {
        reveal_strlit("/");
    }
    let n = s.unicode_len();
    if n == 1 && s.get_char(0) == '/' {
        proof {
            assert(s@.len() == 1 && s@[0] == '/');
        }
        return None;
    }
    let mut i: usize = n;
    proof {
        assert(s@.take(n as int) =~= s@);
    }
    while i > 0 && s.get_char(i - 1) != '/'
        invariant
            i <= n,
            n == s@.len(),
            last_sep(s@) == last_sep(s@.take(i as int)),
        decreases i,
    {
        proof {
            assert(s@.take(i as int).last() == s@[i - 1]);
            assert(s@.take(i as int).drop_last() =~= s@.take(i - 1));
        }
        i = i - 1;
    }
    if i == 0 {
        proof {
            assert(s@.take(0) =~= Seq::<char>::empty());
            assert(last_sep(s@) == -1);
        }
        None
    } else {
        proof {
            assert(s@.take(i as int).last() == s@[i - 1]);
            assert(last_sep(s@) == i - 1);
        }
        if i == 1 {
            let root = "/".to_owned();
            proof {
                assert(root@ =~= seq!['/']);
            }
            Some(root)
        } else {
            let p = s.substring_char(0, i - 1);
            proof {
                assert(p@ =~= s@.take(i - 1));
            }
            Some(p.to_owned())
        }
    }
}

/// What validating a pointer target yields: the target's parent directory
/// when the target, with symlinks already resolved by the caller, lies
/// under the workspace root and is a regular file; nothing otherwise.
pub open spec fn spec_validate(
    real_sow: Seq<char>,
    real_workspace: Seq<char>,
    is_file: bool,
) -> Option<Seq<char>> {
    if spec_path_starts_with(real_sow, real_workspace) && is_file {
        spec_parent(real_sow)
    } else {
        None
    }
}

/// Validates a pointer-file target against the workspace root. Both paths
/// must already have their symlinks resolved: the confinement check holds
/// for the real locations, not the textual ones.
pub fn validate_sow_path(real_sow: &str, real_workspace: &str, is_file: bool) -> (r: Option<
    String,
>)
    ensures
        match r {
            Some(p) => spec_validate(real_sow@, real_workspace@, is_file) == Some(p@),
            None => spec_validate(real_sow@, real_workspace@, is_file) is None,
        },
{
    if !path_starts_with(real_sow, real_workspace) {
        return None;
    }
    if !is_file {
        return None;
    }
    parent_of(real_sow)
}

/// The resolved output directory, by the three-tier policy.
pub open spec fn spec_resolve(
    output_dir: Option<String>,
    sow_real: Option<String>,
    sow_is_file: bool,
    workspace_real: Option<String>,
    workspace_dir: Seq<char>,
    date: Seq<char>,
) -> Seq<char> {
    let fallback = workspace_dir + "/planning/"@ + date;
    match output_dir {
        Some(d) => d@,
        None => match (sow_real, workspace_real) {
            (Some(s), Some(w)) => match spec_validate(s@, w@, sow_is_file) {
                Some(p) => p,
                None => fallback,
            },
            _ => fallback,
        },
    }
}

/// Decides the output directory. First a configured override, verbatim;
/// else the parent of a pointer-file target that passes the confinement
/// check; else the date directory under the workspace. `sow_real` and
/// `workspace_real` are the pointer target and the workspace root with
/// symlinks resolved, where the caller could resolve them. Creating the
/// directory, and reporting when it cannot be created, stay with the
/// caller: the chosen path is returned either way.
pub fn resolve(
    output_dir: &Option<String>,
    sow_real: &Option<String>,
    sow_is_file: bool,
    workspace_real: &Option<String>,
    workspace_dir: &str,
    date: &str,
) -> (r: String)
    ensures
        r@ == spec_resolve(
            *output_dir,
            *sow_real,
            sow_is_file,
            *workspace_real,
            workspace_dir@,
            date@,
        ),
{
    match output_dir {
        Some(d) => d.clone(),
        None => {
            match (sow_real, workspace_real) {
                (Some(s), Some(w)) => {
                    match validate_sow_path(s.as_str(), w.as_str(), sow_is_file) {
                        Some(p) => p,
                        None => date_dir(workspace_dir, date),
                    }
                },
                _ => date_dir(workspace_dir, date),
            }
        },
    }
}

fn date_dir(workspace_dir: &str, date: &str) -> (r: String)
    ensures
        r@ == workspace_dir@ + "/planning/"@ + date@,
{
    let mut out = workspace_dir.to_owned();
    out.append("/planning/");
    out.append(date);
    proof {
        assert(out@ =~= workspace_dir@ + "/planning/"@ + date@);
    }
    out
}

/// Whether a year of the proleptic Gregorian calendar is a leap year.
pub open spec fn is_leap(y: int) -> bool {
    y % 4 == 0 && (y % 100 != 0 || y % 400 == 0)
}

/// The number of days in a year.
pub open spec fn days_in_year(y: int) -> int {
    if is_leap(y) {
        366
    } else {
        365
    }
}

/// The number of days in a month.
pub open spec fn days_in_month(y: int, m: int) -> int {
    if m == 2 {
        if is_leap(y) {
            29
        } else {
            28
        }
    } else if m == 4 || m == 6 || m == 9 || m == 11 {
        30
    } else {
        31
    }
}

/// The days from the start of the epoch year to the start of year `y`.
pub open spec fn days_to_year(y: int) -> int
    decreases y - 1970,
{
    if y <= 1970 {
        0
    } else {
        days_to_year(y - 1) + days_in_year(y - 1)
    }
}

/// The days from the start of year `y` to the start of its month `m`.
pub open spec fn days_to_month(y: int, m: int) -> int
    decreases m,
{
    if m <= 1 {
        0
    } else {
        days_to_month(y, m - 1) + days_in_month(y, m - 1)
    }
}

/// The day number of a civil date, counted from the epoch date.
pub open spec fn days_from_civil(y: int, m: int, d: int) -> int {
    days_to_year(y) + days_to_month(y, m) + d - 1
}

/// A year's months sum to the year's days.
proof fn lemma_months_fill_year(y: int)
    ensures
        days_to_month(y, 13) == days_in_year(y),
{
    reveal_with_fuel(days_to_month, 14);
}

/// Every year holds at least 365 days, so year numbers stay bounded.
proof fn lemma_days_to_year_lower(y: int)
    requires
        1970 <= y,
    ensures
        days_to_year(y) >= 365 * (y - 1970),
    decreases y - 1970,
{
    if y > 1970 {
        lemma_days_to_year_lower(y - 1);
    }
}

fn is_leap_exec(y: u64) -> (r: bool)
    ensures
        r == is_leap(y as int),
{
    y % 4 == 0 && (y % 100 != 0 || y % 400 == 0)
}

fn days_in_year_exec(y: u64) -> (r: u64)
    ensures
        r == days_in_year(y as int),
{
    if is_leap_exec(y) {
        366
    } else {
        365
    }
}

fn days_in_month_exec(y: u64, m: u32) -> (r: u64)
    ensures
        r == days_in_month(y as int, m as int),
{
    if m == 2 {
        if is_leap_exec(y) {
            29
        } else {
            28
        }
    } else if m == 4 || m == 6 || m == 9 || m == 11 {
        30
    } else {
        31
    }
}

/// The civil calendar date, in universal time, of an epoch timestamp:
/// the returned year, month and day name the day numbered
/// `epoch_secs / 86400` from the epoch date, with the month and day in
/// their calendar ranges.
pub fn epoch_to_civil_utc(epoch_secs: u64) -> (r: (u64, u32, u32))
    ensures
        1970 <= r.0,
        1 <= r.1 <= 12,
        1 <= r.2 <= days_in_month(r.0 as int, r.1 as int),
        days_from_civil(r.0 as int, r.1 as int, r.2 as int) == epoch_secs as int / 86400,
{
    let total: u64 = epoch_secs / 86400;
    let mut days: u64 = total;
    let mut y: u64 = 1970;
    while days >= days_in_year_exec(y)
        invariant
            1970 <= y,
            days_to_year(y as int) + days == total,
        decreases days,
    {
        proof {
            lemma_days_to_year_lower(y as int);
        }
        days = days - days_in_year_exec(y);
        y = y + 1;
    }
    let ghost rem = days;
    let mut m: u32 = 1;
    while m < 12 && days >= days_in_month_exec(y, m)
        invariant
            1 <= m <= 12,
            days_to_month(y as int, m as int) + days == rem,
            rem < days_in_year(y as int),
            days_to_year(y as int) + rem == total,
        decreases 12 - m,
    {
        days = days - days_in_month_exec(y, m);
        m = m + 1;
    }
    proof {
        if m == 12 {
            lemma_months_fill_year(y as int);
            assert(days_to_month(y as int, 13) == days_to_month(y as int, 12) + days_in_month(
                y as int,
                12,
            ));
        }
        assert(days < days_in_month(y as int, m as int));
    }
    let d: u32 = (days + 1) as u32;
    (y, m, d)
}

/// The document written for one artifact: the purpose heading, the
/// timestamp, the generated content, and the diff stat in a fenced block.
/// A missing purpose gets the fixed fallback heading.
pub open spec fn spec_idr_doc(
    purpose: Option<String>,
    content: Seq<char>,
    stat: Seq<char>,
    datetime: Seq<char>,
) -> Seq<char> {
    let p = match purpose {
        Some(s) => s@,
        None => "(目的抽出失敗)"@,
    };
    "# IDR: "@ + p + "\n\n> "@ + datetime + "\n\n"@ + content
        + "\n\n---\n\n### git diff --stat\n```\n"@ + stat + "\n```\n"@
}

/// Renders the artifact document; writing it to its path, and creating
/// the parent directory first, are the caller's concern.
pub fn write_idr(purpose: &Option<String>, content: &str, stat: &str, datetime: &str) -> (r:
    String)
    ensures
        r@ == spec_idr_doc(*purpose, content@, stat@, datetime@),
{
    let mut out = "# IDR: ".to_owned();
    match purpose {
        Some(p) => out.append(p.as_str()),
        None => out.append("(目的抽出失敗)"),
    }
    out.append("\n\n> ");
    out.append(datetime);
    out.append("\n\n");
    out.append(content);
    out.append("\n\n---\n\n### git diff --stat\n```\n");
    out.append(stat);
    out.append("\n```\n");
    proof {
        assert(out@ =~= spec_idr_doc(*purpose, content@, stat@, datetime@));
    }
    out
}

} // verus!
