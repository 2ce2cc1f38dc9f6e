//! The session locator: selects the most relevant recent activity log
//! among candidates gathered by a directory walk, and gates on whether a
//! log shows any mutation activity.
//!
//! The caller walks the log directory and hands each log file's path and
//! modification time over as plain values; the selection logic here is
//! what carries the recency and exclusion rules.

use vstd::prelude::*;

use crate::context::has_tool_name;
use crate::context::mutation_names;
use crate::context::spec_has_tool_name;
use crate::jsonl::Json;
use crate::jsonl::iter_values;
use crate::jsonl::spec_records;
use crate::text::spec_split;

verus! {

/// The reserved directory name for nested, derived sessions; logs under
/// it never count as the user's own session.
pub open spec fn excluded_component() -> Seq<char> {
    "subagents"@
}

/// Whether a `/`-separated path has a component with the reserved name.
pub open spec fn spec_excluded(path: Seq<char>) -> bool {
    spec_split(path, '/').contains(excluded_component())
}

/// Whether the path has a component equal to the reserved subdirectory
/// name for nested sessions.
pub fn path_contains_subagents(path: &str) -> (r: bool)
    ensures
        r == spec_excluded(path@),
{
    let segments = crate::text::split_char(path, '/');
    crate::context::contains_str(&segments, "subagents")
}

/// A log file found by the directory walk: its path and its
/// last-modification time, in seconds.
pub struct Candidate {
    pub path: String,
    pub mtime: u64,
}

/// A candidate is eligible when its path holds no reserved component and
/// it is no older than `max_age`: an age of exactly `max_age` is still
/// eligible, and a modification time in the future (clock skew) is never
/// treated as too old.
pub open spec fn spec_eligible(c: Candidate, now: u64, max_age: u64) -> bool {
    &&& !spec_excluded(c.path@)
    &&& c.mtime + max_age >= now
}

/// Picks the most recently modified eligible candidate, if any. Among
/// candidates whose modification times are exactly equal, any one of the
/// tied ones may be returned.
pub fn find_recent(candidates: &Vec<Candidate>, now: u64, max_age: u64) -> (r: Option<String>)
    ensures
        match r {
            Some(p) => exists|i: int|
                0 <= i < candidates@.len() && #[trigger] spec_eligible(candidates@[i], now, max_age)
                    && candidates@[i].path@ == p@ && (forall|j: int|
                    0 <= j < candidates@.len() && #[trigger] spec_eligible(
                        candidates@[j],
                        now,
                        max_age,
                    ) ==> candidates@[j].mtime <= candidates@[i].mtime),
            None => forall|j: int|
                0 <= j < candidates@.len() ==> !#[trigger] spec_eligible(
                    candidates@[j],
                    now,
                    max_age,
                ),
        },
{
    let mut best: Option<usize> = None;
    let mut i: usize = 0;
    while i < candidates.len()
        invariant
            i <= candidates@.len(),
            match best {
                Some(b) => 0 <= b < i && spec_eligible(candidates@[b as int], now, max_age) && (
                forall|j: int|
                    0 <= j < i && #[trigger] spec_eligible(candidates@[j], now, max_age)
                        ==> candidates@[j].mtime <= candidates@[b as int].mtime),
                None => forall|j: int|
                    0 <= j < i ==> !#[trigger] spec_eligible(candidates@[j], now, max_age),
            },
        decreases candidates@.len() - i,
    {
        let c = &candidates[i];
        let fresh_enough = c.mtime >= now || now - c.mtime <= max_age;
        if fresh_enough && !path_contains_subagents(c.path.as_str()) {
            assert(spec_eligible(candidates@[i as int], now, max_age));
            match best {
                Some(b) => {
                    if candidates[b].mtime <= c.mtime {
                        best = Some(i);
                    }
                },
                None => {
                    best = Some(i);
                },
            }
        } else {
            assert(!spec_eligible(candidates@[i as int], now, max_age));
        }
        i = i + 1;
    }
    match best {
        Some(b) => Some(candidates[b].path.clone()),
        None => None,
    }
}

/// Whether any record of the log lines holds a mutation-tool invocation.
pub open spec fn spec_has_write_or_edit(recs: Seq<Json>) -> bool {
    exists|i: int| 0 <= i < recs.len() && #[trigger] spec_has_tool_name(recs[i], mutation_names())
}

/// Whether any line of the log holds a `Write` or `Edit` tool invocation.
/// Used as a gate before a session is treated as relevant.
pub fn has_write_or_edit(lines: &Vec<String>) -> (r: bool)
    ensures
        r == spec_has_write_or_edit(spec_records(lines@)),
{
    let recs = iter_values(lines);
    let mut names: Vec<String> = Vec::new();
    names.push("Write".to_owned());
    names.push("Edit".to_owned());
    proof {
        assert(names.deep_view() =~= mutation_names());
    }
    let mut i: usize = 0;
    while i < recs.len()
        invariant
            i <= recs@.len(),
            recs@ == spec_records(lines@),
            names.deep_view() == mutation_names(),
            forall|j: int|
                0 <= j < i ==> !#[trigger] spec_has_tool_name(recs@[j], mutation_names()),
        decreases recs@.len() - i,
    {
        if has_tool_name(&recs[i], &names) {
            assert(spec_has_tool_name(recs@[i as int], mutation_names()));
            assert(spec_has_write_or_edit(recs@));
            return true;
        }
        i = i + 1;
    }
    false
}

} // verus!
