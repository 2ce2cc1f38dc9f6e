//! The context extractor: pulls changed-resource identifiers and
//! user-request snippets out of a stream of log records, and renders them
//! as a two-section text block.
//!
//! Changed resources are collected into a lexicographically sorted,
//! duplicate-free set; requests are kept in encounter order, each one
//! truncated to a bounded number of Unicode scalar values, and at most a
//! bounded count of them is rendered.

use vstd::prelude::*;
use vstd::string::StrSliceExecFns;
use vstd::string::StringExecFns;

use crate::jsonl::Json;
use crate::jsonl::JsonList;
use crate::jsonl::get;
use crate::jsonl::json_get;
use crate::jsonl::spec_records;
use crate::jsonl::iter_values;
use crate::text::lex_lt;
use crate::text::lemma_lex_lt_trans;
use crate::text::lemma_lex_trichotomy;
use crate::text::str_eq;
use crate::text::str_lt;
use crate::text::truncate_chars;

verus! {

/// The most characters kept of one user request.
pub const REQUEST_MAX_CHARS: usize = 150;

/// The most requests kept in the rendered output.
pub const REQUEST_MAX_COUNT: usize = 20;

/// The names of the tools whose invocation means a resource was mutated.
pub open spec fn mutation_names() -> Seq<Seq<char>> {
    seq!["Write"@, "Edit"@]
}

/// The `message.content` field of a record.
pub open spec fn spec_content(j: Json) -> Option<Json> {
    match json_get(j, "message"@) {
        Some(m) => json_get(m, "content"@),
        None => None,
    }
}

/// Whether a tool-invocation entry's `name` field is one of `names`.
pub open spec fn item_named(item: Json, names: Seq<Seq<char>>) -> bool {
    match json_get(item, "name"@) {
        Some(Json::Str(n)) => names.contains(n@),
        _ => false,
    }
}

/// The resource identifier a tool-invocation entry contributes: its
/// `input.file_path` string, when its tool is one of the mutation tools.
pub open spec fn item_path(item: Json) -> Option<Seq<char>> {
    if item_named(item, mutation_names()) {
        match json_get(item, "input"@) {
            Some(inp) => match json_get(inp, "file_path"@) {
                Some(Json::Str(p)) => Some(p@),
                _ => None,
            },
            None => None,
        }
    } else {
        None
    }
}

/// The resource identifiers of a list of tool-invocation entries, in order.
pub open spec fn list_paths(l: JsonList) -> Seq<Seq<char>>
    decreases l,
{
    match l {
        JsonList::Nil => Seq::empty(),
        JsonList::Cons(item, rest) => match item_path(*item) {
            Some(p) => seq![p] + list_paths(*rest),
            None => list_paths(*rest),
        },
    }
}

/// The resource identifiers one record contributes.
pub open spec fn record_paths(j: Json) -> Seq<Seq<char>> {
    match spec_content(j) {
        Some(Json::Arr(l)) => list_paths(l),
        _ => Seq::empty(),
    }
}

/// Whether any entry of a list is named one of `names`.
pub open spec fn list_has_name(l: JsonList, names: Seq<Seq<char>>) -> bool
    decreases l,
{
    match l {
        JsonList::Nil => false,
        JsonList::Cons(item, rest) => item_named(*item, names) || list_has_name(*rest, names),
    }
}

/// Whether a record holds a tool invocation named one of `names`.
pub open spec fn spec_has_tool_name(j: Json, names: Seq<Seq<char>>) -> bool {
    match spec_content(j) {
        Some(Json::Arr(l)) => list_has_name(l, names),
        _ => false,
    }
}

/// The user request a record contributes: its `message.content` string,
/// but only when the record's `type` is `user` and the content is a plain
/// string, not a list.
pub open spec fn user_text(j: Json) -> Option<Seq<char>> {
    match json_get(j, "type"@) {
        Some(Json::Str(t)) => if t@ == "user"@ {
            match spec_content(j) {
                Some(Json::Str(s)) => Some(s@),
                _ => None,
            }
        } else {
            None
        },
        _ => None,
    }
}

/// Whether some string of `names` equals `x`.
pub(crate) fn contains_str(names: &Vec<String>, x: &str) -> (r: bool)
    ensures
        r == names.deep_view().contains(x@),
{
    let mut i: usize = 0;
    while i < names.len()
        invariant
            i <= names@.len(),
            forall|k: int| 0 <= k < i ==> names.deep_view()[k] != x@,
        decreases names@.len() - i,
    {
        if str_eq(names[i].as_str(), x) {
            assert(names.deep_view()[i as int] == x@);
            return true;
        }
        i = i + 1;
    }
    false
}

fn item_named_exec(item: &Json, names: &Vec<String>) -> (r: bool)
    ensures
        r == item_named(*item, names.deep_view()),
{
    match get(item, "name") {
        Some(Json::Str(n)) => contains_str(names, n.as_str()),
        _ => false,
    }
}

fn list_has_name_exec(l: &JsonList, names: &Vec<String>) -> (r: bool)
    ensures
        r == list_has_name(*l, names.deep_view()),
    decreases *l,
{
    match l {
        JsonList::Nil => false,
        JsonList::Cons(item, rest) => {
            if item_named_exec(&**item, names) {
                true
            } else {
                list_has_name_exec(&**rest, names)
            }
        },
    }
}

fn content_of<'a>(j: &'a Json) -> (r: Option<&'a Json>)
    ensures
        match r {
            Some(c) => spec_content(*j) == Some(*c),
            None => spec_content(*j) is None,
        },
{
    match get(j, "message") {
        Some(m) => get(m, "content"),
        None => None,
    }
}

/// Whether a record holds a tool invocation named one of `names`.
pub fn has_tool_name(j: &Json, names: &Vec<String>) -> (r: bool)
    ensures
        r == spec_has_tool_name(*j, names.deep_view()),
{
    match content_of(j) {
        Some(Json::Arr(l)) => list_has_name_exec(l, names),
        _ => false,
    }
}

/// Strictly ascending in lexicographic order, hence duplicate-free.
pub open spec fn sorted_unique(s: Seq<Seq<char>>) -> bool {
    forall|i: int, j: int| 0 <= i < j < s.len() ==> lex_lt(s[i], s[j])
}

/// `x` placed at its position in `s`, or dropped when already present.
pub open spec fn insert_sorted(s: Seq<Seq<char>>, x: Seq<char>) -> Seq<Seq<char>>
    decreases s.len(),
{
    if s.len() == 0 {
        seq![x]
    } else if lex_lt(x, s[0]) {
        seq![x] + s
    } else if x == s[0] {
        s
    } else {
        seq![s[0]] + insert_sorted(s.drop_first(), x)
    }
}

/// Every element of `xs` inserted into `s` in turn.
pub open spec fn insert_all(s: Seq<Seq<char>>, xs: Seq<Seq<char>>) -> Seq<Seq<char>>
    decreases xs.len(),
{
    if xs.len() == 0 {
        s
    } else {
        insert_all(insert_sorted(s, xs[0]), xs.drop_first())
    }
}

/// Inserts `path` into the sorted duplicate-free vector `files`.
pub(crate) fn insert_file(files: &mut Vec<String>, path: &str)
    ensures
        final(files).deep_view() == insert_sorted(old(files).deep_view(), path@),
{
    let ghost dv = files.deep_view();
    let n = files.len();
    let mut i: usize = 0;
    proof {
        assert(dv.skip(0) =~= dv);
        assert(dv.take(0) + insert_sorted(dv.skip(0), path@) =~= insert_sorted(dv, path@));
    }
    while i < n && str_lt(files[i].as_str(), path)
        invariant
            i <= n,
            n == files@.len(),
            files@ == old(files)@,
            dv == files.deep_view(),
            insert_sorted(dv, path@) == dv.take(i as int) + insert_sorted(
                dv.skip(i as int),
                path@,
            ),
        decreases n - i,
    {
        proof {
            lemma_lex_trichotomy(path@, dv[i as int]);
            assert(dv.skip(i as int)[0] == dv[i as int]);
            assert(dv.skip(i as int).drop_first() =~= dv.skip(i + 1));
            assert(insert_sorted(dv.skip(i as int), path@) == seq![dv[i as int]] + insert_sorted(
                dv.skip(i + 1),
                path@,
            ));
            assert(dv.take(i as int) + (seq![dv[i as int]] + insert_sorted(dv.skip(i + 1), path@))
                =~= dv.take(i + 1) + insert_sorted(dv.skip(i + 1), path@));
        }
        i = i + 1;
    }
    if i < n && str_eq(files[i].as_str(), path) {
        proof {
            assert(dv.skip(i as int)[0] == dv[i as int]);
            assert(insert_sorted(dv.skip(i as int), path@) == dv.skip(i as int));
            assert(dv.take(i as int) + dv.skip(i as int) =~= dv);
        }
    } else {
        proof {
            if i < n {
                lemma_lex_trichotomy(path@, dv[i as int]);
                assert(dv.skip(i as int)[0] == dv[i as int]);
                assert(insert_sorted(dv.skip(i as int), path@) == seq![path@] + dv.skip(i as int));
            } else {
                assert(dv.skip(i as int).len() == 0);
                assert(insert_sorted(dv.skip(i as int), path@) =~= seq![path@]);
            }
        }
        let owned = path.to_owned();
        let ghost pre = files@;
        files.insert(i, owned);
        proof {
            assert forall|j: int| 0 <= j < files.deep_view().len() implies files.deep_view()[j]
                == (dv.take(i as int) + (seq![path@] + dv.skip(i as int)))[j] by {
                assert(files@ == pre.insert(i as int, owned));
                if j < i {
                    assert(files@[j] == pre[j]);
                } else if j == i {
                    assert(files@[j] == owned);
                } else {
                    assert(files@[j] == pre[j - 1]);
                }
            }
            assert(files.deep_view() =~= dv.take(i as int) + (seq![path@] + dv.skip(i as int)));
        }
    }
}

fn item_path_exec<'a>(item: &'a Json) -> (r: Option<&'a String>)
    ensures
        match r {
            Some(p) => item_path(*item) == Some(p@),
            None => item_path(*item) is None,
        },
{
    let is_mutation = match get(item, "name") {
        Some(Json::Str(n)) => str_eq(n.as_str(), "Write") || str_eq(n.as_str(), "Edit"),
        _ => false,
    };
    proof {
        assert(mutation_names()[0] == "Write"@);
        assert(mutation_names()[1] == "Edit"@);
        assert(forall|s: Seq<char>|
            mutation_names().contains(s) ==> s == "Write"@ || s == "Edit"@);
    }
    if !is_mutation {
        return None;
    }
    match get(item, "input") {
        Some(inp) => match get(inp, "file_path") {
            Some(Json::Str(p)) => Some(p),
            _ => None,
        },
        None => None,
    }
}

fn list_insert_paths(l: &JsonList, out: &mut Vec<String>)
    ensures
        final(out).deep_view() == insert_all(old(out).deep_view(), list_paths(*l)),
    decreases *l,
{
    match l {
        JsonList::Nil => {
            proof {
                assert(insert_all(out.deep_view(), list_paths(*l)) == out.deep_view());
            }
        },
        JsonList::Cons(item, rest) => {
            match item_path_exec(&**item) {
                Some(p) => {
                    insert_file(out, p.as_str());
                    proof {
                        let paths = list_paths(*l);
                        assert(paths == seq![p@] + list_paths(**rest));
                        assert(paths[0] == p@);
                        assert(paths.drop_first() =~= list_paths(**rest));
                    }
                },
                None => {
                    proof {
                        assert(list_paths(*l) == list_paths(**rest));
                    }
                },
            }
            list_insert_paths(&**rest, out);
        },
    }
}

/// Folds the resource identifiers of one record into the sorted
/// duplicate-free vector `out`.
pub fn extract_changed_files(j: &Json, out: &mut Vec<String>)
    ensures
        final(out).deep_view() == insert_all(old(out).deep_view(), record_paths(*j)),
{
    match content_of(j) {
        Some(Json::Arr(l)) => list_insert_paths(l, out),
        _ => {
            proof {
                assert(insert_all(out.deep_view(), record_paths(*j)) == out.deep_view());
            }
        },
    }
}

/// A request truncated to the fixed maximum character count.
pub open spec fn truncated(s: Seq<char>) -> Seq<char> {
    if s.len() <= REQUEST_MAX_CHARS {
        s
    } else {
        s.take(REQUEST_MAX_CHARS as int)
    }
}

/// Appends the user request of one record, truncated, to `out`.
pub fn extract_user_request(j: &Json, out: &mut Vec<String>)
    ensures
        final(out).deep_view() == (match user_text(*j) {
            Some(t) => old(out).deep_view().push(truncated(t)),
            None => old(out).deep_view(),
        }),
{
    let ghost prev = out.deep_view();
    let is_user = match get(j, "type") {
        Some(Json::Str(t)) => str_eq(t.as_str(), "user"),
        _ => false,
    };
    if !is_user {
        return;
    }
    match content_of(j) {
        Some(Json::Str(s)) => {
            let t = truncate_chars(s.as_str(), REQUEST_MAX_CHARS);
            out.push(t);
            proof {
                assert(out.deep_view() =~= prev.push(truncated(s@)));
            }
        },
        _ => {},
    }
}

/// The sorted duplicate-free resource identifiers of a record sequence.
pub open spec fn fold_files(acc: Seq<Seq<char>>, recs: Seq<Json>) -> Seq<Seq<char>>
    decreases recs.len(),
{
    if recs.len() == 0 {
        acc
    } else {
        fold_files(insert_all(acc, record_paths(recs[0])), recs.drop_first())
    }
}

/// The changed-resource identifiers of a record sequence, sorted and
/// duplicate-free.
pub open spec fn spec_files(recs: Seq<Json>) -> Seq<Seq<char>> {
    fold_files(Seq::empty(), recs)
}

proof fn lemma_fold_files_push(acc: Seq<Seq<char>>, recs: Seq<Json>, j: Json)
    ensures
        fold_files(acc, recs.push(j)) == insert_all(fold_files(acc, recs), record_paths(j)),
    decreases recs.len(),
{
    if recs.len() == 0 {
        assert(recs.push(j)[0] == j);
        assert(recs.push(j).drop_first() =~= Seq::<Json>::empty());
        assert(fold_files(insert_all(acc, record_paths(j)), Seq::<Json>::empty()) == insert_all(
            acc,
            record_paths(j),
        ));
        assert(fold_files(acc, Seq::<Json>::empty()) == acc);
    } else {
        assert(recs.push(j)[0] == recs[0]);
        assert(recs.push(j).drop_first() =~= recs.drop_first().push(j));
        lemma_fold_files_push(insert_all(acc, record_paths(recs[0])), recs.drop_first(), j);
    }
}

/// The requests of a record sequence, in encounter order, each truncated.
pub open spec fn spec_requests(recs: Seq<Json>) -> Seq<Seq<char>>
    decreases recs.len(),
{
    if recs.len() == 0 {
        Seq::empty()
    } else {
        let rest = spec_requests(recs.drop_first());
        match user_text(recs[0]) {
            Some(t) => seq![truncated(t)] + rest,
            None => rest,
        }
    }
}

/// The request a single record contributes, as a sequence of zero or one.
pub open spec fn spec_record_request(j: Json) -> Seq<Seq<char>> {
    match user_text(j) {
        Some(t) => seq![truncated(t)],
        None => Seq::empty(),
    }
}

proof fn lemma_requests_push(recs: Seq<Json>, j: Json)
    ensures
        spec_requests(recs.push(j)) == spec_requests(recs) + spec_record_request(j),
    decreases recs.len(),
{
    if recs.len() == 0 {
        assert(recs.push(j)[0] == j);
        assert(recs.push(j).drop_first() =~= Seq::<Json>::empty());
        assert(spec_requests(Seq::<Json>::empty()) == Seq::<Seq<char>>::empty());
        assert(spec_requests(recs.push(j)) =~= spec_requests(recs) + spec_record_request(j));
    } else {
        assert(recs.push(j)[0] == recs[0]);
        assert(recs.push(j).drop_first() =~= recs.drop_first().push(j));
        lemma_requests_push(recs.drop_first(), j);
        assert(spec_requests(recs.push(j)) =~= spec_requests(recs) + spec_record_request(j));
    }
}

/// One bulleted line per item.
pub open spec fn bullets(items: Seq<Seq<char>>) -> Seq<char>
    decreases items.len(),
{
    if items.len() == 0 {
        Seq::empty()
    } else {
        "- "@ + items[0] + "\n"@ + bullets(items.drop_first())
    }
}

proof fn lemma_bullets_push(items: Seq<Seq<char>>, x: Seq<char>)
    ensures
        bullets(items.push(x)) == bullets(items) + ("- "@ + x + "\n"@),
    decreases items.len(),
{
    if items.len() == 0 {
        assert(items.push(x)[0] == x);
        assert(items.push(x).drop_first() =~= Seq::<Seq<char>>::empty());
        assert(bullets(Seq::<Seq<char>>::empty()) == Seq::<char>::empty());
        assert(bullets(items.push(x)) =~= bullets(items) + ("- "@ + x + "\n"@));
    } else {
        assert(items.push(x)[0] == items[0]);
        assert(items.push(x).drop_first() =~= items.drop_first().push(x));
        lemma_bullets_push(items.drop_first(), x);
        assert(bullets(items.push(x)) =~= bullets(items) + ("- "@ + x + "\n"@));
    }
}

/// The requests that are rendered: the first ones, up to the fixed count.
pub open spec fn rendered_requests(reqs: Seq<Seq<char>>) -> Seq<Seq<char>> {
    if reqs.len() <= REQUEST_MAX_COUNT {
        reqs
    } else {
        reqs.take(REQUEST_MAX_COUNT as int)
    }
}

/// The two-section text block: a header and one bulleted line per
/// resource, a blank line, then a header and one bulleted line per kept
/// request.
pub open spec fn spec_render(files: Seq<Seq<char>>, reqs: Seq<Seq<char>>) -> Seq<char> {
    "# Changed files:\n"@ + bullets(files) + "\n"@ + "# User requests in this session:\n"@
        + bullets(rendered_requests(reqs))
}

fn append_bullets(out: &mut String, items: &Vec<String>, count: usize)
    requires
        count <= items@.len(),
    ensures
        final(out)@ == old(out)@ + bullets(items.deep_view().take(count as int)),
{
    let ghost base = out@;
    let mut i: usize = 0;
    proof {
        assert(items.deep_view().take(0) =~= Seq::<Seq<char>>::empty());
        assert(base + bullets(items.deep_view().take(0)) =~= base);
    }
    while i < count
        invariant
            i <= count <= items@.len(),
            out@ == base + bullets(items.deep_view().take(i as int)),
        decreases count - i,
    {
        out.append("- ");
        out.append(items[i].as_str());
        out.append("\n");
        proof {
            let dv = items.deep_view();
            assert(dv.take(i + 1) =~= dv.take(i as int).push(dv[i as int]));
            lemma_bullets_push(dv.take(i as int), dv[i as int]);
            assert(out@ =~= base + bullets(dv.take(i + 1)));
        }
        i = i + 1;
    }
}

fn render(files: &Vec<String>, reqs: &Vec<String>) -> (r: String)
    ensures
        r@ == spec_render(files.deep_view(), reqs.deep_view()),
{
    let mut out = "# Changed files:\n".to_owned();
    append_bullets(&mut out, files, files.len());
    proof {
        assert(files.deep_view().take(files@.len() as int) =~= files.deep_view());
    }
    out.append("\n");
    out.append("# User requests in this session:\n");
    let m = if reqs.len() > REQUEST_MAX_COUNT {
        REQUEST_MAX_COUNT
    } else {
        reqs.len()
    };
    append_bullets(&mut out, reqs, m);
    proof {
        assert(reqs.deep_view().take(m as int) =~= rendered_requests(reqs.deep_view()));
        assert(out@ =~= spec_render(files.deep_view(), reqs.deep_view()));
    }
    out
}

/// Extracts context from the lines of an activity log.
///
/// Returns the rendered two-section block, or nothing when the lines hold
/// neither a changed resource nor a user request: "no context" is distinct
/// from empty context.
pub fn extract(lines: &Vec<String>) -> (r: Option<String>)
    ensures
        ({
            let recs = spec_records(lines@);
            match r {
                None => spec_files(recs).len() == 0 && spec_requests(recs).len() == 0,
                Some(out) => (spec_files(recs).len() != 0 || spec_requests(recs).len() != 0)
                    && out@ == spec_render(spec_files(recs), spec_requests(recs)),
            }
        }),
{
    let recs = iter_values(lines);
    let mut files: Vec<String> = Vec::new();
    let mut reqs: Vec<String> = Vec::new();
    let mut i: usize = 0;
    proof {
        assert(recs@.take(0) =~= Seq::<Json>::empty());
        assert(files.deep_view() =~= fold_files(Seq::empty(), recs@.take(0)));
        assert(reqs.deep_view() =~= spec_requests(recs@.take(0)));
    }
    while i < recs.len()
        invariant
            i <= recs@.len(),
            files.deep_view() == fold_files(Seq::empty(), recs@.take(i as int)),
            reqs.deep_view() == spec_requests(recs@.take(i as int)),
        decreases recs@.len() - i,
    {
        let ghost prev_reqs = reqs.deep_view();
        extract_changed_files(&recs[i], &mut files);
        extract_user_request(&recs[i], &mut reqs);
        proof {
            assert(recs@.take(i + 1) =~= recs@.take(i as int).push(recs@[i as int]));
            lemma_fold_files_push(Seq::empty(), recs@.take(i as int), recs@[i as int]);
            lemma_requests_push(recs@.take(i as int), recs@[i as int]);
            assert(reqs.deep_view() =~= prev_reqs + spec_record_request(recs@[i as int]));
        }
        i = i + 1;
    }
    proof {
        assert(recs@.take(recs@.len() as int) =~= recs@);
    }
    if files.len() == 0 && reqs.len() == 0 {
        None
    } else {
        Some(render(&files, &reqs))
    }
}

proof fn lemma_insert_sorted_props(s: Seq<Seq<char>>, x: Seq<char>)
    requires
        sorted_unique(s),
    ensures
        sorted_unique(insert_sorted(s, x)),
        forall|k: int|
            0 <= k < insert_sorted(s, x).len() ==> #[trigger] insert_sorted(s, x)[k] == x
                || s.contains(insert_sorted(s, x)[k]),
    decreases s.len(),
{
    let r = insert_sorted(s, x);
    if s.len() == 0 {
        assert(r == seq![x]);
        assert(r[0] == x);
    } else if lex_lt(x, s[0]) {
        assert(r == seq![x] + s);
        assert forall|i: int, j: int| 0 <= i < j < r.len() implies lex_lt(r[i], r[j]) by {
            if i == 0 {
                if j == 1 {
                    assert(r[j] == s[0]);
                } else {
                    assert(r[j] == s[j - 1]);
                    assert(lex_lt(s[0], s[j - 1]));
                    lemma_lex_lt_trans(x, s[0], s[j - 1]);
                }
            } else {
                assert(r[i] == s[i - 1] && r[j] == s[j - 1]);
            }
        }
        assert forall|k: int| 0 <= k < r.len() implies #[trigger] r[k] == x || s.contains(r[k]) by {
            if k > 0 {
                assert(r[k] == s[k - 1]);
            }
        }
    } else if x == s[0] {
    } else {
        assert(sorted_unique(s.drop_first())) by {
            assert(forall|i: int, j: int|
                0 <= i < j < s.drop_first().len() ==> s.drop_first()[i] == s[i + 1]
                    && s.drop_first()[j] == s[j + 1]);
        }
        lemma_insert_sorted_props(s.drop_first(), x);
        let t = insert_sorted(s.drop_first(), x);
        assert(r == seq![s[0]] + t);
        lemma_lex_trichotomy(x, s[0]);
        assert(lex_lt(s[0], x));
        assert forall|k: int| 0 <= k < r.len() implies #[trigger] r[k] == x || s.contains(r[k]) by {
            if k == 0 {
                assert(r[0] == s[0]);
                assert(s.contains(s[0]));
            } else {
                let e = t[k - 1];
                assert(r[k] == e);
                if e != x {
                    let m = choose|m: int|
                        0 <= m < s.drop_first().len() && s.drop_first()[m] == e;
                    assert(s[m + 1] == e);
                    assert(s.contains(s[m + 1]));
                }
            }
        }
        assert forall|i: int, j: int| 0 <= i < j < r.len() implies lex_lt(r[i], r[j]) by {
            if i == 0 {
                let e = t[j - 1];
                assert(r[j] == e);
                if e == x {
                    assert(lex_lt(s[0], e));
                } else {
                    let m = choose|m: int|
                        0 <= m < s.drop_first().len() && s.drop_first()[m] == e;
                    assert(s[m + 1] == e);
                    assert(lex_lt(s[0], s[m + 1]));
                }
            } else {
                assert(r[i] == t[i - 1] && r[j] == t[j - 1]);
            }
        }
    }
}

proof fn lemma_insert_all_sorted(s: Seq<Seq<char>>, xs: Seq<Seq<char>>)
    requires
        sorted_unique(s),
    ensures
        sorted_unique(insert_all(s, xs)),
    decreases xs.len(),
{
    if xs.len() != 0 {
        lemma_insert_sorted_props(s, xs[0]);
        lemma_insert_all_sorted(insert_sorted(s, xs[0]), xs.drop_first());
    }
}

proof fn lemma_fold_files_sorted(acc: Seq<Seq<char>>, recs: Seq<Json>)
    requires
        sorted_unique(acc),
    ensures
        sorted_unique(fold_files(acc, recs)),
    decreases recs.len(),
{
    if recs.len() != 0 {
        lemma_insert_all_sorted(acc, record_paths(recs[0]));
        lemma_fold_files_sorted(insert_all(acc, record_paths(recs[0])), recs.drop_first());
    }
}

/// The resource identifiers extracted from any record sequence are
/// strictly ascending in lexicographic order, so the rendered list is
/// sorted and holds no duplicate, however often an identifier recurs.
pub proof fn lemma_changed_files_sorted(recs: Seq<Json>)
    ensures
        sorted_unique(spec_files(recs)),
{
    lemma_fold_files_sorted(Seq::empty(), recs);
}

/// A kept request of `n` scalar values is rendered at length
/// `min(n, REQUEST_MAX_CHARS)`, and is a prefix of its source, so no
/// character is ever cut apart.
pub proof fn lemma_request_truncation(s: Seq<char>)
    ensures
        truncated(s).len() == (if s.len() <= REQUEST_MAX_CHARS {
            s.len()
        } else {
            REQUEST_MAX_CHARS as nat
        }),
        truncated(s) == s.take(truncated(s).len() as int),
{
    assert(truncated(s) =~= s.take(truncated(s).len() as int));
}

/// No more than `REQUEST_MAX_COUNT` requests are rendered, and the kept
/// ones are exactly the first ones encountered, in order.
pub proof fn lemma_rendered_request_count(reqs: Seq<Seq<char>>)
    ensures
        rendered_requests(reqs).len() <= REQUEST_MAX_COUNT,
        rendered_requests(reqs).len() == (if reqs.len() <= REQUEST_MAX_COUNT {
            reqs.len()
        } else {
            REQUEST_MAX_COUNT as nat
        }),
        forall|k: int|
            0 <= k < rendered_requests(reqs).len() ==> #[trigger] rendered_requests(reqs)[k]
                == reqs[k],
{
}

} // verus!
