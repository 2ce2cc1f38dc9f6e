//! The line-oriented record stream: a JSON-like tree model for one log
//! record, and the parsing of newline-delimited log lines into records.
//!
//! A record is one line of a log file. Lines that are empty or fail to
//! parse are skipped silently; they never abort the stream.

use vstd::prelude::*;
use vstd::string::StrSliceExecFns;

verus! {

/// A JSON-like tree, as far as the extractors read it. Numeric values are
/// never read by any extractor, so a number carries no payload here.
pub enum Json {
    Null,
    Bool(bool),
    Num,
    Str(String),
    Arr(JsonList),
    Obj(JsonProps),
}

/// The elements of a JSON array, in order.
pub enum JsonList {
    Nil,
    Cons(Box<Json>, Box<JsonList>),
}

/// The key-value pairs of a JSON object, in order.
pub enum JsonProps {
    Nil,
    Cons(String, Box<Json>, Box<JsonProps>),
}

/// The value of the first property with the given key, if any.
pub open spec fn props_lookup(p: JsonProps, key: Seq<char>) -> Option<Json>
    decreases p,
{
    match p {
        JsonProps::Nil => None,
        JsonProps::Cons(k, v, rest) => if k@ == key {
            Some(*v)
        } else {
            props_lookup(*rest, key)
        },
    }
}

/// The value under `key` when the tree is an object holding it.
pub open spec fn json_get(j: Json, key: Seq<char>) -> Option<Json> {
    match j {
        Json::Obj(p) => props_lookup(p, key),
        _ => None,
    }
}

/// Looks a key up in an object; any other tree holds nothing.
pub fn get<'a>(j: &'a Json, key: &str) -> (r: Option<&'a Json>)
    ensures
        match r {
            Some(v) => json_get(*j, key@) == Some(*v),
            None => json_get(*j, key@) is None,
        },
{
    match j {
        Json::Obj(p) => props_get(p, key),
        _ => None,
    }
}

fn props_get<'a>(p: &'a JsonProps, key: &str) -> (r: Option<&'a Json>)
    ensures
        match r {
            Some(v) => props_lookup(*p, key@) == Some(*v),
            None => props_lookup(*p, key@) is None,
        },
    decreases *p,
{
    match p {
        JsonProps::Nil => None,
        JsonProps::Cons(k, v, rest) => {
            if crate::text::str_eq(k.as_str(), key) {
                Some(&**v)
            } else {
                props_get(&**rest, key)
            }
        },
    }
}

/// Declares `serde_json::Value`, the parser's own tree type, so that the
/// conversion below may take it; it is opaque here.
#[verifier::external_type_specification]
#[verifier::external_body]
pub struct ExValue(serde_json::Value);

/// What parsing one log line returns: the record's tree when the line is
/// well-formed JSON, nothing otherwise. A function of the characters alone.
pub uninterp spec fn json_of(line: Seq<char>) -> Option<Json>;

/// Relies on `serde_json::from_str`: whether a line parses, and to which
/// tree, depends on the line's characters alone.
#[verifier::external_body]
fn parse_json_line(line: &str) -> (r: Option<Json>)
    ensures
        r == json_of(line@),
{
    match serde_json::from_str::<serde_json::Value>(line) {
        Ok(v) => Some(value_to_json(v)),
        Err(_) => None,
    }
}

/// Relies on the `serde_json::Value` representation: moves each variant of
/// the parsed tree into the record model, field for field; only the
/// numeric payload is dropped, which no extractor reads.
#[verifier::external_body]
fn value_to_json(v: serde_json::Value) -> Json {
    match v {
        serde_json::Value::Null => Json::Null,
        serde_json::Value::Bool(b) => Json::Bool(b),
        serde_json::Value::Number(_) => Json::Num,
        serde_json::Value::String(s) => Json::Str(s),
        serde_json::Value::Array(a) => Json::Arr(a.into_iter().rev().fold(JsonList::Nil, |t, x| {
            JsonList::Cons(Box::new(value_to_json(x)), Box::new(t))
        })),
        serde_json::Value::Object(m) => Json::Obj(m.into_iter().rev().fold(JsonProps::Nil, |t, e| {
            JsonProps::Cons(e.0, Box::new(value_to_json(e.1)), Box::new(t))
        })),
    }
}

/// The records of a sequence of log lines: empty lines and lines that do
/// not parse are skipped.
pub open spec fn spec_records(lines: Seq<String>) -> Seq<Json>
    decreases lines.len(),
{
    if lines.len() == 0 {
        Seq::empty()
    } else {
        let tail = spec_records(lines.drop_first());
        if lines[0]@.len() == 0 {
            tail
        } else {
            match json_of(lines[0]@) {
                Some(j) => seq![j] + tail,
                None => tail,
            }
        }
    }
}

/// The record a single line contributes, as a sequence of zero or one.
pub open spec fn spec_line_records(l: String) -> Seq<Json> {
    if l@.len() == 0 {
        Seq::empty()
    } else {
        match json_of(l@) {
            Some(j) => seq![j],
            None => Seq::empty(),
        }
    }
}

proof fn lemma_records_push(lines: Seq<String>, l: String)
    ensures
        spec_records(lines.push(l)) == spec_records(lines) + spec_line_records(l),
    decreases lines.len(),
{
    if lines.len() == 0 {
        assert(lines.push(l)[0] == l);
        assert(lines.push(l).drop_first() =~= Seq::<String>::empty());
        assert(spec_records(Seq::<String>::empty()) == Seq::<Json>::empty());
        assert(spec_records(lines.push(l)) =~= spec_records(lines) + spec_line_records(l));
    } else {
        let lp = lines.push(l);
        assert(lp[0] == lines[0]);
        assert(lp.drop_first() =~= lines.drop_first().push(l));
        lemma_records_push(lines.drop_first(), l);
        assert(spec_records(lp.drop_first()) == spec_records(lines.drop_first())
            + spec_line_records(l));
        assert(spec_records(lp) =~= spec_records(lines) + spec_line_records(l));
    }
}

/// Parses each line into a record, skipping empty and malformed lines.
pub fn iter_values(lines: &Vec<String>) -> (r: Vec<Json>)
    ensures
        r@ == spec_records(lines@),
{
    let mut out: Vec<Json> = Vec::new();
    let mut i: usize = 0;
    while i < lines.len()
        invariant
            i <= lines@.len(),
            out@ == spec_records(lines@.take(i as int)),
        decreases lines@.len() - i,
    {
        let line = &lines[i];
        let ghost prev = out@;
        if !line.as_str().is_empty() {
            match parse_json_line(line.as_str()) {
                Some(j) => out.push(j),
                None => (),
            }
        }
        proof {
            assert(lines@.take(i + 1) =~= lines@.take(i as int).push(lines@[i as int]));
            lemma_records_push(lines@.take(i as int), lines@[i as int]);
            assert(out@ =~= prev + spec_line_records(lines@[i as int]));
        }
        i = i + 1;
    }
    proof {
        assert(lines@.take(lines@.len() as int) =~= lines@);
    }
    out
}

} // verus!
