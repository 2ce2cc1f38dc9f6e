//! Escaping data for prompts, and the argument list for the external
//! text-generation process. Spawning that process is the caller's concern.

use vstd::prelude::*;
use vstd::string::StrSliceExecFns;
use vstd::string::StringExecFns;

use crate::config::Config;

verus! {

/// What one character escapes to: `&`, `<`, `>`, `"` and `'` become
/// entity references, every other character stands unchanged.
pub open spec fn escape_char(c: char) -> Seq<char> {
    if c == '&' {
        "&amp;"@
    } else if c == '<' {
        "&lt;"@
    } else if c == '>' {
        "&gt;"@
    } else if c == '"' {
        "&quot;"@
    } else if c == '\'' {
        "&apos;"@
    } else {
        seq![c]
    }
}

/// A text with every character escaped.
pub open spec fn spec_escape_xml(s: Seq<char>) -> Seq<char>
    decreases s.len(),
{
    if s.len() == 0 {
        Seq::empty()
    } else {
        escape_char(s[0]) + spec_escape_xml(s.drop_first())
    }
}

proof fn lemma_escape_push(s: Seq<char>, c: char)
    ensures
        spec_escape_xml(s.push(c)) == spec_escape_xml(s) + escape_char(c),
    decreases s.len(),
{
    if s.len() == 0 {
        assert(s.push(c)[0] == c);
        assert(s.push(c).drop_first() =~= Seq::<char>::empty());
        assert(spec_escape_xml(Seq::<char>::empty()) == Seq::<char>::empty());
        assert(spec_escape_xml(s.push(c)) =~= spec_escape_xml(s) + escape_char(c));
    } else {
        assert(s.push(c)[0] == s[0]);
        assert(s.push(c).drop_first() =~= s.drop_first().push(c));
        lemma_escape_push(s.drop_first(), c);
        assert(spec_escape_xml(s.push(c)) =~= spec_escape_xml(s) + escape_char(c));
    }
}

/// Escapes the XML special characters `&`, `<`, `>`, `"` and `'`.
pub fn escape_xml(input: &str) -> (r: String)
    ensures
        r@ == spec_escape_xml(input@),
{
    let n = input.unicode_len();
    let mut out = String::new();
    let mut i: usize = 0;
    proof {
        assert(input@.take(0) =~= Seq::<char>::empty());
    }
    while i < n
        invariant
            i <= n,
            n == input@.len(),
            out@ == spec_escape_xml(input@.take(i as int)),
        decreases n - i,
    {
        let c = input.get_char(i);
        if c == '&' {
            out.append("&amp;");
        } else if c == '<' {
            out.append("&lt;");
        } else if c == '>' {
            out.append("&gt;");
        } else if c == '"' {
            out.append("&quot;");
        } else if c == '\'' {
            out.append("&apos;");
        } else {
            let one = input.substring_char(i, i + 1);
            proof {
                assert(one@ =~= seq![input@[i as int]]);
            }
            out.append(one);
        }
        proof {
            assert(input@.take(i + 1) =~= input@.take(i as int).push(input@[i as int]));
            lemma_escape_push(input@.take(i as int), input@[i as int]);
        }
        i = i + 1;
    }
    proof {
        assert(input@.take(n as int) =~= input@);
    }
    out
}

/// The argument list for the external model process: print mode and the
/// configured model, without the program name.
pub fn build_command(config: &Config) -> (r: Vec<String>)
    ensures
        r@.len() == 3,
        r@[0]@ == "-p"@,
        r@[1]@ == "--model"@,
        r@[2]@ == config.model@,
{
    let mut v: Vec<String> = Vec::new();
    v.push("-p".to_owned());
    v.push("--model".to_owned());
    v.push(config.model.clone());
    v
}

} // verus!
