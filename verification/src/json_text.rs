//! JSON text: string quoting by serde_json, and compact objects of string
//! members built from it.
use vstd::prelude::*;

verus! {

/// How serde_json writes one character inside a JSON string.
pub open spec fn json_escape_char(c: char) -> Seq<char> {
    if c == '"' {
        seq!['\\', '"']
    } else if c == '\\' {
        seq!['\\', '\\']
    } else if c == '\u{8}' {
        seq!['\\', 'b']
    } else if c == '\t' {
        seq!['\\', 't']
    } else if c == '\n' {
        seq!['\\', 'n']
    } else if c == '\u{c}' {
        seq!['\\', 'f']
    } else if c == '\r' {
        seq!['\\', 'r']
    } else if (c as u32) < 0x20 {
        seq!['\\', 'u', '0', '0', crate::text::hex_lower((c as u32 / 16) as int), crate::text::hex_lower((c as u32 % 16) as int)]
    } else {
        seq![c]
    }
}

/// The escaped characters of a text.
pub open spec fn json_escaped(s: Seq<char>) -> Seq<char>
    decreases s.len(),
{
    if s.len() == 0 {
        Seq::empty()
    } else {
        json_escaped(s.drop_last()) + json_escape_char(s.last())
    }
}

/// A text as a JSON string literal.
pub open spec fn json_quoted(s: Seq<char>) -> Seq<char> {
    seq!['"'] + json_escaped(s) + seq!['"']
}

/// A text as a JSON string literal (`serde_json::to_string` on a `&str`):
/// the text between double quotes, with `"`, `\` and the control characters
/// below U+0020 escaped (`\b`, `\t`, `\n`, `\f`, `\r`, else `\u00xx` in
/// lower-case hexadecimal). Serializing a string slice writes into a `Vec`
/// and does not fail.
#[verifier::external_body]
pub(crate) fn json_string(s: &str) -> (out: String)
    ensures
        out@ == json_quoted(s@),
{
    match serde_json::to_string(s) {
        Ok(text) => text,
        Err(_) => String::new(),
    }
}

/// An optional text as JSON: the quoted text, or `null`.
pub open spec fn json_opt(o: Option<String>) -> Seq<char> {
    match o {
        Some(s) => json_quoted(s@),
        None => "null"@,
    }
}

/// An optional text as JSON.
pub fn json_opt_string(o: &Option<String>) -> (out: String)
    ensures
        out@ == json_opt(*o),
{
    match o {
        Some(s) => json_string(s.as_str()),
        None => crate::text::owned("null"),
    }
}

/// `"key":value` for an ASCII key that needs no escaping.
pub open spec fn json_member(key: Seq<char>, value: Seq<char>) -> Seq<char> {
    seq!['"'] + key + seq!['"', ':'] + value
}

/// A compact JSON object of the given members, in order.
pub open spec fn json_object(members: Seq<Seq<char>>) -> Seq<char> {
    seq!['{'] + json_join(members) + seq!['}']
}

/// Members separated by commas.
pub open spec fn json_join(members: Seq<Seq<char>>) -> Seq<char>
    decreases members.len(),
{
    if members.len() == 0 {
        Seq::empty()
    } else if members.len() == 1 {
        members[0]
    } else {
        json_join(members.drop_last()) + seq![','] + members.last()
    }
}

/// A compact JSON object of the given members, in order.
pub fn json_object_text(members: &Vec<String>) -> (out: String)
    ensures
        out@ == json_object(members@.map_values(|m: String| m@)),
{
    let ghost ms = members@.map_values(|m: String| m@);
    let mut out = String::new();
    crate::text::push_char(&mut out, '{');
    assert(ms.take(0) =~= Seq::<Seq<char>>::empty());
    assert(out@ =~= seq!['{'] + json_join(ms.take(0)));
    let n = members.len();
    for i in 0..n
        invariant
            n == members@.len(),
            ms == members@.map_values(|m: String| m@),
            out@ == seq!['{'] + json_join(ms.take(i as int)),
    {
        proof {
            assert(ms.take(i + 1).drop_last() =~= ms.take(i as int));
        }
        if i > 0 {
            crate::text::push_char(&mut out, ',');
        }
        crate::text::push_str(&mut out, members[i].as_str());
        proof {
            if i == 0 {
                assert(ms.take(1) =~= seq![ms[0]]);
                assert(json_join(ms.take(0)) =~= Seq::<char>::empty());
            }
            assert(out@ =~= seq!['{'] + json_join(ms.take(i + 1)));
        }
    }
    crate::text::push_char(&mut out, '}');
    assert(ms.take(n as int) =~= ms);
    out
}

} // verus!
