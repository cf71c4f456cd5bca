//! The table of field descriptions, read from a JSON object of strings.
use vstd::prelude::*;

verus! {

/// What the JSON parser makes of a text read as an object whose values are
/// all strings: its members in key order, or the parser's error message.
pub uninterp spec fn json_string_map(text: Seq<char>) -> Result<Seq<(Seq<char>, Seq<char>)>, Seq<char>>;

pub open spec fn pairs_view(v: Seq<(String, String)>) -> Seq<(Seq<char>, Seq<char>)> {
    v.map_values(|p: (String, String)| (p.0@, p.1@))
}

/// Relies on `serde_json::from_str` into a `BTreeMap<String, String>`: the
/// members in key order, or the error's message.
#[verifier::external_body]
fn parse_string_map(text: &str) -> (r: Result<Vec<(String, String)>, String>)
    ensures
        match r {
            Ok(v) => json_string_map(text@) == Ok::<_, Seq<char>>(pairs_view(v@)),
            Err(e) => json_string_map(text@) == Err::<Seq<(Seq<char>, Seq<char>)>, _>(e@),
        },
{
    match serde_json::from_str::<std::collections::BTreeMap<String, String>>(text) {
        Ok(map) => Ok(map.into_iter().collect()),
        Err(e) => Err(e.to_string()),
    }
}

/// The description table in a JSON text: every member as a (name,
/// description) pair in key order, or the decoder's message when the text is
/// not an object of strings. The whole text decodes, or nothing does.
pub fn descriptions_from_json(text: &str) -> (r: Result<Vec<(String, String)>, String>)
    ensures
        match r {
            Ok(v) => json_string_map(text@) == Ok::<_, Seq<char>>(pairs_view(v@)),
            Err(e) => json_string_map(text@) == Err::<Seq<(Seq<char>, Seq<char>)>, _>(e@),
        },
{
    parse_string_map(text)
}

} // verus!
