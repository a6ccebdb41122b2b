use vstd::prelude::*;
use vstd::string::*;

verus! {

/// What the decoder saw in a manifest body.
#[derive(Debug, PartialEq, Eq, Clone)]
pub enum ManifestDecode {
    /// The body is not valid JSON.
    Invalid,
    /// Valid JSON whose top-level value is not an object.
    NotObject,
    /// The top-level object's member values, in decoder order: the
    /// content of each string member, None for any other value.
    Members(Vec<Option<String>>),
}

/// Why a manifest body yields no route list.
#[derive(Debug, PartialEq, Eq, Clone, Copy)]
pub enum ManifestError {
    /// The body could not be parsed as JSON.
    NotJson,
    /// The top-level JSON value is not an object.
    NotObject,
}

/// Whether serde_json parses the text as a JSON document.
pub uninterp spec fn json_wellformed(s: Seq<char>) -> bool;

/// For a well-formed JSON document: the member values of its
/// top-level object in decoder order, each a string's content or
/// None for a value of any other type; None when the top-level
/// value is not an object.
pub uninterp spec fn json_object_values(s: Seq<char>) -> Option<Seq<Option<Seq<char>>>>;

/// Relies on serde_json::from_str::<Value>, Value::as_object,
/// Map::values and Value::as_str: from_str returns Ok exactly on a
/// well-formed JSON document; as_object returns Some exactly when
/// the value is an object; values() yields the members in the map's
/// fixed order (sorted by key); as_str returns Some exactly for
/// strings, with their content. All of it depends on the body alone.
#[verifier::external_body]
fn decode_manifest(body: &str) -> (r: ManifestDecode)
    ensures
        (r is Invalid) == !json_wellformed(body@),
        json_wellformed(body@) ==> ((r is NotObject) == (json_object_values(body@) is None)),
        r matches ManifestDecode::Members(m) ==> json_wellformed(body@) && json_object_values(
            body@,
        ) == Some(m.deep_view()),
{
    match serde_json::from_str::<serde_json::Value>(body) {
        Err(_) => ManifestDecode::Invalid,
        Ok(v) => match v.as_object() {
            None => ManifestDecode::NotObject,
            Some(m) => ManifestDecode::Members(
                m.values().map(|x| x.as_str().map(|t| t.to_string())).collect(),
            ),
        },
    }
}

/// The string members, in order; other members are dropped.
pub open spec fn string_members(vals: Seq<Option<Seq<char>>>) -> Seq<Seq<char>>
    decreases vals.len(),
{
    if vals.len() == 0 {
        Seq::empty()
    } else {
        match vals[0] {
            Option::Some(s) => seq![s] + string_members(vals.skip(1)),
            Option::None => string_members(vals.skip(1)),
        }
    }
}

pub open spec fn join_rest(ss: Seq<Seq<char>>) -> Seq<char>
    decreases ss.len(),
{
    if ss.len() == 0 {
        Seq::empty()
    } else {
        seq![','] + ss[0] + join_rest(ss.skip(1))
    }
}

/// Comma-joined list of strings; empty for no strings.
pub open spec fn join_comma(ss: Seq<Seq<char>>) -> Seq<char> {
    if ss.len() == 0 {
        Seq::empty()
    } else {
        ss[0] + join_rest(ss.skip(1))
    }
}

/// The route list a decoded manifest yields: its string members
/// joined with commas.
pub open spec fn joined_routes(vals: Seq<Option<Seq<char>>>) -> Seq<char> {
    join_comma(string_members(vals))
}

/// Join the string members of a decoded manifest with commas; the
/// non-string members are dropped without error.
#[verifier::loop_isolation(false)]
pub fn join_route_values(values: &Vec<Option<String>>) -> (r: String)
    ensures
        r@ == joined_routes(values.deep_view()),
{
    proof {
        reveal_strlit(",");
        assert(","@ =~= seq![',']);
    }
    let n: usize = values.len();
    let ghost dv = values.deep_view();
    let mut out = String::new();
    let mut first: bool = true;
    let mut i: usize = 0;
    proof {
        assert(dv.len() == n);
        assert(dv.skip(0) =~= dv);
    }
    while i < n
        invariant
            0 <= i <= n,
            first ==> out@ == Seq::<char>::empty() && string_members(dv.skip(i as int))
                == string_members(dv),
            !first ==> joined_routes(dv) == out@ + join_rest(string_members(dv.skip(i as int))),
        decreases n - i,
    {
        proof {
            assert(dv[i as int] == values@[i as int].deep_view());
            assert(dv.skip(i as int)[0] == dv[i as int]);
            assert(dv.skip(i as int).skip(1) =~= dv.skip(i as int + 1));
        }
        match &values[i] {
            Option::None => {},
            Option::Some(s) => {
                let ghost sm_rest = string_members(dv.skip(i as int + 1));
                proof {
                    assert(string_members(dv.skip(i as int)) == seq![s@] + sm_rest);
                    assert((seq![s@] + sm_rest)[0] == s@);
                    assert((seq![s@] + sm_rest).skip(1) =~= sm_rest);
                }
                if first {
                    out.append(s.as_str());
                    first = false;
                } else {
                    out.append(",");
                    out.append(s.as_str());
                }
            },
        }
        i = i + 1;
    }
    proof {
        assert(dv.skip(n as int) =~= Seq::<Option<Seq<char>>>::empty());
        assert(string_members(dv.skip(n as int)) =~= Seq::<Seq<char>>::empty());
    }
    out
}

/// Decode a manifest body and join its string members: the compute
/// half of `fetch`, once the HTTP response body is in hand. An
/// object with no string members gives an empty route list, which
/// is a success, not an error.
pub fn extract_routes(body: &str) -> (r: Result<String, ManifestError>)
    ensures
        (r is Ok) <==> (json_wellformed(body@) && json_object_values(body@) is Some),
        r matches Ok(s) ==> (json_object_values(body@) matches Some(vals) && s@ == joined_routes(
            vals,
        )),
        r matches Err(e) ==> ((e is NotJson) <==> !json_wellformed(body@)) && ((e is NotObject)
            <==> (json_wellformed(body@) && json_object_values(body@) is None)),
{
    match decode_manifest(body) {
        ManifestDecode::Invalid => Err(ManifestError::NotJson),
        ManifestDecode::NotObject => Err(ManifestError::NotObject),
        ManifestDecode::Members(m) => Ok(join_route_values(&m)),
    }
}

} // verus!
