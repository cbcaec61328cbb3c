use vstd::prelude::*;

verus! {

/// Whether a line of text is one well-formed JSON document. What
/// `serde_json::from_str` accepts depends on the text alone.
pub uninterp spec fn json_ok(s: Seq<char>) -> bool;

/// The string value of the field `key` at the root of the JSON
/// document in `s`, when the document parses and holds one there.
pub uninterp spec fn root_str_field(s: Seq<char>, key: Seq<char>) -> Option<Seq<char>>;

/// The string value of the field `root.section.key` of the JSON
/// document in `s`, when the document parses and holds one there.
pub uninterp spec fn nested_str_field(
    s: Seq<char>,
    root: Seq<char>,
    section: Seq<char>,
    key: Seq<char>,
) -> Option<Seq<char>>;

/// View of an optional owned string.
pub open spec fn opt_view(o: Option<String>) -> Option<Seq<char>> {
    match o {
        Some(s) => Some(s@),
        None => None,
    }
}

/// Relies on `serde_json::from_str::<Value>`: whether the line is a
/// well-formed JSON document. serde_json parses from the text alone,
/// so the outcome is a function of the line.
#[verifier::external_body]
pub(crate) fn doc_is_json(line: &str) -> (r: bool)
    ensures
        r == json_ok(line@),
{
    serde_json::from_str::<serde_json::Value>(line).is_ok()
}

/// Relies on `serde_json::from_str::<Value>`, `Value::get` and
/// `Value::as_str`: the string field under `key` at the document root.
/// An unparsable line, a non-object root, an absent key and a
/// non-string value all give `None`; the outcome is a function of the
/// line and the key alone.
#[verifier::external_body]
pub(crate) fn doc_root_str(line: &str, key: &str) -> (r: Option<String>)
    ensures
        opt_view(r) == root_str_field(line@, key@),
{
    let doc: Result<serde_json::Value, serde_json::Error> = serde_json::from_str(line);
    let v = match doc {
        Ok(v) => v,
        Err(_) => return None,
    };
    Some(v.get(key)?.as_str()?.to_owned())
}

/// Relies on `serde_json::from_str::<Value>`, `Value::get` and
/// `Value::as_str`: the string field reached by the path
/// `root.section.key`. Any missing step or non-string value gives
/// `None`; the outcome is a function of the line and the path alone.
#[verifier::external_body]
pub(crate) fn doc_nested_str(line: &str, root: &str, section: &str, key: &str) -> (r: Option<
    String,
>)
    ensures
        opt_view(r) == nested_str_field(line@, root@, section@, key@),
{
    let doc: Result<serde_json::Value, serde_json::Error> = serde_json::from_str(line);
    let v = match doc {
        Ok(v) => v,
        Err(_) => return None,
    };
    let f = v.get(root)?.get(section)?.get(key)?;
    Some(f.as_str()?.to_owned())
}

} // verus!
