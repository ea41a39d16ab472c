//! The call into `serde_json` that reading JSON data makes.
use vstd::prelude::*;
use serde_json::Value;
use std::collections::HashMap;

verus! {

#[verifier::external_type_specification]
#[verifier::external_body]
pub struct ExJsonError(serde_json::Error);

/// A JSON value as a row field holds it: null, a boolean, a number as `serde_json` writes
/// it, the contents of a string (without its quotes), or an array or object as compact
/// JSON text.
pub enum LeafView {
    Null,
    Bool(bool),
    Number(Seq<char>),
    Text(Seq<char>),
    Nested(Seq<char>),
}

/// A JSON value, told apart by kind, with its text.
pub enum JsonLeaf {
    Null,
    Bool(bool),
    /// A number, as `serde_json` writes it.
    Number(String),
    /// The contents of a string.
    Text(String),
    /// An array or an object, as compact JSON.
    Nested(String),
}

impl View for JsonLeaf {
    type V = LeafView;

    open spec fn view(&self) -> LeafView {
        match self {
            JsonLeaf::Null => LeafView::Null,
            JsonLeaf::Bool(b) => LeafView::Bool(*b),
            JsonLeaf::Number(t) => LeafView::Number(t@),
            JsonLeaf::Text(t) => LeafView::Text(t@),
            JsonLeaf::Nested(t) => LeafView::Nested(t@),
        }
    }
}

/// For a text that `serde_json` reads as an array of objects, each object as a map from
/// its keys to its values; `None` for any other text.
pub uninterp spec fn json_row_leaves(text: Seq<char>) -> Option<Seq<Map<Seq<char>, LeafView>>>;

/// The names of the entries of a row.
pub open spec fn entry_names<V>(row: Seq<(String, V)>) -> Set<Seq<char>> {
    Set::new(|n: Seq<char>| exists|j: int| 0 <= j < row.len() && row[j].0@ == n)
}

/// Calls `serde_json::from_str::<Vec<HashMap<String, Value>>>` and turns each map into a
/// vector of its entries, each value told apart by kind, a number written by its
/// `Display` and an array or object by the `Display` of `Value` (compact JSON). Whether
/// the text is accepted and what each object holds depend on the text alone; the entries
/// of a map have distinct keys. The order in which a map's entries come out is that of
/// its iteration, which this contract does not state.
#[verifier::external_body]
pub(crate) fn parse_json_rows(text: &str) -> (r: Result<Vec<Vec<(String, JsonLeaf)>>, serde_json::Error>)
    ensures
        r is Ok <==> json_row_leaves(text@) is Some,
        r matches Ok(rows) ==> {
            let objects = json_row_leaves(text@).unwrap();
            &&& rows@.len() == objects.len()
            &&& forall|i: int| 0 <= i < rows@.len() ==> entry_names(#[trigger] rows@[i]@) == objects[i].dom()
            &&& forall|i: int, j: int| 0 <= i < rows@.len() && 0 <= j < rows@[i]@.len()
                ==> objects[i][#[trigger] rows@[i]@[j].0@] == rows@[i]@[j].1@
            &&& forall|i: int, j: int, k: int|
                0 <= i < rows@.len() && 0 <= j < k < rows@[i]@.len() ==> #[trigger] rows@[i]@[j].0@
                    != #[trigger] rows@[i]@[k].0@
        },
{
    let rows: Vec<HashMap<String, Value>> = serde_json::from_str(text)?;
    Ok(rows.into_iter().map(|row| row.into_iter().map(|(k, v)| (k, match v {
        Value::Null => JsonLeaf::Null,
        Value::Bool(b) => JsonLeaf::Bool(b),
        Value::Number(n) => JsonLeaf::Number(n.to_string()),
        Value::String(s) => JsonLeaf::Text(s),
        other => JsonLeaf::Nested(other.to_string()),
    })).collect()).collect())
}

} // verus!
