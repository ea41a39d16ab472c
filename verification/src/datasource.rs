//! Data source abstraction.
use vstd::prelude::*;
use vstd::string::*;
use crate::json::{entry_names, json_row_leaves, parse_json_rows, JsonLeaf, LeafView};
use crate::text::{has_prefix, join, same_text};

verus! {

/// A row as the layout sees it: the name and text of each field, in order.
pub type RowView = Seq<(Seq<char>, Seq<char>)>;

/// The text of the first field of `row` named `name`, if any.
pub open spec fn lookup_field(row: RowView, name: Seq<char>) -> Option<Seq<char>>
    decreases row.len(),
{
    if row.len() == 0 {
        None
    } else if row[0].0 == name {
        Some(row[0].1)
    } else {
        lookup_field(row.drop_first(), name)
    }
}

/// Errors of a data source.
#[derive(Debug)]
pub enum DataSourceError {
    FieldNotFound(String),
    JsonError(serde_json::Error),
    Other(String),
}

/// The text of an error other than a JSON one.
pub open spec fn error_text(e: DataSourceError) -> Seq<char> {
    match e {
        DataSourceError::FieldNotFound(s) => "Field not found: "@ + s@,
        DataSourceError::Other(s) => "Data source error: "@ + s@,
        DataSourceError::JsonError(_) => Seq::empty(),
    }
}

/// `t` is the text of the error `x`: a JSON error's text starts with `JSON parse error: `
/// (the rest is `serde_json`'s own); any other error's text is [`error_text`].
pub open spec fn message_of(x: DataSourceError, t: Seq<char>) -> bool {
    if x is JsonError {
        has_prefix(t, "JSON parse error: "@)
    } else {
        t == error_text(x)
    }
}

impl DataSourceError {
    /// The text of this error.
    pub fn message(&self) -> (r: String)
        ensures
            message_of(*self, r@),
            !(self is JsonError) ==> r@ == error_text(*self),
            match self {
                DataSourceError::FieldNotFound(s) => r@ == "Field not found: "@ + s@,
                DataSourceError::JsonError(_) => has_prefix(r@, "JSON parse error: "@),
                DataSourceError::Other(s) => r@ == "Data source error: "@ + s@,
            },
    {
        match self {
            DataSourceError::FieldNotFound(s) => join("Field not found: ", s.as_str()),
            DataSourceError::JsonError(e) => {
                let detail = e.to_string();
                let r = join("JSON parse error: ", detail.as_str());
                proof {
                    assert(r@.take("JSON parse error: "@.len() as int) =~= "JSON parse error: "@);
                }
                r
            },
            DataSourceError::Other(s) => join("Data source error: ", s.as_str()),
        }
    }
}

/// A cursor over rows of named fields. The rows that are still to come, and the current
/// row, describe what `next` and `get_field` give. A source may also fail for reasons of
/// its own (a lost connection, say); one that cannot says so by `may_fail`.
pub trait DataSource {
    /// Every row of the source, in order.
    spec fn all_rows(&self) -> Seq<RowView>;

    /// The row that `get_field` reads, if there is one.
    spec fn current_row(&self) -> Option<RowView>;

    /// The rows that calls of `next` will still move to, in order.
    spec fn rows_ahead(&self) -> Seq<RowView>;

    /// Whether a call may fail other than where its contract says it does.
    spec fn may_fail(&self) -> bool;

    /// Move to the next row; `false` when there is none, and then nothing moves.
    fn next(&mut self) -> (r: Result<bool, DataSourceError>)
        ensures
            r is Err ==> old(self).may_fail(),
            r matches Ok(more) ==> {
                &&& final(self).all_rows() == old(self).all_rows()
                &&& final(self).may_fail() == old(self).may_fail()
                &&& more == (old(self).rows_ahead().len() > 0)
                &&& more ==> final(self).current_row() == Some(old(self).rows_ahead()[0])
                    && final(self).rows_ahead() == old(self).rows_ahead().drop_first()
                &&& !more ==> final(self).current_row() == old(self).current_row()
                    && final(self).rows_ahead() == old(self).rows_ahead()
            },
    ;

    /// The text of the error that `get_field` gives where the current row is `row` and it
    /// has no field `name` (or there is no current row), for a source that does not fail on
    /// its own.
    spec fn missing_text(row: Option<RowView>, name: Seq<char>) -> Seq<char>;

    /// The text of the field `name` in the current row; an error where there is no current
    /// row or it has no such field.
    fn get_field(&self, name: &str) -> (r: Result<String, DataSourceError>)
        ensures
            match self.current_row() {
                Some(row) => match lookup_field(row, name@) {
                    Some(t) => match r {
                        Ok(v) => v@ == t,
                        Err(_) => self.may_fail(),
                    },
                    None => r is Err,
                },
                None => r is Err,
            },
            !self.may_fail() ==> (r matches Err(e) ==> !(e is JsonError)
                && error_text(e) == Self::missing_text(self.current_row(), name@)),
    ;

    /// Go back before the first row.
    fn reset(&mut self) -> (r: Result<(), DataSourceError>)
        ensures
            r is Err ==> old(self).may_fail(),
            r is Ok ==> {
                &&& final(self).all_rows() == old(self).all_rows()
                &&& final(self).may_fail() == old(self).may_fail()
                &&& final(self).current_row() is None
                &&& final(self).rows_ahead() == final(self).all_rows()
            },
    ;
}

/// A field value read from JSON.
#[derive(Debug, Clone)]
pub enum FieldValue {
    Null,
    Bool(bool),
    /// A number, as `serde_json` writes it.
    Number(String),
    Text(String),
    /// An array or an object, as compact JSON.
    Json(String),
}

/// The text that `get_field` gives for a value: empty for null, `true` or `false` for a
/// boolean, and the text itself otherwise.
pub open spec fn field_text(f: FieldValue) -> Seq<char> {
    match f {
        FieldValue::Null => Seq::empty(),
        FieldValue::Bool(b) => if b { "true"@ } else { "false"@ },
        FieldValue::Number(t) => t@,
        FieldValue::Text(t) => t@,
        FieldValue::Json(t) => t@,
    }
}

/// The text that a field holding the JSON value `l` gives: empty for null, `true` or
/// `false` for a boolean, the number as written, the contents of a string, and the compact
/// JSON of an array or object.
pub open spec fn leaf_text(l: LeafView) -> Seq<char> {
    match l {
        LeafView::Null => Seq::empty(),
        LeafView::Bool(b) => if b { "true"@ } else { "false"@ },
        LeafView::Number(t) => t,
        LeafView::Text(t) => t,
        LeafView::Nested(t) => t,
    }
}

/// The JSON value that a field value stands for.
pub open spec fn field_leaf(f: FieldValue) -> LeafView {
    match f {
        FieldValue::Null => LeafView::Null,
        FieldValue::Bool(b) => LeafView::Bool(b),
        FieldValue::Number(t) => LeafView::Number(t@),
        FieldValue::Text(t) => LeafView::Text(t@),
        FieldValue::Json(t) => LeafView::Nested(t@),
    }
}

/// The text of the field `name` of a JSON object, if it has that key.
pub open spec fn object_field(object: Map<Seq<char>, LeafView>, name: Seq<char>) -> Option<Seq<char>> {
    if object.dom().contains(name) {
        Some(leaf_text(object[name]))
    } else {
        None
    }
}

/// Rows hold the JSON objects: one row for each object, in order, and in each row a field
/// for each key of its object, with the text of its value, and no other field.
pub open spec fn rows_hold(rows: Seq<RowView>, objects: Seq<Map<Seq<char>, LeafView>>) -> bool {
    &&& rows.len() == objects.len()
    &&& forall|i: int, n: Seq<char>| 0 <= i < rows.len() ==> #[trigger] lookup_field(rows[i], n) == object_field(objects[i], n)
}

/// The view of a stored row.
pub open spec fn row_view(row: Seq<(String, FieldValue)>) -> RowView {
    row.map_values(|e: (String, FieldValue)| (e.0@, field_text(e.1)))
}

/// JSON array data source
pub struct JsonDataSource {
    data: Vec<Vec<(String, FieldValue)>>,
    current_index: Option<usize>,
}

/// What a call of `next` does to the position: before the first row it moves to row 0
/// if there is one; on row `i` it moves to `i + 1` if there is such a row; else it stays.
pub open spec fn next_position(pos: Option<usize>, len: nat) -> (Option<usize>, bool) {
    match pos {
        None => if len == 0 { (None, false) } else { (Some(0usize), true) },
        Some(i) => if i + 1 < len { (Some((i + 1) as usize), true) } else { (Some(i), false) },
    }
}

impl JsonDataSource {
    #[verifier::type_invariant]
    closed spec fn inv(self) -> bool {
        self.current_index matches Some(i) ==> i < self.data@.len()
    }

    /// The rows, as the layout sees them.
    pub closed spec fn rows(&self) -> Seq<RowView> {
        self.data@.map_values(|r: Vec<(String, FieldValue)>| row_view(r@))
    }

    /// The position of the cursor: `None` before the first row.
    pub closed spec fn position(&self) -> Option<usize> {
        self.current_index
    }

    /// Create a new JSON data source from a JSON array string
    pub fn new(json: &str) -> (r: Result<Self, DataSourceError>)
        ensures
            r is Ok <==> json_row_leaves(json@) is Some,
            r matches Err(e) ==> e is JsonError,
            r matches Ok(ds) ==> ds.position() is None && rows_hold(ds.rows(), json_row_leaves(json@).unwrap()),
    {
        let mut raw = match parse_json_rows(json) {
            Ok(rows) => rows,
            Err(e) => return Err(DataSourceError::JsonError(e)),
        };
        let ghost objects = json_row_leaves(json@).unwrap();
        let ghost total = raw@.len();
        let mut data: Vec<Vec<(String, FieldValue)>> = Vec::new();
        while raw.len() > 0
            invariant
                data@.len() + raw@.len() == total,
                total == objects.len(),
                forall|i: int| 0 <= i < raw@.len() ==> object_entries((#[trigger] raw@[i])@, objects[data@.len() + i]),
                forall|i: int, n: Seq<char>| 0 <= i < data@.len() ==> #[trigger] lookup_field(row_view(data@[i]@), n)
                    == object_field(objects[i], n),
            decreases raw@.len(),
        {
            let ghost before = raw@;
            let ghost k = data@.len() as int;
            let entries = raw.remove(0);
            assert(object_entries(entries@, objects[k])) by {
                assert(before[0] == entries);
            }
            assert forall|i: int| 0 <= i < raw@.len() implies object_entries((#[trigger] raw@[i])@, objects[data@.len() + 1 + i]) by {
                assert(raw@[i] == before[i + 1]);
            }
            let ghost source = entries@;
            let row = convert_row(entries);
            proof {
                lemma_same_names(row@, source);
                lemma_row_holds_object(row@, objects[k]);
            }
            data.push(row);
        }
        let ds = JsonDataSource { data, current_index: None };
        assert(ds.rows().len() == objects.len());
        assert forall|i: int, n: Seq<char>| 0 <= i < ds.rows().len() implies #[trigger] lookup_field(ds.rows()[i], n)
            == object_field(objects[i], n) by {
            assert(ds.rows()[i] == row_view(ds.data@[i]@));
        }
        Ok(ds)
    }

    /// The same rows at the same position, duplicated.
    pub fn duplicate(&self) -> (r: Self)
        ensures
            r.rows() == self.rows(),
            r.position() == self.position(),
            r.current_row() == self.current_row(),
            r.rows_ahead() == self.rows_ahead(),
    {
        proof {
            use_type_invariant(self);
        }
        let mut data: Vec<Vec<(String, FieldValue)>> = Vec::new();
        let mut i: usize = 0;
        while i < self.data.len()
            invariant
                i <= self.data@.len(),
                data@.len() == i,
                forall|k: int| 0 <= k < i ==> row_view((#[trigger] data@[k])@) == row_view(self.data@[k]@),
            decreases self.data@.len() - i,
        {
            data.push(duplicate_row(&self.data[i]));
            i = i + 1;
        }
        let r = JsonDataSource { data, current_index: self.current_index };
        assert(r.rows() =~= self.rows());
        r
    }

    /// Get current row data
    fn current_entries(&self) -> (r: Result<&Vec<(String, FieldValue)>, DataSourceError>)
        ensures
            match self.current_index {
                Some(i) => r matches Ok(row) && row@ == self.data@[i as int]@,
                None => r matches Err(DataSourceError::Other(m)) && m@ == "No current row"@,
            },
    {
        proof {
            use_type_invariant(self);
        }
        match self.current_index {
            Some(idx) => Ok(&self.data[idx]),
            None => Err(DataSourceError::Other(String::from_str("No current row"))),
        }
    }
}

/// The entries of a JSON object, one for each key, each with its value.
pub open spec fn object_entries(entries: Seq<(String, JsonLeaf)>, object: Map<Seq<char>, LeafView>) -> bool {
    &&& entry_names(entries) == object.dom()
    &&& forall|j: int| 0 <= j < entries.len() ==> object[#[trigger] entries[j].0@] == entries[j].1@
    &&& forall|j: int, k: int| 0 <= j < k < entries.len() ==> #[trigger] entries[j].0@ != #[trigger] entries[k].0@
}

/// The field value that a JSON value stands for in a row.
fn field_value(v: JsonLeaf) -> (r: FieldValue)
    ensures
        field_leaf(r) == v@,
        field_text(r) == leaf_text(v@),
{
    match v {
        JsonLeaf::Null => FieldValue::Null,
        JsonLeaf::Bool(b) => FieldValue::Bool(b),
        JsonLeaf::Number(t) => FieldValue::Number(t),
        JsonLeaf::Text(s) => FieldValue::Text(s),
        JsonLeaf::Nested(t) => FieldValue::Json(t),
    }
}

/// A row of JSON entries as stored, with the same names in the same order.
fn convert_row(entries: Vec<(String, JsonLeaf)>) -> (r: Vec<(String, FieldValue)>)
    ensures
        r@.len() == entries@.len(),
        forall|j: int| 0 <= j < r@.len() ==> (#[trigger] r@[j]).0 == entries@[j].0 && field_leaf(r@[j].1) == entries@[j].1@,
{
    let mut entries = entries;
    let ghost original = entries@;
    let mut row: Vec<(String, FieldValue)> = Vec::new();
    while entries.len() > 0
        invariant
            row@.len() + entries@.len() == original.len(),
            forall|j: int| 0 <= j < row@.len() ==> (#[trigger] row@[j]).0 == original[j].0 && field_leaf(row@[j].1) == original[j].1@,
            forall|j: int| 0 <= j < entries@.len() ==> (#[trigger] entries@[j]) == original[row@.len() + j],
        decreases entries@.len(),
    {
        let ghost before = entries@;
        let (name, value) = entries.remove(0);
        assert(before[0] == original[row@.len() as int]);
        assert forall|j: int| 0 <= j < entries@.len() implies (#[trigger] entries@[j]) == original[row@.len() + 1 + j] by {
            assert(entries@[j] == before[j + 1]);
        }
        row.push((name, field_value(value)));
    }
    row
}

/// Two rows with the same names, index by index, have the same set of names.
proof fn lemma_same_names<A, B>(a: Seq<(String, A)>, b: Seq<(String, B)>)
    requires
        a.len() == b.len(),
        forall|j: int| 0 <= j < a.len() ==> (#[trigger] a[j]).0 == b[j].0,
    ensures
        entry_names(a) == entry_names(b),
{
    assert forall|n: Seq<char>| entry_names(a).contains(n) <==> entry_names(b).contains(n) by {
        if entry_names(a).contains(n) {
            let j = choose|j: int| 0 <= j < a.len() && a[j].0@ == n;
            assert(b[j].0@ == n);
        }
        if entry_names(b).contains(n) {
            let j = choose|j: int| 0 <= j < b.len() && b[j].0@ == n;
            assert(a[j].0@ == n);
        }
    }
    assert(entry_names(a) =~= entry_names(b));
}

/// The first field named `n` is the one that a lookup finds.
proof fn lemma_lookup_field_at(row: RowView, n: Seq<char>, j: int)
    requires
        0 <= j < row.len(),
        row[j].0 == n,
        forall|k: int| 0 <= k < j ==> row[k].0 != n,
    ensures
        lookup_field(row, n) == Some(row[j].1),
    decreases j,
{
    if j > 0 {
        lemma_lookup_field_at(row.drop_first(), n, j - 1);
    }
}

/// A lookup of a name that no field has finds nothing.
proof fn lemma_lookup_field_none(row: RowView, n: Seq<char>)
    requires
        forall|k: int| 0 <= k < row.len() ==> row[k].0 != n,
    ensures
        lookup_field(row, n) is None,
    decreases row.len(),
{
    if row.len() > 0 {
        lemma_lookup_field_none(row.drop_first(), n);
    }
}

/// A row converted from the entries of a JSON object gives, for each name, the text of the
/// object's value under that key.
proof fn lemma_row_holds_object(row: Seq<(String, FieldValue)>, object: Map<Seq<char>, LeafView>)
    requires
        entry_names(row) == object.dom(),
        forall|j: int| 0 <= j < row.len() ==> object[#[trigger] row[j].0@] == field_leaf(row[j].1),
        forall|j: int, k: int| 0 <= j < k < row.len() ==> #[trigger] row[j].0@ != #[trigger] row[k].0@,
    ensures
        forall|n: Seq<char>| #[trigger] lookup_field(row_view(row), n) == object_field(object, n),
{
    let view = row_view(row);
    assert forall|n: Seq<char>| #[trigger] lookup_field(row_view(row), n) == object_field(object, n) by {
        if entry_names(row).contains(n) {
            let j = choose|j: int| 0 <= j < row.len() && row[j].0@ == n;
            assert forall|k: int| 0 <= k < j implies view[k].0 != n by {
                assert(row[k].0@ != row[j].0@);
            }
            lemma_lookup_field_at(view, n, j);
            assert(object[row[j].0@] == field_leaf(row[j].1));
        } else {
            assert forall|k: int| 0 <= k < view.len() implies view[k].0 != n by {
                if view[k].0 == n {
                    assert(entry_names(row).contains(n));
                }
            }
            lemma_lookup_field_none(view, n);
        }
    }
}

impl DataSource for JsonDataSource {
    closed spec fn all_rows(&self) -> Seq<RowView> {
        self.rows()
    }

    closed spec fn current_row(&self) -> Option<RowView> {
        match self.current_index {
            Some(i) => Some(self.rows()[i as int]),
            None => None,
        }
    }

    closed spec fn rows_ahead(&self) -> Seq<RowView> {
        match self.current_index {
            Some(i) => self.rows().skip(i + 1),
            None => self.rows(),
        }
    }

    /// Reading rows held in memory does not fail.
    open spec fn may_fail(&self) -> bool {
        false
    }

    /// `Data source error: No current row` before the first row; `Field not found: ` and
    /// the name on a row without the field.
    open spec fn missing_text(row: Option<RowView>, name: Seq<char>) -> Seq<char> {
        match row {
            None => "Data source error: "@ + "No current row"@,
            Some(_) => "Field not found: "@ + name,
        }
    }

    fn next(&mut self) -> (r: Result<bool, DataSourceError>)
        ensures
            final(self).rows() == old(self).rows(),
            r == Ok::<bool, DataSourceError>(next_position(old(self).position(), old(self).rows().len()).1),
            final(self).position() == next_position(old(self).position(), old(self).rows().len()).0,
    {
        proof {
            use_type_invariant(&*self);
        }
        let len = self.data.len();
        match self.current_index {
            None => {
                if len == 0 {
                    Ok(false)
                } else {
                    self.current_index = Some(0);
                    Ok(true)
                }
            },
            Some(idx) => {
                let next_idx = idx + 1;
                if next_idx < len {
                    self.current_index = Some(next_idx);
                    Ok(true)
                } else {
                    Ok(false)
                }
            },
        }
    }

    fn get_field(&self, name: &str) -> (r: Result<String, DataSourceError>)
        ensures
            match self.position() {
                None => r matches Err(DataSourceError::Other(m)) && m@ == "No current row"@,
                Some(i) => match lookup_field(self.rows()[i as int], name@) {
                    Some(t) => r matches Ok(v) && v@ == t,
                    None => r matches Err(DataSourceError::FieldNotFound(n)) && n@ == name@,
                },
            },
    {
        proof {
            use_type_invariant(self);
        }
        let row = self.current_entries()?;
        let ghost view = row_view(row@);
        assert(self.rows()[self.current_index.unwrap() as int] == view);
        assert(view.skip(0) =~= view);
        let mut j: usize = 0;
        while j < row.len()
            invariant
                j <= row@.len(),
                view == row_view(row@),
                self.current_index is Some,
                self.rows()[self.current_index.unwrap() as int] == view,
                lookup_field(view, name@) == lookup_field(view.skip(j as int), name@),
            decreases row@.len() - j,
        {
            assert(view.skip(j as int).drop_first() =~= view.skip(j + 1));
            assert(view.skip(j as int)[0] == view[j as int]);
            if same_text(row[j].0.as_str(), name) {
                let value = field_string(&row[j].1);
                assert(view[j as int] == (row@[j as int].0@, field_text(row@[j as int].1)));
                return Ok(value);
            }
            j = j + 1;
        }
        assert(view.skip(j as int).len() == 0);
        Err(DataSourceError::FieldNotFound(name.to_owned()))
    }

    fn reset(&mut self) -> (r: Result<(), DataSourceError>)
        ensures
            r is Ok,
            final(self).rows() == old(self).rows(),
            final(self).position() is None,
    {
        self.current_index = None;
        Ok(())
    }
}

/// A row, duplicated.
fn duplicate_row(row: &Vec<(String, FieldValue)>) -> (r: Vec<(String, FieldValue)>)
    ensures
        row_view(r@) == row_view(row@),
{
    let mut out: Vec<(String, FieldValue)> = Vec::new();
    let mut j: usize = 0;
    while j < row.len()
        invariant
            j <= row@.len(),
            out@.len() == j,
            forall|k: int| 0 <= k < j ==> (#[trigger] out@[k]).0@ == row@[k].0@ && field_text(out@[k].1) == field_text(row@[k].1),
        decreases row@.len() - j,
    {
        let name = row[j].0.clone();
        let value = duplicate_value(&row[j].1);
        out.push((name, value));
        j = j + 1;
    }
    assert(row_view(out@) =~= row_view(row@));
    out
}

/// A field value, duplicated.
fn duplicate_value(f: &FieldValue) -> (r: FieldValue)
    ensures
        r == *f,
{
    match f {
        FieldValue::Null => FieldValue::Null,
        FieldValue::Bool(b) => FieldValue::Bool(*b),
        FieldValue::Number(t) => FieldValue::Number(t.clone()),
        FieldValue::Text(t) => FieldValue::Text(t.clone()),
        FieldValue::Json(t) => FieldValue::Json(t.clone()),
    }
}

/// The text of a field value.
fn field_string(f: &FieldValue) -> (r: String)
    ensures
        r@ == field_text(*f),
{
    match f {
        FieldValue::Null => String::new(),
        FieldValue::Bool(b) => if *b { String::from_str("true") } else { String::from_str("false") },
        FieldValue::Number(t) => t.clone(),
        FieldValue::Text(t) => t.clone(),
        FieldValue::Json(t) => t.clone(),
    }
}

/// Where `k` calls of `next` lead from the position `pos` over `len` rows, and how many of
/// them report a row.
pub open spec fn walk(pos: Option<usize>, len: nat, k: nat) -> (Option<usize>, nat)
    decreases k,
{
    if k == 0 {
        (pos, 0)
    } else {
        let (p1, more) = next_position(pos, len);
        let (p2, n) = walk(p1, len, (k - 1) as nat);
        (p2, if more { n + 1 } else { n })
    }
}

/// A source visits its rows once each, in order: from before the first row, the `k`-th call
/// of `next` moves to row `k - 1` and reports a row while there is one; after the last row
/// every call reports none and the source stays on the last row.
pub proof fn law_rows_visited_in_order(len: nat, k: nat)
    requires
        len <= usize::MAX,
    ensures
        k <= len ==> walk(None, len, k) == (if k == 0 { None } else { Some((k - 1) as usize) }, k),
        k > len ==> walk(None, len, k) == (if len == 0 { None } else { Some((len - 1) as usize) }, len),
    decreases k,
{
    lemma_walk_from(None, len, k);
}

proof fn lemma_walk_from(pos: Option<usize>, len: nat, k: nat)
    requires
        len <= usize::MAX,
        pos matches Some(i) ==> i < len,
    ensures
        ({
            let start: nat = match pos { None => 0, Some(i) => (i + 1) as nat };
            let steps: nat = if start + k <= len { k } else { (len - start) as nat };
            let end: nat = start + steps;
            walk(pos, len, k) == (if end == 0 { pos } else { Some((end - 1) as usize) }, steps)
        }),
    decreases k,
{
    if k > 0 {
        let (p1, more) = next_position(pos, len);
        lemma_walk_from(p1, len, (k - 1) as nat);
    }
}

/// Rows that hold the same JSON objects hold the same fields: a source made from a text
/// and then reset (which keeps its rows and goes back before the first row) reads as a
/// source made afresh from the same text.
pub proof fn law_same_objects_same_fields(a: Seq<RowView>, b: Seq<RowView>, objects: Seq<Map<Seq<char>, LeafView>>)
    requires
        rows_hold(a, objects),
        rows_hold(b, objects),
    ensures
        a.len() == b.len(),
        forall|i: int, n: Seq<char>| 0 <= i < a.len() ==> #[trigger] lookup_field(a[i], n) == lookup_field(b[i], n),
{
    assert forall|i: int, n: Seq<char>| 0 <= i < a.len() implies #[trigger] lookup_field(a[i], n) == lookup_field(b[i], n) by {
        assert(lookup_field(a[i], n) == object_field(objects[i], n));
        assert(lookup_field(b[i], n) == object_field(objects[i], n));
    }
}

} // verus!
