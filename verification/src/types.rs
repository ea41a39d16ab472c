//! Core types for templates.
use vstd::prelude::*;
use crate::text::same_text;

verus! {

/// A report template: its page, its fields and variables, and its bands by name.
#[derive(Debug, Clone)]
pub struct Template {
    pub name: String,
    pub version: String,
    pub page: PageConfig,
    pub fields: Vec<Field>,
    pub variables: Vec<Variable>,
    pub bands: BandMap,
}

/// The page size and margins, in points.
#[derive(Debug, Clone)]
pub struct PageConfig {
    pub width: u32,
    pub height: u32,
    /// `[top, right, bottom, left]`
    pub margins: [u32; 4],
}

#[derive(Debug, Clone)]
pub struct Field {
    pub name: String,
    pub field_type: String,
}

/// A variable: its name, type, calculation name and the expression it aggregates.
#[derive(Debug, Clone)]
pub struct Variable {
    pub name: String,
    pub var_type: String,
    pub calculation: String,
    pub expression: String,
}

/// A band: a strip of the page of a given height holding elements.
#[derive(Debug, Clone)]
pub struct Band {
    pub height: u32,
    pub elements: Vec<Element>,
}

#[derive(Debug, Clone)]
pub enum Element {
    StaticText(StaticText),
    TextField(TextField),
}

#[derive(Debug, Clone)]
pub struct StaticText {
    pub x: u32,
    pub y: u32,
    pub width: u32,
    pub height: u32,
    pub text: String,
    pub style: TextStyle,
}

#[derive(Debug, Clone)]
pub struct TextField {
    pub x: u32,
    pub y: u32,
    pub width: u32,
    pub height: u32,
    pub expression: String,
    pub style: TextStyle,
}

#[derive(Debug, Clone)]
pub struct TextStyle {
    pub font_size: Option<u32>,
    pub font_weight: Option<String>,
    pub align: Option<String>,
}

impl Default for TextStyle {
    fn default() -> (r: Self)
        ensures
            r.font_size is None,
            r.font_weight is None,
            r.align is None,
    {
        TextStyle { font_size: None, font_weight: None, align: None }
    }
}

/// A copy of an optional string.
fn copy_text(s: &Option<String>) -> (r: Option<String>)
    ensures
        r == *s,
{
    match s {
        Some(t) => Some(t.clone()),
        None => None,
    }
}

impl TextStyle {
    /// The same style, duplicated.
    pub fn duplicate(&self) -> (r: Self)
        ensures
            r == *self,
    {
        TextStyle {
            font_size: self.font_size,
            font_weight: copy_text(&self.font_weight),
            align: copy_text(&self.align),
        }
    }
}

/// The value of the first entry named `name`, if any.
pub open spec fn lookup_named<V>(entries: Seq<(Seq<char>, V)>, name: Seq<char>) -> Option<V>
    decreases entries.len(),
{
    if entries.len() == 0 {
        None
    } else if entries[0].0 == name {
        Some(entries[0].1)
    } else {
        lookup_named(entries.drop_first(), name)
    }
}

/// `entries` with the first entry named `name` given the value `v`, or with `(name, v)`
/// appended when there is none.
pub open spec fn put_named<V>(entries: Seq<(Seq<char>, V)>, name: Seq<char>, v: V) -> Seq<(Seq<char>, V)>
    decreases entries.len(),
{
    if entries.len() == 0 {
        seq![(name, v)]
    } else if entries[0].0 == name {
        entries.update(0, (name, v))
    } else {
        seq![entries[0]] + put_named(entries.drop_first(), name, v)
    }
}

/// Putting a value under the name at the first index `i` where it stands replaces that entry.
pub proof fn lemma_put_at<V>(entries: Seq<(Seq<char>, V)>, name: Seq<char>, v: V, i: int)
    requires
        0 <= i < entries.len(),
        entries[i].0 == name,
        forall|j: int| 0 <= j < i ==> entries[j].0 != name,
    ensures
        put_named(entries, name, v) == entries.update(i, (name, v)),
    decreases i,
{
    if i > 0 {
        lemma_put_at(entries.drop_first(), name, v, i - 1);
        assert(seq![entries[0]] + entries.drop_first().update(i - 1, (name, v)) =~= entries.update(i, (name, v)));
    }
}

/// Putting a value under a name that stands nowhere appends it.
pub proof fn lemma_put_new<V>(entries: Seq<(Seq<char>, V)>, name: Seq<char>, v: V)
    requires
        forall|j: int| 0 <= j < entries.len() ==> entries[j].0 != name,
    ensures
        put_named(entries, name, v) == entries.push((name, v)),
    decreases entries.len(),
{
    if entries.len() > 0 {
        lemma_put_new(entries.drop_first(), name, v);
        assert(seq![entries[0]] + entries.drop_first().push((name, v)) =~= entries.push((name, v)));
    }
}

/// After a put, the name put gives its new value and every other name what it gave.
pub proof fn lemma_lookup_put<V>(entries: Seq<(Seq<char>, V)>, name: Seq<char>, v: V, n: Seq<char>)
    ensures
        lookup_named(put_named(entries, name, v), n) == (if n == name { Some(v) } else { lookup_named(entries, n) }),
    decreases entries.len(),
{
    if entries.len() == 0 {
        let one = seq![(name, v)];
        assert(one.len() == 1 && one[0] == (name, v));
        assert(one.drop_first() =~= Seq::<(Seq<char>, V)>::empty());
        assert(lookup_named(one.drop_first(), n) is None);
        assert(put_named(entries, name, v) == one);
    } else {
        if entries[0].0 == name {
            assert(entries.update(0, (name, v))[0] == (name, v));
            assert(entries.update(0, (name, v)).drop_first() =~= entries.drop_first());
        } else {
            lemma_lookup_put(entries.drop_first(), name, v, n);
            assert((seq![entries[0]] + put_named(entries.drop_first(), name, v))[0] == entries[0]);
            assert((seq![entries[0]] + put_named(entries.drop_first(), name, v)).drop_first()
                =~= put_named(entries.drop_first(), name, v));
        }
    }
}

/// The names of a sequence of entries are pairwise distinct.
pub open spec fn distinct_names<V>(entries: Seq<(Seq<char>, V)>) -> bool {
    forall|i: int, j: int| 0 <= i < j < entries.len() ==> #[trigger] entries[i].0 != #[trigger] entries[j].0
}

/// Bands by name. Putting a band under a name replaces the band that was there, so
/// that each name stands at most once.
#[derive(Debug, Clone)]
pub struct BandMap {
    entries: Vec<(String, Band)>,
}

impl View for BandMap {
    type V = Seq<(Seq<char>, Band)>;

    closed spec fn view(&self) -> Seq<(Seq<char>, Band)> {
        self.entries@.map_values(|e: (String, Band)| (e.0@, e.1))
    }
}

/// Where `name` first stands among `entries`, if anywhere.
pub proof fn lemma_lookup_index<V>(entries: Seq<(Seq<char>, V)>, name: Seq<char>, i: int)
    requires
        0 <= i < entries.len(),
        entries[i].0 == name,
        forall|j: int| 0 <= j < i ==> entries[j].0 != name,
    ensures
        lookup_named(entries, name) == Some(entries[i].1),
    decreases i,
{
    if i > 0 {
        lemma_lookup_index(entries.drop_first(), name, i - 1);
    }
}

/// A name that stands nowhere among `entries` has no entry.
pub proof fn lemma_lookup_absent<V>(entries: Seq<(Seq<char>, V)>, name: Seq<char>)
    requires
        forall|j: int| 0 <= j < entries.len() ==> entries[j].0 != name,
    ensures
        lookup_named(entries, name) is None,
    decreases entries.len(),
{
    if entries.len() > 0 {
        lemma_lookup_absent(entries.drop_first(), name);
    }
}

impl BandMap {
    /// No bands.
    pub fn new() -> (r: Self)
        ensures
            r@.len() == 0,
            distinct_names(r@),
    {
        let r = BandMap { entries: Vec::new() };
        assert(r@ =~= Seq::<(Seq<char>, Band)>::empty());
        r
    }

    /// Where the index of `name` is, if it stands here.
    fn position_of(&self, name: &str) -> (r: Option<usize>)
        ensures
            match r {
                Some(i) => i < self@.len() && self@[i as int].0 == name@
                    && forall|j: int| 0 <= j < i ==> self@[j].0 != name@,
                None => forall|j: int| 0 <= j < self@.len() ==> self@[j].0 != name@,
            },
    {
        let mut i: usize = 0;
        while i < self.entries.len()
            invariant
                i <= self.entries@.len(),
                forall|j: int| 0 <= j < i ==> self@[j].0 != name@,
            decreases self.entries@.len() - i,
        {
            if same_text(self.entries[i].0.as_str(), name) {
                return Some(i);
            }
            i = i + 1;
        }
        None
    }

    /// The band named `name`, if any.
    pub fn get(&self, name: &str) -> (r: Option<&Band>)
        ensures
            match lookup_named(self@, name@) {
                Some(b) => r matches Some(x) && *x == b,
                None => r is None,
            },
    {
        match self.position_of(name) {
            Some(i) => {
                proof {
                    lemma_lookup_index(self@, name@, i as int);
                }
                Some(&self.entries[i].1)
            },
            None => {
                proof {
                    lemma_lookup_absent(self@, name@);
                }
                None
            },
        }
    }

    /// Put `band` under `name`, in place of the band that was there, which is returned.
    pub fn insert(&mut self, name: String, band: Band) -> (r: Option<Band>)
        ensures
            r == lookup_named(old(self)@, name@),
            lookup_named(final(self)@, name@) == Some(band),
            forall|n: Seq<char>| n != name@ ==> lookup_named(#[trigger] final(self)@, n) == lookup_named(old(self)@, n),
            distinct_names(old(self)@) ==> distinct_names(final(self)@),
    {
        let ghost before = self@;
        match self.position_of(name.as_str()) {
            Some(i) => {
                proof {
                    lemma_lookup_index(before, name@, i as int);
                }
                let mut entries: Vec<(String, Band)> = Vec::new();
                std::mem::swap(&mut entries, &mut self.entries);
                let old_entry = entries.remove(i);
                entries.insert(i, (name, band));
                let ghost after = entries@.map_values(|e: (String, Band)| (e.0@, e.1));
                assert(after =~= before.update(i as int, (name@, band)));
                self.entries = entries;
                proof {
                    lemma_lookup_index(self@, name@, i as int);
                    assert forall|n: Seq<char>| n != name@ implies lookup_named(#[trigger] self@, n) == lookup_named(before, n) by {
                        lemma_lookup_other(before, i as int, (name@, band), n);
                    }
                }
                Some(old_entry.1)
            },
            None => {
                proof {
                    lemma_lookup_absent(before, name@);
                }
                let ghost name_view = name@;
                let mut entries: Vec<(String, Band)> = Vec::new();
                std::mem::swap(&mut entries, &mut self.entries);
                entries.push((name, band));
                let ghost after = entries@.map_values(|e: (String, Band)| (e.0@, e.1));
                assert(after =~= before.push((name_view, band)));
                self.entries = entries;
                proof {
                    lemma_lookup_index(self@, name_view, before.len() as int);
                    assert forall|n: Seq<char>| n != name_view implies lookup_named(#[trigger] self@, n) == lookup_named(before, n) by {
                        lemma_lookup_push(before, (name_view, band), n);
                    }
                }
                None
            },
        }
    }
}

/// Replacing the entry at `i` keeps the lookups of other names.
proof fn lemma_lookup_other<V>(entries: Seq<(Seq<char>, V)>, i: int, e: (Seq<char>, V), n: Seq<char>)
    requires
        0 <= i < entries.len(),
        entries[i].0 == e.0,
        n != e.0,
    ensures
        lookup_named(entries.update(i, e), n) == lookup_named(entries, n),
    decreases entries.len(),
{
    if i > 0 {
        assert(entries.update(i, e).drop_first() =~= entries.drop_first().update(i - 1, e));
        lemma_lookup_other(entries.drop_first(), i - 1, e, n);
    } else {
        assert(entries.update(i, e).drop_first() =~= entries.drop_first());
    }
}

/// Appending an entry keeps the lookups of other names.
proof fn lemma_lookup_push<V>(entries: Seq<(Seq<char>, V)>, e: (Seq<char>, V), n: Seq<char>)
    requires
        n != e.0,
    ensures
        lookup_named(entries.push(e), n) == lookup_named(entries, n),
    decreases entries.len(),
{
    if entries.len() > 0 {
        assert(entries.push(e).drop_first() =~= entries.drop_first().push(e));
        lemma_lookup_push(entries.drop_first(), e, n);
    } else {
        assert(entries.push(e).drop_first() =~= entries);
    }
}

} // verus!
