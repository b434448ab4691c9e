use vstd::prelude::*;
use crate::text::same_text;

verus! {

/// A semi-structured value: a leaf or a container of a property map.
#[derive(Debug, PartialEq, Eq)]
pub enum Datum {
    Null,
    Bool(bool),
    Int(i64),
    /// A number that is not a 64-bit signed integer, kept as its decimal text.
    Float(String),
    Str(String),
    Array(Vec<Datum>),
    /// Fields in the order they were given.
    Object(Vec<(String, Datum)>),
}

/// The mathematical content of a [`Datum`].
pub enum DatumView {
    Null,
    Bool(bool),
    Int(i64),
    Float(Seq<char>),
    Str(Seq<char>),
    Array(Seq<DatumView>),
    Object(Seq<(Seq<char>, DatumView)>),
}

/// The fields of a record, by their views.
pub type FieldsView = Seq<(Seq<char>, DatumView)>;

/// The content of `d`.
pub open spec fn datum_view(d: Datum) -> DatumView
    decreases d,
{
    match d {
        Datum::Null => DatumView::Null,
        Datum::Bool(b) => DatumView::Bool(b),
        Datum::Int(i) => DatumView::Int(i),
        Datum::Float(t) => DatumView::Float(t@),
        Datum::Str(s) => DatumView::Str(s@),
        Datum::Array(items) => DatumView::Array(items_view(items@)),
        Datum::Object(fields) => DatumView::Object(fields_view(fields@)),
    }
}

/// The contents of a list of values, in order.
pub open spec fn items_view(items: Seq<Datum>) -> Seq<DatumView>
    decreases items,
{
    if items.len() == 0 {
        Seq::empty()
    } else {
        items_view(items.drop_last()).push(datum_view(items.last()))
    }
}

/// The contents of a list of fields, in order.
pub open spec fn fields_view(fields: Seq<(String, Datum)>) -> FieldsView
    decreases fields,
{
    if fields.len() == 0 {
        Seq::empty()
    } else {
        fields_view(fields.drop_last()).push((fields.last().0@, datum_view(fields.last().1)))
    }
}

impl View for Datum {
    type V = DatumView;

    open spec fn view(&self) -> DatumView {
        datum_view(*self)
    }
}

/// `items_view` keeps the length.
pub broadcast proof fn lemma_items_view_len(items: Seq<Datum>)
    ensures
        #[trigger] items_view(items).len() == items.len(),
    decreases items.len(),
{
    if items.len() > 0 {
        lemma_items_view_len(items.drop_last());
    }
}

/// `items_view` works item by item.
pub broadcast proof fn lemma_items_view_index(items: Seq<Datum>, i: int)
    requires
        0 <= i < items.len(),
    ensures
        #[trigger] items_view(items)[i] == items[i]@,
    decreases items.len(),
{
    lemma_items_view_len(items.drop_last());
    if i < items.len() - 1 {
        lemma_items_view_index(items.drop_last(), i);
    }
}

/// `fields_view` keeps the length.
pub broadcast proof fn lemma_fields_view_len(fields: Seq<(String, Datum)>)
    ensures
        #[trigger] fields_view(fields).len() == fields.len(),
    decreases fields.len(),
{
    if fields.len() > 0 {
        lemma_fields_view_len(fields.drop_last());
    }
}

/// `fields_view` works field by field.
pub broadcast proof fn lemma_fields_view_index(fields: Seq<(String, Datum)>, i: int)
    requires
        0 <= i < fields.len(),
    ensures
        #[trigger] fields_view(fields)[i] == (fields[i].0@, fields[i].1@),
    decreases fields.len(),
{
    lemma_fields_view_len(fields.drop_last());
    if i < fields.len() - 1 {
        lemma_fields_view_index(fields.drop_last(), i);
    }
}

/// How the views of lists of values and of fields are made up.
pub broadcast group group_datum_view {
    lemma_items_view_len,
    lemma_items_view_index,
    lemma_fields_view_len,
    lemma_fields_view_index,
}

/// The value of the first field of `fields` named `key`, if there is one.
pub open spec fn lookup(fields: FieldsView, key: Seq<char>) -> Option<DatumView>
    decreases fields.len(),
{
    if fields.len() == 0 {
        None
    } else if fields[0].0 == key {
        Some(fields[0].1)
    } else {
        lookup(fields.drop_first(), key)
    }
}

/// The fields of a record; a value that is no object has none.
pub open spec fn fields_of(row: DatumView) -> FieldsView {
    match row {
        DatumView::Object(fields) => fields,
        _ => Seq::empty(),
    }
}

/// The contents of a list of borrowed values, in order.
pub open spec fn rows_view(rows: Seq<&Datum>) -> Seq<DatumView> {
    Seq::new(rows.len(), |i: int| rows[i]@)
}

/// `lookup` finds the first field with the key, and none where there is none.
pub proof fn lemma_lookup(fields: FieldsView, key: Seq<char>)
    ensures
        match lookup(fields, key) {
            Some(v) => exists|i: int|
                0 <= i < fields.len() && fields[i] == (key, v) && forall|j: int|
                    0 <= j < i ==> fields[j].0 != key,
            None => forall|i: int| 0 <= i < fields.len() ==> fields[i].0 != key,
        },
    decreases fields.len(),
{
    if fields.len() > 0 {
        if fields[0].0 == key {
            assert(fields[0] == (key, fields[0].1));
        } else {
            let rest = fields.drop_first();
            lemma_lookup(rest, key);
            assert forall|i: int| 0 <= i < rest.len() implies rest[i] == fields[i + 1] by {}
            match lookup(rest, key) {
                Some(v) => {
                    let i = choose|i: int|
                        0 <= i < rest.len() && rest[i] == (key, v) && forall|j: int|
                            0 <= j < i ==> rest[j].0 != key;
                    assert(fields[i + 1] == (key, v));
                    assert forall|j: int| 0 <= j < i + 1 implies fields[j].0 != key by {
                        if j > 0 {
                            assert(rest[j - 1] == fields[j]);
                        }
                    }
                },
                None => {
                    assert forall|i: int| 0 <= i < fields.len() implies fields[i].0 != key by {
                        if i > 0 {
                            assert(rest[i - 1] == fields[i]);
                        }
                    }
                },
            }
        }
    }
}

/// The position of the first field named `key`, if there is one.
pub fn find_field(fields: &Vec<(String, Datum)>, key: &str) -> (r: Option<usize>)
    ensures
        match r {
            Some(i) => i < fields.len() && fields[i as int].0@ == key@ && lookup(
                fields_view(fields@),
                key@,
            ) == Some(fields[i as int].1@),
            None => lookup(fields_view(fields@), key@) is None,
        },
{
    broadcast use group_datum_view;

    let ghost all = fields_view(fields@);
    let mut i: usize = 0;
    assert(all.skip(0) =~= all);
    while i < fields.len()
        invariant
            i <= fields.len(),
            all == fields_view(fields@),
            all.len() == fields.len(),
            lookup(all.skip(i as int), key@) == lookup(all, key@),
        decreases fields.len() - i,
    {
        proof {
            lemma_fields_view_index(fields@, i as int);
            assert(all.skip(i as int)[0] == all[i as int]);
            assert(all.skip(i as int).drop_first() =~= all.skip(i + 1));
        }
        if same_text(fields[i].0.as_str(), key) {
            return Some(i);
        }
        i += 1;
    }
    None
}

/// A copy of `v`.
pub fn clone_datum(v: &Datum) -> (r: Datum)
    ensures
        r@ == v@,
    decreases v,
{
    match v {
        Datum::Null => Datum::Null,
        Datum::Bool(b) => Datum::Bool(*b),
        Datum::Int(i) => Datum::Int(*i),
        Datum::Float(t) => Datum::Float(t.clone()),
        Datum::Str(s) => Datum::Str(s.clone()),
        Datum::Array(items) => {
            let mut out: Vec<Datum> = Vec::new();
            let mut i: usize = 0;
            while i < items.len()
                invariant
                    i <= items.len(),
                    *v == Datum::Array(*items),
                    out.len() == i,
                    forall|k: int| 0 <= k < i ==> (#[trigger] out[k])@ == items[k]@,
                decreases items.len() - i,
            {
                let item = &items[i];
                assert(decreases_to!(*v => v->Array_0));
                assert(decreases_to!(*items => items[i as int]));
                out.push(clone_datum(item));
                i += 1;
            }
            proof {
                lemma_items_view_len(out@);
                lemma_items_view_len(items@);
                assert forall|k: int| 0 <= k < out.len() implies items_view(out@)[k] == items_view(
                    items@,
                )[k] by {
                    lemma_items_view_index(out@, k);
                    lemma_items_view_index(items@, k);
                }
                assert(items_view(out@) =~= items_view(items@));
            }
            Datum::Array(out)
        },
        Datum::Object(fields) => {
            let mut out: Vec<(String, Datum)> = Vec::new();
            let mut i: usize = 0;
            while i < fields.len()
                invariant
                    i <= fields.len(),
                    *v == Datum::Object(*fields),
                    out.len() == i,
                    forall|k: int|
                        0 <= k < i ==> (#[trigger] out[k]).0@ == fields[k].0@ && out[k].1@
                            == fields[k].1@,
                decreases fields.len() - i,
            {
                let value = &fields[i].1;
                assert(decreases_to!(*v => v->Object_0));
                assert(decreases_to!(*fields => fields[i as int]));
                assert(decreases_to!(fields[i as int] => fields[i as int].1));
                out.push((fields[i].0.clone(), clone_datum(value)));
                i += 1;
            }
            proof {
                lemma_fields_view_len(out@);
                lemma_fields_view_len(fields@);
                assert forall|k: int| 0 <= k < out.len() implies fields_view(out@)[k]
                    == fields_view(fields@)[k] by {
                    lemma_fields_view_index(out@, k);
                    lemma_fields_view_index(fields@, k);
                }
                assert(fields_view(out@) =~= fields_view(fields@));
            }
            Datum::Object(out)
        },
    }
}

impl Datum {
    /// The value of the field named `key`, where this is an object that has
    /// one.
    pub fn get(&self, key: &str) -> (r: Option<&Datum>)
        ensures
            match r {
                Some(v) => lookup(fields_of(self@), key@) == Some(v@),
                None => lookup(fields_of(self@), key@) is None,
            },
    {
        match self {
            Datum::Object(fields) => match find_field(fields, key) {
                Some(i) => Some(&fields[i].1),
                None => None,
            },
            _ => None,
        }
    }
}

} // verus!
