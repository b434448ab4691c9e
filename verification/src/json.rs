use vstd::prelude::*;
use crate::value::{
    fields_view, group_datum_view, items_view, lemma_fields_view_index, lemma_items_view_index,
    Datum, DatumView, FieldsView,
};

verus! {

/// `serde_json::Value`, declared so that it can be handed on. Nothing is
/// known of what is inside one but through [`json_model`].
#[verifier::external_type_specification]
#[verifier::external_body]
pub struct ExJsonValue(serde_json::Value);

/// What a `serde_json::Value` holds: its tree, with an object's members in
/// the order the map hands them out, and a number that is no `i64` as the
/// text it prints as.
pub uninterp spec fn json_model(j: serde_json::Value) -> DatumView;

/// The text that `serde_json::to_string` prints for a value that holds `m`.
pub uninterp spec fn json_text(m: DatumView) -> Seq<char>;

/// What `serde_json::from_str` reads a whole value from, for the text `t`;
/// `None` where it reports an error.
pub uninterp spec fn json_parse(t: Seq<char>) -> Option<DatumView>;

/// What `serde_json::from_str` reads a single number from, for the text `t`;
/// `None` where it reports an error.
pub uninterp spec fn json_number(t: Seq<char>) -> Option<DatumView>;

/// What the object holds that `serde_json`'s map collects from `members`,
/// inserted in this order.
pub uninterp spec fn json_object(members: Seq<(Seq<char>, DatumView)>) -> DatumView;

/// One level of a `serde_json::Value`: the variant, with its children still
/// in `serde_json`'s own type.
pub enum JsonNode {
    Null,
    Bool(bool),
    Number(serde_json::Value),
    Str(String),
    Array(Vec<serde_json::Value>),
    Object(Vec<(String, serde_json::Value)>),
}

/// What each of `items` holds, in order.
pub open spec fn models_of(items: Seq<serde_json::Value>) -> Seq<DatumView> {
    Seq::new(items.len(), |i: int| json_model(items[i]))
}

/// The members by their keys and by what their values hold, in order.
pub open spec fn member_models_of(members: Seq<(String, serde_json::Value)>) -> Seq<
    (Seq<char>, DatumView),
> {
    Seq::new(members.len(), |i: int| (members[i].0@, json_model(members[i].1)))
}

/// `n` is the top level of a value that holds `m`.
pub open spec fn node_of(n: JsonNode, m: DatumView) -> bool {
    match n {
        JsonNode::Null => m == DatumView::Null,
        JsonNode::Bool(b) => m == DatumView::Bool(b),
        JsonNode::Number(x) => json_model(x) == m && (m is Int || m == DatumView::Float(
            json_text(m),
        )),
        JsonNode::Str(s) => m == DatumView::Str(s@),
        JsonNode::Array(items) => m == DatumView::Array(models_of(items@)),
        JsonNode::Object(members) => m == DatumView::Object(member_models_of(members@)),
    }
}

/// Takes a `serde_json::Value` apart by its variant. The children are moved,
/// an object's members in the order `serde_json::Map::into_iter` yields them.
#[verifier::external_body]
fn unpack(j: serde_json::Value) -> (n: JsonNode)
    ensures
        node_of(n, json_model(j)),
{
    match j {
        serde_json::Value::Null => JsonNode::Null,
        serde_json::Value::Bool(b) => JsonNode::Bool(b),
        serde_json::Value::Number(x) => JsonNode::Number(serde_json::Value::Number(x)),
        serde_json::Value::String(s) => JsonNode::Str(s),
        serde_json::Value::Array(items) => JsonNode::Array(items),
        serde_json::Value::Object(map) => JsonNode::Object(map.into_iter().collect()),
    }
}

/// Puts a `serde_json::Value` together from one level. An object's members
/// are collected into a `serde_json::Map`, which decides their order and
/// which of two equal keys stays.
#[verifier::external_body]
fn pack(n: JsonNode) -> (j: serde_json::Value)
    ensures
        json_model(j) == (match n {
            JsonNode::Null => DatumView::Null,
            JsonNode::Bool(b) => DatumView::Bool(b),
            JsonNode::Number(x) => json_model(x),
            JsonNode::Str(s) => DatumView::Str(s@),
            JsonNode::Array(items) => DatumView::Array(models_of(items@)),
            JsonNode::Object(members) => json_object(member_models_of(members@)),
        }),
{
    match n {
        JsonNode::Null => serde_json::Value::Null,
        JsonNode::Bool(b) => serde_json::Value::Bool(b),
        JsonNode::Number(x) => x,
        JsonNode::Str(s) => serde_json::Value::String(s),
        JsonNode::Array(items) => serde_json::Value::Array(items),
        JsonNode::Object(members) => serde_json::Value::Object(members.into_iter().collect()),
    }
}

/// `serde_json::Value::as_i64`: the integer of a number that fits `i64`.
#[verifier::external_body]
fn json_as_i64(j: &serde_json::Value) -> (r: Option<i64>)
    ensures
        r == (match json_model(*j) {
            DatumView::Int(i) => Some(i),
            _ => None,
        }),
{
    j.as_i64()
}

/// `serde_json::Value::from` for an `i64`: the number that holds it.
#[verifier::external_body]
fn json_from_i64(i: i64) -> (j: serde_json::Value)
    ensures
        json_model(j) == DatumView::Int(i),
{
    serde_json::Value::from(i)
}

/// `serde_json::from_str` for a `serde_json::Number`: the number that the
/// text spells, as a value.
#[verifier::external_body]
fn json_number_from_text(t: &str) -> (r: Option<serde_json::Value>)
    ensures
        match r {
            Some(j) => json_number(t@) == Some(json_model(j)),
            None => json_number(t@) is None,
        },
{
    serde_json::from_str::<serde_json::Number>(t).ok().map(serde_json::Value::Number)
}

/// `serde_json::to_string` on a `serde_json::Value`, which does not fail.
#[verifier::external_body]
fn json_to_text(j: &serde_json::Value) -> (s: String)
    ensures
        s@ == json_text(json_model(*j)),
{
    serde_json::to_string(j).unwrap_or_default()
}

/// `serde_json::from_str` for a `serde_json::Value`; its error becomes `None`.
#[verifier::external_body]
fn json_from_text(t: &str) -> (r: Option<serde_json::Value>)
    ensures
        match r {
            Some(j) => json_parse(t@) == Some(json_model(j)),
            None => json_parse(t@) is None,
        },
{
    serde_json::from_str::<serde_json::Value>(t).ok()
}

/// The value as `serde_json` holds it, after its maps have ordered the
/// members of each object and its number parser has read each number's text.
/// `None` where the text of some number is not a number.
pub open spec fn serde_form(v: DatumView) -> Option<DatumView>
    decreases v,
{
    match v {
        DatumView::Float(t) => json_number(t),
        DatumView::Array(items) => match forms_of(items) {
            Some(forms) => Some(DatumView::Array(forms)),
            None => None,
        },
        DatumView::Object(members) => match member_forms_of(members) {
            Some(forms) => Some(json_object(forms)),
            None => None,
        },
        _ => Some(v),
    }
}

/// The forms of all of `items`; `None` where one of them has none.
pub open spec fn forms_of(items: Seq<DatumView>) -> Option<Seq<DatumView>>
    decreases items,
{
    if items.len() == 0 {
        Some(Seq::empty())
    } else {
        match (forms_of(items.drop_last()), serde_form(items.last())) {
            (Some(before), Some(form)) => Some(before.push(form)),
            _ => None,
        }
    }
}

/// The members with the forms of their values; `None` where one has none.
pub open spec fn member_forms_of(members: FieldsView) -> Option<FieldsView>
    decreases members,
{
    if members.len() == 0 {
        Some(Seq::empty())
    } else {
        match (member_forms_of(members.drop_last()), serde_form(members.last().1)) {
            (Some(before), Some(form)) => Some(before.push((members.last().0, form))),
            _ => None,
        }
    }
}

proof fn lemma_forms_prefix(items: Seq<DatumView>, n: int)
    requires
        0 <= n <= items.len(),
        forms_of(items.take(n)) is None,
    ensures
        forms_of(items) is None,
    decreases items.len(),
{
    if n < items.len() {
        assert(items.drop_last().take(n) == items.take(n));
        lemma_forms_prefix(items.drop_last(), n);
    } else {
        assert(items.take(n) == items);
    }
}

proof fn lemma_member_forms_prefix(members: FieldsView, n: int)
    requires
        0 <= n <= members.len(),
        member_forms_of(members.take(n)) is None,
    ensures
        member_forms_of(members) is None,
    decreases members.len(),
{
    if n < members.len() {
        assert(members.drop_last().take(n) == members.take(n));
        lemma_member_forms_prefix(members.drop_last(), n);
    } else {
        assert(members.take(n) == members);
    }
}

/// The JSON text of a value: what `serde_json` prints for it. `None` where
/// the text of some number in it is not a number.
pub open spec fn text_of(v: DatumView) -> Option<Seq<char>> {
    match serde_form(v) {
        Some(m) => Some(json_text(m)),
        None => None,
    }
}

/// The value has a serialized form.
pub open spec fn writable(v: DatumView) -> bool {
    text_of(v) is Some
}

/// All of `items` have forms exactly when each has one.
pub proof fn lemma_forms_all(items: Seq<DatumView>)
    ensures
        forms_of(items) is Some <==> forall|i: int|
            0 <= i < items.len() ==> writable(#[trigger] items[i]),
    decreases items.len(),
{
    if items.len() > 0 {
        let front = items.drop_last();
        lemma_forms_all(front);
        assert forall|i: int| 0 <= i < front.len() implies #[trigger] front[i] == items[i] by {}
        if forms_of(items) is Some {
            assert forall|i: int| 0 <= i < items.len() implies writable(#[trigger] items[i]) by {
                if i < front.len() {
                    assert(front[i] == items[i]);
                }
            }
        } else if forms_of(front) is None {
            let i = choose|i: int| 0 <= i < front.len() && !writable(#[trigger] front[i]);
            assert(front[i] == items[i]);
        } else {
            assert(!writable(items[items.len() - 1]));
        }
    }
}

/// All of `members` have forms exactly when the value of each has one.
pub proof fn lemma_member_forms_all(members: FieldsView)
    ensures
        member_forms_of(members) is Some <==> forall|i: int|
            0 <= i < members.len() ==> writable((#[trigger] members[i]).1),
    decreases members.len(),
{
    if members.len() > 0 {
        let front = members.drop_last();
        lemma_member_forms_all(front);
        assert forall|i: int| 0 <= i < front.len() implies #[trigger] front[i] == members[i] by {}
        if member_forms_of(members) is Some {
            assert forall|i: int| 0 <= i < members.len() implies writable(
                (#[trigger] members[i]).1,
            ) by {
                if i < front.len() {
                    assert(front[i] == members[i]);
                }
            }
        } else if member_forms_of(front) is None {
            let i = choose|i: int| 0 <= i < front.len() && !writable((#[trigger] front[i]).1);
            assert(front[i] == members[i]);
        } else {
            assert(!writable(members[members.len() - 1].1));
        }
    }
}

/// Which values have a serialized form: a number kept as text where the
/// text is a number, an array where each item has one, an object where the
/// value of each member has one, and every other value.
pub proof fn lemma_writable(v: DatumView)
    ensures
        writable(v) <==> match v {
            DatumView::Float(t) => json_number(t) is Some,
            DatumView::Array(items) => forall|i: int|
                0 <= i < items.len() ==> writable(#[trigger] items[i]),
            DatumView::Object(members) => forall|i: int|
                0 <= i < members.len() ==> writable((#[trigger] members[i]).1),
            _ => true,
        },
{
    match v {
        DatumView::Array(items) => {
            lemma_forms_all(items);
        },
        DatumView::Object(members) => {
            lemma_member_forms_all(members);
        },
        _ => {},
    }
}

/// Turns a `serde_json::Value` into a [`Datum`] with the same content.
pub fn from_json(j: serde_json::Value) -> (v: Datum)
    ensures
        v@ == json_model(j),
    decreases json_model(j),
{
    broadcast use group_datum_view;

    let ghost m = json_model(j);
    match unpack(j) {
        JsonNode::Null => Datum::Null,
        JsonNode::Bool(b) => Datum::Bool(b),
        JsonNode::Number(x) => match json_as_i64(&x) {
            Some(i) => Datum::Int(i),
            None => Datum::Float(json_to_text(&x)),
        },
        JsonNode::Str(s) => Datum::Str(s),
        JsonNode::Array(items) => {
            let ghost all = items@;
            let mut rest = items;
            let mut backwards: Vec<Datum> = Vec::new();
            while rest.len() > 0
                invariant
                    m == json_model(j),
                    m == DatumView::Array(models_of(all)),
                    rest.len() + backwards.len() == all.len(),
                    rest@ == all.take(rest.len() as int),
                    forall|k: int|
                        0 <= k < backwards.len() ==> (#[trigger] backwards[k])@ == json_model(
                            all[all.len() - 1 - k],
                        ),
                decreases rest.len(),
            {
                let ghost at = rest.len() - 1;
                let x = rest.pop().unwrap();
                assert(x == all[at]);
                assert(json_model(x) == models_of(all)[at]);
                assert(decreases_to!(m => m->Array_0));
                assert(decreases_to!(models_of(all) => models_of(all)[at]));
                backwards.push(from_json(x));
            }
            let mut out: Vec<Datum> = Vec::new();
            while backwards.len() > 0
                invariant
                    out.len() + backwards.len() == all.len(),
                    forall|k: int|
                        0 <= k < backwards.len() ==> (#[trigger] backwards[k])@ == json_model(
                            all[all.len() - 1 - k],
                        ),
                    forall|k: int| 0 <= k < out.len() ==> (#[trigger] out[k])@ == json_model(all[k]),
                decreases backwards.len(),
            {
                let d = backwards.pop().unwrap();
                out.push(d);
            }
            assert(items_view(out@) =~= models_of(all));
            Datum::Array(out)
        },
        JsonNode::Object(members) => {
            let ghost all = members@;
            let mut rest = members;
            let mut backwards: Vec<(String, Datum)> = Vec::new();
            while rest.len() > 0
                invariant
                    m == json_model(j),
                    m == DatumView::Object(member_models_of(all)),
                    rest.len() + backwards.len() == all.len(),
                    rest@ == all.take(rest.len() as int),
                    forall|k: int|
                        0 <= k < backwards.len() ==> (#[trigger] backwards[k]).1@ == json_model(
                            all[all.len() - 1 - k].1,
                        ) && backwards[k].0@ == all[all.len() - 1 - k].0@,
                decreases rest.len(),
            {
                let ghost at = rest.len() - 1;
                let (key, x) = rest.pop().unwrap();
                assert(x == all[at].1);
                assert(json_model(x) == member_models_of(all)[at].1);
                assert(decreases_to!(m => m->Object_0));
                assert(decreases_to!(member_models_of(all) => member_models_of(all)[at]));
                assert(decreases_to!(member_models_of(all)[at] => member_models_of(all)[at].1));
                backwards.push((key, from_json(x)));
            }
            let mut out: Vec<(String, Datum)> = Vec::new();
            while backwards.len() > 0
                invariant
                    out.len() + backwards.len() == all.len(),
                    forall|k: int|
                        0 <= k < backwards.len() ==> (#[trigger] backwards[k]).1@ == json_model(
                            all[all.len() - 1 - k].1,
                        ) && backwards[k].0@ == all[all.len() - 1 - k].0@,
                    forall|k: int|
                        0 <= k < out.len() ==> (#[trigger] out[k]).1@ == json_model(all[k].1)
                            && out[k].0@ == all[k].0@,
                decreases backwards.len(),
            {
                let d = backwards.pop().unwrap();
                out.push(d);
            }
            assert(fields_view(out@) =~= member_models_of(all));
            Datum::Object(out)
        },
    }
}

/// Turns a [`Datum`] into a `serde_json::Value`; `None` where the text of
/// some number in it is not a number.
pub fn to_json(v: &Datum) -> (r: Option<serde_json::Value>)
    ensures
        match r {
            Some(j) => serde_form(v@) == Some(json_model(j)),
            None => serde_form(v@) is None,
        },
    decreases v,
{
    broadcast use group_datum_view;

    match v {
        Datum::Null => Some(pack(JsonNode::Null)),
        Datum::Bool(b) => Some(pack(JsonNode::Bool(*b))),
        Datum::Int(i) => Some(json_from_i64(*i)),
        Datum::Float(t) => json_number_from_text(t.as_str()),
        Datum::Str(s) => Some(pack(JsonNode::Str(s.clone()))),
        Datum::Array(items) => {
            let ghost views = items_view(items@);
            let mut out: Vec<serde_json::Value> = Vec::new();
            let mut i: usize = 0;
            while i < items.len()
                invariant
                    i <= items.len(),
                    views == items_view(items@),
                    views.len() == items.len(),
                    *v == Datum::Array(*items),
                    v@ == DatumView::Array(views),
                    forms_of(views.take(i as int)) == Some(models_of(out@)),
                decreases items.len() - i,
            {
                proof {
                    lemma_items_view_index(items@, i as int);
                    assert(views.take(i + 1).drop_last() == views.take(i as int));
                    assert(views.take(i + 1).last() == items[i as int]@);
                }
                match to_json(&items[i]) {
                    Some(j) => {
                        let ghost before = out@;
                        out.push(j);
                        assert(models_of(out@) =~= models_of(before).push(json_model(j)));
                    },
                    None => {
                        proof {
                            lemma_forms_prefix(views, i + 1);
                        }
                        return None;
                    },
                }
                i += 1;
            }
            assert(views.take(i as int) == views);
            Some(pack(JsonNode::Array(out)))
        },
        Datum::Object(members) => {
            let ghost views = fields_view(members@);
            let mut out: Vec<(String, serde_json::Value)> = Vec::new();
            let mut i: usize = 0;
            while i < members.len()
                invariant
                    i <= members.len(),
                    views == fields_view(members@),
                    views.len() == members.len(),
                    *v == Datum::Object(*members),
                    v@ == DatumView::Object(views),
                    member_forms_of(views.take(i as int)) == Some(member_models_of(out@)),
                decreases members.len() - i,
            {
                proof {
                    lemma_fields_view_index(members@, i as int);
                    assert(views.take(i + 1).drop_last() == views.take(i as int));
                    assert(views.take(i + 1).last() == (members[i as int].0@, members[i as int].1@));
                }
                match to_json(&members[i].1) {
                    Some(j) => {
                        let ghost before = out@;
                        out.push((members[i].0.clone(), j));
                        assert(out@.drop_last() =~= before);
                        assert(member_models_of(out@) =~= member_models_of(before).push(
                            (members[i as int].0@, json_model(j)),
                        ));
                    },
                    None => {
                        proof {
                            lemma_member_forms_prefix(views, i + 1);
                        }
                        return None;
                    },
                }
                i += 1;
            }
            assert(views.take(i as int) == views);
            Some(pack(JsonNode::Object(out)))
        },
    }
}

/// The JSON text of `v`, as `serde_json` prints it; `None` where the text of
/// some number in `v` is not a number.
pub fn datum_to_text(v: &Datum) -> (r: Option<String>)
    ensures
        match r {
            Some(s) => text_of(v@) == Some(s@),
            None => text_of(v@) is None,
        },
{
    match to_json(v) {
        Some(j) => Some(json_to_text(&j)),
        None => None,
    }
}

/// Reads a value from JSON text with `serde_json`; `None` where it rejects
/// the text.
pub fn datum_from_text(t: &str) -> (r: Option<Datum>)
    ensures
        match r {
            Some(v) => json_parse(t@) == Some(v@),
            None => json_parse(t@) is None,
        },
{
    match json_from_text(t) {
        Some(j) => Some(from_json(j)),
        None => None,
    }
}

} // verus!
