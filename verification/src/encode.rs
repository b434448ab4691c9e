use vstd::prelude::*;
use crate::dictionary::texts_of;
use crate::fields::{pairs_of, TableView};
use crate::text::{decimal, decimal_text, signed_decimal, signed_decimal_text};
use crate::value::{
    clone_datum, fields_view, items_view, lemma_fields_view_index,
    lemma_fields_view_len, lemma_items_view_index, lemma_items_view_len, Datum, DatumView,
    };

verus! {

/// A count as a value: an integer where it fits `i64`, else its decimal
/// text.
pub open spec fn count_value(n: nat) -> DatumView {
    if n <= i64::MAX {
        DatumView::Int(n as i64)
    } else {
        DatumView::Str(decimal(n))
    }
}

/// A signed number as a value: an integer where it fits `i64`, else its
/// decimal text.
pub open spec fn int_value(x: int) -> DatumView {
    if i64::MIN <= x <= i64::MAX {
        DatumView::Int(x as i64)
    } else {
        DatumView::Str(signed_decimal(x))
    }
}

/// Texts as a value: the array of them.
pub open spec fn texts_value(texts: Seq<Seq<char>>) -> DatumView {
    DatumView::Array(Seq::new(texts.len(), |i: int| DatumView::Str(texts[i])))
}

/// Pairs of texts as a value: an object with a field for each pair, named
/// by its first part and holding its second.
pub open spec fn pairs_value(pairs: TableView) -> DatumView {
    DatumView::Object(Seq::new(pairs.len(), |i: int| (pairs[i].0, DatumView::Str(pairs[i].1))))
}

/// Computes [`count_value`].
pub fn count_datum(n: usize) -> (r: Datum)
    ensures
        r@ == count_value(n as nat),
{
    if (n as u128) <= 0x7fff_ffff_ffff_ffff {
        Datum::Int(n as i64)
    } else {
        Datum::Str(decimal_text(n as u128))
    }
}

/// Computes [`int_value`].
pub fn int_datum(x: i128) -> (r: Datum)
    ensures
        r@ == int_value(x as int),
{
    if -0x8000_0000_0000_0000 <= x && x <= 0x7fff_ffff_ffff_ffff {
        Datum::Int(x as i64)
    } else {
        Datum::Str(signed_decimal_text(x))
    }
}

/// Computes [`texts_value`].
pub fn texts_datum(texts: &Vec<String>) -> (r: Datum)
    ensures
        r@ == texts_value(texts_of(texts@)),
{
    let mut out: Vec<Datum> = Vec::new();
    let mut i: usize = 0;
    while i < texts.len()
        invariant
            i <= texts.len(),
            out.len() == i,
            forall|k: int| 0 <= k < i ==> (#[trigger] out[k])@ == DatumView::Str(texts[k]@),
        decreases texts.len() - i,
    {
        out.push(Datum::Str(texts[i].clone()));
        i += 1;
    }
    proof {
        lemma_items_view_len(out@);
        assert forall|k: int| 0 <= k < out.len() implies items_view(out@)[k] == DatumView::Str(
            texts_of(texts@)[k],
        ) by {
            lemma_items_view_index(out@, k);
        }
        assert(items_view(out@) =~= Seq::new(
            texts_of(texts@).len(),
            |i: int| DatumView::Str(texts_of(texts@)[i]),
        ));
    }
    Datum::Array(out)
}

/// Computes [`pairs_value`].
pub fn pairs_datum(pairs: &Vec<(String, String)>) -> (r: Datum)
    ensures
        r@ == pairs_value(pairs_of(pairs@)),
{
    let mut out: Vec<(String, Datum)> = Vec::new();
    let mut i: usize = 0;
    while i < pairs.len()
        invariant
            i <= pairs.len(),
            out.len() == i,
            forall|k: int|
                0 <= k < i ==> (#[trigger] out[k]).0@ == pairs[k].0@ && out[k].1@
                    == DatumView::Str(pairs[k].1@),
        decreases pairs.len() - i,
    {
        out.push((pairs[i].0.clone(), Datum::Str(pairs[i].1.clone())));
        i += 1;
    }
    proof {
        lemma_fields_view_len(out@);
        assert forall|k: int| 0 <= k < out.len() implies fields_view(out@)[k] == (
            pairs_of(pairs@)[k].0,
            DatumView::Str(pairs_of(pairs@)[k].1),
        ) by {
            lemma_fields_view_index(out@, k);
        }
        assert(fields_view(out@) =~= Seq::new(
            pairs_of(pairs@).len(),
            |i: int| (pairs_of(pairs@)[i].0, DatumView::Str(pairs_of(pairs@)[i].1)),
        ));
    }
    Datum::Object(out)
}

/// Copies of the given fields, in order.
pub fn clone_fields(fields: &Vec<(String, Datum)>) -> (out: Vec<(String, Datum)>)
    ensures
        fields_view(out@) == fields_view(fields@),
{
    let mut out: Vec<(String, Datum)> = Vec::new();
    let mut i: usize = 0;
    while i < fields.len()
        invariant
            i <= fields.len(),
            out.len() == i,
            forall|k: int|
                0 <= k < i ==> (#[trigger] out[k]).0@ == fields[k].0@ && out[k].1@
                    == fields[k].1@,
        decreases fields.len() - i,
    {
        out.push((fields[i].0.clone(), clone_datum(&fields[i].1)));
        i += 1;
    }
    proof {
        lemma_fields_view_len(out@);
        lemma_fields_view_len(fields@);
        assert forall|k: int| 0 <= k < out.len() implies fields_view(out@)[k] == fields_view(
            fields@,
        )[k] by {
            lemma_fields_view_index(out@, k);
            lemma_fields_view_index(fields@, k);
        }
        assert(fields_view(out@) =~= fields_view(fields@));
    }
    out
}

/// The fields of a list, one by one.
pub proof fn lemma_fields_all(fields: Seq<(String, Datum)>)
    ensures
        fields_view(fields).len() == fields.len(),
        forall|k: int|
            0 <= k < fields.len() ==> (#[trigger] fields_view(fields)[k]) == (
                fields[k].0@,
                fields[k].1@,
            ),
{
    lemma_fields_view_len(fields);
    assert forall|k: int| 0 <= k < fields.len() implies (#[trigger] fields_view(fields)[k]) == (
        fields[k].0@,
        fields[k].1@,
    ) by {
        lemma_fields_view_index(fields, k);
    }
}

} // verus!
