use vstd::prelude::*;
use vstd::string::StringExecFns;
use crate::dictionary::interned;
use crate::text::{
    chars_of, last_piece, last_piece_exec, replace_all,
    replace_all_exec, same_text, string_of, without_suffix, without_suffix_exec,
};
use crate::value::{
    fields_of, group_datum_view, items_view, lemma_items_view_index, lookup, rows_view, Datum,
    DatumView,
};

verus! {

/// The name of the field that holds a record's type identifier.
pub open spec fn type_field() -> Seq<char> {
    "resource_type"@
}

/// The type tag of a type identifier: its last path segment, without a
/// `-step` at its end, and with `_` for each `-`.
pub open spec fn type_tag(type_id: Seq<char>) -> Seq<char> {
    replace_all(without_suffix(last_piece(type_id, seq!['/']), "-step"@), seq!['-'], seq!['_'])
}

/// The type identifier that a type tag is expanded to: the fixed class
/// prefix, the tag with `-` for each `_`, and `-step`.
pub open spec fn type_id_of_tag(tag: Seq<char>) -> Seq<char> {
    "https://common.terraphim.io/01jxw2jx8qze6yakh4fz24mnhy/class/"@ + replace_all(
        tag,
        seq!['_'],
        seq!['-'],
    ) + "-step"@
}

/// The type identifier of a record: the text of its type field.
pub open spec fn type_id_of(row: DatumView) -> Option<Seq<char>> {
    match lookup(fields_of(row), type_field()) {
        Some(DatumView::Str(t)) => Some(t),
        _ => None,
    }
}

/// The tag under which a record is grouped; `None` for one without a type.
pub open spec fn tag_of(row: DatumView) -> Option<Seq<char>> {
    match type_id_of(row) {
        Some(t) => Some(type_tag(t)),
        None => None,
    }
}

/// The tags of `rows`, each once, in the order in which they first occur.
pub open spec fn tags_of(rows: Seq<DatumView>) -> Seq<Seq<char>>
    decreases rows.len(),
{
    if rows.len() == 0 {
        Seq::empty()
    } else {
        match tag_of(rows.last()) {
            Some(t) => interned(tags_of(rows.drop_last()), t),
            None => tags_of(rows.drop_last()),
        }
    }
}

/// The positions in `rows` of the records grouped under `tag`, ascending.
pub open spec fn members_of(rows: Seq<DatumView>, tag: Seq<char>) -> Seq<
    int,
>
    decreases rows.len(),
{
    if rows.len() == 0 {
        Seq::empty()
    } else if tag_of(rows.last()) == Some(tag) {
        members_of(rows.drop_last(), tag).push(rows.len() - 1)
    } else {
        members_of(rows.drop_last(), tag)
    }
}

/// How many of `rows` have a type.
pub open spec fn typed_count(rows: Seq<DatumView>) -> nat
    decreases rows.len(),
{
    if rows.len() == 0 {
        0
    } else if type_id_of(rows.last()) is Some {
        typed_count(rows.drop_last()) + 1
    } else {
        typed_count(rows.drop_last())
    }
}

/// The positions held in `indices`, as mathematical integers.
pub open spec fn positions(indices: Seq<usize>) -> Seq<int> {
    Seq::new(indices.len(), |i: int| indices[i] as int)
}

/// Computes [`type_tag`].
pub fn extract_tag(resource_type: &str) -> (tag: String)
    ensures
        tag@ == type_tag(resource_type@),
{
    let chars = chars_of(resource_type);
    let slash: Vec<char> = vec!['/'];
    let step = chars_of("-step");
    let hyphen: Vec<char> = vec!['-'];
    let underscore: Vec<char> = vec!['_'];
    assert(slash@ =~= seq!['/']);
    assert(hyphen@ =~= seq!['-']);
    assert(underscore@ =~= seq!['_']);
    let segment = last_piece_exec(&chars, &slash);
    let bare = without_suffix_exec(&segment, &step);
    let tag = replace_all_exec(&bare, &hyphen, &underscore);
    string_of(&tag)
}

/// Computes [`type_id_of_tag`].
pub fn expand_tag(tag: &str) -> (type_id: String)
    ensures
        type_id@ == type_id_of_tag(tag@),
{
    let chars = chars_of(tag);
    let hyphen: Vec<char> = vec!['-'];
    let underscore: Vec<char> = vec!['_'];
    assert(hyphen@ =~= seq!['-']);
    assert(underscore@ =~= seq!['_']);
    let middle = string_of(&replace_all_exec(&chars, &underscore, &hyphen));
    let mut out = "https://common.terraphim.io/01jxw2jx8qze6yakh4fz24mnhy/class/".to_owned();
    out.append(middle.as_str());
    out.append("-step");
    out
}

/// One group of a classification: a tag, and where its records stand in the
/// input.
pub struct TagGroup {
    pub tag: String,
    pub rows: Vec<usize>,
}

/// The tags held by `groups`, in order.
pub open spec fn group_tags(groups: Seq<TagGroup>) -> Seq<Seq<char>> {
    Seq::new(groups.len(), |g: int| groups[g].tag@)
}

/// `groups` is the classification of `rows`: one group for each tag, in the
/// order in which the tags first occur, each with the positions of its
/// records in ascending order.
pub open spec fn grouped(groups: Seq<TagGroup>, rows: Seq<DatumView>) -> bool {
    &&& group_tags(groups) == tags_of(rows)
    &&& forall|g: int|
        0 <= g < groups.len() ==> positions((#[trigger] groups[g]).rows@) == members_of(
            rows,
            groups[g].tag@,
        )
}

/// Interning keeps a list free of repetitions.
pub proof fn lemma_tags_distinct(rows: Seq<DatumView>)
    ensures
        crate::dictionary::distinct(tags_of(rows)),
    decreases rows.len(),
{
    if rows.len() > 0 {
        lemma_tags_distinct(rows.drop_last());
        let before = tags_of(rows.drop_last());
        match tag_of(rows.last()) {
            Some(t) => {
                if !before.contains(t) {
                    let after = before.push(t);
                    assert forall|i: int, j: int| 0 <= i < j < after.len() implies after[i]
                        != after[j] by {
                        assert(after[i] == before[i]);
                        assert(before.contains(before[i]));
                        if j < before.len() {
                            assert(after[j] == before[j]);
                        }
                    }
                }
            },
            None => {},
        }
    }
}

/// A tag that is not among the tags of `rows` has no members.
pub proof fn lemma_no_members(rows: Seq<DatumView>, tag: Seq<char>)
    requires
        !tags_of(rows).contains(tag),
    ensures
        members_of(rows, tag) == Seq::<int>::empty(),
    decreases rows.len(),
{
    if rows.len() > 0 {
        let before = tags_of(rows.drop_last());
        match tag_of(rows.last()) {
            Some(t) => {
                let after = interned(before, t);
                if before.contains(t) {
                } else {
                    assert(after[after.len() - 1] == t);
                    assert forall|i: int| 0 <= i < before.len() implies before[i] != tag by {
                        assert(after[i] == before[i]);
                        assert(after.contains(after[i]));
                    }
                }
                assert(t != tag) by {
                    if t == tag {
                        if before.contains(t) {
                            assert(after.contains(tag));
                        } else {
                            assert(after.contains(after[after.len() - 1]));
                        }
                    }
                }
                assert(!before.contains(tag));
            },
            None => {},
        }
        lemma_no_members(rows.drop_last(), tag);
    }
}

/// The tag of a record, computed: `None` for one without a type.
pub fn tag_of_record(record: &Datum) -> (r: Option<String>)
    ensures
        match r {
            Some(t) => tag_of(record@) == Some(t@),
            None => tag_of(record@) is None,
        },
{
    match record.get("resource_type") {
        Some(Datum::Str(t)) => Some(extract_tag(t.as_str())),
        _ => None,
    }
}

/// Where in `groups` the group with the tag `tag` stands.
fn find_group(groups: &Vec<TagGroup>, tag: &str) -> (r: Option<usize>)
    ensures
        match r {
            Some(g) => g < groups.len() && groups[g as int].tag@ == tag@,
            None => !group_tags(groups@).contains(tag@),
        },
{
    let mut g: usize = 0;
    while g < groups.len()
        invariant
            g <= groups.len(),
            forall|k: int| 0 <= k < g ==> groups[k].tag@ != tag@,
        decreases groups.len() - g,
    {
        if same_text(groups[g].tag.as_str(), tag) {
            return Some(g);
        }
        g += 1;
    }
    None
}

/// Groups records by their type tag. A record without a type is left out.
/// Also returns how many records were grouped.
pub fn classify(records: &Vec<Datum>) -> (r: (Vec<TagGroup>, usize))
    ensures
        grouped(r.0@, items_view(records@)),
        r.1 == typed_count(items_view(records@)),
{
    broadcast use group_datum_view;

    let ghost rows = items_view(records@);
    let mut groups: Vec<TagGroup> = Vec::new();
    let mut processed: usize = 0;
    let mut i: usize = 0;
    assert(group_tags(groups@) =~= tags_of(rows.take(0)));
    while i < records.len()
        invariant
            i <= records.len(),
            rows == items_view(records@),
            rows.len() == records.len(),
            grouped(groups@, rows.take(i as int)),
            processed == typed_count(rows.take(i as int)),
            processed <= i,
        decreases records.len() - i,
    {
        let ghost before = rows.take(i as int);
        let ghost after = rows.take(i + 1);
        let ghost old_groups = groups@;
        proof {
            lemma_items_view_index(records@, i as int);
            assert(after.drop_last() == before);
            assert(after.last() == records[i as int]@);
            lemma_tags_distinct(before);
        }
        match tag_of_record(&records[i]) {
            Some(tag) => {
                processed += 1;
                match find_group(&groups, tag.as_str()) {
                    Some(g) => {
                        let ghost old_rows = groups[g as int].rows@;
                        groups[g].rows.push(i);
                        proof {
                            assert(tags_of(before)[g as int] == tag@);
                            assert(tags_of(before).contains(tag@));
                            assert(group_tags(groups@) =~= group_tags(old_groups));
                            assert forall|k: int| 0 <= k < groups.len() implies positions(
                                (#[trigger] groups[k]).rows@,
                            ) == members_of(after, groups[k].tag@) by {
                                if k == g {
                                    assert(positions(groups[k].rows@) =~= positions(old_rows).push(
                                        i as int,
                                    ));
                                } else {
                                    assert(groups[k] == old_groups[k]);
                                    assert(group_tags(old_groups)[k] != group_tags(old_groups)[g as int]);
                                }
                            }
                        }
                    },
                    None => {
                        let mut members: Vec<usize> = Vec::new();
                        members.push(i);
                        proof {
                            lemma_no_members(before, tag@);
                        }
                        groups.push(TagGroup { tag, rows: members });
                        proof {
                            assert(group_tags(groups@) =~= group_tags(old_groups).push(tag@));
                            assert forall|k: int| 0 <= k < groups.len() implies positions(
                                (#[trigger] groups[k]).rows@,
                            ) == members_of(after, groups[k].tag@) by {
                                if k == old_groups.len() {
                                    assert(positions(groups[k].rows@) =~= Seq::<int>::empty().push(
                                        i as int,
                                    ));
                                } else {
                                    assert(groups[k] == old_groups[k]);
                                    assert(group_tags(old_groups)[k] == groups[k].tag@);
                                    assert(group_tags(old_groups).contains(groups[k].tag@));
                                }
                            }
                        }
                    },
                }
            },
            None => {},
        }
        i += 1;
    }
    assert(rows.take(i as int) == rows);
    (groups, processed)
}

/// The records at the given positions, borrowed.
pub fn borrow_rows<'a>(records: &'a Vec<Datum>, places: &Vec<usize>) -> (out: Vec<&'a Datum>)
    requires
        forall|k: int| 0 <= k < places.len() ==> (#[trigger] places[k]) < records.len(),
    ensures
        rows_view(out@) == crate::columnar::rows_at(items_view(records@), positions(places@)),
{
    let mut out: Vec<&'a Datum> = Vec::new();
    let mut k: usize = 0;
    while k < places.len()
        invariant
            k <= places.len(),
            out.len() == k,
            forall|j: int| 0 <= j < places.len() ==> (#[trigger] places[j]) < records.len(),
            forall|j: int| 0 <= j < k ==> (#[trigger] out[j])@ == records[places[j] as int]@,
        decreases places.len() - k,
    {
        out.push(&records[places[k]]);
        k += 1;
    }
    proof {
        assert forall|j: int| 0 <= j < out.len() implies rows_view(out@)[j] == crate::columnar::rows_at(
            items_view(records@),
            positions(places@),
        )[j] by {
            lemma_items_view_index(records@, places[j] as int);
        }
        assert(rows_view(out@) =~= crate::columnar::rows_at(items_view(records@), positions(places@)));
    }
    out
}


} // verus!
