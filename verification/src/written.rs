//! A run gives an artifact that can be written out: what was built from
//! values that have a serialized form has one.

use vstd::prelude::*;
use crate::classify::{members_of, tags_of};
use crate::columnar::{
    cell_of, group_rows, layout_of, lemma_members_in_range, position_of, upserted, value_for,
    ColumnView, FieldType, GroupView, Layout, ResourceSchemaView, TextKind,
};
use crate::efficient_compactor::subresources_of;
use crate::efficient_format::{
    artifact_value, cell_value, column_value, group_value, layout_value, run_artifact,
    schema_value, stats_value, ArtifactView,
};
use crate::encode::{count_value, int_value, pairs_value, texts_value};
use crate::fidelity::FidelityMode;
use crate::fields::{abbreviated, canonical_of, TableView};
use crate::json::{lemma_writable, writable};
use crate::round_trip::lemma_position_of;
use crate::stats::saved_ppm;
use crate::structural::{
    grouped_fields, restructured, rewritten, rewritten_fields, rewritten_items, without,
};
use crate::truly_efficient_compactor::{
    after_short_groups, candidates, compressed, compressed_items, first_present,
    first_shortened, order_of_groups, origin_value, short_cell, short_layout_of,
    types_of_groups, CompactStats, ShortLayout,
};
use crate::truly_format::{
    format_of, letters_value, run_format, run_tables, short_columns_of, sizes_value, table_value,
};
use crate::value::{fields_of, lemma_lookup, lookup, DatumView, FieldsView};

verus! {

/// An array of values that have a serialized form has one.
pub proof fn lemma_array_writable(items: Seq<DatumView>)
    requires
        forall|i: int| 0 <= i < items.len() ==> writable(#[trigger] items[i]),
    ensures
        writable(DatumView::Array(items)),
{
    lemma_writable(DatumView::Array(items));
}

/// An object of values that have a serialized form has one.
pub proof fn lemma_object_writable(members: FieldsView)
    requires
        forall|i: int| 0 <= i < members.len() ==> writable((#[trigger] members[i]).1),
    ensures
        writable(DatumView::Object(members)),
{
    lemma_writable(DatumView::Object(members));
}

/// Counts, signed numbers, texts and pairs of texts have a serialized form
/// as values.
pub proof fn lemma_plain_writable(n: nat, x: int, texts: Seq<Seq<char>>, pairs: TableView)
    ensures
        writable(count_value(n)),
        writable(int_value(x)),
        writable(texts_value(texts)),
        writable(pairs_value(pairs)),
{
    lemma_array_writable(texts_value(texts)->Array_0);
    lemma_object_writable(pairs_value(pairs)->Object_0);
}

/// The value that is found under a key has a serialized form where the
/// values of all fields have one.
pub proof fn lemma_lookup_writable(fields: FieldsView, key: Seq<char>)
    requires
        forall|i: int| 0 <= i < fields.len() ==> writable((#[trigger] fields[i]).1),
    ensures
        lookup(fields, key) is Some ==> writable(lookup(fields, key)->0),
{
    lemma_lookup(fields, key);
    if lookup(fields, key) is Some {
        let v = lookup(fields, key)->0;
        let i = choose|i: int| 0 <= i < fields.len() && fields[i] == (key, v);
        assert(writable(fields[i].1));
    }
}

/// The fields of a value that has a serialized form have values that have
/// one.
pub proof fn lemma_fields_writable(row: DatumView)
    requires
        writable(row),
    ensures
        forall|i: int| 0 <= i < fields_of(row).len() ==> writable((#[trigger] fields_of(row)[i]).1),
{
    lemma_writable(row);
}

/// The records of an input that has a serialized form have one.
pub proof fn lemma_records_writable(data: DatumView)
    requires
        writable(data),
    ensures
        forall|i: int|
            0 <= i < subresources_of(data).len() ==> writable(#[trigger] subresources_of(data)[i]),
{
    lemma_fields_writable(data);
    lemma_lookup_writable(fields_of(data), "subresources"@);
    match lookup(fields_of(data), "subresources"@) {
        Some(DatumView::Array(items)) => {
            lemma_writable(DatumView::Array(items));
        },
        _ => {},
    }
}

/// The rows of a group of records that have a serialized form have one.
pub proof fn lemma_rows_writable(records: Seq<DatumView>, tag: Seq<char>)
    requires
        forall|i: int| 0 <= i < records.len() ==> writable(#[trigger] records[i]),
    ensures
        forall|i: int|
            0 <= i < group_rows(records, tag).len() ==> writable(
                #[trigger] group_rows(records, tag)[i],
            ),
{
    lemma_members_in_range(records, tag);
    assert forall|i: int| 0 <= i < group_rows(records, tag).len() implies writable(
        #[trigger] group_rows(records, tag)[i],
    ) by {
        let p = members_of(records, tag)[i];
        assert(0 <= p < records.len());
        assert(group_rows(records, tag)[i] == records[p]);
    }
}

/// The cell for the value of a record that has a serialized form has one.
pub proof fn lemma_cell_writable(
    table: TableView,
    row: DatumView,
    name: Seq<char>,
    ty: FieldType,
    urls: Seq<Seq<char>>,
    strings: Seq<Seq<char>>,
)
    requires
        writable(row),
    ensures
        writable(cell_value(cell_of(ty, value_for(table, row, name), urls, strings))),
{
    lemma_fields_writable(row);
    lemma_lookup_writable(fields_of(row), name);
    match canonical_of(table, name) {
        Some(full) => {
            lemma_lookup_writable(fields_of(row), full);
        },
        None => {},
    }
    match value_for(table, row, name) {
        Some(v) => {
            assert(writable(v));
            lemma_writable(v);
        },
        None => {},
    }
}

/// Types by key have a serialized form as a value.
pub proof fn lemma_layout_writable(types: Layout)
    ensures
        writable(layout_value(types)),
{
    lemma_object_writable(layout_value(types)->Object_0);
}

/// A schema has a serialized form as a value.
pub proof fn lemma_schema_writable(schema: ResourceSchemaView)
    ensures
        writable(schema_value(schema)),
{
    lemma_plain_writable(0, 0, schema.required, TableView::empty());
    lemma_plain_writable(0, 0, schema.optional, TableView::empty());
    lemma_layout_writable(schema.types);
    lemma_object_writable(schema_value(schema)->Object_0);
}

/// A column whose cells have a serialized form has one as a value.
pub proof fn lemma_column_writable(column: ColumnView)
    requires
        forall|i: int|
            0 <= i < column.cells.len() ==> writable(cell_value(#[trigger] column.cells[i])),
    ensures
        writable(column_value(column)),
{
    let cells = Seq::new(column.cells.len(), |i: int| cell_value(column.cells[i]));
    lemma_array_writable(cells);
    lemma_object_writable(column_value(column)->Object_0);
}

/// A group whose columns have a serialized form has one as a value.
pub proof fn lemma_group_writable(group: GroupView)
    requires
        forall|c: int|
            0 <= c < group.columns.len() ==> writable(column_value(#[trigger] group.columns[c])),
    ensures
        writable(group_value(group)),
{
    lemma_plain_writable(group.count, 0, Seq::empty(), TableView::empty());
    let columns = Seq::new(
        group.columns.len(),
        |c: int| (group.columns[c].name, column_value(group.columns[c])),
    );
    lemma_object_writable(columns);
    lemma_object_writable(group_value(group)->Object_0);
}

/// An artifact whose groups have a serialized form has one as a value.
pub proof fn lemma_artifact_writable(artifact: ArtifactView)
    requires
        forall|g: int|
            0 <= g < artifact.groups.len() ==> writable(
                group_value((#[trigger] artifact.groups[g]).1),
            ),
    ensures
        writable(artifact_value(artifact)),
{
    let top = artifact_value(artifact)->Object_0;
    let schema = top[0].1->Object_0;
    let schemas = schema[0].1->Object_0;
    assert forall|g: int| 0 <= g < schemas.len() implies writable((#[trigger] schemas[g]).1) by {
        lemma_schema_writable(artifact.schemas[g].1);
    }
    lemma_object_writable(schemas);
    lemma_layout_writable(artifact.field_types);
    lemma_object_writable(schema);
    let groups = top[1].1->Object_0;
    lemma_object_writable(groups);
    lemma_plain_writable(0, 0, artifact.urls, artifact.properties);
    lemma_plain_writable(0, 0, artifact.strings, artifact.properties);
    lemma_object_writable(top[2].1->Object_0);
    lemma_plain_writable(
        artifact.stats.original_size as nat,
        saved_ppm(
            artifact.stats.original_size as nat,
            artifact.stats.compacted_size as nat,
        ),
        Seq::empty(),
        TableView::empty(),
    );
    lemma_plain_writable(artifact.stats.compacted_size as nat, 0, Seq::empty(), TableView::empty());
    lemma_object_writable(stats_value(artifact.stats)->Object_0);
    lemma_object_writable(top);
}

/// The artifact of a run on records that have a serialized form has one.
pub proof fn lemma_run_writable(
    table: TableView,
    records: Seq<DatumView>,
    urls0: Seq<Seq<char>>,
    strings0: Seq<Seq<char>>,
    names0: TableView,
    original_size: nat,
    compacted_size: nat,
)
    requires
        forall|i: int| 0 <= i < records.len() ==> writable(#[trigger] records[i]),
    ensures
        writable(
            artifact_value(
                run_artifact(table, records, urls0, strings0, names0, original_size, compacted_size),
            ),
        ),
{
    let artifact = run_artifact(
        table,
        records,
        urls0,
        strings0,
        names0,
        original_size,
        compacted_size,
    );
    let tags = tags_of(records);
    assert forall|g: int| 0 <= g < artifact.groups.len() implies writable(
        group_value((#[trigger] artifact.groups[g]).1),
    ) by {
        let rows = group_rows(records, tags[g]);
        let group = artifact.groups[g].1;
        lemma_rows_writable(records, tags[g]);
        assert forall|c: int| 0 <= c < group.columns.len() implies writable(
            column_value(#[trigger] group.columns[c]),
        ) by {
            let column = group.columns[c];
            assert forall|i: int| 0 <= i < column.cells.len() implies writable(
                cell_value(#[trigger] column.cells[i]),
            ) by {
                lemma_cell_writable(
                    table,
                    rows[i],
                    layout_of(table, rows)[c].0,
                    layout_of(table, rows)[c].1,
                    artifact.urls,
                    artifact.strings,
                );
            }
            lemma_column_writable(column);
        }
        lemma_group_writable(group);
    }
    lemma_artifact_writable(artifact);
}

/// The compressed form of a value that has a serialized form has one.
pub proof fn lemma_compressed_writable(v: DatumView, urls: Seq<Seq<char>>, strings: Seq<Seq<char>>)
    requires
        writable(v),
    ensures
        writable(compressed(v, urls, strings)),
    decreases v,
{
    match v {
        DatumView::Array(items) => {
            lemma_writable(v);
            lemma_compressed_items_writable(items, urls, strings);
            lemma_array_writable(compressed_items(items, urls, strings));
        },
        _ => {},
    }
}

/// The compressed forms of items that have a serialized form have one.
pub proof fn lemma_compressed_items_writable(
    items: Seq<DatumView>,
    urls: Seq<Seq<char>>,
    strings: Seq<Seq<char>>,
)
    requires
        forall|i: int| 0 <= i < items.len() ==> writable(#[trigger] items[i]),
    ensures
        compressed_items(items, urls, strings).len() == items.len(),
        forall|i: int|
            0 <= i < items.len() ==> writable(#[trigger] compressed_items(items, urls, strings)[i]),
    decreases items,
{
    if items.len() > 0 {
        let front = items.drop_last();
        assert forall|i: int| 0 <= i < front.len() implies writable(#[trigger] front[i]) by {
            assert(front[i] == items[i]);
        }
        lemma_compressed_items_writable(front, urls, strings);
        assert(writable(items[items.len() - 1]));
        lemma_compressed_writable(items.last(), urls, strings);
    }
}

/// The value of the first of the keys that the fields have has a
/// serialized form where the values of all fields have one.
pub proof fn lemma_first_present_writable(fields: FieldsView, keys: Seq<Seq<char>>)
    requires
        forall|i: int| 0 <= i < fields.len() ==> writable((#[trigger] fields[i]).1),
    ensures
        first_present(fields, keys) is Some ==> writable(first_present(fields, keys)->0),
    decreases keys.len(),
{
    if keys.len() > 0 {
        lemma_lookup_writable(fields, keys[0]);
        lemma_first_present_writable(fields, keys.drop_first());
    }
}

/// The value of the first field with the short key has a serialized form
/// where the values of all fields have one.
pub proof fn lemma_first_shortened_writable(fields: FieldsView, abbrev: Seq<char>)
    requires
        forall|i: int| 0 <= i < fields.len() ==> writable((#[trigger] fields[i]).1),
    ensures
        first_shortened(fields, abbrev) is Some ==> writable(first_shortened(fields, abbrev)->0),
    decreases fields.len(),
{
    if fields.len() > 0 {
        assert(writable(fields[0].1));
        let rest = fields.drop_first();
        assert forall|i: int| 0 <= i < rest.len() implies writable((#[trigger] rest[i]).1) by {
            assert(rest[i] == fields[i + 1]);
        }
        lemma_first_shortened_writable(rest, abbrev);
    }
}

/// The cell of an aggressive run for a record that has a serialized form
/// has one.
pub proof fn lemma_short_cell_writable(
    row: DatumView,
    abbrev: Seq<char>,
    urls: Seq<Seq<char>>,
    strings: Seq<Seq<char>>,
)
    requires
        writable(row),
    ensures
        writable(short_cell(origin_value(fields_of(row), abbrev), urls, strings)),
{
    let fields = fields_of(row);
    lemma_fields_writable(row);
    lemma_lookup_writable(fields, abbrev);
    lemma_first_present_writable(fields, candidates(abbrev));
    lemma_first_shortened_writable(fields, abbrev);
    match origin_value(fields, abbrev) {
        Some(v) => {
            lemma_compressed_writable(v, urls, strings);
        },
        None => {},
    }
}

/// The written-out form of an aggressive artifact whose groups have a
/// serialized form has one.
pub proof fn lemma_format_writable(
    types: ShortLayout,
    order: Seq<Seq<char>>,
    groups: FieldsView,
    urls: Seq<Seq<char>>,
    strings: Seq<Seq<char>>,
    stats: CompactStats,
    fidelity: FidelityMode,
)
    requires
        forall|g: int| 0 <= g < groups.len() ==> writable((#[trigger] groups[g]).1),
    ensures
        writable(format_of(types, order, groups, urls, strings, stats, fidelity)),
{
    let top = format_of(types, order, groups, urls, strings, stats, fidelity)->Object_0;
    lemma_object_writable(letters_value(types)->Object_0);
    lemma_plain_writable(0, 0, order, TableView::empty());
    lemma_object_writable(top[0].1->Object_0);
    lemma_object_writable(groups);
    lemma_plain_writable(0, 0, urls, TableView::empty());
    lemma_plain_writable(0, 0, strings, TableView::empty());
    lemma_plain_writable(
        stats.orig as nat,
        saved_ppm(stats.orig as nat, stats.comp as nat),
        Seq::empty(),
        TableView::empty(),
    );
    lemma_plain_writable(stats.comp as nat, 0, Seq::empty(), TableView::empty());
    lemma_object_writable(sizes_value(stats)->Object_0);
    lemma_object_writable(top);
}

/// The written-out form of the artifact of an aggressive run on records
/// that have a serialized form has one.
pub proof fn lemma_run_format_writable(
    records: Seq<DatumView>,
    urls0: Seq<Seq<char>>,
    strings0: Seq<Seq<char>>,
    orig: nat,
    comp: nat,
)
    requires
        forall|i: int| 0 <= i < records.len() ==> writable(#[trigger] records[i]),
    ensures
        writable(run_format(records, urls0, strings0, orig, comp)),
{
    let tags = tags_of(records);
    let groups = run_tables(records, urls0, strings0);
    assert forall|g: int| 0 <= g < groups.len() implies writable((#[trigger] groups[g]).1) by {
        let rows = group_rows(records, tags[g]);
        let urls = after_short_groups(TextKind::Url, records, tags.take(g + 1), urls0);
        let strings = after_short_groups(TextKind::Plain, records, tags.take(g + 1), strings0);
        let columns = short_columns_of(rows, urls, strings);
        lemma_rows_writable(records, tags[g]);
        assert forall|c: int| 0 <= c < columns.len() implies writable((#[trigger] columns[c]).1) by {
            let cells = columns[c].1->Array_0;
            assert forall|i: int| 0 <= i < cells.len() implies writable(#[trigger] cells[i]) by {
                lemma_short_cell_writable(rows[i], short_layout_of(rows)[c].0, urls, strings);
            }
            lemma_array_writable(cells);
        }
        lemma_object_writable(columns);
        lemma_plain_writable(rows.len(), 0, Seq::empty(), TableView::empty());
        lemma_object_writable(table_value(rows.len(), columns)->Object_0);
    }
    lemma_format_writable(
        types_of_groups(records, tags),
        order_of_groups(records, tags),
        groups,
        after_short_groups(TextKind::Url, records, tags, urls0),
        after_short_groups(TextKind::Plain, records, tags, strings0),
        CompactStats { orig: orig as usize, comp: comp as usize },
        FidelityMode::AggressiveColumnar,
    );
}

/// Setting a field to a value that has a serialized form keeps fields
/// whose values all have one.
pub proof fn lemma_upserted_writable(fields: FieldsView, key: Seq<char>, value: DatumView)
    requires
        forall|i: int| 0 <= i < fields.len() ==> writable((#[trigger] fields[i]).1),
        writable(value),
    ensures
        forall|i: int|
            0 <= i < upserted(fields, key, value).len() ==> writable(
                (#[trigger] upserted(fields, key, value)[i]).1,
            ),
{
    lemma_position_of(fields, key);
    let out = upserted(fields, key, value);
    assert forall|i: int| 0 <= i < out.len() implies writable((#[trigger] out[i]).1) by {
        match position_of(fields, key) {
            Some(p) => {
                if i != p {
                    assert(out[i] == fields[i]);
                }
            },
            None => {
                if i < fields.len() {
                    assert(out[i] == fields[i]);
                }
            },
        }
    }
}

/// Taking fields out keeps fields whose values all have a serialized form.
pub proof fn lemma_without_writable(fields: FieldsView, key: Seq<char>)
    requires
        forall|i: int| 0 <= i < fields.len() ==> writable((#[trigger] fields[i]).1),
    ensures
        forall|i: int|
            0 <= i < without(fields, key).len() ==> writable((#[trigger] without(fields, key)[i]).1),
    decreases fields.len(),
{
    if fields.len() > 0 {
        let front = fields.drop_last();
        assert forall|i: int| 0 <= i < front.len() implies writable((#[trigger] front[i]).1) by {
            assert(front[i] == fields[i]);
        }
        lemma_without_writable(front, key);
        assert(writable(fields[fields.len() - 1].1));
        let out = without(fields, key);
        assert forall|i: int| 0 <= i < out.len() implies writable((#[trigger] out[i]).1) by {
            if i < without(front, key).len() {
                assert(out[i] == without(front, key)[i]);
            }
        }
    }
}

/// The rewritten form of a value that has a serialized form has one.
pub proof fn lemma_rewritten_writable(v: DatumView, table: TableView, entries: Seq<Seq<char>>)
    requires
        writable(v),
    ensures
        writable(rewritten(v, table, entries)),
    decreases v,
{
    lemma_writable(v);
    match v {
        DatumView::Array(items) => {
            lemma_rewritten_items_writable(items, table, entries);
            lemma_array_writable(rewritten_items(items, table, entries));
        },
        DatumView::Object(fields) => {
            lemma_rewritten_fields_writable(fields, table, entries);
            lemma_object_writable(rewritten_fields(fields, table, entries));
        },
        _ => {},
    }
}

/// The rewritten forms of items that have a serialized form have one.
pub proof fn lemma_rewritten_items_writable(
    items: Seq<DatumView>,
    table: TableView,
    entries: Seq<Seq<char>>,
)
    requires
        forall|i: int| 0 <= i < items.len() ==> writable(#[trigger] items[i]),
    ensures
        rewritten_items(items, table, entries).len() == items.len(),
        forall|i: int|
            0 <= i < items.len() ==> writable(#[trigger] rewritten_items(items, table, entries)[i]),
    decreases items,
{
    if items.len() > 0 {
        let front = items.drop_last();
        assert forall|i: int| 0 <= i < front.len() implies writable(#[trigger] front[i]) by {
            assert(front[i] == items[i]);
        }
        lemma_rewritten_items_writable(front, table, entries);
        assert(writable(items[items.len() - 1]));
        lemma_rewritten_writable(items.last(), table, entries);
    }
}

/// The rewritten fields of fields whose values have a serialized form have
/// values that have one.
pub proof fn lemma_rewritten_fields_writable(
    fields: FieldsView,
    table: TableView,
    entries: Seq<Seq<char>>,
)
    requires
        forall|i: int| 0 <= i < fields.len() ==> writable((#[trigger] fields[i]).1),
    ensures
        forall|i: int|
            0 <= i < rewritten_fields(fields, table, entries).len() ==> writable(
                (#[trigger] rewritten_fields(fields, table, entries)[i]).1,
            ),
    decreases fields,
{
    if fields.len() > 0 {
        let front = fields.drop_last();
        assert forall|i: int| 0 <= i < front.len() implies writable((#[trigger] front[i]).1) by {
            assert(front[i] == fields[i]);
        }
        lemma_rewritten_fields_writable(front, table, entries);
        assert(writable(fields[fields.len() - 1].1));
        lemma_rewritten_writable(fields.last().1, table, entries);
        lemma_upserted_writable(
            rewritten_fields(front, table, entries),
            abbreviated(table, fields.last().0),
            rewritten(fields.last().1, table, entries),
        );
    }
}

/// An input that has a serialized form has one with its records grouped.
pub proof fn lemma_restructured_writable(data: DatumView)
    requires
        writable(data),
    ensures
        writable(restructured(data)),
{
    match data {
        DatumView::Object(fields) => {
            lemma_fields_writable(data);
            assert(fields_of(data) == fields);
            assert forall|i: int| 0 <= i < fields.len() implies writable((#[trigger] fields[i]).1) by {
                assert(writable(fields_of(data)[i].1));
            }
            lemma_lookup_writable(fields, "subresources"@);
            match lookup(fields, "subresources"@) {
                Some(DatumView::Array(items)) => {
                    lemma_writable(DatumView::Array(items));
                    let tags = tags_of(items);
                    let groups = grouped_fields(items, tags);
                    assert forall|g: int| 0 <= g < groups.len() implies writable(
                        (#[trigger] groups[g]).1,
                    ) by {
                        lemma_rows_writable(items, tags[g]);
                        lemma_array_writable(group_rows(items, tags[g]));
                    }
                    lemma_object_writable(groups);
                    let set = upserted(fields, "subresources_grouped"@, DatumView::Object(groups));
                    lemma_upserted_writable(
                        fields,
                        "subresources_grouped"@,
                        DatumView::Object(groups),
                    );
                    lemma_without_writable(set, "subresources"@);
                    lemma_object_writable(without(set, "subresources"@));
                },
                _ => {},
            }
        },
        _ => {},
    }
}

} // verus!
