use vstd::prelude::*;
use crate::classify::{members_of, tag_of, tags_of, type_field, type_id_of};
use crate::efficient_compactor::{compacted, group_compacted, groups_view, EfficientCompactedData};
use crate::columnar::{
    aligned, cell_holds, cell_of, cell_text, column_holds, group_holds, resolvable, typed, columns_view, decoded_cell, decoded_fields,
    decoded_groups, decoded_record, encodes, field_type_of, group_aligned, group_rows, has_column,
    has_key, keys_where, schema_of,
    holds_texts, in_all, layout_of, named, names_after_fields, names_after_groups,
    names_after_rows, names_after_run, noted, position_of, start_fields, text_or_empty,
    upserted, value_for, ColumnView, FieldType, GroupView, Layout, TextKind,
};
use crate::dictionary::{distinct, lemma_code_in, texts_of, CodeWidth};
use crate::fields::{
    abbreviated, added, canonical_of, lemma_canonical_of, lemma_reversible_entry, lemma_short_of,
    lemma_swapped, pairs_of, reversible, short_of, swapped, TableView,
};
use crate::json::json_parse;
use crate::value::{fields_of, lemma_lookup, lookup, DatumView, FieldsView};

verus! {

/// Two lists of fields give the same value for every key.
pub open spec fn same_fields(a: FieldsView, b: FieldsView) -> bool {
    forall|key: Seq<char>| lookup(a, key) == lookup(b, key)
}

/// The first field with the key decides what `lookup` finds.
pub proof fn lemma_lookup_first(fields: FieldsView, key: Seq<char>, i: int)
    requires
        0 <= i < fields.len(),
        fields[i].0 == key,
        forall|j: int| 0 <= j < i ==> fields[j].0 != key,
    ensures
        lookup(fields, key) == Some(fields[i].1),
{
    lemma_lookup(fields, key);
}

/// Where no field has the key, `lookup` finds nothing.
pub proof fn lemma_lookup_absent(fields: FieldsView, key: Seq<char>)
    requires
        forall|j: int| 0 <= j < fields.len() ==> fields[j].0 != key,
    ensures
        lookup(fields, key) is None,
{
    lemma_lookup(fields, key);
}

/// `position_of` finds the first field with the key, and none where there is
/// none.
pub proof fn lemma_position_of(fields: FieldsView, key: Seq<char>)
    ensures
        match position_of(fields, key) {
            Some(i) => 0 <= i < fields.len() && fields[i].0 == key && forall|j: int|
                0 <= j < i ==> fields[j].0 != key,
            None => forall|j: int| 0 <= j < fields.len() ==> fields[j].0 != key,
        },
    decreases fields.len(),
{
    if fields.len() > 0 {
        let front = fields.drop_last();
        lemma_position_of(front, key);
        assert forall|j: int| 0 <= j < front.len() implies front[j] == fields[j] by {}
        match position_of(front, key) {
            Some(i) => {
                assert(fields[i] == front[i]);
            },
            None => {},
        }
    }
}

/// Setting a field changes what is found for its key, and for no other.
pub proof fn lemma_upserted(fields: FieldsView, key: Seq<char>, value: DatumView, other: Seq<char>)
    ensures
        lookup(upserted(fields, key, value), other) == if other == key {
            Some(value)
        } else {
            lookup(fields, other)
        },
{
    let after = upserted(fields, key, value);
    lemma_position_of(fields, key);
    lemma_lookup(fields, other);
    match position_of(fields, key) {
        Some(i) => {
            assert forall|j: int| 0 <= j < fields.len() implies (#[trigger] after[j]).0
                == fields[j].0 by {}
            if other == key {
                lemma_lookup_first(after, key, i);
            } else {
                match lookup(fields, other) {
                    Some(v) => {
                        let at = choose|at: int|
                            0 <= at < fields.len() && fields[at] == (other, v) && forall|j: int|
                                0 <= j < at ==> fields[j].0 != other;
                        assert(after[at] == fields[at]);
                        lemma_lookup_first(after, other, at);
                    },
                    None => {
                        lemma_lookup_absent(after, other);
                    },
                }
            }
        },
        None => {
            assert forall|j: int| 0 <= j < fields.len() implies (#[trigger] after[j])
                == fields[j] by {}
            if other == key {
                lemma_lookup_first(after, key, fields.len() as int);
            } else {
                match lookup(fields, other) {
                    Some(v) => {
                        let at = choose|at: int|
                            0 <= at < fields.len() && fields[at] == (other, v) && forall|j: int|
                                0 <= j < at ==> fields[j].0 != other;
                        assert(after[at] == fields[at]);
                        lemma_lookup_first(after, other, at);
                    },
                    None => {
                        lemma_lookup_absent(after, other);
                    },
                }
            }
        },
    }
}

/// The canonical key under which a column is decoded.
pub open spec fn decoded_key(properties: TableView, name: Seq<char>) -> Seq<char> {
    match short_of(properties, name) {
        Some(full) => full,
        None => name,
    }
}

/// What a column gives to the record of row `i`: a key and a value, or
/// nothing where its cell is empty.
pub open spec fn given(
    properties: TableView,
    column: ColumnView,
    i: int,
    urls: Seq<Seq<char>>,
    strings: Seq<Seq<char>>,
) -> Option<(Seq<char>, DatumView)> {
    match decoded_cell(column.field_type, column.cells[i], urls, strings) {
        Some(v) => Some((decoded_key(properties, column.name), v)),
        None => None,
    }
}

/// A key that no column gives is found in the decoded record as it is found
/// in the fields that the record starts with.
pub proof fn lemma_decoded_untouched(
    properties: TableView,
    columns: Seq<ColumnView>,
    i: int,
    urls: Seq<Seq<char>>,
    strings: Seq<Seq<char>>,
    start: FieldsView,
    key: Seq<char>,
)
    requires
        forall|c: int|
            0 <= c < columns.len() ==> match #[trigger] given(
                properties,
                columns[c],
                i,
                urls,
                strings,
            ) {
                Some(kv) => kv.0 != key,
                None => true,
            },
    ensures
        lookup(decoded_fields(properties, columns, i, urls, strings, start), key) == lookup(
            start,
            key,
        ),
    decreases columns.len(),
{
    if columns.len() > 0 {
        let front = columns.drop_last();
        assert forall|c: int| 0 <= c < front.len() implies match #[trigger] given(
            properties,
            front[c],
            i,
            urls,
            strings,
        ) {
            Some(kv) => kv.0 != key,
            None => true,
        } by {
            assert(front[c] == columns[c]);
        }
        lemma_decoded_untouched(properties, front, i, urls, strings, start, key);
        let before = decoded_fields(properties, front, i, urls, strings, start);
        assert(columns[columns.len() - 1] == columns.last());
        match given(properties, columns.last(), i, urls, strings) {
            Some(kv) => {
                lemma_upserted(before, kv.0, kv.1, key);
            },
            None => {},
        }
    }
}

/// A key that the column `c` gives, and no later column, is found in the
/// decoded record with the value that `c` gives.
pub proof fn lemma_decoded_given(
    properties: TableView,
    columns: Seq<ColumnView>,
    i: int,
    urls: Seq<Seq<char>>,
    strings: Seq<Seq<char>>,
    start: FieldsView,
    c: int,
    key: Seq<char>,
    value: DatumView,
)
    requires
        0 <= c < columns.len(),
        given(properties, columns[c], i, urls, strings) == Some((key, value)),
        forall|d: int|
            c < d < columns.len() ==> match #[trigger] given(
                properties,
                columns[d],
                i,
                urls,
                strings,
            ) {
                Some(kv) => kv.0 != key,
                None => true,
            },
    ensures
        lookup(decoded_fields(properties, columns, i, urls, strings, start), key) == Some(value),
    decreases columns.len(),
{
    let front = columns.drop_last();
    let before = decoded_fields(properties, front, i, urls, strings, start);
    assert(columns[columns.len() - 1] == columns.last());
    if c == columns.len() - 1 {
        lemma_upserted(before, key, value, key);
    } else {
        assert(front[c] == columns[c]);
        assert forall|d: int| c < d < front.len() implies match #[trigger] given(
            properties,
            front[d],
            i,
            urls,
            strings,
        ) {
            Some(kv) => kv.0 != key,
            None => true,
        } by {
            assert(front[d] == columns[d]);
        }
        lemma_decoded_given(properties, front, i, urls, strings, start, c, key, value);
        match given(properties, columns.last(), i, urls, strings) {
            Some(kv) => {
                lemma_upserted(before, kv.0, kv.1, key);
            },
            None => {},
        }
    }
}

/// The names of the columns of `layout` are all different.
pub open spec fn names_distinct(layout: Layout) -> bool {
    forall|c: int, d: int| 0 <= c < d < layout.len() ==> layout[c].0 != layout[d].0
}

/// Some field among `fields` is stored under the name of the column `col`
/// and has a value of its type.
pub open spec fn from_fields(table: TableView, fields: FieldsView, col: (Seq<char>, FieldType)) -> bool {
    exists|f: int|
        0 <= f < fields.len() && abbreviated(table, (#[trigger] fields[f]).0) == col.0
            && field_type_of(fields[f].1) == col.1
}

/// Some field of some row is stored under the name of the column `col` and
/// has a value of its type.
pub open spec fn from_rows(table: TableView, rows: Seq<DatumView>, col: (Seq<char>, FieldType)) -> bool {
    exists|i: int| 0 <= i < rows.len() && from_fields(table, fields_of(#[trigger] rows[i]), col)
}

/// Noting fields keeps the columns that are there, gives every field its
/// column, and adds only columns that come from a field.
pub proof fn lemma_noted(table: TableView, layout: Layout, fields: FieldsView)
    ensures
        layout.is_prefix_of(noted(table, layout, fields)),
        forall|f: int|
            0 <= f < fields.len() ==> has_column(
                noted(table, layout, fields),
                abbreviated(table, (#[trigger] fields[f]).0),
            ),
        forall|c: int|
            layout.len() <= c < noted(table, layout, fields).len() ==> from_fields(
                table,
                fields,
                #[trigger] noted(table, layout, fields)[c],
            ),
        names_distinct(layout) ==> names_distinct(noted(table, layout, fields)),
    decreases fields.len(),
{
    let after = noted(table, layout, fields);
    if fields.len() == 0 {
        assert(after.subrange(0, layout.len() as int) =~= layout);
    } else {
        let front = fields.drop_last();
        let before = noted(table, layout, front);
        lemma_noted(table, layout, front);
        let name = abbreviated(table, fields.last().0);
        assert(after.subrange(0, layout.len() as int) =~= layout) by {
            assert forall|c: int| 0 <= c < layout.len() implies after[c] == layout[c] by {
                assert(before.subrange(0, layout.len() as int)[c] == before[c]);
            }
        }
        assert forall|f: int| 0 <= f < fields.len() implies has_column(
            after,
            abbreviated(table, (#[trigger] fields[f]).0),
        ) by {
            if f < front.len() {
                assert(front[f] == fields[f]);
                let c = choose|c: int|
                    0 <= c < before.len() && (#[trigger] before[c]).0 == abbreviated(
                        table,
                        front[f].0,
                    );
                assert(after[c] == before[c]);
            } else {
                if has_column(before, name) {
                } else {
                    assert(after[after.len() - 1].0 == name);
                }
            }
        }
        assert forall|c: int| layout.len() <= c < after.len() implies from_fields(
            table,
            fields,
            #[trigger] after[c],
        ) by {
            if c < before.len() {
                assert(after[c] == before[c]);
                let f = choose|f: int|
                    0 <= f < front.len() && abbreviated(table, (#[trigger] front[f]).0)
                        == before[c].0 && field_type_of(front[f].1) == before[c].1;
                assert(fields[f] == front[f]);
            } else {
                assert(fields[fields.len() - 1] == fields.last());
            }
        }
        if names_distinct(layout) && !has_column(before, name) {
            assert forall|c: int, d: int| 0 <= c < d < after.len() implies after[c].0
                != after[d].0 by {
                assert(after[c] == before[c]);
                if d < before.len() {
                    assert(after[d] == before[d]);
                }
            }
        }
    }
}

/// The layout of a group has a column for every field of every row, every
/// column comes from a field of a row, and no two columns have one name.
pub proof fn lemma_layout(table: TableView, rows: Seq<DatumView>)
    ensures
        forall|i: int, f: int|
            0 <= i < rows.len() && 0 <= f < fields_of(rows[i]).len() ==> has_column(
                layout_of(table, rows),
                abbreviated(table, (#[trigger] fields_of(rows[i])[f]).0),
            ),
        forall|c: int|
            0 <= c < layout_of(table, rows).len() ==> from_rows(
                table,
                rows,
                #[trigger] layout_of(table, rows)[c],
            ),
        names_distinct(layout_of(table, rows)),
    decreases rows.len(),
{
    let layout = layout_of(table, rows);
    if rows.len() > 0 {
        let front = rows.drop_last();
        let before = layout_of(table, front);
        lemma_layout(table, front);
        lemma_noted(table, before, fields_of(rows.last()));
        assert forall|i: int, f: int|
            0 <= i < rows.len() && 0 <= f < fields_of(rows[i]).len() implies has_column(
            layout,
            abbreviated(table, (#[trigger] fields_of(rows[i])[f]).0),
        ) by {
            if i < front.len() {
                assert(front[i] == rows[i]);
                let name = abbreviated(table, fields_of(front[i])[f].0);
                assert(has_column(before, name));
                let c = choose|c: int| 0 <= c < before.len() && (#[trigger] before[c]).0 == name;
                assert(layout.subrange(0, before.len() as int)[c] == layout[c]);
            } else {
                assert(rows[i] == rows.last());
            }
        }
        assert forall|c: int| 0 <= c < layout.len() implies from_rows(
            table,
            rows,
            #[trigger] layout[c],
        ) by {
            if c < before.len() {
                assert(layout.subrange(0, before.len() as int)[c] == layout[c]);
                let i = choose|i: int|
                    0 <= i < front.len() && from_fields(
                        table,
                        fields_of(#[trigger] front[i]),
                        before[c],
                    );
                assert(rows[i] == front[i]);
            } else {
                assert(rows[rows.len() - 1] == rows.last());
            }
        }
    }
}

/// Every entry of `names` is an entry of `table`.
pub open spec fn sub_table(names: TableView, table: TableView) -> bool {
    forall|j: int| 0 <= j < names.len() ==> table.contains(#[trigger] names[j])
}

/// Some field among `fields` is named `key`.
pub open spec fn key_in_fields(fields: FieldsView, key: Seq<char>) -> bool {
    exists|f: int| 0 <= f < fields.len() && (#[trigger] fields[f]).0 == key
}

/// Some field of some row is named `key`.
pub open spec fn key_in_rows(rows: Seq<DatumView>, key: Seq<char>) -> bool {
    exists|i: int| 0 <= i < rows.len() && key_in_fields(fields_of(#[trigger] rows[i]), key)
}

/// Some field of some row of the groups with the given tags is named `key`.
pub open spec fn key_in_groups(records: Seq<DatumView>, tags: Seq<Seq<char>>, key: Seq<char>) -> bool {
    exists|g: int|
        0 <= g < tags.len() && key_in_rows(group_rows(records, #[trigger] tags[g]), key)
}

/// In a reversible table, an entry is what both lookups find.
pub proof fn lemma_reversible_contains(table: TableView, canonical: Seq<char>, short: Seq<char>)
    requires
        reversible(table),
        table.contains((canonical, short)),
    ensures
        short_of(table, canonical) == Some(short),
        canonical_of(table, short) == Some(canonical),
{
    let i = choose|i: int| 0 <= i < table.len() && table[i] == (canonical, short);
    lemma_reversible_entry(table, i);
}

/// What `short_of` finds is an entry of the table.
pub proof fn lemma_short_contains(table: TableView, canonical: Seq<char>)
    requires
        short_of(table, canonical) is Some,
    ensures
        table.contains((canonical, short_of(table, canonical)->0)),
{
    lemma_short_of(table, canonical);
}

/// What `canonical_of` finds is an entry of the table.
pub proof fn lemma_canonical_contains(table: TableView, short: Seq<char>)
    requires
        canonical_of(table, short) is Some,
    ensures
        table.contains((canonical_of(table, short)->0, short)),
{
    lemma_canonical_of(table, short);
}

/// Offering an entry of a reversible table to names that are taken from it
/// leaves names that hold the entry, are taken from the table, and are
/// reversible; what is added is that entry.
pub proof fn lemma_added(table: TableView, names: TableView, canonical: Seq<char>, short: Seq<char>)
    requires
        reversible(table),
        reversible(names),
        sub_table(names, table),
        table.contains((canonical, short)),
    ensures
        reversible(added(names, canonical, short)),
        sub_table(added(names, canonical, short), table),
        names.is_prefix_of(added(names, canonical, short)),
        added(names, canonical, short).contains((canonical, short)),
        forall|j: int|
            names.len() <= j < added(names, canonical, short).len() ==> (#[trigger] added(
                names,
                canonical,
                short,
            )[j]) == (canonical, short),
{
    let after = added(names, canonical, short);
    lemma_short_of(names, canonical);
    lemma_canonical_of(names, short);
    lemma_reversible_contains(table, canonical, short);
    assert(after.subrange(0, names.len() as int) =~= names);
    if short_of(names, canonical) is Some {
        lemma_short_contains(names, canonical);
        let e = (canonical, short_of(names, canonical)->0);
        let j = choose|j: int| 0 <= j < names.len() && names[j] == e;
        assert(table.contains(names[j]));
        lemma_reversible_contains(table, canonical, e.1);
    } else if canonical_of(names, short) is Some {
        lemma_canonical_contains(names, short);
        let e = (canonical_of(names, short)->0, short);
        let j = choose|j: int| 0 <= j < names.len() && names[j] == e;
        assert(table.contains(names[j]));
        lemma_reversible_contains(table, e.0, short);
    } else {
        assert(after[after.len() - 1] == (canonical, short));
        assert forall|i: int, j: int| 0 <= i < j < after.len() implies after[i].0 != after[j].0
            && after[i].1 != after[j].1 by {
            assert(after[i] == names[i]);
            if j < names.len() {
                assert(after[j] == names[j]);
            }
        }
        assert forall|j: int| 0 <= j < after.len() implies table.contains(
            #[trigger] after[j],
        ) by {
            if j < names.len() {
                assert(after[j] == names[j]);
            }
        }
    }
}

/// What names hold, names that begin with them hold too.
pub proof fn lemma_names_kept(names: TableView, longer: TableView, e: (Seq<char>, Seq<char>))
    requires
        names.is_prefix_of(longer),
        names.contains(e),
    ensures
        longer.contains(e),
{
    let i = choose|i: int| 0 <= i < names.len() && names[i] == e;
    assert(longer.subrange(0, names.len() as int)[i] == longer[i]);
}

/// Beginning with is transitive.
pub proof fn lemma_names_prefix_trans(a: TableView, b: TableView, c: TableView)
    requires
        a.is_prefix_of(b),
        b.is_prefix_of(c),
    ensures
        a.is_prefix_of(c),
        forall|j: int| 0 <= j < a.len() ==> c[j] == a[j],
        forall|j: int| 0 <= j < b.len() ==> c[j] == b[j],
{
    assert forall|i: int| 0 <= i < b.len() implies c[i] == b[i] by {
        assert(c.subrange(0, b.len() as int)[i] == c[i]);
    }
    assert forall|i: int| 0 <= i < a.len() implies c[i] == a[i] by {
        assert(b.subrange(0, a.len() as int)[i] == b[i]);
    }
    assert(c.subrange(0, a.len() as int) =~= a);
}

/// Meeting the given fields leaves names that are reversible and taken from
/// the table, that begin with the names before, that hold the abbreviation
/// of every field that has one, and whose new entries are keys of the fields.
pub proof fn lemma_names_after_fields(table: TableView, names: TableView, fields: FieldsView)
    requires
        reversible(table),
        reversible(names),
        sub_table(names, table),
    ensures
        reversible(names_after_fields(table, names, fields)),
        sub_table(names_after_fields(table, names, fields), table),
        names.is_prefix_of(names_after_fields(table, names, fields)),
        forall|f: int|
            0 <= f < fields.len() && short_of(table, (#[trigger] fields[f]).0) is Some
                ==> names_after_fields(table, names, fields).contains(
                (fields[f].0, short_of(table, fields[f].0)->0),
            ),
        forall|j: int|
            names.len() <= j < names_after_fields(table, names, fields).len() ==> key_in_fields(
                fields,
                (#[trigger] names_after_fields(table, names, fields)[j]).0,
            ),
    decreases fields.len(),
{
    let after = names_after_fields(table, names, fields);
    if fields.len() == 0 {
        assert(after.subrange(0, names.len() as int) =~= names);
    } else {
        let front = fields.drop_last();
        let before = names_after_fields(table, names, front);
        lemma_names_after_fields(table, names, front);
        let key = fields.last().0;
        assert(fields[fields.len() - 1] == fields.last());
        if short_of(table, key) is Some {
            let s = short_of(table, key)->0;
            lemma_short_contains(table, key);
            lemma_added(table, before, key, s);
        } else {
            assert(after.subrange(0, before.len() as int) =~= before);
        }
        lemma_names_prefix_trans(names, before, after);
        assert forall|f: int|
            0 <= f < fields.len() && short_of(table, (#[trigger] fields[f]).0) is Some implies after.contains(
            (fields[f].0, short_of(table, fields[f].0)->0),
        ) by {
            if f < front.len() {
                assert(front[f] == fields[f]);
                lemma_names_kept(before, after, (fields[f].0, short_of(table, fields[f].0)->0));
            }
        }
        assert forall|j: int| names.len() <= j < after.len() implies key_in_fields(
            fields,
            (#[trigger] after[j]).0,
        ) by {
            if j < before.len() {
                assert(after[j] == before[j]);
                let f = choose|f: int| 0 <= f < front.len() && (#[trigger] front[f]).0 == before[j].0;
                assert(fields[f] == front[f]);
            }
        }
    }
}

/// Meeting the fields of the given rows leaves names that are reversible
/// and taken from the table, that begin with the names before, that hold
/// the abbreviation of every field that has one, and whose new entries are
/// keys of the rows.
pub proof fn lemma_names_after_rows(table: TableView, names: TableView, rows: Seq<DatumView>)
    requires
        reversible(table),
        reversible(names),
        sub_table(names, table),
    ensures
        reversible(names_after_rows(table, names, rows)),
        sub_table(names_after_rows(table, names, rows), table),
        names.is_prefix_of(names_after_rows(table, names, rows)),
        forall|i: int, f: int|
            0 <= i < rows.len() && 0 <= f < fields_of(rows[i]).len() && short_of(
                table,
                (#[trigger] fields_of(rows[i])[f]).0,
            ) is Some ==> names_after_rows(table, names, rows).contains(
                (fields_of(rows[i])[f].0, short_of(table, fields_of(rows[i])[f].0)->0),
            ),
        forall|j: int|
            names.len() <= j < names_after_rows(table, names, rows).len() ==> key_in_rows(
                rows,
                (#[trigger] names_after_rows(table, names, rows)[j]).0,
            ),
    decreases rows.len(),
{
    let after = names_after_rows(table, names, rows);
    if rows.len() == 0 {
        assert(after.subrange(0, names.len() as int) =~= names);
    } else {
        let front = rows.drop_last();
        let before = names_after_rows(table, names, front);
        lemma_names_after_rows(table, names, front);
        lemma_names_after_fields(table, before, fields_of(rows.last()));
        lemma_names_prefix_trans(names, before, after);
        assert(rows[rows.len() - 1] == rows.last());
        assert forall|i: int, f: int|
            0 <= i < rows.len() && 0 <= f < fields_of(rows[i]).len() && short_of(
                table,
                (#[trigger] fields_of(rows[i])[f]).0,
            ) is Some implies after.contains(
            (fields_of(rows[i])[f].0, short_of(table, fields_of(rows[i])[f].0)->0),
        ) by {
            if i < front.len() {
                assert(front[i] == rows[i]);
                lemma_names_kept(
                    before,
                    after,
                    (fields_of(rows[i])[f].0, short_of(table, fields_of(rows[i])[f].0)->0),
                );
            }
        }
        assert forall|j: int| names.len() <= j < after.len() implies key_in_rows(
            rows,
            (#[trigger] after[j]).0,
        ) by {
            if j < before.len() {
                assert(after[j] == before[j]);
                let i = choose|i: int|
                    0 <= i < front.len() && key_in_fields(
                        fields_of(#[trigger] front[i]),
                        before[j].0,
                    );
                assert(rows[i] == front[i]);
            }
        }
    }
}

/// Analysing the groups with the given tags leaves names that are
/// reversible and taken from the table, that hold the abbreviation of every
/// field that has one, and whose entries are keys of the groups.
pub proof fn lemma_names_after_groups(
    table: TableView,
    records: Seq<DatumView>,
    tags: Seq<Seq<char>>,
)
    requires
        reversible(table),
    ensures
        reversible(names_after_groups(table, records, tags, TableView::empty())),
        sub_table(names_after_groups(table, records, tags, TableView::empty()), table),
        forall|g: int, i: int, f: int|
            0 <= g < tags.len() && 0 <= i < group_rows(records, tags[g]).len() && 0 <= f
                < fields_of(group_rows(records, tags[g])[i]).len() && short_of(
                table,
                (#[trigger] fields_of(group_rows(records, tags[g])[i])[f]).0,
            ) is Some ==> names_after_groups(table, records, tags, TableView::empty()).contains(
                (
                    fields_of(group_rows(records, tags[g])[i])[f].0,
                    short_of(table, fields_of(group_rows(records, tags[g])[i])[f].0)->0,
                ),
            ),
        forall|j: int|
            0 <= j < names_after_groups(table, records, tags, TableView::empty()).len()
                ==> key_in_groups(
                records,
                tags,
                (#[trigger] names_after_groups(table, records, tags, TableView::empty())[j]).0,
            ),
    decreases tags.len(),
{
    let after = names_after_groups(table, records, tags, TableView::empty());
    if tags.len() > 0 {
        let front = tags.drop_last();
        let before = names_after_groups(table, records, front, TableView::empty());
        lemma_names_after_groups(table, records, front);
        let rows = group_rows(records, tags.last());
        lemma_names_after_rows(table, before, rows);
        assert(tags[tags.len() - 1] == tags.last());
        assert forall|g: int, i: int, f: int|
            0 <= g < tags.len() && 0 <= i < group_rows(records, tags[g]).len() && 0 <= f
                < fields_of(group_rows(records, tags[g])[i]).len() && short_of(
                table,
                (#[trigger] fields_of(group_rows(records, tags[g])[i])[f]).0,
            ) is Some implies after.contains(
            (
                fields_of(group_rows(records, tags[g])[i])[f].0,
                short_of(table, fields_of(group_rows(records, tags[g])[i])[f].0)->0,
            ),
        ) by {
            if g < front.len() {
                assert(front[g] == tags[g]);
                lemma_names_kept(
                    before,
                    after,
                    (
                        fields_of(group_rows(records, tags[g])[i])[f].0,
                        short_of(table, fields_of(group_rows(records, tags[g])[i])[f].0)->0,
                    ),
                );
            }
        }
        assert forall|j: int| 0 <= j < after.len() implies key_in_groups(
            records,
            tags,
            (#[trigger] after[j]).0,
        ) by {
            if j < before.len() {
                assert(after.subrange(0, before.len() as int)[j] == after[j]);
                let g = choose|g: int|
                    0 <= g < front.len() && key_in_rows(
                        group_rows(records, #[trigger] front[g]),
                        before[j].0,
                    );
                assert(tags[g] == front[g]);
            }
        }
    }
}

/// A value that survives a run: it is not null, and where it is an array or
/// an object, reading its serialized form gives it back.
pub open spec fn value_faithful(v: DatumView) -> bool {
    &&& !(v is Null)
    &&& (v is Array || v is Object) ==> json_parse(text_or_empty(v)) == Some(v)
}

/// A group that survives a run: every value does, the values of one key
/// call for one column type in all rows, and a key with a truth value is a
/// key of every row.
pub open spec fn faithful(rows: Seq<DatumView>) -> bool {
    &&& forall|i: int, f: int|
        0 <= i < rows.len() && 0 <= f < fields_of(rows[i]).len() ==> value_faithful(
            (#[trigger] fields_of(rows[i])[f]).1,
        )
    &&& forall|i: int, f: int, j: int, h: int|
        0 <= i < rows.len() && 0 <= f < fields_of(rows[i]).len() && 0 <= j < rows.len() && 0 <= h
            < fields_of(rows[j]).len() && (#[trigger] fields_of(rows[i])[f]).0 == (
        #[trigger] fields_of(rows[j])[h]).0 ==> field_type_of(fields_of(rows[i])[f].1)
            == field_type_of(fields_of(rows[j])[h].1)
    &&& forall|i: int, f: int|
        0 <= i < rows.len() && 0 <= f < fields_of(rows[i]).len() && (#[trigger] fields_of(
            rows[i],
        )[f]).1 is Bool ==> in_all(rows, fields_of(rows[i])[f].0)
}

/// No key of the rows is the short key that the table gives for a key of
/// the rows.
pub open spec fn keys_apart(table: TableView, rows: Seq<DatumView>) -> bool {
    forall|a: Seq<char>, b: Seq<char>|
        key_in_rows(rows, a) && key_in_rows(rows, b) ==> short_of(table, a) != Some(b)
}

/// The names give back every key of the rows: for a key that the table
/// abbreviates they hold its abbreviation, and a key that it does not
/// abbreviate is no short key in them.
pub open spec fn names_resolve(table: TableView, names: TableView, rows: Seq<DatumView>) -> bool {
    forall|a: Seq<char>|
        #[trigger] key_in_rows(rows, a) ==> match short_of(table, a) {
            Some(s) => canonical_of(names, s) == Some(a),
            None => canonical_of(names, a) is None,
        }
}

/// A cell of the type that its value calls for decodes to that value.
pub proof fn lemma_cell_round_trip(
    v: DatumView,
    urls: Seq<Seq<char>>,
    strings: Seq<Seq<char>>,
)
    requires
        value_faithful(v),
        urls.len() <= u32::MAX,
        strings.len() <= u32::MAX,
        cell_text(TextKind::Url, field_type_of(v), Some(v)) is Some ==> urls.contains(
            cell_text(TextKind::Url, field_type_of(v), Some(v))->0,
        ),
        cell_text(TextKind::Plain, field_type_of(v), Some(v)) is Some ==> strings.contains(
            cell_text(TextKind::Plain, field_type_of(v), Some(v))->0,
        ),
    ensures
        decoded_cell(
            field_type_of(v),
            cell_of(field_type_of(v), Some(v), urls, strings),
            urls,
            strings,
        ) == Some(v),
{
    match cell_text(TextKind::Url, field_type_of(v), Some(v)) {
        Some(t) => {
            lemma_code_in(urls, t);
        },
        None => {},
    }
    match cell_text(TextKind::Plain, field_type_of(v), Some(v)) {
        Some(t) => {
            lemma_code_in(strings, t);
        },
        None => {},
    }
}

/// Under keys that are apart, two keys of the rows that are stored under
/// one name are one key.
pub proof fn lemma_stored_apart(table: TableView, rows: Seq<DatumView>, a: Seq<char>, b: Seq<char>)
    requires
        reversible(table),
        keys_apart(table, rows),
        key_in_rows(rows, a),
        key_in_rows(rows, b),
        abbreviated(table, a) == abbreviated(table, b),
    ensures
        a == b,
{
    if short_of(table, a) is Some && short_of(table, b) is Some {
        lemma_short_contains(table, a);
        lemma_short_contains(table, b);
        lemma_reversible_contains(table, a, short_of(table, a)->0);
        lemma_reversible_contains(table, b, short_of(table, b)->0);
    }
}

/// The column of a key of the rows is decoded under that key.
pub proof fn lemma_decoded_key(
    table: TableView,
    names: TableView,
    rows: Seq<DatumView>,
    key: Seq<char>,
)
    requires
        names_resolve(table, names, rows),
        key_in_rows(rows, key),
    ensures
        decoded_key(swapped(names), abbreviated(table, key)) == key,
{
    lemma_swapped(names, abbreviated(table, key));
}

/// The column of a key of the rows takes from each row the value that the
/// row has for that key.
pub proof fn lemma_value_for(
    table: TableView,
    rows: Seq<DatumView>,
    key: Seq<char>,
    i: int,
)
    requires
        reversible(table),
        keys_apart(table, rows),
        key_in_rows(rows, key),
        0 <= i < rows.len(),
    ensures
        value_for(table, rows[i], abbreviated(table, key)) == lookup(fields_of(rows[i]), key),
{
    let fields = fields_of(rows[i]);
    let name = abbreviated(table, key);
    lemma_lookup(fields, name);
    if short_of(table, key) is Some {
        let s = short_of(table, key)->0;
        lemma_short_contains(table, key);
        lemma_reversible_contains(table, key, s);
        if lookup(fields, s) is Some {
            let f = choose|f: int|
                0 <= f < fields.len() && fields[f] == (s, lookup(fields, s)->0) && forall|j: int|
                    0 <= j < f ==> fields[j].0 != s;
            assert(fields[f].0 == s);
            assert(key_in_fields(fields, s));
            assert(key_in_rows(rows, s));
        }
    } else {
        if lookup(fields, key) is None {
            if canonical_of(table, key) is Some {
                let full = canonical_of(table, key)->0;
                lemma_canonical_contains(table, key);
                lemma_reversible_contains(table, full, key);
                lemma_lookup(fields, full);
                if lookup(fields, full) is Some {
                    let f = choose|f: int|
                        0 <= f < fields.len() && fields[f] == (full, lookup(fields, full)->0)
                            && forall|j: int| 0 <= j < f ==> fields[j].0 != full;
                    assert(fields[f].0 == full);
                    assert(key_in_fields(fields, full));
                    assert(key_in_rows(rows, full));
                }
            }
        }
    }
}

/// A row of a faithful group decodes to a record that gives, for every key,
/// what the row gives.
pub proof fn lemma_row_round_trip(
    table: TableView,
    names: TableView,
    rows: Seq<DatumView>,
    tag: Seq<char>,
    columns: Seq<ColumnView>,
    urls: Seq<Seq<char>>,
    strings: Seq<Seq<char>>,
    i: int,
)
    requires
        reversible(table),
        keys_apart(table, rows),
        names_resolve(table, names, rows),
        faithful(rows),
        encodes(columns, table, layout_of(table, rows), rows, urls, strings),
        holds_texts(TextKind::Url, table, layout_of(table, rows), rows, urls),
        holds_texts(TextKind::Plain, table, layout_of(table, rows), rows, strings),
        urls.len() <= u32::MAX,
        strings.len() <= u32::MAX,
        0 <= i < rows.len(),
        lookup(fields_of(rows[i]), type_field()) is Some,
    ensures
        same_fields(
            decoded_fields(swapped(names), columns, i, urls, strings, start_fields(tag)),
            fields_of(rows[i]),
        ),
{
    let layout = layout_of(table, rows);
    let properties = swapped(names);
    let fields = fields_of(rows[i]);
    let start = start_fields(tag);
    let decoded = decoded_fields(properties, columns, i, urls, strings, start);
    lemma_layout(table, rows);
    // What every column gives to the row: its key is the key of a field of
    // the group, and its value is what the row has for that key.
    assert forall|d: int| 0 <= d < columns.len() implies exists|k: Seq<char>|
        key_in_rows(rows, k) && layout[d].0 == abbreviated(table, k) && given(
            properties,
            #[trigger] columns[d],
            i,
            urls,
            strings,
        ) == (match lookup(fields, k) {
            Some(v) => Some((k, v)),
            None => None::<(Seq<char>, DatumView)>,
        }) by {
        let col = layout[d];
        assert(from_rows(table, rows, col));
        let i2 = choose|i2: int|
            0 <= i2 < rows.len() && from_fields(table, fields_of(#[trigger] rows[i2]), col);
        let origin = fields_of(rows[i2]);
        let f2 = choose|f2: int|
            0 <= f2 < origin.len() && abbreviated(table, (#[trigger] origin[f2]).0) == col.0
                && field_type_of(origin[f2].1) == col.1;
        let k = origin[f2].0;
        assert(key_in_fields(origin, k));
        assert(key_in_rows(rows, k));
        lemma_decoded_key(table, names, rows, k);
        lemma_value_for(table, rows, k, i);
        lemma_lookup(fields, k);
        assert(columns[d].cells[i] == cell_of(
            col.1,
            value_for(table, rows[i], col.0),
            urls,
            strings,
        ));
        match lookup(fields, k) {
            Some(v) => {
                let f = choose|f: int|
                    0 <= f < fields.len() && fields[f] == (k, v) && forall|j: int|
                        0 <= j < f ==> fields[j].0 != k;
                assert(fields_of(rows[i])[f].0 == fields_of(rows[i2])[f2].0);
                assert(field_type_of(v) == col.1);
                assert(value_faithful(fields_of(rows[i])[f].1));
                assert(cell_text(TextKind::Url, col.1, value_for(table, rows[i], col.0)) is Some
                    ==> urls.contains(
                    cell_text(TextKind::Url, col.1, value_for(table, rows[i], col.0))->0,
                ));
                assert(cell_text(TextKind::Plain, col.1, value_for(table, rows[i], col.0)) is Some
                    ==> strings.contains(
                    cell_text(TextKind::Plain, col.1, value_for(table, rows[i], col.0))->0,
                ));
                lemma_cell_round_trip(v, urls, strings);
            },
            None => {
                if col.1 == FieldType::Bool {
                    assert(fields_of(rows[i2])[f2].1 is Bool);
                    assert(in_all(rows, k));
                    assert(crate::columnar::has_key(rows[i], k));
                }
            },
        }
    }
    assert forall|key: Seq<char>| lookup(decoded, key) == lookup(fields, key) by {
        lemma_lookup(fields, key);
        match lookup(fields, key) {
            Some(v) => {
                let f = choose|f: int|
                    0 <= f < fields.len() && fields[f] == (key, v) && forall|j: int|
                        0 <= j < f ==> fields[j].0 != key;
                assert(fields_of(rows[i])[f].0 == key);
                assert(key_in_fields(fields, key));
                assert(key_in_rows(rows, key));
                let name = abbreviated(table, key);
                assert(has_column(layout, abbreviated(table, fields_of(rows[i])[f].0)));
                let c = choose|c: int| 0 <= c < layout.len() && (#[trigger] layout[c]).0 == name;
                let kc = choose|k: Seq<char>|
                    key_in_rows(rows, k) && layout[c].0 == abbreviated(table, k) && given(
                        properties,
                        columns[c],
                        i,
                        urls,
                        strings,
                    ) == (match lookup(fields, k) {
                        Some(v) => Some((k, v)),
                        None => None::<(Seq<char>, DatumView)>,
                    });
                lemma_stored_apart(table, rows, kc, key);
                assert forall|d: int| c < d < columns.len() implies match #[trigger] given(
                    properties,
                    columns[d],
                    i,
                    urls,
                    strings,
                ) {
                    Some(kv) => kv.0 != key,
                    None => true,
                } by {
                    let kd = choose|k: Seq<char>|
                        key_in_rows(rows, k) && layout[d].0 == abbreviated(table, k) && given(
                            properties,
                            columns[d],
                            i,
                            urls,
                            strings,
                        ) == (match lookup(fields, k) {
                            Some(v) => Some((k, v)),
                            None => None::<(Seq<char>, DatumView)>,
                        });
                    if kd == key {
                        assert(layout[d].0 == layout[c].0);
                    }
                }
                lemma_decoded_given(properties, columns, i, urls, strings, start, c, key, v);
            },
            None => {
                assert forall|d: int| 0 <= d < columns.len() implies match #[trigger] given(
                    properties,
                    columns[d],
                    i,
                    urls,
                    strings,
                ) {
                    Some(kv) => kv.0 != key,
                    None => true,
                } by {
                    let kd = choose|k: Seq<char>|
                        key_in_rows(rows, k) && layout[d].0 == abbreviated(table, k) && given(
                            properties,
                            columns[d],
                            i,
                            urls,
                            strings,
                        ) == (match lookup(fields, k) {
                            Some(v) => Some((k, v)),
                            None => None::<(Seq<char>, DatumView)>,
                        });
                }
                lemma_decoded_untouched(properties, columns, i, urls, strings, start, key);
                assert(start.drop_first() =~= FieldsView::empty());
                assert(lookup(start.drop_first(), key) is None);
            },
        }
    }
}

/// A record that has a tag has it among the tags of the input.
pub proof fn lemma_tag_listed(rows: Seq<DatumView>, p: int)
    requires
        0 <= p < rows.len(),
        tag_of(rows[p]) is Some,
    ensures
        tags_of(rows).contains(tag_of(rows[p])->0),
    decreases rows.len(),
{
    let front = rows.drop_last();
    let before = tags_of(front);
    let t = tag_of(rows[p])->0;
    if p < rows.len() - 1 {
        assert(front[p] == rows[p]);
        lemma_tag_listed(front, p);
        match tag_of(rows.last()) {
            Some(u) => {
                crate::dictionary::lemma_interned(before, u);
                crate::dictionary::lemma_prefix_contains(before, tags_of(rows), t);
            },
            None => {},
        }
    } else {
        crate::dictionary::lemma_interned(before, t);
    }
}

/// A record that has a tag is a member of the group of that tag.
pub proof fn lemma_member_listed(rows: Seq<DatumView>, p: int)
    requires
        0 <= p < rows.len(),
        tag_of(rows[p]) is Some,
    ensures
        members_of(rows, tag_of(rows[p])->0).contains(p),
    decreases rows.len(),
{
    let front = rows.drop_last();
    let t = tag_of(rows[p])->0;
    let all = members_of(rows, t);
    if p < rows.len() - 1 {
        assert(front[p] == rows[p]);
        lemma_member_listed(front, p);
        let before = members_of(front, t);
        let k = choose|k: int| 0 <= k < before.len() && before[k] == p;
        assert(all[k] == p);
    } else {
        assert(all[all.len() - 1] == p);
    }
}

/// The members of a group have the tag of the group.
pub proof fn lemma_members_tagged(
    rows: Seq<DatumView>,
    tag: Seq<char>,
    k: int,
)
    requires
        0 <= k < members_of(rows, tag).len(),
    ensures
        0 <= members_of(rows, tag)[k] < rows.len(),
        tag_of(rows[members_of(rows, tag)[k]]) == Some(tag),
    decreases rows.len(),
{
    if rows.len() > 0 {
        let front = rows.drop_last();
        let before = members_of(front, tag);
        if k < before.len() {
            lemma_members_tagged(front, tag, k);
            assert(front[before[k]] == rows[before[k]]);
        }
    }
}

/// How many records the groups before group `g` decode to.
pub open spec fn rows_before(groups: Seq<(Seq<char>, GroupView)>, g: int) -> nat
    decreases g,
{
    if g <= 0 {
        0
    } else {
        rows_before(groups, g - 1) + groups[g - 1].1.count
    }
}

/// `rows_before` looks at the groups before `g` only.
pub proof fn lemma_rows_before_front(groups: Seq<(Seq<char>, GroupView)>, g: int)
    requires
        0 <= g < groups.len(),
    ensures
        rows_before(groups.drop_last(), g) == rows_before(groups, g),
    decreases g,
{
    if g > 0 {
        lemma_rows_before_front(groups, g - 1);
        assert(groups.drop_last()[g - 1] == groups[g - 1]);
    }
}

/// The record of row `i` of group `g` stands in the decoded output behind
/// the records of the groups before.
pub proof fn lemma_decoded_at(
    properties: TableView,
    groups: Seq<(Seq<char>, GroupView)>,
    urls: Seq<Seq<char>>,
    strings: Seq<Seq<char>>,
    g: int,
    i: int,
)
    requires
        0 <= g < groups.len(),
        0 <= i < groups[g].1.count,
    ensures
        decoded_groups(properties, groups, urls, strings).len() == rows_before(
            groups,
            groups.len() as int,
        ),
        rows_before(groups, g) + i < decoded_groups(properties, groups, urls, strings).len(),
        decoded_groups(properties, groups, urls, strings)[rows_before(groups, g) + i]
            == decoded_record(properties, groups[g].0, groups[g].1.columns, i, urls, strings),
    decreases groups.len(),
{
    let front = groups.drop_last();
    lemma_decoded_len(properties, groups, urls, strings);
    lemma_decoded_len(properties, front, urls, strings);
    lemma_rows_before_front(groups, groups.len() - 1);
    if g < groups.len() - 1 {
        assert(front[g] == groups[g]);
        lemma_decoded_at(properties, front, urls, strings, g, i);
        lemma_rows_before_front(groups, g);
    }
}

/// The decoded output has one record for each row of each group.
pub proof fn lemma_decoded_len(
    properties: TableView,
    groups: Seq<(Seq<char>, GroupView)>,
    urls: Seq<Seq<char>>,
    strings: Seq<Seq<char>>,
)
    ensures
        decoded_groups(properties, groups, urls, strings).len() == rows_before(
            groups,
            groups.len() as int,
        ),
    decreases groups.len(),
{
    if groups.len() > 0 {
        lemma_decoded_len(properties, groups.drop_last(), urls, strings);
        lemma_rows_before_front(groups, groups.len() - 1);
    }
}

/// No key of a grouped record is the short key that the table gives for a
/// key of a grouped record.
pub open spec fn keys_reversible(table: TableView, records: Seq<DatumView>) -> bool {
    forall|a: Seq<char>, b: Seq<char>|
        key_in_groups(records, tags_of(records), a) && key_in_groups(
            records,
            tags_of(records),
            b,
        ) ==> short_of(table, a) != Some(b)
}

/// Every group of the input is faithful.
pub open spec fn all_faithful(records: Seq<DatumView>) -> bool {
    forall|g: int|
        0 <= g < tags_of(records).len() ==> faithful(
            group_rows(records, #[trigger] tags_of(records)[g]),
        )
}

/// The records that an artifact decodes to.
pub open spec fn decoded(artifact: &EfficientCompactedData) -> Seq<DatumView> {
    decoded_groups(
        pairs_of(artifact.dictionaries.properties@),
        groups_view(artifact.data.resources@),
        texts_of(artifact.dictionaries.urls@),
        texts_of(artifact.dictionaries.strings@),
    )
}

/// In the artifact of a run that started with an empty field name table,
/// row `i` of a faithful group `g` decodes to a record that gives for every
/// key what the record gave that was encoded, provided the keys of the run
/// are reversible. The decoded record stands behind those of the groups
/// before `g`.
pub proof fn law_row_round_trip(
    artifact: &EfficientCompactedData,
    table: TableView,
    records: Seq<DatumView>,
    urls0: Seq<Seq<char>>,
    strings0: Seq<Seq<char>>,
    original_size: nat,
    g: int,
    i: int,
)
    requires
        reversible(table),
        compacted(artifact, table, records, urls0, strings0, TableView::empty(), original_size),
        artifact.dictionaries.urls.len() <= CodeWidth::Bits16.capacity(),
        artifact.dictionaries.strings.len() <= CodeWidth::Bits16.capacity(),
        keys_reversible(table, records),
        0 <= g < tags_of(records).len(),
        faithful(group_rows(records, tags_of(records)[g])),
        0 <= i < group_rows(records, tags_of(records)[g]).len(),
    ensures
        rows_before(groups_view(artifact.data.resources@), g) + i < decoded(artifact).len(),
        same_fields(
            fields_of(decoded(artifact)[rows_before(groups_view(artifact.data.resources@), g) + i]),
            fields_of(group_rows(records, tags_of(records)[g])[i]),
        ),
{
    let tags = tags_of(records);
    let tag = tags[g];
    let rows = group_rows(records, tag);
    let names = names_after_run(table, records, TableView::empty());
    let urls = texts_of(artifact.dictionaries.urls@);
    let strings = texts_of(artifact.dictionaries.strings@);
    let groups = groups_view(artifact.data.resources@);
    let columns = columns_view(artifact.data.resources[g].1.columns@);
    assert(group_compacted(artifact.data.resources[g], table, rows, tag, urls, strings));
    assert(groups[g].1.columns == columns);
    lemma_decoded_at(pairs_of(artifact.dictionaries.properties@), groups, urls, strings, g, i);
    lemma_names_after_groups(table, records, tags);
    assert forall|a: Seq<char>| key_in_rows(rows, a) implies key_in_groups(records, tags, a) by {}
    assert forall|a: Seq<char>| #[trigger] key_in_rows(rows, a) implies match short_of(table, a) {
        Some(s) => canonical_of(names, s) == Some(a),
        None => canonical_of(names, a) is None,
    } by {
        let i2 = choose|i2: int|
            0 <= i2 < rows.len() && key_in_fields(fields_of(#[trigger] rows[i2]), a);
        let f2 = choose|f2: int|
            0 <= f2 < fields_of(rows[i2]).len() && (#[trigger] fields_of(rows[i2])[f2]).0 == a;
        match short_of(table, a) {
            Some(s) => {
                assert(names.contains(
                    (
                        fields_of(group_rows(records, tags[g])[i2])[f2].0,
                        short_of(table, fields_of(group_rows(records, tags[g])[i2])[f2].0)->0,
                    ),
                ));
                lemma_reversible_contains(names, a, s);
            },
            None => {
                if canonical_of(names, a) is Some {
                    let full = canonical_of(names, a)->0;
                    lemma_canonical_contains(names, a);
                    let j = choose|j: int| 0 <= j < names.len() && names[j] == (full, a);
                    assert(table.contains(names[j]));
                    lemma_reversible_contains(table, full, a);
                    assert(key_in_groups(records, tags, names[j].0));
                }
            },
        }
    }
    let members = members_of(records, tag);
    lemma_members_tagged(records, tag, i);
    assert(rows[i] == records[members[i]]);
    assert(type_id_of(rows[i]) is Some);
    lemma_row_round_trip(table, names, rows, tag, columns, urls, strings, i);
}

/// In the artifact of a run that started with an empty field name table,
/// on an input whose groups are faithful and whose keys are reversible,
/// every record of the input that has a type is found again among the
/// decoded records, with the same value for every key, whatever the order
/// of the rows.
pub proof fn law_round_trip(
    artifact: &EfficientCompactedData,
    table: TableView,
    records: Seq<DatumView>,
    urls0: Seq<Seq<char>>,
    strings0: Seq<Seq<char>>,
    original_size: nat,
    p: int,
)
    requires
        reversible(table),
        compacted(artifact, table, records, urls0, strings0, TableView::empty(), original_size),
        artifact.dictionaries.urls.len() <= CodeWidth::Bits16.capacity(),
        artifact.dictionaries.strings.len() <= CodeWidth::Bits16.capacity(),
        keys_reversible(table, records),
        all_faithful(records),
        0 <= p < records.len(),
        type_id_of(records[p]) is Some,
    ensures
        exists|j: int|
            0 <= j < decoded(artifact).len() && same_fields(
                fields_of(#[trigger] decoded(artifact)[j]),
                fields_of(records[p]),
            ),
{
    let tags = tags_of(records);
    let tag = tag_of(records[p])->0;
    lemma_tag_listed(records, p);
    lemma_member_listed(records, p);
    let g = choose|g: int| 0 <= g < tags.len() && tags[g] == tag;
    let members = members_of(records, tag);
    let i = choose|i: int| 0 <= i < members.len() && members[i] == p;
    let rows = group_rows(records, tags[g]);
    assert(rows[i] == records[p]);
    law_row_round_trip(artifact, table, records, urls0, strings0, original_size, g, i);
    let j = rows_before(groups_view(artifact.data.resources@), g) + i;
    assert(same_fields(fields_of(decoded(artifact)[j]), fields_of(records[p])));
}

/// A field that a record lacks stays missing: under the conditions of the
/// round trip, the record that row `i` of group `g` decodes to has no value
/// for a key for which the original row has none.
pub proof fn law_missing_field_stays_missing(
    artifact: &EfficientCompactedData,
    table: TableView,
    records: Seq<DatumView>,
    urls0: Seq<Seq<char>>,
    strings0: Seq<Seq<char>>,
    original_size: nat,
    g: int,
    i: int,
    key: Seq<char>,
)
    requires
        reversible(table),
        compacted(artifact, table, records, urls0, strings0, TableView::empty(), original_size),
        artifact.dictionaries.urls.len() <= CodeWidth::Bits16.capacity(),
        artifact.dictionaries.strings.len() <= CodeWidth::Bits16.capacity(),
        keys_reversible(table, records),
        0 <= g < tags_of(records).len(),
        faithful(group_rows(records, tags_of(records)[g])),
        0 <= i < group_rows(records, tags_of(records)[g]).len(),
        !has_key(group_rows(records, tags_of(records)[g])[i], key),
    ensures
        rows_before(groups_view(artifact.data.resources@), g) + i < decoded(artifact).len(),
        !has_key(decoded(artifact)[rows_before(groups_view(artifact.data.resources@), g) + i], key),
{
    law_row_round_trip(artifact, table, records, urls0, strings0, original_size, g, i);
}

/// Which keys a selection of keys holds.
pub proof fn lemma_keys_where(rows: Seq<DatumView>, keys: Layout, required: bool, key: Seq<char>)
    ensures
        keys_where(rows, keys, required).contains(key) <==> has_column(keys, key) && in_all(
            rows,
            key,
        ) == required,
    decreases keys.len(),
{
    let chosen = keys_where(rows, keys, required);
    if keys.len() == 0 {
    } else {
        let front = keys.drop_last();
        let before = keys_where(rows, front, required);
        lemma_keys_where(rows, front, required, key);
        if has_column(front, key) {
            let c = choose|c: int| 0 <= c < front.len() && (#[trigger] front[c]).0 == key;
            assert(keys[c] == front[c]);
        }
        if has_column(keys, key) && !has_column(front, key) {
            let c = choose|c: int| 0 <= c < keys.len() && (#[trigger] keys[c]).0 == key;
            if c < front.len() {
                assert(front[c] == keys[c]);
            }
            assert(keys.last().0 == key);
        }
        if keys.last().0 == key {
            assert(keys[keys.len() - 1].0 == key);
        }
        if in_all(rows, keys.last().0) == required {
            assert(chosen == before.push(keys.last().0));
            assert(chosen[chosen.len() - 1] == keys.last().0);
            if before.contains(key) {
                let k = choose|k: int| 0 <= k < before.len() && before[k] == key;
                assert(chosen[k] == key);
            }
            if chosen.contains(key) && key != keys.last().0 {
                let k = choose|k: int| 0 <= k < chosen.len() && chosen[k] == key;
                assert(before[k] == key);
            }
        }
    }
}

/// A field that only some records of a group have is optional: the schema
/// lists a key of the group as required exactly when every record has it,
/// as optional exactly when some record lacks it, and never as both.
pub proof fn law_optional_field(rows: Seq<DatumView>, key: Seq<char>)
    requires
        key_in_rows(rows, key),
    ensures
        schema_of(rows).required.contains(key) <==> in_all(rows, key),
        schema_of(rows).optional.contains(key) <==> !in_all(rows, key),
{
    let table = TableView::empty();
    let types = layout_of(table, rows);
    lemma_layout(table, rows);
    let i = choose|i: int| 0 <= i < rows.len() && key_in_fields(fields_of(#[trigger] rows[i]), key);
    let f = choose|f: int|
        0 <= f < fields_of(rows[i]).len() && (#[trigger] fields_of(rows[i])[f]).0 == key;
    assert(has_column(types, abbreviated(table, fields_of(rows[i])[f].0)));
    lemma_keys_where(rows, types, true, key);
    lemma_keys_where(rows, types, false, key);
}

/// In the artifact of a run, every column of every
/// group has as many cells as the group has rows.
pub proof fn law_rows_aligned(
    artifact: &EfficientCompactedData,
    table: TableView,
    records: Seq<DatumView>,
    urls0: Seq<Seq<char>>,
    strings0: Seq<Seq<char>>,
    names0: TableView,
    original_size: nat,
)
    requires
        compacted(artifact, table, records, urls0, strings0, names0, original_size),
    ensures
        aligned(groups_view(artifact.data.resources@)),
{
    let tags = tags_of(records);
    let urls = crate::columnar::after_run(TextKind::Url, table, records, urls0);
    let strings = crate::columnar::after_run(TextKind::Plain, table, records, strings0);
    let groups = groups_view(artifact.data.resources@);
    assert forall|g: int| 0 <= g < groups.len() implies group_aligned((#[trigger] groups[g]).1) by {
        assert(group_compacted(
            artifact.data.resources[g],
            table,
            group_rows(records, tags[g]),
            tags[g],
            urls,
            strings,
        ));
    }
}

/// A run leaves each dictionary without a text that occurs
/// twice, and with what it held before at its beginning, so that the number
/// of entries that the run added is the number of texts that were new.
pub proof fn law_one_entry_per_text(
    kind: TextKind,
    table: TableView,
    records: Seq<DatumView>,
    entries: Seq<Seq<char>>,
)
    requires
        distinct(entries),
    ensures
        distinct(crate::columnar::after_run(kind, table, records, entries)),
        entries.is_prefix_of(crate::columnar::after_run(kind, table, records, entries)),
{
    lemma_after_groups(kind, table, records, tags_of(records), entries);
}

/// Encoding groups adds at the end of a dictionary, if at all, and keeps it
/// free of repetitions.
pub proof fn lemma_after_groups(
    kind: TextKind,
    table: TableView,
    records: Seq<DatumView>,
    tags: Seq<Seq<char>>,
    entries: Seq<Seq<char>>,
)
    requires
        distinct(entries),
    ensures
        distinct(crate::columnar::after_groups(kind, table, records, tags, entries)),
        entries.is_prefix_of(crate::columnar::after_groups(kind, table, records, tags, entries)),
    decreases tags.len(),
{
    if tags.len() == 0 {
        assert(entries.subrange(0, entries.len() as int) =~= entries);
    } else {
        let before = crate::columnar::after_groups(kind, table, records, tags.drop_last(), entries);
        lemma_after_groups(kind, table, records, tags.drop_last(), entries);
        let rows = group_rows(records, tags.last());
        crate::columnar::lemma_after_rows(kind, table, layout_of(table, rows), rows, before);
        crate::dictionary::lemma_prefix_trans(
            entries,
            before,
            crate::columnar::after_groups(kind, table, records, tags, entries),
        );
    }
}

/// Every code that a cell of a run holds is one that its dictionary has,
/// and every cell is of a kind that the type of its column admits: an
/// artifact that a run leaves can be decoded.
pub proof fn law_artifact_decodes(
    artifact: &EfficientCompactedData,
    table: TableView,
    records: Seq<DatumView>,
    urls0: Seq<Seq<char>>,
    strings0: Seq<Seq<char>>,
    names0: TableView,
    original_size: nat,
)
    requires
        compacted(artifact, table, records, urls0, strings0, names0, original_size),
        artifact.dictionaries.urls.len() <= CodeWidth::Bits16.capacity(),
        artifact.dictionaries.strings.len() <= CodeWidth::Bits16.capacity(),
    ensures
        aligned(groups_view(artifact.data.resources@)),
        typed(groups_view(artifact.data.resources@)),
        resolvable(
            groups_view(artifact.data.resources@),
            artifact.dictionaries.urls.len() as nat,
            artifact.dictionaries.strings.len() as nat,
        ),
{
    law_rows_aligned(artifact, table, records, urls0, strings0, names0, original_size);
    let tags = tags_of(records);
    let urls = texts_of(artifact.dictionaries.urls@);
    let strings = texts_of(artifact.dictionaries.strings@);
    let groups = groups_view(artifact.data.resources@);
    assert forall|g: int| 0 <= g < groups.len() implies group_holds(
        (#[trigger] groups[g]).1,
        false,
        0,
        0,
    ) && group_holds(groups[g].1, true, urls.len(), strings.len()) by {
        let rows = group_rows(records, tags[g]);
        let layout = layout_of(table, rows);
        assert(group_compacted(artifact.data.resources[g], table, rows, tags[g], urls, strings));
        let columns = groups[g].1.columns;
        assert forall|c: int| 0 <= c < columns.len() implies column_holds(
            #[trigger] columns[c],
            false,
            0,
            0,
        ) && column_holds(columns[c], true, urls.len(), strings.len()) by {
            assert forall|i: int| 0 <= i < columns[c].cells.len() implies cell_holds(
                columns[c].field_type,
                #[trigger] columns[c].cells[i],
                false,
                0,
                0,
            ) && cell_holds(
                columns[c].field_type,
                columns[c].cells[i],
                true,
                urls.len(),
                strings.len(),
            ) by {
                let value = value_for(table, rows[i], layout[c].0);
                assert(columns[c].cells[i] == cell_of(layout[c].1, value, urls, strings));
                match value {
                    Some(DatumView::Str(t)) => {
                        lemma_code_in(urls, t);
                        lemma_code_in(strings, t);
                    },
                    _ => {},
                }
                match value {
                    Some(v) => {
                        lemma_code_in(strings, text_or_empty(v));
                    },
                    None => {},
                }
            }
        }
    }
}

} // verus!
