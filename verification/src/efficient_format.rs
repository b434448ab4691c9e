use vstd::prelude::*;
use crate::classify::{tags_of, typed_count};
use crate::columnar::{
    abbreviations_of_groups, after_run, cell_of, columns_view, group_rows, layout_of,
    layout_view, names_after_run, schema_of, value_for, Cell, CellView, Column, ColumnView,
    FieldType, GroupView, Layout, ResourceSchemaView, TextKind,
};
use crate::dictionary::{texts_of, CodeWidth};
use crate::efficient_compactor::{
    compacted, group_compacted, groups_view, subresources_of, CompressionStats,
    EfficientCompactedData, EfficientCompactor, ResourceSchema, TypedResourceGroup,
};
use crate::error::CompactError;
use crate::stats::bumped_by;
use crate::encode::{
    count_datum, count_value, int_datum, int_value, lemma_fields_all, pairs_datum, pairs_value,
    texts_datum, texts_value,
};
use crate::fidelity::{fidelity_name, fidelity_text, FidelityMode};
use crate::fields::{pairs_of, swapped, TableView};
use crate::json::{datum_to_text, text_of};
use crate::stats::saved_ppm;
use crate::text::{byte_len, utf8_len};
use crate::written::{lemma_records_writable, lemma_run_writable};
use crate::value::{
    fields_view, items_view, lemma_items_view_index, lemma_items_view_len, Datum, DatumView,
};

verus! {

/// The content of an [`EfficientCompactedData`].
pub struct ArtifactView {
    pub schemas: Seq<(Seq<char>, ResourceSchemaView)>,
    pub field_types: Layout,
    pub groups: Seq<(Seq<char>, GroupView)>,
    pub urls: Seq<Seq<char>>,
    pub strings: Seq<Seq<char>>,
    pub properties: TableView,
    pub stats: CompressionStats,
    pub fidelity: FidelityMode,
}

/// The contents of a list of tagged schemas, in order.
pub open spec fn schemas_view(schemas: Seq<(String, ResourceSchema)>) -> Seq<
    (Seq<char>, ResourceSchemaView),
> {
    Seq::new(schemas.len(), |g: int| (schemas[g].0@, schemas[g].1@))
}

impl View for EfficientCompactedData {
    type V = ArtifactView;

    open spec fn view(&self) -> ArtifactView {
        ArtifactView {
            schemas: schemas_view(self.schema.resource_types@),
            field_types: layout_view(self.schema.field_types@),
            groups: groups_view(self.data.resources@),
            urls: texts_of(self.dictionaries.urls@),
            strings: texts_of(self.dictionaries.strings@),
            properties: pairs_of(self.dictionaries.properties@),
            stats: self.stats,
            fidelity: self.fidelity,
        }
    }
}

/// The name of a column type.
pub open spec fn kind_name(ty: FieldType) -> Seq<char> {
    match ty {
        FieldType::Str => "str"@,
        FieldType::Int => "int"@,
        FieldType::Float => "float"@,
        FieldType::Bool => "bool"@,
        FieldType::Url => "url"@,
        FieldType::Json => "json"@,
    }
}

/// A cell as a value: null, its literal, or its code as a number.
pub open spec fn cell_value(cell: CellView) -> DatumView {
    match cell {
        CellView::Null => DatumView::Null,
        CellView::Int(i) => DatumView::Int(i),
        CellView::Float(t) => DatumView::Float(t),
        CellView::Bool(b) => DatumView::Bool(b),
        CellView::Code(c) => DatumView::Int(c as i64),
    }
}

/// A column as a value: its type and the array of its cells.
pub open spec fn column_value(column: ColumnView) -> DatumView {
    DatumView::Object(
        seq![
            ("type"@, DatumView::Str(kind_name(column.field_type))),
            (
                "cells"@,
                DatumView::Array(
                    Seq::new(column.cells.len(), |i: int| cell_value(column.cells[i])),
                ),
            ),
        ],
    )
}

/// A group as a value: the number of its rows, and its columns by name.
pub open spec fn group_value(group: GroupView) -> DatumView {
    DatumView::Object(
        seq![
            ("count"@, count_value(group.count)),
            (
                "columns"@,
                DatumView::Object(
                    Seq::new(
                        group.columns.len(),
                        |c: int| (group.columns[c].name, column_value(group.columns[c])),
                    ),
                ),
            ),
        ],
    )
}

/// Types by key as a value: an object that holds for each key the name of
/// its type.
pub open spec fn layout_value(types: Layout) -> DatumView {
    DatumView::Object(
        Seq::new(types.len(), |i: int| (types[i].0, DatumView::Str(kind_name(types[i].1)))),
    )
}

/// The schema of a group as a value.
pub open spec fn schema_value(schema: ResourceSchemaView) -> DatumView {
    DatumView::Object(
        seq![
            ("required"@, texts_value(schema.required)),
            ("optional"@, texts_value(schema.optional)),
            ("types"@, layout_value(schema.types)),
        ],
    )
}

/// The stats as a value. The ratio is given in millionths.
pub open spec fn stats_value(stats: CompressionStats) -> DatumView {
    DatumView::Object(
        seq![
            ("original_size"@, count_value(stats.original_size as nat)),
            ("compacted_size"@, count_value(stats.compacted_size as nat)),
            (
                "compression_ratio_ppm"@,
                int_value(saved_ppm(stats.original_size as nat, stats.compacted_size as nat)),
            ),
            ("urls_deduplicated"@, DatumView::Int(stats.urls_deduplicated as i64)),
            ("strings_deduplicated"@, DatumView::Int(stats.strings_deduplicated as i64)),
            ("properties_abbreviated"@, DatumView::Int(stats.properties_abbreviated as i64)),
            ("resources_processed"@, DatumView::Int(stats.resources_processed as i64)),
        ],
    )
}

/// The artifact as one value: the form in which it is written out. It
/// holds the schema, the groups by type tag, the dictionaries, the field
/// name table, the stats and the fidelity mode.
pub open spec fn artifact_value(artifact: ArtifactView) -> DatumView {
    DatumView::Object(
        seq![
            (
                "schema"@,
                DatumView::Object(
                    seq![
                        (
                            "resource_types"@,
                            DatumView::Object(
                                Seq::new(
                                    artifact.schemas.len(),
                                    |g: int|
                                        (artifact.schemas[g].0, schema_value(artifact.schemas[g].1)),
                                ),
                            ),
                        ),
                        ("field_types"@, layout_value(artifact.field_types)),
                    ],
                ),
            ),
            (
                "data"@,
                DatumView::Object(
                    Seq::new(
                        artifact.groups.len(),
                        |g: int| (artifact.groups[g].0, group_value(artifact.groups[g].1)),
                    ),
                ),
            ),
            (
                "dictionaries"@,
                DatumView::Object(
                    seq![
                        ("urls"@, texts_value(artifact.urls)),
                        ("strings"@, texts_value(artifact.strings)),
                    ],
                ),
            ),
            ("field_name_table"@, pairs_value(artifact.properties)),
            ("stats"@, stats_value(artifact.stats)),
            ("fidelity"@, DatumView::Str(fidelity_name(artifact.fidelity))),
        ],
    )
}

/// The columns of a group: one for each column of its layout, and in it
/// the cell of each row.
pub open spec fn columns_of(
    table: TableView,
    rows: Seq<DatumView>,
    urls: Seq<Seq<char>>,
    strings: Seq<Seq<char>>,
) -> Seq<ColumnView> {
    Seq::new(
        layout_of(table, rows).len(),
        |c: int|
            ColumnView {
                name: layout_of(table, rows)[c].0,
                field_type: layout_of(table, rows)[c].1,
                cells: Seq::new(
                    rows.len(),
                    |i: int|
                        cell_of(
                            layout_of(table, rows)[c].1,
                            value_for(table, rows[i], layout_of(table, rows)[c].0),
                            urls,
                            strings,
                        ),
                ),
            },
    )
}

/// The artifact of a run that started with the table `table`, with
/// dictionaries that held `urls0` and `strings0` and with the field name
/// table `names0`, on an input of the given serialized size with the
/// records `records`, once its own serialized size was found to be
/// `compacted_size`.
pub open spec fn run_artifact(
    table: TableView,
    records: Seq<DatumView>,
    urls0: Seq<Seq<char>>,
    strings0: Seq<Seq<char>>,
    names0: TableView,
    original_size: nat,
    compacted_size: nat,
) -> ArtifactView {
    let tags = tags_of(records);
    let urls = after_run(TextKind::Url, table, records, urls0);
    let strings = after_run(TextKind::Plain, table, records, strings0);
    ArtifactView {
        schemas: Seq::new(tags.len(), |g: int| (tags[g], schema_of(group_rows(records, tags[g])))),
        field_types: Seq::empty(),
        groups: Seq::new(
            tags.len(),
            |g: int|
                (
                    tags[g],
                    GroupView {
                        count: group_rows(records, tags[g]).len(),
                        columns: columns_of(table, group_rows(records, tags[g]), urls, strings),
                    },
                ),
        ),
        urls,
        strings,
        properties: swapped(names_after_run(table, records, names0)),
        stats: CompressionStats {
            original_size: original_size as usize,
            compacted_size: compacted_size as usize,
            urls_deduplicated: bumped_by(0, (urls.len() - urls0.len()) as nat),
            strings_deduplicated: bumped_by(0, (strings.len() - strings0.len()) as nat),
            properties_abbreviated: bumped_by(0, abbreviations_of_groups(table, records, tags)),
            resources_processed: bumped_by(0, typed_count(records)),
        },
        fidelity: FidelityMode::Columnar,
    }
}

/// An artifact that a run leaves is the artifact of that run.
pub proof fn lemma_run_artifact(
    artifact: &EfficientCompactedData,
    table: TableView,
    records: Seq<DatumView>,
    urls0: Seq<Seq<char>>,
    strings0: Seq<Seq<char>>,
    names0: TableView,
    original_size: nat,
)
    requires
        compacted(artifact, table, records, urls0, strings0, names0, original_size),
    ensures
        artifact@ == run_artifact(
            table,
            records,
            urls0,
            strings0,
            names0,
            original_size,
            artifact.stats.compacted_size as nat,
        ),
{
    let tags = tags_of(records);
    let urls = after_run(TextKind::Url, table, records, urls0);
    let strings = after_run(TextKind::Plain, table, records, strings0);
    let wanted = run_artifact(
        table,
        records,
        urls0,
        strings0,
        names0,
        original_size,
        artifact.stats.compacted_size as nat,
    );
    assert(artifact@.field_types =~= wanted.field_types);
    assert(artifact@.schemas =~= wanted.schemas);
    assert forall|g: int| 0 <= g < tags.len() implies artifact@.groups[g] == wanted.groups[g] by {
        let rows = group_rows(records, tags[g]);
        assert(group_compacted(artifact.data.resources[g], table, rows, tags[g], urls, strings));
        let columns = columns_view(artifact.data.resources[g].1.columns@);
        let layout = layout_of(table, rows);
        assert forall|c: int| 0 <= c < columns.len() implies columns[c] == columns_of(
            table,
            rows,
            urls,
            strings,
        )[c] by {
            assert(columns[c].cells =~= columns_of(table, rows, urls, strings)[c].cells);
        }
        assert(columns =~= columns_of(table, rows, urls, strings));
    }
    assert(artifact@.groups =~= wanted.groups);
}

impl EfficientCompactor {
    /// Compacts the records of `data` into an artifact.
    ///
    /// The records are the items of the array in the field `subresources`.
    /// A record without a type is left out. The artifact is what
    /// [`run_artifact`] describes, with the size of its own serialized form,
    /// taken while the compacted size in it was still 0, as the compacted
    /// size.
    ///
    /// The run succeeds exactly when the input has a serialized form and the
    /// dictionaries have codes enough. It fails with `Serialization` exactly
    /// when the input has no serialized form, and else with
    /// `DictionaryExhausted` exactly when one of the dictionaries would come
    /// to hold more texts than it has codes. The artifact of an input that
    /// has a serialized form has one too.
    pub fn compact_comprehensive_data(&mut self, data: &Datum) -> (r: Result<
        EfficientCompactedData,
        CompactError,
    >)
        requires
            old(self).wf(),
        ensures
            final(self).wf(),
            final(self).abbreviations() == old(self).abbreviations(),
            old(self).url_dictionary()@.is_prefix_of(final(self).url_dictionary()@),
            old(self).string_dictionary()@.is_prefix_of(final(self).string_dictionary()@),
            r is Ok <==> text_of(data@) is Some && fits(old(self), data@),
            match r {
                Ok(artifact) => {
                    &&& text_of(artifact_value(unmeasured(old(self), data@))) is Some
                    &&& artifact@ == run_artifact(
                        old(self).abbreviations(),
                        subresources_of(data@),
                        old(self).url_dictionary()@,
                        old(self).string_dictionary()@,
                        old(self).field_names(),
                        utf8_len(text_of(data@)->0),
                        utf8_len(text_of(artifact_value(unmeasured(old(self), data@)))->0),
                    )
                    &&& compacted(
                        &artifact,
                        old(self).abbreviations(),
                        subresources_of(data@),
                        old(self).url_dictionary()@,
                        old(self).string_dictionary()@,
                        old(self).field_names(),
                        utf8_len(text_of(data@)->0),
                    )
                    &&& final(self).url_dictionary()@ == artifact@.urls
                    &&& final(self).string_dictionary()@ == artifact@.strings
                    &&& final(self).field_names() == names_after_run(
                        old(self).abbreviations(),
                        subresources_of(data@),
                        old(self).field_names(),
                    )
                },
                Err(CompactError::Serialization) => text_of(data@) is None,
                Err(CompactError::DictionaryExhausted) => text_of(data@) is Some && !fits(
                    old(self),
                    data@,
                ),
            },
    {
        let ghost table = self.abbreviations();
        let ghost urls0 = self.url_dictionary()@;
        let ghost strings0 = self.string_dictionary()@;
        let ghost names0 = self.field_names();
        let artifact = match self.compact_unmeasured(data) {
            Ok(a) => a,
            Err(e) => {
                return Err(e);
            },
        };
        proof {
            lemma_run_artifact(
                &artifact,
                table,
                subresources_of(data@),
                urls0,
                strings0,
                names0,
                utf8_len(text_of(data@)->0),
            );
            lemma_records_writable(data@);
            lemma_run_writable(
                table,
                subresources_of(data@),
                urls0,
                strings0,
                names0,
                utf8_len(text_of(data@)->0),
                0,
            );
        }
        let n = artifact.serialized_size().unwrap();
        let measured = artifact.with_compacted_size(n);
        proof {
            lemma_run_artifact(
                &measured,
                table,
                subresources_of(data@),
                urls0,
                strings0,
                names0,
                utf8_len(text_of(data@)->0),
            );
        }
        Ok(measured)
    }
}

/// Both dictionaries have codes enough for a run of `compactor` on `data`.
pub open spec fn fits(compactor: &EfficientCompactor, data: DatumView) -> bool {
    &&& after_run(
        TextKind::Url,
        compactor.abbreviations(),
        subresources_of(data),
        compactor.url_dictionary()@,
    ).len() <= CodeWidth::Bits16.capacity()
    &&& after_run(
        TextKind::Plain,
        compactor.abbreviations(),
        subresources_of(data),
        compactor.string_dictionary()@,
    ).len() <= CodeWidth::Bits16.capacity()
}

/// The artifact of a run of `compactor` on `data` before its size is
/// measured: the compacted size in it is 0.
pub open spec fn unmeasured(compactor: &EfficientCompactor, data: DatumView) -> ArtifactView {
    run_artifact(
        compactor.abbreviations(),
        subresources_of(data),
        compactor.url_dictionary()@,
        compactor.string_dictionary()@,
        compactor.field_names(),
        utf8_len(text_of(data)->0),
        0,
    )
}

/// The name of a column type.
pub fn kind_text(ty: FieldType) -> (r: String)
    ensures
        r@ == kind_name(ty),
{
    match ty {
        FieldType::Str => "str".to_owned(),
        FieldType::Int => "int".to_owned(),
        FieldType::Float => "float".to_owned(),
        FieldType::Bool => "bool".to_owned(),
        FieldType::Url => "url".to_owned(),
        FieldType::Json => "json".to_owned(),
    }
}

/// Computes [`cell_value`].
fn cell_datum(cell: &Cell) -> (r: Datum)
    ensures
        r@ == cell_value(cell@),
{
    match cell {
        Cell::Null => Datum::Null,
        Cell::Int(i) => Datum::Int(*i),
        Cell::Float(t) => Datum::Float(t.clone()),
        Cell::Bool(b) => Datum::Bool(*b),
        Cell::Code(c) => Datum::Int(*c as i64),
    }
}

/// Computes [`column_value`].
fn column_datum(column: &Column) -> (r: Datum)
    ensures
        r@ == column_value(column@),
{
    let mut cells: Vec<Datum> = Vec::new();
    let mut i: usize = 0;
    while i < column.cells.len()
        invariant
            i <= column.cells.len(),
            cells.len() == i,
            forall|k: int| 0 <= k < i ==> (#[trigger] cells[k])@ == cell_value(column.cells[k]@),
        decreases column.cells.len() - i,
    {
        cells.push(cell_datum(&column.cells[i]));
        i += 1;
    }
    proof {
        lemma_items_view_len(cells@);
        assert forall|k: int| 0 <= k < cells.len() implies items_view(cells@)[k] == cell_value(
            column@.cells[k],
        ) by {
            lemma_items_view_index(cells@, k);
        }
        assert(items_view(cells@) =~= Seq::new(
            column@.cells.len(),
            |i: int| cell_value(column@.cells[i]),
        ));
    }
    let mut fields: Vec<(String, Datum)> = Vec::new();
    fields.push(("type".to_owned(), Datum::Str(kind_text(column.field_type))));
    fields.push(("cells".to_owned(), Datum::Array(cells)));
    proof {
        lemma_fields_all(fields@);
        assert(fields_view(fields@) =~= seq![
            ("type"@, DatumView::Str(kind_name(column@.field_type))),
            (
                "cells"@,
                DatumView::Array(
                    Seq::new(column@.cells.len(), |i: int| cell_value(column@.cells[i])),
                ),
            ),
        ]);
    }
    Datum::Object(fields)
}

/// Computes [`group_value`].
fn group_datum(group: &TypedResourceGroup) -> (r: Datum)
    ensures
        r@ == group_value(group@),
{
    let mut columns: Vec<(String, Datum)> = Vec::new();
    let mut c: usize = 0;
    while c < group.columns.len()
        invariant
            c <= group.columns.len(),
            columns.len() == c,
            forall|k: int|
                0 <= k < c ==> (#[trigger] columns[k]).0@ == group.columns[k].name@
                    && columns[k].1@ == column_value(group.columns[k]@),
        decreases group.columns.len() - c,
    {
        columns.push((group.columns[c].name.clone(), column_datum(&group.columns[c])));
        c += 1;
    }
    proof {
        lemma_fields_all(columns@);
        assert(fields_view(columns@) =~= Seq::new(
            group@.columns.len(),
            |c: int| (group@.columns[c].name, column_value(group@.columns[c])),
        ));
    }
    let mut fields: Vec<(String, Datum)> = Vec::new();
    fields.push(("count".to_owned(), count_datum(group.count)));
    fields.push(("columns".to_owned(), Datum::Object(columns)));
    proof {
        lemma_fields_all(fields@);
        assert(fields_view(fields@) =~= seq![
            ("count"@, count_value(group@.count)),
            (
                "columns"@,
                DatumView::Object(
                    Seq::new(
                        group@.columns.len(),
                        |c: int| (group@.columns[c].name, column_value(group@.columns[c])),
                    ),
                ),
            ),
        ]);
    }
    Datum::Object(fields)
}

/// Computes [`layout_value`].
fn layout_datum(types: &Vec<(String, FieldType)>) -> (r: Datum)
    ensures
        r@ == layout_value(layout_view(types@)),
{
    let mut out: Vec<(String, Datum)> = Vec::new();
    let mut i: usize = 0;
    while i < types.len()
        invariant
            i <= types.len(),
            out.len() == i,
            forall|k: int|
                0 <= k < i ==> (#[trigger] out[k]).0@ == types[k].0@ && out[k].1@
                    == DatumView::Str(kind_name(types[k].1)),
        decreases types.len() - i,
    {
        out.push((types[i].0.clone(), Datum::Str(kind_text(types[i].1))));
        i += 1;
    }
    proof {
        lemma_fields_all(out@);
        assert(fields_view(out@) =~= Seq::new(
            layout_view(types@).len(),
            |i: int|
                (layout_view(types@)[i].0, DatumView::Str(kind_name(layout_view(types@)[i].1))),
        ));
    }
    Datum::Object(out)
}

/// Computes [`schema_value`].
fn schema_datum(schema: &ResourceSchema) -> (r: Datum)
    ensures
        r@ == schema_value(schema@),
{
    let mut fields: Vec<(String, Datum)> = Vec::new();
    fields.push(("required".to_owned(), texts_datum(&schema.required)));
    fields.push(("optional".to_owned(), texts_datum(&schema.optional)));
    fields.push(("types".to_owned(), layout_datum(&schema.types)));
    proof {
        lemma_fields_all(fields@);
        assert(fields_view(fields@) =~= seq![
            ("required"@, texts_value(schema@.required)),
            ("optional"@, texts_value(schema@.optional)),
            ("types"@, layout_value(schema@.types)),
        ]);
    }
    Datum::Object(fields)
}

/// Computes [`stats_value`].
fn stats_datum(stats: &CompressionStats) -> (r: Datum)
    ensures
        r@ == stats_value(*stats),
{
    let mut fields: Vec<(String, Datum)> = Vec::new();
    fields.push(("original_size".to_owned(), count_datum(stats.original_size)));
    fields.push(("compacted_size".to_owned(), count_datum(stats.compacted_size)));
    fields.push(("compression_ratio_ppm".to_owned(), int_datum(stats.compression_ratio_ppm())));
    fields.push(("urls_deduplicated".to_owned(), Datum::Int(stats.urls_deduplicated as i64)));
    fields.push(("strings_deduplicated".to_owned(), Datum::Int(stats.strings_deduplicated as i64)));
    fields.push(
        ("properties_abbreviated".to_owned(), Datum::Int(stats.properties_abbreviated as i64)),
    );
    fields.push(("resources_processed".to_owned(), Datum::Int(stats.resources_processed as i64)));
    proof {
        lemma_fields_all(fields@);
        assert(fields_view(fields@) =~= stats_value(*stats)->Object_0);
    }
    Datum::Object(fields)
}

impl EfficientCompactedData {
    /// The artifact as one value: the form in which it is written out.
    pub fn to_datum(&self) -> (r: Datum)
        ensures
            r@ == artifact_value(self@),
    {
        let mut schemas: Vec<(String, Datum)> = Vec::new();
        let mut g: usize = 0;
        while g < self.schema.resource_types.len()
            invariant
                g <= self.schema.resource_types.len(),
                schemas.len() == g,
                forall|k: int|
                    0 <= k < g ==> (#[trigger] schemas[k]).0@ == self.schema.resource_types[k].0@
                        && schemas[k].1@ == schema_value(self.schema.resource_types[k].1@),
            decreases self.schema.resource_types.len() - g,
        {
            schemas.push(
                (
                    self.schema.resource_types[g].0.clone(),
                    schema_datum(&self.schema.resource_types[g].1),
                ),
            );
            g += 1;
        }
        proof {
            lemma_fields_all(schemas@);
            assert(fields_view(schemas@) =~= Seq::new(
                self@.schemas.len(),
                |g: int| (self@.schemas[g].0, schema_value(self@.schemas[g].1)),
            ));
        }
        let mut schema: Vec<(String, Datum)> = Vec::new();
        schema.push(("resource_types".to_owned(), Datum::Object(schemas)));
        schema.push(("field_types".to_owned(), layout_datum(&self.schema.field_types)));
        let mut groups: Vec<(String, Datum)> = Vec::new();
        let mut h: usize = 0;
        while h < self.data.resources.len()
            invariant
                h <= self.data.resources.len(),
                groups.len() == h,
                forall|k: int|
                    0 <= k < h ==> (#[trigger] groups[k]).0@ == self.data.resources[k].0@
                        && groups[k].1@ == group_value(self.data.resources[k].1@),
            decreases self.data.resources.len() - h,
        {
            groups.push((self.data.resources[h].0.clone(), group_datum(&self.data.resources[h].1)));
            h += 1;
        }
        proof {
            lemma_fields_all(groups@);
            assert(fields_view(groups@) =~= Seq::new(
                self@.groups.len(),
                |g: int| (self@.groups[g].0, group_value(self@.groups[g].1)),
            ));
        }
        let mut dictionaries: Vec<(String, Datum)> = Vec::new();
        dictionaries.push(("urls".to_owned(), texts_datum(&self.dictionaries.urls)));
        dictionaries.push(("strings".to_owned(), texts_datum(&self.dictionaries.strings)));
        let mut top: Vec<(String, Datum)> = Vec::new();
        proof {
            lemma_fields_all(schema@);
            lemma_fields_all(dictionaries@);
            assert(fields_view(schema@) =~= artifact_value(self@)->Object_0[0].1->Object_0);
            assert(fields_view(dictionaries@) =~= artifact_value(self@)->Object_0[2].1->Object_0);
        }
        top.push(("schema".to_owned(), Datum::Object(schema)));
        top.push(("data".to_owned(), Datum::Object(groups)));
        top.push(("dictionaries".to_owned(), Datum::Object(dictionaries)));
        top.push(("field_name_table".to_owned(), pairs_datum(&self.dictionaries.properties)));
        top.push(("stats".to_owned(), stats_datum(&self.stats)));
        top.push(("fidelity".to_owned(), Datum::Str(fidelity_text(self.fidelity))));
        proof {
            lemma_fields_all(top@);
            assert(fields_view(top@) =~= artifact_value(self@)->Object_0);
        }
        Datum::Object(top)
    }

    /// The size in bytes of the form in which the artifact is written out;
    /// `None` where it has none, because the text of some number in it is
    /// not a number.
    pub fn serialized_size(&self) -> (r: Option<usize>)
        ensures
            match r {
                Some(n) => text_of(artifact_value(self@)) is Some && n == utf8_len(
                    text_of(artifact_value(self@))->0,
                ),
                None => text_of(artifact_value(self@)) is None,
            },
    {
        match datum_to_text(&self.to_datum()) {
            Some(text) => Some(byte_len(text.as_str())),
            None => None,
        }
    }
}

} // verus!
