use vstd::prelude::*;
use crate::classify::{
    borrow_rows, classify, expand_tag, extract_tag, grouped, positions, tags_of, type_tag, typed_count, };
use crate::columnar::{
    abbreviations_in, abbreviations_of, after_cell, after_group, after_row, after_rows, cell_of,
    code_cell, columns_view, encodes, field_type_of, has_column, layout_of, layout_view,
    abbreviations_of_groups, after_groups, after_run, aligned, cell_holds, cell_resolves,
    cell_typed, column_holds, decoded_cell, decoded_fields, decoded_group, decoded_groups,
    group_aligned, group_holds, group_rows, lemma_position_grows, position_of, resolvable,
    start_fields, typed, upserted, wrapped, has_key, holds_texts, in_all,
    keys_where, lemma_after_cell, lemma_after_groups_prefix, lemma_after_row_len, lemma_after_rows,
    lemma_after_rows_len, lemma_encodes_stable, lemma_holds_after_rows, lemma_holds_grows,
    lemma_members_in_range, named, names_after_fields, names_after_groups, names_after_rows,
    names_after_run, noted, option_view, schema_of, text_or_empty, value_for,
    value_in, Cell, Column, ColumnView, FieldType, GroupView, Layout, ResourceSchemaView,
    TextKind,
};
use crate::json::{datum_from_text, datum_to_text, text_of};
use crate::dictionary::{
    clone_strings, interned, lemma_prefix_trans, texts_of, CodeWidth, ValueDictionary,
};
use crate::error::{CompactError, DecodeError};
use crate::fidelity::FidelityMode;
use crate::fields::{
    abbreviated, lemma_canonical_of, pairs_of, second_for, short_of, slices_of, swapped,
    table_from, table_of,
    FieldAbbreviator, TableView,
};
use crate::stats::{bump, bump_by, bumped_by, compression_ratio_ppm, saved_ppm};
use crate::text::{same_text, text_starts_with, utf8_len};
use crate::value::{
    fields_of, fields_view, find_field, group_datum_view, items_view, lemma_fields_view_index,
    lemma_fields_view_len, lookup, rows_view, Datum, DatumView,
    FieldsView,
};

verus! {

/// Compacts records into typed columns, with dictionaries of 16-bit codes
/// for their texts and a table that abbreviates their keys reversibly.
pub struct EfficientCompactor {
    url_dict: ValueDictionary,
    string_dict: ValueDictionary,
    property_abbrevs: FieldAbbreviator,
    field_names: FieldAbbreviator,
}

/// The artifact of a compaction run. It holds all that decoding needs.
#[derive(Debug, PartialEq, Eq)]
pub struct EfficientCompactedData {
    pub schema: CompactionSchema,
    pub data: ColumnarData,
    pub dictionaries: Dictionaries,
    pub stats: CompressionStats,
    /// Always `Columnar`: every key is given back.
    pub fidelity: FidelityMode,
}

/// The schemas of the groups, by type tag.
#[derive(Debug, PartialEq, Eq)]
pub struct CompactionSchema {
    pub resource_types: Vec<(String, ResourceSchema)>,
    pub field_types: Vec<(String, FieldType)>,
}

/// The schema of one group, over the canonical keys of its records.
#[derive(Debug, PartialEq, Eq)]
pub struct ResourceSchema {
    /// Keys that every record of the group has.
    pub required: Vec<String>,
    /// Keys that some record of the group lacks.
    pub optional: Vec<String>,
    /// The type of each key.
    pub types: Vec<(String, FieldType)>,
}

/// The groups of an artifact, by type tag.
#[derive(Debug, PartialEq, Eq)]
pub struct ColumnarData {
    pub resources: Vec<(String, TypedResourceGroup)>,
}

/// The records of one type, stored column by column.
#[derive(Debug, PartialEq, Eq)]
pub struct TypedResourceGroup {
    /// The number of rows.
    pub count: usize,
    pub columns: Vec<Column>,
}

/// The lookup tables of an artifact.
#[derive(Debug, PartialEq, Eq)]
pub struct Dictionaries {
    /// The text with code `k` stands at position `k - 1`.
    pub urls: Vec<String>,
    /// The text with code `k` stands at position `k - 1`.
    pub strings: Vec<String>,
    /// Pairs of a short key and the canonical key it stands for.
    pub properties: Vec<(String, String)>,
}

/// The counters and sizes of a compaction run.
#[derive(Clone, Copy, Debug, PartialEq, Eq, Structural)]
pub struct CompressionStats {
    pub original_size: usize,
    pub compacted_size: usize,
    pub urls_deduplicated: u32,
    pub strings_deduplicated: u32,
    pub properties_abbreviated: u32,
    pub resources_processed: u32,
}

impl CompressionStats {
    /// Stats of a run that has done nothing yet, on an input of the given
    /// serialized size.
    pub fn new(original_size: usize) -> (s: Self)
        ensures
            s == (CompressionStats {
                original_size,
                compacted_size: 0,
                urls_deduplicated: 0,
                strings_deduplicated: 0,
                properties_abbreviated: 0,
                resources_processed: 0,
            }),
    {
        CompressionStats {
            original_size,
            compacted_size: 0,
            urls_deduplicated: 0,
            strings_deduplicated: 0,
            properties_abbreviated: 0,
            resources_processed: 0,
        }
    }

    /// The share of the original size that was saved, in millionths. It is
    /// not positive where the compacted form is no smaller than the original.
    pub fn compression_ratio_ppm(&self) -> (r: i128)
        ensures
            r == saved_ppm(self.original_size as nat, self.compacted_size as nat),
            self.compacted_size >= self.original_size ==> r <= 0,
    {
        compression_ratio_ppm(self.original_size, self.compacted_size)
    }
}

impl View for TypedResourceGroup {
    type V = GroupView;

    open spec fn view(&self) -> GroupView {
        GroupView { count: self.count as nat, columns: columns_view(self.columns@) }
    }
}

/// The contents of a list of tagged groups, in order.
pub open spec fn groups_view(groups: Seq<(String, TypedResourceGroup)>) -> Seq<
    (Seq<char>, GroupView),
> {
    Seq::new(groups.len(), |g: int| (groups[g].0@, groups[g].1@))
}

impl View for ResourceSchema {
    type V = ResourceSchemaView;

    open spec fn view(&self) -> ResourceSchemaView {
        ResourceSchemaView {
            required: texts_of(self.required@),
            optional: texts_of(self.optional@),
            types: layout_view(self.types@),
        }
    }
}

/// The records of an input: the items of the array in its field
/// `subresources`; none where there is no such array.
pub open spec fn subresources_of(data: DatumView) -> Seq<DatumView> {
    match lookup(fields_of(data), "subresources"@) {
        Some(DatumView::Array(items)) => items,
        _ => Seq::empty(),
    }
}

/// `artifact` is what a run leaves that started with the table `table`,
/// with dictionaries that held `urls0` and `strings0` and with the field
/// name table `names0`, on an input of the given serialized size with the
/// records `records`.
///
/// There is one group for each type tag, in the order in which the tags
/// first occur. Each group has the rows of its records in the order of the
/// input, in columns that all have the length of the group, and each has its
/// schema. The dictionaries are those that the run left, and hold the text
/// of every cell. The properties are the abbreviations that the run used,
/// each as the short key and the canonical key it stands for. Of the
/// compacted size nothing is said.
pub open spec fn compacted(
    artifact: &EfficientCompactedData,
    table: TableView,
    records: Seq<DatumView>,
    urls0: Seq<Seq<char>>,
    strings0: Seq<Seq<char>>,
    names0: TableView,
    original_size: nat,
) -> bool {
    let tags = tags_of(records);
    let urls = after_run(TextKind::Url, table, records, urls0);
    let strings = after_run(TextKind::Plain, table, records, strings0);
    &&& texts_of(artifact.dictionaries.urls@) == urls
    &&& texts_of(artifact.dictionaries.strings@) == strings
    &&& pairs_of(artifact.dictionaries.properties@) == swapped(
        names_after_run(table, records, names0),
    )
    &&& artifact.data.resources.len() == tags.len()
    &&& artifact.schema.resource_types.len() == tags.len()
    &&& artifact.schema.field_types.len() == 0
    &&& forall|g: int|
        0 <= g < tags.len() ==> group_compacted(
            #[trigger] artifact.data.resources[g],
            table,
            group_rows(records, tags[g]),
            tags[g],
            urls,
            strings,
        )
    &&& forall|g: int|
        0 <= g < tags.len() ==> (#[trigger] artifact.schema.resource_types[g]).0@ == tags[g]
            && artifact.schema.resource_types[g].1@ == schema_of(group_rows(records, tags[g]))
    &&& artifact.stats == (CompressionStats {
        original_size: original_size as usize,
        compacted_size: artifact.stats.compacted_size,
        urls_deduplicated: bumped_by(0, (urls.len() - urls0.len()) as nat),
        strings_deduplicated: bumped_by(0, (strings.len() - strings0.len()) as nat),
        properties_abbreviated: bumped_by(0, abbreviations_of_groups(table, records, tags)),
        resources_processed: bumped_by(0, typed_count(records)),
    })
    &&& artifact.fidelity == FidelityMode::Columnar
}

/// `group` holds the rows `rows` under the tag `tag`, encoded against
/// dictionaries that hold the texts of its cells.
pub open spec fn group_compacted(
    group: (String, TypedResourceGroup),
    table: TableView,
    rows: Seq<DatumView>,
    tag: Seq<char>,
    urls: Seq<Seq<char>>,
    strings: Seq<Seq<char>>,
) -> bool {
    &&& group.0@ == tag
    &&& group.1.count == rows.len()
    &&& encodes(columns_view(group.1.columns@), table, layout_of(table, rows), rows, urls, strings)
    &&& holds_texts(TextKind::Url, table, layout_of(table, rows), rows, urls)
    &&& holds_texts(TextKind::Plain, table, layout_of(table, rows), rows, strings)
}

/// The well-known canonical keys and their short keys.
pub open spec fn default_abbreviations() -> TableView {
    seq![
        ("https://atomicdata.dev/properties/isA"@, "t"@),
        ("https://atomicdata.dev/properties/parent"@, "p"@),
        ("https://atomicdata.dev/properties/lastCommit"@, "lc"@),
        ("https://common.terraphim.io/01jxw2jx8qze6yakh4fz24mnhy/property/company-name"@, "cn"@),
        (
            "https://common.terraphim.io/01jxw2jx8qze6yakh4fz24mnhy/property/company-description"@,
            "cd"@,
        ),
        (
            "https://common.terraphim.io/01jxw2jx8qze6yakh4fz24mnhy/property/business-website"@,
            "bw"@,
        ),
        (
            "https://common.terraphim.io/01jxw2jx8qze6yakh4fz24mnhy/property/year-of-incorporation"@,
            "yi"@,
        ),
        (
            "https://common.terraphim.io/01jxw2jx8qze6yakh4fz24mnhy/property/company-registration-number"@,
            "rn"@,
        ),
        (
            "https://common.terraphim.io/01jxw2jx8qze6yakh4fz24mnhy/property/country-of-registration"@,
            "cr"@,
        ),
    ]
}

impl EfficientCompactor {
    /// The dictionary of the texts of URL columns.
    pub closed spec fn url_dictionary(&self) -> ValueDictionary {
        self.url_dict
    }

    /// The dictionary of the texts of string and JSON columns.
    pub closed spec fn string_dictionary(&self) -> ValueDictionary {
        self.string_dict
    }

    /// The table of canonical keys and their short keys.
    pub closed spec fn abbreviations(&self) -> TableView {
        self.property_abbrevs@
    }

    /// The abbreviations that were used so far: the field name table of the
    /// run.
    pub closed spec fn field_names(&self) -> TableView {
        self.field_names@
    }

    /// Both dictionaries are sound and have 16-bit codes, and both tables
    /// are reversible.
    pub open spec fn wf(&self) -> bool {
        &&& self.url_dictionary().wf()
        &&& self.string_dictionary().wf()
        &&& self.url_dictionary().width() == CodeWidth::Bits16
        &&& self.string_dictionary().width() == CodeWidth::Bits16
        &&& crate::fields::reversible(self.abbreviations())
        &&& crate::fields::reversible(self.field_names())
    }

    /// A compactor with empty dictionaries and the well-known abbreviations.
    pub fn new() -> (c: Self)
        ensures
            c.wf(),
            c.url_dictionary()@ == Seq::<Seq<char>>::empty(),
            c.string_dictionary()@ == Seq::<Seq<char>>::empty(),
            c.abbreviations() == table_from(default_abbreviations()),
            c.field_names() == TableView::empty(),
    {
        EfficientCompactor {
            url_dict: ValueDictionary::new(CodeWidth::Bits16),
            string_dict: ValueDictionary::new(CodeWidth::Bits16),
            property_abbrevs: Self::init_property_abbreviations(),
            field_names: FieldAbbreviator::new(),
        }
    }

    /// A compactor with empty dictionaries and the given abbreviations.
    pub fn with_abbreviations(table: FieldAbbreviator) -> (c: Self)
        requires
            table.wf(),
        ensures
            c.wf(),
            c.url_dictionary()@ == Seq::<Seq<char>>::empty(),
            c.string_dictionary()@ == Seq::<Seq<char>>::empty(),
            c.abbreviations() == table@,
            c.field_names() == TableView::empty(),
    {
        EfficientCompactor {
            url_dict: ValueDictionary::new(CodeWidth::Bits16),
            string_dict: ValueDictionary::new(CodeWidth::Bits16),
            property_abbrevs: table,
            field_names: FieldAbbreviator::new(),
        }
    }

    /// The table of the well-known abbreviations.
    pub fn init_property_abbreviations() -> (t: FieldAbbreviator)
        ensures
            t.wf(),
            t@ == table_from(default_abbreviations()),
    {
        let pairs: Vec<(&'static str, &'static str)> = vec![
            ("https://atomicdata.dev/properties/isA", "t"),
            ("https://atomicdata.dev/properties/parent", "p"),
            ("https://atomicdata.dev/properties/lastCommit", "lc"),
            ("https://common.terraphim.io/01jxw2jx8qze6yakh4fz24mnhy/property/company-name", "cn"),
            (
                "https://common.terraphim.io/01jxw2jx8qze6yakh4fz24mnhy/property/company-description",
                "cd",
            ),
            (
                "https://common.terraphim.io/01jxw2jx8qze6yakh4fz24mnhy/property/business-website",
                "bw",
            ),
            (
                "https://common.terraphim.io/01jxw2jx8qze6yakh4fz24mnhy/property/year-of-incorporation",
                "yi",
            ),
            (
                "https://common.terraphim.io/01jxw2jx8qze6yakh4fz24mnhy/property/company-registration-number",
                "rn",
            ),
            (
                "https://common.terraphim.io/01jxw2jx8qze6yakh4fz24mnhy/property/country-of-registration",
                "cr",
            ),
        ];
        assert(slices_of(pairs@) =~= default_abbreviations());
        table_of(&pairs)
    }

    /// The type tag of a type identifier.
    pub fn extract_type_name(&self, resource_type: &str) -> (tag: String)
        ensures
            tag@ == type_tag(resource_type@),
    {
        extract_tag(resource_type)
    }

    /// The key under which a property is stored. Counts the property where
    /// the table abbreviates it.
    pub fn abbreviate_property(&self, property: &str, stats: &mut CompressionStats) -> (r: String)
        ensures
            r@ == abbreviated(self.abbreviations(), property@),
            *final(stats) == (CompressionStats {
                properties_abbreviated: if short_of(self.abbreviations(), property@) is Some {
                    bumped_by(old(stats).properties_abbreviated, 1)
                } else {
                    old(stats).properties_abbreviated
                },
                ..*old(stats)
            }),
    {
        match self.property_abbrevs.short_for(property) {
            Some(s) => {
                stats.properties_abbreviated = bump(stats.properties_abbreviated);
                s.clone()
            },
            None => property.to_owned(),
        }
    }

    /// Gives a URL its code in the URL dictionary, and counts it where it is
    /// new. Fails exactly when the URL is new and the dictionary is full.
    pub fn intern_url(&mut self, url: &str, stats: &mut CompressionStats) -> (r: Result<
        u32,
        CompactError,
    >)
        requires
            old(self).wf(),
        ensures
            final(self).wf(),
            final(self).abbreviations() == old(self).abbreviations(),
            final(self).field_names() == old(self).field_names(),
            final(self).string_dictionary() == old(self).string_dictionary(),
            match r {
                Ok(c) => final(self).url_dictionary()@ == interned(
                    old(self).url_dictionary()@,
                    url@,
                ) && final(self).url_dictionary().code(url@) == Some(c as nat),
                Err(e) => e == CompactError::DictionaryExhausted && final(self).url_dictionary()@
                    == old(self).url_dictionary()@ && !old(self).url_dictionary()@.contains(url@)
                    && old(self).url_dictionary()@.len() == CodeWidth::Bits16.capacity(),
            },
            *final(stats) == (CompressionStats {
                urls_deduplicated: bumped_by(
                    old(stats).urls_deduplicated,
                    (final(self).url_dictionary()@.len() - old(self).url_dictionary()@.len()) as nat,
                ),
                ..*old(stats)
            }),
    {
        let before = self.url_dict.len();
        let r = self.url_dict.intern(url);
        if self.url_dict.len() > before {
            stats.urls_deduplicated = bump(stats.urls_deduplicated);
        }
        r
    }

    /// Gives a text its code in the string dictionary, and counts it where
    /// it is new. Fails exactly when the text is new and the dictionary is
    /// full.
    pub fn intern_string(&mut self, s: &str, stats: &mut CompressionStats) -> (r: Result<
        u32,
        CompactError,
    >)
        requires
            old(self).wf(),
        ensures
            final(self).wf(),
            final(self).abbreviations() == old(self).abbreviations(),
            final(self).field_names() == old(self).field_names(),
            final(self).url_dictionary() == old(self).url_dictionary(),
            match r {
                Ok(c) => final(self).string_dictionary()@ == interned(
                    old(self).string_dictionary()@,
                    s@,
                ) && final(self).string_dictionary().code(s@) == Some(c as nat),
                Err(e) => e == CompactError::DictionaryExhausted
                    && final(self).string_dictionary()@ == old(self).string_dictionary()@
                    && !old(self).string_dictionary()@.contains(s@) && old(
                    self,
                ).string_dictionary()@.len() == CodeWidth::Bits16.capacity(),
            },
            *final(stats) == (CompressionStats {
                strings_deduplicated: bumped_by(
                    old(stats).strings_deduplicated,
                    (final(self).string_dictionary()@.len() - old(
                        self,
                    ).string_dictionary()@.len()) as nat,
                ),
                ..*old(stats)
            }),
    {
        let before = self.string_dict.len();
        let r = self.string_dict.intern(s);
        if self.string_dict.len() > before {
            stats.strings_deduplicated = bump(stats.strings_deduplicated);
        }
        r
    }

    /// The column type that the shape of `value` calls for.
    pub fn infer_field_type(&self, value: &Datum) -> (ty: FieldType)
        ensures
            ty == field_type_of(value@),
    {
        infer_type(value)
    }

    /// The value that `row` has for the column `name`.
    pub fn value_of<'a>(&self, row: &'a Datum, name: &str) -> (r: Option<&'a Datum>)
        ensures
            option_view(r) == value_for(self.abbreviations(), row@, name@),
    {
        match row {
            Datum::Object(fields) => match self.find_original_key(fields, name) {
                Some(k) => Some(&fields[k].1),
                None => None,
            },
            _ => {
                proof {
                    lemma_canonical_of(self.abbreviations(), name@);
                }
                None
            },
        }
    }

    /// Where among `fields` the value for the column `name` stands: the
    /// field named `name`, else the field whose canonical key `name`
    /// abbreviates.
    pub fn find_original_key(&self, fields: &Vec<(String, Datum)>, name: &str) -> (r: Option<
        usize,
    >)
        ensures
            match r {
                Some(k) => k < fields.len() && value_in(
                    self.abbreviations(),
                    fields_view(fields@),
                    name@,
                ) == Some(fields[k as int].1@),
                None => value_in(self.abbreviations(), fields_view(fields@), name@) is None,
            },
    {
        match find_field(fields, name) {
            Some(k) => Some(k),
            None => match self.property_abbrevs.canonical_for(name) {
                Some(full) => find_field(fields, full.as_str()),
                None => None,
            },
        }
    }
}

impl EfficientCompactor {
    /// The columns that a group of records needs, and their types. Counts
    /// every field whose key the table abbreviates, and enters the
    /// abbreviations that it uses into the field name table of the run.
    pub fn analyze_fields(&mut self, resources: &Vec<&Datum>, stats: &mut CompressionStats) -> (layout:
        Vec<(String, FieldType)>)
        requires
            old(self).wf(),
        ensures
            final(self).wf(),
            final(self).abbreviations() == old(self).abbreviations(),
            final(self).url_dictionary() == old(self).url_dictionary(),
            final(self).string_dictionary() == old(self).string_dictionary(),
            final(self).field_names() == names_after_rows(
                old(self).abbreviations(),
                old(self).field_names(),
                rows_view(resources@),
            ),
            layout_view(layout@) == layout_of(old(self).abbreviations(), rows_view(resources@)),
            *final(stats) == (CompressionStats {
                properties_abbreviated: bumped_by(
                    old(stats).properties_abbreviated,
                    abbreviations_of(old(self).abbreviations(), rows_view(resources@)),
                ),
                ..*old(stats)
            }),
    {
        analyze(&self.property_abbrevs, resources, stats, &mut self.field_names)
    }

    /// Puts the text of one cell, if it has one, into its dictionary.
    ///
    /// Fails, and leaves both dictionaries as they are, exactly when the
    /// text is new and its dictionary is full.
    pub fn intern_cell(
        &mut self,
        ty: FieldType,
        value: Option<&Datum>,
        stats: &mut CompressionStats,
    ) -> (r: Result<(), CompactError>)
        requires
            old(self).wf(),
        ensures
            final(self).wf(),
            final(self).abbreviations() == old(self).abbreviations(),
            final(self).field_names() == old(self).field_names(),
            match r {
                Ok(_) => {
                    &&& final(self).url_dictionary()@ == after_cell(
                        TextKind::Url,
                        old(self).url_dictionary()@,
                        ty,
                        option_view(value),
                    )
                    &&& final(self).string_dictionary()@ == after_cell(
                        TextKind::Plain,
                        old(self).string_dictionary()@,
                        ty,
                        option_view(value),
                    )
                },
                Err(e) => {
                    &&& e == CompactError::DictionaryExhausted
                    &&& final(self).url_dictionary()@ == old(self).url_dictionary()@
                    &&& final(self).string_dictionary()@ == old(self).string_dictionary()@
                    &&& (after_cell(
                        TextKind::Url,
                        old(self).url_dictionary()@,
                        ty,
                        option_view(value),
                    ).len() > CodeWidth::Bits16.capacity() || after_cell(
                        TextKind::Plain,
                        old(self).string_dictionary()@,
                        ty,
                        option_view(value),
                    ).len() > CodeWidth::Bits16.capacity())
                },
            },
            *final(stats) == (CompressionStats {
                urls_deduplicated: bumped_by(
                    old(stats).urls_deduplicated,
                    (final(self).url_dictionary()@.len() - old(self).url_dictionary()@.len()) as nat,
                ),
                strings_deduplicated: bumped_by(
                    old(stats).strings_deduplicated,
                    (final(self).string_dictionary()@.len() - old(
                        self,
                    ).string_dictionary()@.len()) as nat,
                ),
                ..*old(stats)
            }),
    {
        match (ty, value) {
            (FieldType::Url, Some(Datum::Str(s))) => match self.intern_url(s.as_str(), stats) {
                Ok(_) => Ok(()),
                Err(e) => Err(e),
            },
            (FieldType::Str, Some(Datum::Str(s))) => match self.intern_string(s.as_str(), stats) {
                Ok(_) => Ok(()),
                Err(e) => Err(e),
            },
            (FieldType::Json, Some(v)) => {
                let text = json_text_or_empty(v);
                match self.intern_string(text.as_str(), stats) {
                    Ok(_) => Ok(()),
                    Err(e) => Err(e),
                }
            },
            _ => Ok(()),
        }
    }

    /// The cell of a column of type `ty` for a value, encoded against the
    /// dictionaries as they are.
    pub fn cell_for(&self, ty: FieldType, value: Option<&Datum>) -> (cell: Cell)
        requires
            self.wf(),
        ensures
            cell@ == cell_of(
                ty,
                option_view(value),
                self.url_dictionary()@,
                self.string_dictionary()@,
            ),
    {
        match ty {
            FieldType::Str => match value {
                Some(Datum::Str(s)) => code_cell_exec(&self.string_dict, s.as_str()),
                _ => Cell::Null,
            },
            FieldType::Url => match value {
                Some(Datum::Str(s)) => code_cell_exec(&self.url_dict, s.as_str()),
                _ => Cell::Null,
            },
            FieldType::Int => match value {
                Some(Datum::Int(i)) => Cell::Int(*i),
                _ => Cell::Null,
            },
            FieldType::Float => match value {
                Some(Datum::Float(t)) => Cell::Float(t.clone()),
                Some(Datum::Int(i)) => Cell::Int(*i),
                _ => Cell::Null,
            },
            FieldType::Bool => match value {
                Some(Datum::Bool(b)) => Cell::Bool(*b),
                _ => Cell::Bool(false),
            },
            FieldType::Json => match value {
                Some(v) => {
                    let text = json_text_or_empty(v);
                    code_cell_exec(&self.string_dict, text.as_str())
                },
                None => Cell::Null,
            },
        }
    }
}

impl EfficientCompactor {
    /// Puts the texts of all cells of a group into the dictionaries, row by
    /// row and column by column.
    ///
    /// Fails exactly when one of the dictionaries would come to hold more
    /// texts than it has codes.
    pub fn intern_rows(
        &mut self,
        layout: &Vec<(String, FieldType)>,
        resources: &Vec<&Datum>,
        stats: &mut CompressionStats,
    ) -> (r: Result<(), CompactError>)
        requires
            old(self).wf(),
        ensures
            final(self).wf(),
            final(self).abbreviations() == old(self).abbreviations(),
            final(self).field_names() == old(self).field_names(),
            r is Ok <==> after_rows(
                TextKind::Url,
                old(self).abbreviations(),
                layout_view(layout@),
                rows_view(resources@),
                old(self).url_dictionary()@,
            ).len() <= CodeWidth::Bits16.capacity() && after_rows(
                TextKind::Plain,
                old(self).abbreviations(),
                layout_view(layout@),
                rows_view(resources@),
                old(self).string_dictionary()@,
            ).len() <= CodeWidth::Bits16.capacity(),
            match r {
                Ok(_) => {
                    &&& final(self).url_dictionary()@ == after_rows(
                        TextKind::Url,
                        old(self).abbreviations(),
                        layout_view(layout@),
                        rows_view(resources@),
                        old(self).url_dictionary()@,
                    )
                    &&& final(self).string_dictionary()@ == after_rows(
                        TextKind::Plain,
                        old(self).abbreviations(),
                        layout_view(layout@),
                        rows_view(resources@),
                        old(self).string_dictionary()@,
                    )
                },
                Err(e) => e == CompactError::DictionaryExhausted,
            },
            old(self).url_dictionary()@.is_prefix_of(final(self).url_dictionary()@),
            old(self).string_dictionary()@.is_prefix_of(final(self).string_dictionary()@),
            *final(stats) == (CompressionStats {
                urls_deduplicated: bumped_by(
                    old(stats).urls_deduplicated,
                    (final(self).url_dictionary()@.len() - old(self).url_dictionary()@.len()) as nat,
                ),
                strings_deduplicated: bumped_by(
                    old(stats).strings_deduplicated,
                    (final(self).string_dictionary()@.len() - old(
                        self,
                    ).string_dictionary()@.len()) as nat,
                ),
                ..*old(stats)
            }),
    {
        let ghost table = self.abbreviations();
        let ghost rows = rows_view(resources@);
        let ghost columns = layout_view(layout@);
        let ghost urls0 = self.url_dictionary()@;
        let ghost strings0 = self.string_dictionary()@;
        let mut i: usize = 0;
        assert(urls0.subrange(0, urls0.len() as int) =~= urls0);
        assert(strings0.subrange(0, strings0.len() as int) =~= strings0);
        while i < resources.len()
            invariant
                i <= resources.len(),
                self.wf(),
                table == self.abbreviations(),
                table == old(self).abbreviations(),
                self.field_names() == old(self).field_names(),
                urls0 == old(self).url_dictionary()@,
                strings0 == old(self).string_dictionary()@,
                rows == rows_view(resources@),
                columns == layout_view(layout@),
                self.url_dictionary()@ == after_rows(
                    TextKind::Url,
                    table,
                    columns,
                    rows.take(i as int),
                    urls0,
                ),
                self.string_dictionary()@ == after_rows(
                    TextKind::Plain,
                    table,
                    columns,
                    rows.take(i as int),
                    strings0,
                ),
                urls0.is_prefix_of(self.url_dictionary()@),
                strings0.is_prefix_of(self.string_dictionary()@),
                *stats == (CompressionStats {
                    urls_deduplicated: bumped_by(
                        old(stats).urls_deduplicated,
                        (self.url_dictionary()@.len() - urls0.len()) as nat,
                    ),
                    strings_deduplicated: bumped_by(
                        old(stats).strings_deduplicated,
                        (self.string_dictionary()@.len() - strings0.len()) as nat,
                    ),
                    ..*old(stats)
                }),
            decreases resources.len() - i,
        {
            let ghost row = resources[i as int]@;
            let ghost base_urls = self.url_dictionary()@;
            let ghost base_strings = self.string_dictionary()@;
            proof {
                assert(rows.take(i + 1).drop_last() == rows.take(i as int));
                assert(rows.take(i + 1).last() == row);
                assert(columns.take(0) =~= Layout::empty());
            }
            let mut c: usize = 0;
            while c < layout.len()
                invariant
                    c <= layout.len(),
                    i < resources.len(),
                    self.wf(),
                    table == self.abbreviations(),
                    table == old(self).abbreviations(),
                    self.field_names() == old(self).field_names(),
                self.field_names() == old(self).field_names(),
                    urls0 == old(self).url_dictionary()@,
                    strings0 == old(self).string_dictionary()@,
                    rows == rows_view(resources@),
                    row == resources[i as int]@,
                    columns == layout_view(layout@),
                    base_urls == after_rows(
                        TextKind::Url,
                        table,
                        columns,
                        rows.take(i as int),
                        urls0,
                    ),
                    base_strings == after_rows(
                        TextKind::Plain,
                        table,
                        columns,
                        rows.take(i as int),
                        strings0,
                    ),
                    self.url_dictionary()@ == after_row(
                        TextKind::Url,
                        table,
                        columns.take(c as int),
                        row,
                        base_urls,
                    ),
                    self.string_dictionary()@ == after_row(
                        TextKind::Plain,
                        table,
                        columns.take(c as int),
                        row,
                        base_strings,
                    ),
                    urls0.is_prefix_of(self.url_dictionary()@),
                    strings0.is_prefix_of(self.string_dictionary()@),
                    *stats == (CompressionStats {
                        urls_deduplicated: bumped_by(
                            old(stats).urls_deduplicated,
                            (self.url_dictionary()@.len() - urls0.len()) as nat,
                        ),
                        strings_deduplicated: bumped_by(
                            old(stats).strings_deduplicated,
                            (self.string_dictionary()@.len() - strings0.len()) as nat,
                        ),
                        ..*old(stats)
                    }),
                decreases layout.len() - c,
            {
                proof {
                    assert(columns.take(c + 1).drop_last() == columns.take(c as int));
                    assert(columns.take(c + 1).last() == (layout[c as int].0@, layout[c as int].1));
                }
                let value = self.value_of(resources[i], layout[c].0.as_str());
                let ghost urls_here = self.url_dictionary()@;
                let ghost strings_here = self.string_dictionary()@;
                match self.intern_cell(layout[c].1, value, stats) {
                    Ok(_) => {
                        proof {
                            lemma_after_cell(
                                TextKind::Url,
                                urls_here,
                                layout[c as int].1,
                                option_view(value),
                            );
                            lemma_after_cell(
                                TextKind::Plain,
                                strings_here,
                                layout[c as int].1,
                                option_view(value),
                            );
                            lemma_prefix_trans(urls0, urls_here, self.url_dictionary()@);
                            lemma_prefix_trans(strings0, strings_here, self.string_dictionary()@);
                        }
                    },
                    Err(e) => {
                        proof {
                            assert(rows.take(i + 1).drop_last() == rows.take(i as int));
                            assert(rows.take(i + 1).last() == row);
                            let ty = layout[c as int].1;
                            let v = value_for(table, row, layout[c as int].0@);
                            assert(after_row(
                                TextKind::Url,
                                table,
                                columns.take(c + 1),
                                row,
                                base_urls,
                            ) == after_cell(TextKind::Url, self.url_dictionary()@, ty, v));
                            assert(after_row(
                                TextKind::Plain,
                                table,
                                columns.take(c + 1),
                                row,
                                base_strings,
                            ) == after_cell(TextKind::Plain, self.string_dictionary()@, ty, v));
                            assert(after_rows(
                                TextKind::Url,
                                table,
                                columns,
                                rows.take(i + 1),
                                urls0,
                            ) == after_row(TextKind::Url, table, columns, row, base_urls));
                            assert(after_rows(
                                TextKind::Plain,
                                table,
                                columns,
                                rows.take(i + 1),
                                strings0,
                            ) == after_row(TextKind::Plain, table, columns, row, base_strings));
                            lemma_after_row_len(
                                TextKind::Url,
                                table,
                                columns,
                                row,
                                base_urls,
                                c + 1,
                            );
                            lemma_after_row_len(
                                TextKind::Plain,
                                table,
                                columns,
                                row,
                                base_strings,
                                c + 1,
                            );
                            lemma_after_rows_len(TextKind::Url, table, columns, rows, urls0, i + 1);
                            lemma_after_rows_len(
                                TextKind::Plain,
                                table,
                                columns,
                                rows,
                                strings0,
                                i + 1,
                            );
                        }
                        return Err(e);
                    },
                }
                c += 1;
            }
            assert(columns.take(c as int) == columns);
            i += 1;
        }
        assert(rows.take(i as int) == rows);
        Ok(())
    }

    /// The columns of a group in the given layout, encoded against the
    /// dictionaries as they are.
    pub fn fill_columns(&self, layout: &Vec<(String, FieldType)>, resources: &Vec<&Datum>) -> (columns:
        Vec<Column>)
        requires
            self.wf(),
        ensures
            encodes(
                columns_view(columns@),
                self.abbreviations(),
                layout_view(layout@),
                rows_view(resources@),
                self.url_dictionary()@,
                self.string_dictionary()@,
            ),
    {
        let mut columns: Vec<Column> = Vec::new();
        let mut c: usize = 0;
        while c < layout.len()
            invariant
                c <= layout.len(),
                self.wf(),
                encodes(
                    columns_view(columns@),
                    self.abbreviations(),
                    layout_view(layout@).take(c as int),
                    rows_view(resources@),
                    self.url_dictionary()@,
                    self.string_dictionary()@,
                ),
            decreases layout.len() - c,
        {
            let mut cells: Vec<Cell> = Vec::new();
            let mut i: usize = 0;
            while i < resources.len()
                invariant
                    i <= resources.len(),
                    c < layout.len(),
                    self.wf(),
                    cells.len() == i,
                    forall|k: int|
                        0 <= k < i ==> (#[trigger] cells[k])@ == cell_of(
                            layout[c as int].1,
                            value_for(
                                self.abbreviations(),
                                rows_view(resources@)[k],
                                layout[c as int].0@,
                            ),
                            self.url_dictionary()@,
                            self.string_dictionary()@,
                        ),
                decreases resources.len() - i,
            {
                let value = self.value_of(resources[i], layout[c].0.as_str());
                cells.push(self.cell_for(layout[c].1, value));
                i += 1;
            }
            let ghost before = columns_view(columns@);
            let column = Column { name: layout[c].0.clone(), field_type: layout[c].1, cells };
            columns.push(column);
            proof {
                let after = columns_view(columns@);
                let wanted = layout_view(layout@).take(c + 1);
                assert(after =~= before.push(column@));
                assert forall|k: int| 0 <= k < after.len() implies {
                    &&& (#[trigger] after[k]).name == wanted[k].0
                    &&& after[k].field_type == wanted[k].1
                    &&& after[k].cells.len() == rows_view(resources@).len()
                    &&& forall|i: int|
                        0 <= i < rows_view(resources@).len() ==> (#[trigger] after[k].cells[i])
                            == cell_of(
                            wanted[k].1,
                            value_for(self.abbreviations(), rows_view(resources@)[i], wanted[k].0),
                            self.url_dictionary()@,
                            self.string_dictionary()@,
                        )
                } by {
                    if k < c {
                        assert(after[k] == before[k]);
                        assert(wanted[k] == layout_view(layout@).take(c as int)[k]);
                    } else {
                        assert(after[k] == column@);
                    }
                }
            }
            c += 1;
        }
        assert(layout_view(layout@).take(c as int) == layout_view(layout@));
        columns
    }

    /// The schema of a group of records: the type of each key, and which
    /// keys every record has.
    pub fn infer_schema(&self, resources: &Vec<&Datum>) -> (schema: ResourceSchema)
        ensures
            schema@ == schema_of(rows_view(resources@)),
    {
        let plain = FieldAbbreviator::new();
        let mut unused = CompressionStats::new(0);
        let mut no_names = FieldAbbreviator::new();
        let types = analyze(&plain, resources, &mut unused, &mut no_names);
        let ghost rows = rows_view(resources@);
        let ghost keys = layout_view(types@);
        let mut required: Vec<String> = Vec::new();
        let mut optional: Vec<String> = Vec::new();
        let mut k: usize = 0;
        assert(texts_of(required@) =~= keys_where(rows, keys.take(0), true));
        assert(texts_of(optional@) =~= keys_where(rows, keys.take(0), false));
        while k < types.len()
            invariant
                k <= types.len(),
                rows == rows_view(resources@),
                keys == layout_view(types@),
                texts_of(required@) == keys_where(rows, keys.take(k as int), true),
                texts_of(optional@) == keys_where(rows, keys.take(k as int), false),
            decreases types.len() - k,
        {
            assert(keys.take(k + 1).drop_last() == keys.take(k as int));
            assert(keys.take(k + 1).last() == (types[k as int].0@, types[k as int].1));
            if present_in_all(resources, types[k].0.as_str()) {
                let ghost before = required@;
                required.push(types[k].0.clone());
                assert(texts_of(required@) =~= texts_of(before).push(types[k as int].0@));
            } else {
                let ghost before = optional@;
                optional.push(types[k].0.clone());
                assert(texts_of(optional@) =~= texts_of(before).push(types[k as int].0@));
            }
            k += 1;
        }
        assert(keys.take(k as int) == keys);
        ResourceSchema { required, optional, types }
    }

    /// Stores a group of records column by column.
    ///
    /// The columns are those of the group's layout. Every column gets one
    /// cell for each record, so all have the length of the group. The
    /// dictionaries grow by the texts of the cells.
    ///
    /// Fails exactly when one of the dictionaries would come to hold more
    /// texts than it has codes.
    pub fn convert_to_columnar(
        &mut self,
        _type_name: &str,
        resources: &Vec<&Datum>,
        stats: &mut CompressionStats,
    ) -> (r: Result<TypedResourceGroup, CompactError>)
        requires
            old(self).wf(),
        ensures
            final(self).wf(),
            final(self).abbreviations() == old(self).abbreviations(),
            final(self).field_names() == names_after_rows(
                old(self).abbreviations(),
                old(self).field_names(),
                rows_view(resources@),
            ),
            r is Ok <==> after_group(
                TextKind::Url,
                old(self).abbreviations(),
                rows_view(resources@),
                old(self).url_dictionary()@,
            ).len() <= CodeWidth::Bits16.capacity() && after_group(
                TextKind::Plain,
                old(self).abbreviations(),
                rows_view(resources@),
                old(self).string_dictionary()@,
            ).len() <= CodeWidth::Bits16.capacity(),
            match r {
                Ok(group) => {
                    &&& final(self).url_dictionary()@ == after_group(
                        TextKind::Url,
                        old(self).abbreviations(),
                        rows_view(resources@),
                        old(self).url_dictionary()@,
                    )
                    &&& final(self).string_dictionary()@ == after_group(
                        TextKind::Plain,
                        old(self).abbreviations(),
                        rows_view(resources@),
                        old(self).string_dictionary()@,
                    )
                    &&& group.count == resources.len()
                    &&& encodes(
                        columns_view(group.columns@),
                        old(self).abbreviations(),
                        layout_of(old(self).abbreviations(), rows_view(resources@)),
                        rows_view(resources@),
                        final(self).url_dictionary()@,
                        final(self).string_dictionary()@,
                    )
                    &&& holds_texts(
                        TextKind::Url,
                        old(self).abbreviations(),
                        layout_of(old(self).abbreviations(), rows_view(resources@)),
                        rows_view(resources@),
                        final(self).url_dictionary()@,
                    )
                    &&& holds_texts(
                        TextKind::Plain,
                        old(self).abbreviations(),
                        layout_of(old(self).abbreviations(), rows_view(resources@)),
                        rows_view(resources@),
                        final(self).string_dictionary()@,
                    )
                },
                Err(e) => e == CompactError::DictionaryExhausted,
            },
            old(self).url_dictionary()@.is_prefix_of(final(self).url_dictionary()@),
            old(self).string_dictionary()@.is_prefix_of(final(self).string_dictionary()@),
            *final(stats) == (CompressionStats {
                urls_deduplicated: bumped_by(
                    old(stats).urls_deduplicated,
                    (final(self).url_dictionary()@.len() - old(self).url_dictionary()@.len()) as nat,
                ),
                strings_deduplicated: bumped_by(
                    old(stats).strings_deduplicated,
                    (final(self).string_dictionary()@.len() - old(
                        self,
                    ).string_dictionary()@.len()) as nat,
                ),
                properties_abbreviated: bumped_by(
                    old(stats).properties_abbreviated,
                    abbreviations_of(old(self).abbreviations(), rows_view(resources@)),
                ),
                ..*old(stats)
            }),
    {
        let ghost urls_before = self.url_dictionary()@;
        let ghost strings_before = self.string_dictionary()@;
        let layout = self.analyze_fields(resources, stats);
        let ghost table = self.abbreviations();
        let ghost rows = rows_view(resources@);
        let ghost urls0 = self.url_dictionary()@;
        let ghost strings0 = self.string_dictionary()@;
        match self.intern_rows(&layout, resources, stats) {
            Ok(_) => {},
            Err(e) => {
                return Err(e);
            },
        }
        proof {
            lemma_holds_after_rows(TextKind::Url, table, layout_view(layout@), rows, urls0);
            lemma_holds_after_rows(TextKind::Plain, table, layout_view(layout@), rows, strings0);
            lemma_after_rows(TextKind::Url, table, layout_view(layout@), rows, urls0);
            lemma_after_rows(TextKind::Plain, table, layout_view(layout@), rows, strings0);
        }
        let columns = self.fill_columns(&layout, resources);
        Ok(TypedResourceGroup { count: resources.len(), columns })
    }
}

/// The key under which a property is stored by the given table. Where the
/// table abbreviates the property, counts it and enters the abbreviation
/// into `names`.
pub fn abbreviate_counted(
    abbreviator: &FieldAbbreviator,
    property: &str,
    stats: &mut CompressionStats,
    names: &mut FieldAbbreviator,
) -> (r: String)
    requires
        old(names).wf(),
    ensures
        r@ == abbreviated(abbreviator@, property@),
        final(names).wf(),
        final(names)@ == named(abbreviator@, old(names)@, property@),
        *final(stats) == (CompressionStats {
            properties_abbreviated: if short_of(abbreviator@, property@) is Some {
                bumped_by(old(stats).properties_abbreviated, 1)
            } else {
                old(stats).properties_abbreviated
            },
            ..*old(stats)
        }),
{
    match abbreviator.short_for(property) {
        Some(s) => {
            stats.properties_abbreviated = bump(stats.properties_abbreviated);
            names.add(property, s.as_str());
            s.clone()
        },
        None => property.to_owned(),
    }
}

/// The column type that the shape of `value` calls for.
pub fn infer_type(value: &Datum) -> (ty: FieldType)
    ensures
        ty == field_type_of(value@),
{
    match value {
        Datum::Str(s) => {
            if text_starts_with(s.as_str(), "https://") || text_starts_with(s.as_str(), "http://") {
                FieldType::Url
            } else {
                FieldType::Str
            }
        },
        Datum::Int(_) => FieldType::Int,
        Datum::Float(_) => FieldType::Float,
        Datum::Bool(_) => FieldType::Bool,
        Datum::Array(_) | Datum::Object(_) => FieldType::Json,
        Datum::Null => FieldType::Str,
    }
}

/// The columns that a group of records needs under the given table, and
/// their types. Counts every field whose key the table abbreviates, and
/// enters the abbreviations that it uses into `names`.
pub fn analyze(
    abbreviator: &FieldAbbreviator,
    resources: &Vec<&Datum>,
    stats: &mut CompressionStats,
    names: &mut FieldAbbreviator,
) -> (layout: Vec<(String, FieldType)>)
    requires
        old(names).wf(),
    ensures
        final(names).wf(),
        final(names)@ == names_after_rows(abbreviator@, old(names)@, rows_view(resources@)),
        layout_view(layout@) == layout_of(abbreviator@, rows_view(resources@)),
        *final(stats) == (CompressionStats {
            properties_abbreviated: bumped_by(
                old(stats).properties_abbreviated,
                abbreviations_of(abbreviator@, rows_view(resources@)),
            ),
            ..*old(stats)
        }),
{
    broadcast use group_datum_view;

    let ghost table = abbreviator@;
    let ghost rows = rows_view(resources@);
    let mut layout: Vec<(String, FieldType)> = Vec::new();
    let mut i: usize = 0;
    assert(layout_view(layout@) =~= layout_of(table, rows.take(0)));
    while i < resources.len()
        invariant
            i <= resources.len(),
            table == abbreviator@,
            rows == rows_view(resources@),
            names.wf(),
            names@ == names_after_rows(table, old(names)@, rows.take(i as int)),
            layout_view(layout@) == layout_of(table, rows.take(i as int)),
            *stats == (CompressionStats {
                properties_abbreviated: bumped_by(
                    old(stats).properties_abbreviated,
                    abbreviations_of(table, rows.take(i as int)),
                ),
                ..*old(stats)
            }),
        decreases resources.len() - i,
    {
        let ghost base = layout_of(table, rows.take(i as int));
        let ghost base_names = names@;
        let ghost counted = abbreviations_of(table, rows.take(i as int));
        assert(rows.take(i + 1).drop_last() == rows.take(i as int));
        assert(rows.take(i + 1).last() == resources[i as int]@);
        match resources[i] {
            Datum::Object(fields) => {
                let ghost views = fields_view(fields@);
                let mut k: usize = 0;
                proof {
                    lemma_fields_view_len(fields@);
                }
                assert(views.take(0) =~= FieldsView::empty());
                while k < fields.len()
                    invariant
                        k <= fields.len(),
                        table == abbreviator@,
                        views == fields_view(fields@),
                        views.len() == fields.len(),
                        names.wf(),
                        names@ == names_after_fields(table, base_names, views.take(k as int)),
                        layout_view(layout@) == noted(table, base, views.take(k as int)),
                        *stats == (CompressionStats {
                            properties_abbreviated: bumped_by(
                                old(stats).properties_abbreviated,
                                counted + abbreviations_in(table, views.take(k as int)),
                            ),
                            ..*old(stats)
                        }),
                    decreases fields.len() - k,
                {
                    proof {
                        lemma_fields_view_index(fields@, k as int);
                        assert(views.take(k + 1).drop_last() == views.take(k as int));
                        assert(views.take(k + 1).last() == (fields[k as int].0@, fields[k as int].1@));
                    }
                    let name = abbreviate_counted(abbreviator, fields[k].0.as_str(), stats, names);
                    let ty = infer_type(&fields[k].1);
                    if !has_column_exec(&layout, name.as_str()) {
                        let ghost before = layout@;
                        layout.push((name, ty));
                        assert(layout_view(layout@) =~= layout_view(before).push((name@, ty)));
                    }
                    k += 1;
                }
                assert(views.take(k as int) == views);
            },
            _ => {},
        }
        i += 1;
    }
    assert(rows.take(i as int) == rows);
    layout
}


impl EfficientCompactor {
    /// Compacts the records of `data` into an artifact whose size is not
    /// measured yet: the compacted size in its stats is 0.
    ///
    /// The records are the items of the array in the field `subresources`.
    /// A record without a type is left out. The run fails with
    /// `Serialization` exactly when the input has no serialized form, and
    /// else with `DictionaryExhausted` exactly when one of the dictionaries
    /// would come to hold more texts than it has codes.
    pub fn compact_unmeasured(&mut self, data: &Datum) -> (r: Result<
        EfficientCompactedData,
        CompactError,
    >)
        requires
            old(self).wf(),
        ensures
            final(self).wf(),
            final(self).abbreviations() == old(self).abbreviations(),
            old(self).url_dictionary()@.is_prefix_of(final(self).url_dictionary()@),
            old(self).string_dictionary()@.is_prefix_of(final(self).string_dictionary()@),
            match r {
                Ok(artifact) => {
                    &&& text_of(data@) is Some
                    &&& compacted(
                        &artifact,
                        old(self).abbreviations(),
                        subresources_of(data@),
                        old(self).url_dictionary()@,
                        old(self).string_dictionary()@,
                        old(self).field_names(),
                        utf8_len(text_of(data@)->0),
                    )
                    &&& final(self).field_names() == names_after_run(
                        old(self).abbreviations(),
                        subresources_of(data@),
                        old(self).field_names(),
                    )
                    &&& final(self).url_dictionary()@ == texts_of(artifact.dictionaries.urls@)
                    &&& final(self).string_dictionary()@ == texts_of(
                        artifact.dictionaries.strings@,
                    )
                    &&& artifact.stats.compacted_size == 0
                },
                Err(CompactError::Serialization) => {
                    &&& text_of(data@) is None
                    &&& final(self).url_dictionary()@ == old(self).url_dictionary()@
                    &&& final(self).string_dictionary()@ == old(self).string_dictionary()@
                    &&& final(self).field_names() == old(self).field_names()
                },
                Err(CompactError::DictionaryExhausted) => {
                    &&& text_of(data@) is Some
                    &&& (after_run(
                        TextKind::Url,
                        old(self).abbreviations(),
                        subresources_of(data@),
                        old(self).url_dictionary()@,
                    ).len() > CodeWidth::Bits16.capacity() || after_run(
                        TextKind::Plain,
                        old(self).abbreviations(),
                        subresources_of(data@),
                        old(self).string_dictionary()@,
                    ).len() > CodeWidth::Bits16.capacity())
                },
            },
    {
        broadcast use group_datum_view;

        let ghost table = self.abbreviations();
        let ghost urls0 = self.url_dictionary()@;
        let ghost strings0 = self.string_dictionary()@;
        let ghost names0 = self.field_names();
        assert(urls0.subrange(0, urls0.len() as int) =~= urls0);
        assert(strings0.subrange(0, strings0.len() as int) =~= strings0);
        let text = match datum_to_text(data) {
            Some(t) => t,
            None => {
                return Err(CompactError::Serialization);
            },
        };
        let original_size = text.as_str().len();
        let mut stats = CompressionStats::new(original_size);
        let nothing: Vec<Datum> = Vec::new();
        let records: &Vec<Datum> = match data.get("subresources") {
            Some(Datum::Array(items)) => items,
            _ => &nothing,
        };
        let ghost recs = items_view(records@);
        assert(recs == subresources_of(data@));
        let (groups, processed) = classify(records);
        stats.resources_processed = bump_by(stats.resources_processed, processed);
        let ghost tags = tags_of(recs);
        let mut resources: Vec<(String, TypedResourceGroup)> = Vec::new();
        let mut resource_types: Vec<(String, ResourceSchema)> = Vec::new();
        let mut g: usize = 0;
        assert(tags.take(0) =~= Seq::<Seq<char>>::empty());
        while g < groups.len()
            invariant
                g <= groups.len(),
                grouped(groups@, recs),
                recs == items_view(records@),
                recs.len() == records.len(),
                recs == subresources_of(data@),
                text_of(data@) is Some,
                tags == tags_of(recs),
                tags.len() == groups.len(),
                self.wf(),
                table == self.abbreviations(),
                table == old(self).abbreviations(),
                urls0 == old(self).url_dictionary()@,
                strings0 == old(self).string_dictionary()@,
                names0 == old(self).field_names(),
                self.field_names() == names_after_groups(table, recs, tags.take(g as int), names0),
                urls0.is_prefix_of(self.url_dictionary()@),
                strings0.is_prefix_of(self.string_dictionary()@),
                self.url_dictionary()@ == after_groups(
                    TextKind::Url,
                    table,
                    recs,
                    tags.take(g as int),
                    urls0,
                ),
                self.string_dictionary()@ == after_groups(
                    TextKind::Plain,
                    table,
                    recs,
                    tags.take(g as int),
                    strings0,
                ),
                resources.len() == g,
                resource_types.len() == g,
                forall|k: int|
                    0 <= k < g ==> group_compacted(
                        #[trigger] resources[k],
                        table,
                        group_rows(recs, tags[k]),
                        tags[k],
                        self.url_dictionary()@,
                        self.string_dictionary()@,
                    ),
                forall|k: int|
                    0 <= k < g ==> (#[trigger] resource_types[k]).0@ == tags[k]
                        && resource_types[k].1@ == schema_of(group_rows(recs, tags[k])),
                stats == (CompressionStats {
                    original_size,
                    compacted_size: 0,
                    urls_deduplicated: bumped_by(
                        0,
                        (self.url_dictionary()@.len() - urls0.len()) as nat,
                    ),
                    strings_deduplicated: bumped_by(
                        0,
                        (self.string_dictionary()@.len() - strings0.len()) as nat,
                    ),
                    properties_abbreviated: bumped_by(
                        0,
                        abbreviations_of_groups(table, recs, tags.take(g as int)),
                    ),
                    resources_processed: bumped_by(0, typed_count(recs)),
                }),
            decreases groups.len() - g,
        {
            let ghost urls_here = self.url_dictionary()@;
            let ghost strings_here = self.string_dictionary()@;
            let ghost old_resources = resources@;
            let ghost old_types = resource_types@;
            let ghost tag = tags[g as int];
            let ghost group = group_rows(recs, tag);
            proof {
                assert(tags.take(g + 1).drop_last() == tags.take(g as int));
                assert(tags.take(g + 1).last() == tag);
                assert(crate::classify::group_tags(groups@)[g as int] == groups[g as int].tag@);
                lemma_members_in_range(recs, tag);
                assert forall|k: int| 0 <= k < groups[g as int].rows.len() implies (
                #[trigger] groups[g as int].rows[k]) < records.len() by {
                    assert(positions(groups[g as int].rows@)[k] == groups[g as int].rows[k]);
                }
            }
            let rows = borrow_rows(records, &groups[g].rows);
            assert(rows_view(rows@) == group);
            match self.convert_to_columnar(groups[g].tag.as_str(), &rows, &mut stats) {
                Ok(typed) => {
                    resources.push((groups[g].tag.clone(), typed));
                    resource_types.push((groups[g].tag.clone(), self.infer_schema(&rows)));
                    proof {
                        let urls_next = self.url_dictionary()@;
                        let strings_next = self.string_dictionary()@;
                        lemma_prefix_trans(urls0, urls_here, urls_next);
                        lemma_prefix_trans(strings0, strings_here, strings_next);
                        assert forall|k: int| 0 <= k < g + 1 implies group_compacted(
                            #[trigger] resources[k],
                            table,
                            group_rows(recs, tags[k]),
                            tags[k],
                            urls_next,
                            strings_next,
                        ) by {
                            if k < g {
                                assert(resources[k] == old_resources[k]);
                                let rows_k = group_rows(recs, tags[k]);
                                let layout_k = layout_of(table, rows_k);
                                lemma_encodes_stable(
                                    columns_view(resources[k].1.columns@),
                                    table,
                                    layout_k,
                                    rows_k,
                                    urls_here,
                                    strings_here,
                                    urls_next,
                                    strings_next,
                                );
                                lemma_holds_grows(
                                    TextKind::Url,
                                    table,
                                    layout_k,
                                    rows_k,
                                    urls_here,
                                    urls_next,
                                );
                                lemma_holds_grows(
                                    TextKind::Plain,
                                    table,
                                    layout_k,
                                    rows_k,
                                    strings_here,
                                    strings_next,
                                );
                            }
                        }
                        assert forall|k: int| 0 <= k < g + 1 implies (
                        #[trigger] resource_types[k]).0@ == tags[k] && resource_types[k].1@
                            == schema_of(group_rows(recs, tags[k])) by {
                            if k < g {
                                assert(resource_types[k] == old_types[k]);
                            }
                        }
                    }
                },
                Err(e) => {
                    proof {
                        assert(after_groups(TextKind::Url, table, recs, tags.take(g + 1), urls0)
                            == after_group(TextKind::Url, table, group, urls_here));
                        assert(after_groups(
                            TextKind::Plain,
                            table,
                            recs,
                            tags.take(g + 1),
                            strings0,
                        ) == after_group(TextKind::Plain, table, group, strings_here));
                        lemma_after_groups_prefix(TextKind::Url, table, recs, tags, urls0, g + 1);
                        lemma_after_groups_prefix(
                            TextKind::Plain,
                            table,
                            recs,
                            tags,
                            strings0,
                            g + 1,
                        );
                    }
                    return Err(e);
                },
            }
            g += 1;
        }
        assert(tags.take(g as int) == tags);
        let dictionaries = Dictionaries {
            urls: clone_strings(self.url_dict.entries()),
            strings: clone_strings(self.string_dict.entries()),
            properties: swapped_pairs(self.field_names.pairs()),
        };
        Ok(
            EfficientCompactedData {
                schema: CompactionSchema { resource_types, field_types: Vec::new() },
                data: ColumnarData { resources },
                dictionaries,
                stats,
                fidelity: FidelityMode::Columnar,
            },
        )
    }
}

impl EfficientCompactedData {
    /// The artifact with the size of its serialized form entered into the
    /// stats.
    pub fn with_compacted_size(self, compacted_size: usize) -> (r: Self)
        ensures
            r.schema == self.schema,
            r.data == self.data,
            r.dictionaries == self.dictionaries,
            r.fidelity == self.fidelity,
            r.stats == (CompressionStats { compacted_size, ..self.stats }),
    {
        let mut stats = self.stats;
        stats.compacted_size = compacted_size;
        EfficientCompactedData {
            schema: self.schema,
            data: self.data,
            dictionaries: self.dictionaries,
            stats,
            fidelity: self.fidelity,
        }
    }
}

/// Whether every one of `resources` has a field named `key`.
fn present_in_all(resources: &Vec<&Datum>, key: &str) -> (r: bool)
    ensures
        r == in_all(rows_view(resources@), key@),
{
    let mut i: usize = 0;
    while i < resources.len()
        invariant
            i <= resources.len(),
            forall|k: int| 0 <= k < i ==> has_key(#[trigger] rows_view(resources@)[k], key@),
        decreases resources.len() - i,
    {
        if resources[i].get(key).is_none() {
            assert(!has_key(rows_view(resources@)[i as int], key@));
            return false;
        }
        i += 1;
    }
    true
}

/// The pairs of a table, each turned round: the short key first.
fn swapped_pairs(pairs: &Vec<(String, String)>) -> (out: Vec<(String, String)>)
    ensures
        pairs_of(out@) == swapped(pairs_of(pairs@)),
{
    let mut out: Vec<(String, String)> = Vec::new();
    let mut i: usize = 0;
    while i < pairs.len()
        invariant
            i <= pairs.len(),
            out.len() == i,
            forall|k: int|
                0 <= k < i ==> (#[trigger] out[k]).0@ == pairs[k].1@ && out[k].1@ == pairs[k].0@,
        decreases pairs.len() - i,
    {
        out.push((pairs[i].1.clone(), pairs[i].0.clone()));
        i += 1;
    }
    assert(pairs_of(out@) =~= swapped(pairs_of(pairs@)));
    out
}

/// Whether `layout` has a column named `name`.
fn has_column_exec(layout: &Vec<(String, FieldType)>, name: &str) -> (r: bool)
    ensures
        r == has_column(layout_view(layout@), name@),
{
    let mut c: usize = 0;
    while c < layout.len()
        invariant
            c <= layout.len(),
            forall|k: int| 0 <= k < c ==> (#[trigger] layout_view(layout@)[k]).0 != name@,
        decreases layout.len() - c,
    {
        if same_text(layout[c].0.as_str(), name) {
            assert(layout_view(layout@)[c as int].0 == name@);
            return true;
        }
        c += 1;
    }
    false
}

/// The serialized form of `v`, or the empty text where it has none.
pub fn json_text_or_empty(v: &Datum) -> (text: String)
    ensures
        text@ == text_or_empty(v@),
{
    match datum_to_text(v) {
        Some(t) => t,
        None => String::new(),
    }
}

/// The cell that holds the code of `s` in `dictionary`; empty where `s` has
/// none.
fn code_cell_exec(dictionary: &ValueDictionary, s: &str) -> (cell: Cell)
    requires
        dictionary.wf(),
    ensures
        cell@ == code_cell(dictionary@, s@),
{
    match dictionary.lookup(s) {
        Some(c) => Cell::Code(c),
        None => Cell::Null,
    }
}


/// The position of the first field named `key`, if there is one.
fn position_exec(fields: &Vec<(String, Datum)>, key: &str) -> (r: Option<usize>)
    ensures
        match r {
            Some(i) => position_of(fields_view(fields@), key@) == Some(i as int) && i
                < fields.len(),
            None => position_of(fields_view(fields@), key@) is None,
        },
{
    let ghost all = fields_view(fields@);
    proof {
        lemma_fields_view_len(fields@);
    }
    let mut i: usize = 0;
    while i < fields.len()
        invariant
            i <= fields.len(),
            all == fields_view(fields@),
            all.len() == fields.len(),
            position_of(all.take(i as int), key@) is None,
        decreases fields.len() - i,
    {
        proof {
            lemma_fields_view_index(fields@, i as int);
            assert(all.take(i + 1).drop_last() == all.take(i as int));
        }
        if same_text(fields[i].0.as_str(), key) {
            proof {
                lemma_position_grows(all, key@, i + 1);
            }
            return Some(i);
        }
        i += 1;
    }
    assert(all.take(i as int) == all);
    None
}

/// Sets the field `key` to `value`: in place where there is such a field,
/// else at the end.
fn upsert(fields: &mut Vec<(String, Datum)>, key: String, value: Datum)
    ensures
        fields_view(final(fields)@) == upserted(fields_view(old(fields)@), key@, value@),
{
    broadcast use group_datum_view;

    let ghost before = fields@;
    match position_exec(fields, key.as_str()) {
        Some(i) => {
            fields[i] = (key, value);
            assert(fields_view(fields@) =~= fields_view(before).update(i as int, (key@, value@)));
        },
        None => {
            fields.push((key, value));
            assert(fields@.drop_last() =~= before);
        },
    }
}

/// The value that a cell stands for; `None` for an empty one.
fn decode_cell(ty: FieldType, cell: &Cell, urls: &Vec<String>, strings: &Vec<String>) -> (r:
    Option<Datum>)
    requires
        cell_typed(ty, cell@),
        cell_resolves(ty, cell@, urls.len() as nat, strings.len() as nat),
    ensures
        option_datum_view(r) == decoded_cell(ty, cell@, texts_of(urls@), texts_of(strings@)),
{
    match cell {
        Cell::Null => None,
        Cell::Int(i) => Some(Datum::Int(*i)),
        Cell::Float(t) => Some(Datum::Float(t.clone())),
        Cell::Bool(b) => Some(Datum::Bool(*b)),
        Cell::Code(c) => match ty {
            FieldType::Url => Some(Datum::Str(urls[(*c - 1) as usize].clone())),
            FieldType::Json => {
                let text = &strings[(*c - 1) as usize];
                match datum_from_text(text.as_str()) {
                    Some(v) => Some(v),
                    None => Some(Datum::Str(text.clone())),
                }
            },
            _ => Some(Datum::Str(strings[(*c - 1) as usize].clone())),
        },
    }
}

/// The content of a value that may be missing.
pub open spec fn option_datum_view(value: Option<Datum>) -> Option<DatumView> {
    match value {
        Some(v) => Some(v@),
        None => None,
    }
}

/// Whether every column of every group has one cell for each row.
#[verifier::loop_isolation(false)]
fn all_aligned(groups: &Vec<(String, TypedResourceGroup)>) -> (r: bool)
    ensures
        r == aligned(groups_view(groups@)),
{
    let mut g: usize = 0;
    while g < groups.len()
        invariant
            g <= groups.len(),
            forall|k: int| 0 <= k < g ==> group_aligned((#[trigger] groups_view(groups@)[k]).1),
        decreases groups.len() - g,
    {
        let group = &groups[g].1;
        let mut c: usize = 0;
        while c < group.columns.len()
            invariant
                c <= group.columns.len(),
                forall|k: int| 0 <= k < c ==> (#[trigger] group@.columns[k]).cells.len() == group.count,
            decreases group.columns.len() - c,
        {
            if group.columns[c].cells.len() != group.count {
                assert(group@.columns[c as int].cells.len() != group@.count);
                assert(!group_aligned(groups_view(groups@)[g as int].1));
                return false;
            }
            c += 1;
        }
        assert(group_aligned(groups_view(groups@)[g as int].1));
        g += 1;
    }
    true
}

/// Whether the cell meets the condition.
fn cell_holds_exec(ty: FieldType, cell: &Cell, codes: bool, urls: usize, strings: usize) -> (r:
    bool)
    ensures
        r == cell_holds(ty, cell@, codes, urls as nat, strings as nat),
{
    if codes {
        match cell {
            Cell::Code(c) => {
                let limit = match ty {
                    FieldType::Url => urls,
                    _ => strings,
                };
                *c >= 1 && (*c as usize) <= limit
            },
            _ => true,
        }
    } else {
        match cell {
            Cell::Null => true,
            Cell::Int(_) => match ty {
                FieldType::Int | FieldType::Float => true,
                _ => false,
            },
            Cell::Float(_) => match ty {
                FieldType::Float => true,
                _ => false,
            },
            Cell::Bool(_) => match ty {
                FieldType::Bool => true,
                _ => false,
            },
            Cell::Code(_) => match ty {
                FieldType::Str | FieldType::Url | FieldType::Json => true,
                _ => false,
            },
        }
    }
}

/// Whether every cell of every group meets the condition.
#[verifier::loop_isolation(false)]
fn all_hold(groups: &Vec<(String, TypedResourceGroup)>, codes: bool, urls: usize, strings: usize) -> (r:
    bool)
    ensures
        r == (forall|g: int|
            0 <= g < groups.len() ==> group_holds(
                (#[trigger] groups_view(groups@)[g]).1,
                codes,
                urls as nat,
                strings as nat,
            )),
{
    let mut g: usize = 0;
    while g < groups.len()
        invariant
            g <= groups.len(),
            forall|k: int|
                0 <= k < g ==> group_holds(
                    (#[trigger] groups_view(groups@)[k]).1,
                    codes,
                    urls as nat,
                    strings as nat,
                ),
        decreases groups.len() - g,
    {
        let group = &groups[g].1;
        let mut c: usize = 0;
        while c < group.columns.len()
            invariant
                c <= group.columns.len(),
                forall|k: int|
                    0 <= k < c ==> column_holds(
                        #[trigger] group@.columns[k],
                        codes,
                        urls as nat,
                        strings as nat,
                    ),
            decreases group.columns.len() - c,
        {
            let column = &group.columns[c];
            let mut i: usize = 0;
            while i < column.cells.len()
                invariant
                    i <= column.cells.len(),
                    forall|k: int|
                        0 <= k < i ==> cell_holds(
                            column.field_type,
                            #[trigger] column@.cells[k],
                            codes,
                            urls as nat,
                            strings as nat,
                        ),
                decreases column.cells.len() - i,
            {
                if !cell_holds_exec(column.field_type, &column.cells[i], codes, urls, strings) {
                    assert(column@.cells[i as int] == column.cells[i as int]@);
                    assert(!column_holds(column@, codes, urls as nat, strings as nat));
                    assert(group@.columns[c as int] == column@);
                    assert(!group_holds(group@, codes, urls as nat, strings as nat));
                    assert(groups_view(groups@)[g as int].1 == group@);
                    return false;
                }
                i += 1;
            }
            assert(column_holds(group@.columns[c as int], codes, urls as nat, strings as nat));
            c += 1;
        }
        assert(group_holds(groups_view(groups@)[g as int].1, codes, urls as nat, strings as nat));
        g += 1;
    }
    true
}

impl EfficientCompactor {
    /// Rebuilds the records from an artifact, and nothing else is needed for
    /// it.
    ///
    /// The records of the first group come first, in the order of its rows,
    /// then those of the second, and so on: not the order of the input of
    /// the run. Each record has its type field, and a field for each cell of
    /// its row that is not empty, under the canonical key of the column.
    ///
    /// Fails with `ColumnLength` exactly when a column has not one cell for
    /// each row of its group; else with `CellType` exactly when a cell is of
    /// a kind that the type of its column does not admit; else with
    /// `UnknownCode` exactly when a cell holds a code that its dictionary
    /// does not have.
    #[verifier::loop_isolation(false)]
    pub fn reconstruct_data(compacted: &EfficientCompactedData) -> (r: Result<Datum, DecodeError>)
        ensures
            match r {
                Ok(data) => {
                    &&& aligned(groups_view(compacted.data.resources@))
                    &&& typed(groups_view(compacted.data.resources@))
                    &&& resolvable(
                        groups_view(compacted.data.resources@),
                        compacted.dictionaries.urls.len() as nat,
                        compacted.dictionaries.strings.len() as nat,
                    )
                    &&& data@ == wrapped(
                        decoded_groups(
                            pairs_of(compacted.dictionaries.properties@),
                            groups_view(compacted.data.resources@),
                            texts_of(compacted.dictionaries.urls@),
                            texts_of(compacted.dictionaries.strings@),
                        ),
                    )
                },
                Err(DecodeError::ColumnLength) => !aligned(groups_view(compacted.data.resources@)),
                Err(DecodeError::CellType) => aligned(groups_view(compacted.data.resources@))
                    && !typed(groups_view(compacted.data.resources@)),
                Err(DecodeError::UnknownCode) => aligned(groups_view(compacted.data.resources@))
                    && typed(groups_view(compacted.data.resources@)) && !resolvable(
                    groups_view(compacted.data.resources@),
                    compacted.dictionaries.urls.len() as nat,
                    compacted.dictionaries.strings.len() as nat,
                ),
            },
    {
        broadcast use group_datum_view;

        let groups = &compacted.data.resources;
        let urls = &compacted.dictionaries.urls;
        let strings = &compacted.dictionaries.strings;
        let properties = &compacted.dictionaries.properties;
        if !all_aligned(groups) {
            return Err(DecodeError::ColumnLength);
        }
        if !all_hold(groups, false, 0, 0) {
            return Err(DecodeError::CellType);
        }
        if !all_hold(groups, true, urls.len(), strings.len()) {
            return Err(DecodeError::UnknownCode);
        }
        let ghost all = groups_view(groups@);
        let ghost table = pairs_of(properties@);
        let ghost url_texts = texts_of(urls@);
        let ghost string_texts = texts_of(strings@);
        let mut out: Vec<Datum> = Vec::new();
        let mut g: usize = 0;
        assert(all.take(0) =~= Seq::<(Seq<char>, GroupView)>::empty());
        while g < groups.len()
            invariant
                g <= groups.len(),
                all == groups_view(groups@),
                table == pairs_of(properties@),
                url_texts == texts_of(urls@),
                string_texts == texts_of(strings@),
                aligned(all),
                typed(all),
                resolvable(all, urls.len() as nat, strings.len() as nat),
                items_view(out@) == decoded_groups(table, all.take(g as int), url_texts, string_texts),
            decreases groups.len() - g,
        {
            let tag = &groups[g].0;
            let group = &groups[g].1;
            let ghost done = items_view(out@);
            let ghost wanted = decoded_group(table, tag@, group@, url_texts, string_texts);
            proof {
                assert(all.take(g + 1).drop_last() == all.take(g as int));
                assert(all.take(g + 1).last() == (tag@, group@));
                assert(all[g as int].1 == group@);
                assert(group_aligned(group@));
                assert(group_holds(group@, false, 0, 0));
                assert(group_holds(group@, true, urls.len() as nat, strings.len() as nat));
                assert(done + wanted.take(0) =~= done);
            }
            let mut i: usize = 0;
            while i < group.count
                invariant
                    i <= group.count,
                    table == pairs_of(properties@),
                    url_texts == texts_of(urls@),
                    string_texts == texts_of(strings@),
                    group_aligned(group@),
                    group_holds(group@, false, 0, 0),
                    group_holds(group@, true, urls.len() as nat, strings.len() as nat),
                    wanted == decoded_group(table, tag@, group@, url_texts, string_texts),
                    items_view(out@) == done + wanted.take(i as int),
                decreases group.count - i,
            {
                let mut fields: Vec<(String, Datum)> = Vec::new();
                fields.push(("resource_type".to_owned(), Datum::Str(expand_tag(tag.as_str()))));
                let ghost columns = group@.columns;
                proof {
                    assert(fields@.drop_last() =~= Seq::<(String, Datum)>::empty());
                    assert(fields_view(fields@) =~= start_fields(tag@));
                    assert(columns.take(0) =~= Seq::<ColumnView>::empty());
                }
                let mut c: usize = 0;
                while c < group.columns.len()
                    invariant
                        c <= group.columns.len(),
                        i < group.count,
                        table == pairs_of(properties@),
                        url_texts == texts_of(urls@),
                        string_texts == texts_of(strings@),
                        columns == group@.columns,
                        group_aligned(group@),
                        group_holds(group@, false, 0, 0),
                        group_holds(group@, true, urls.len() as nat, strings.len() as nat),
                        fields_view(fields@) == decoded_fields(
                            table,
                            columns.take(c as int),
                            i as int,
                            url_texts,
                            string_texts,
                            start_fields(tag@),
                        ),
                    decreases group.columns.len() - c,
                {
                    let column = &group.columns[c];
                    proof {
                        assert(columns.take(c + 1).drop_last() == columns.take(c as int));
                        assert(columns.take(c + 1).last() == column@);
                        assert(columns[c as int] == column@);
                        assert(column@.cells.len() == group.count);
                        assert(column_holds(columns[c as int], false, 0, 0));
                        assert(column_holds(
                            columns[c as int],
                            true,
                            urls.len() as nat,
                            strings.len() as nat,
                        ));
                        assert(column@.cells[i as int] == column.cells[i as int]@);
                        assert(cell_holds(column.field_type, column@.cells[i as int], false, 0, 0));
                        assert(cell_holds(
                            column.field_type,
                            column@.cells[i as int],
                            true,
                            urls.len() as nat,
                            strings.len() as nat,
                        ));
                    }
                    match decode_cell(column.field_type, &column.cells[i], urls, strings) {
                        Some(v) => {
                            let key = match second_for(properties, column.name.as_str()) {
                                Some(full) => full.clone(),
                                None => column.name.clone(),
                            };
                            upsert(&mut fields, key, v);
                        },
                        None => {},
                    }
                    c += 1;
                }
                assert(columns.take(c as int) == columns);
                let ghost before = out@;
                let record = Datum::Object(fields);
                out.push(record);
                proof {
                    assert(out@.drop_last() =~= before);
                    assert(record@ == wanted[i as int]);
                    assert(wanted.take(i + 1) =~= wanted.take(i as int).push(wanted[i as int]));
                    assert(items_view(out@) =~= done + wanted.take(i + 1));
                }
                i += 1;
            }
            assert(wanted.take(i as int) == wanted);
            g += 1;
        }
        assert(all.take(g as int) == all);
        let ghost records = items_view(out@);
        let mut top: Vec<(String, Datum)> = Vec::new();
        top.push(("subresources".to_owned(), Datum::Array(out)));
        proof {
            assert(top@.drop_last() =~= Seq::<(String, Datum)>::empty());
            assert(fields_view(top@) =~= seq![("subresources"@, DatumView::Array(records))]);
        }
        Ok(Datum::Object(top))
    }
}

} // verus!
