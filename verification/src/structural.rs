use vstd::prelude::*;
use crate::classify::{classify, positions, tags_of};
use crate::columnar::{group_rows, is_url, lemma_members_in_range, upserted};
use crate::json::{datum_to_text, text_of};
use crate::dictionary::{
    code_value, interned, lemma_interned, lemma_prefix_trans, texts_of, CodeWidth,
    ValueDictionary,
};
use crate::error::{CompactError, DecodeError};
use crate::fidelity::{fidelity_name, fidelity_text, FidelityMode};
use crate::stats::{bump, bump_by, bumped_by, compression_ratio_ppm, saved_ppm};
use crate::encode::{
    count_datum, count_value, int_datum, int_value, lemma_fields_all, pairs_datum, pairs_value,
};
use crate::text::{byte_len, decimal, decimal_text, same_text, text_starts_with, utf8_len};
use crate::truly_efficient_compactor::upsert;
use crate::value::{
    clone_datum, fields_view, items_view, lemma_fields_view_index, lemma_fields_view_len,
    lemma_items_view_index, lemma_items_view_len, lookup, Datum, DatumView, FieldsView,
};
use crate::fields::{
    abbreviated, expanded, first_for, pairs_of, short_of, slices_of, table_from, table_of,
    FieldAbbreviator, TableView,
};
use crate::written::{lemma_restructured_writable, lemma_rewritten_writable};

verus! {

/// Compacts a value in place: keys are abbreviated, URLs and long or
/// repeated texts are replaced by 32-bit codes.
pub struct DataCompactor {
    mappings: ValueDictionary,
    property_mappings: FieldAbbreviator,
}

/// The well-known canonical keys and their short keys.
pub open spec fn default_mappings() -> TableView {
    seq![
        (
            "https://atomicdata.dev/properties/isA"@,
            "isA"@,
        ),
        (
            "https://atomicdata.dev/properties/parent"@,
            "parent"@,
        ),
        (
            "https://atomicdata.dev/properties/lastCommit"@,
            "lastCommit"@,
        ),
        (
            "https://atomicdata.dev/properties/subresources"@,
            "subresources"@,
        ),
        (
            "https://common.terraphim.io/01jxw2jx8qze6yakh4fz24mnhy/property/company-name"@,
            "companyName"@,
        ),
        (
            "https://common.terraphim.io/01jxw2jx8qze6yakh4fz24mnhy/property/company-description"@,
            "companyDesc"@,
        ),
        (
            "https://common.terraphim.io/01jxw2jx8qze6yakh4fz24mnhy/property/business-website"@,
            "website"@,
        ),
        (
            "https://common.terraphim.io/01jxw2jx8qze6yakh4fz24mnhy/property/company-registration-number"@,
            "regNumber"@,
        ),
        (
            "https://common.terraphim.io/01jxw2jx8qze6yakh4fz24mnhy/property/year-of-incorporation"@,
            "yearInc"@,
        ),
        (
            "https://common.terraphim.io/01jxw2jx8qze6yakh4fz24mnhy/property/country-of-registration"@,
            "country"@,
        ),
        (
            "https://common.terraphim.io/01jxw2jx8qze6yakh4fz24mnhy/property/trading-name"@,
            "tradingName"@,
        ),
        (
            "https://common.terraphim.io/01jxw2jx8qze6yakh4fz24mnhy/property/business-type"@,
            "bizType"@,
        ),
        (
            "https://common.terraphim.io/01jxw2jx8qze6yakh4fz24mnhy/property/annual-revenue"@,
            "revenue"@,
        ),
        (
            "https://common.terraphim.io/01jxw2jx8qze6yakh4fz24mnhy/property/number-of-employees"@,
            "employees"@,
        ),
        (
            "https://common.terraphim.io/01jxw2jx8qze6yakh4fz24mnhy/property/years-in-business"@,
            "yearsInBiz"@,
        ),
        (
            "https://common.terraphim.io/01jxw2jx8qze6yakh4fz24mnhy/property/is-business-female-lead"@,
            "femaleLed"@,
        ),
        (
            "https://common.terraphim.io/01jxw2jx8qze6yakh4fz24mnhy/property/board-of-directors"@,
            "board"@,
        ),
        (
            "https://common.terraphim.io/01jxw2jx8qze6yakh4fz24mnhy/property/key-management-personnel"@,
            "management"@,
        ),
        (
            "https://common.terraphim.io/01jxw2jx8qze6yakh4fz24mnhy/property/business-owners"@,
            "owners"@,
        ),
        (
            "https://common.terraphim.io/01jxw2jx8qze6yakh4fz24mnhy/property/business-auditors"@,
            "auditors"@,
        ),
    ]
}

impl DataCompactor {
    /// The dictionary of the URLs and texts, which share one run of codes.
    pub closed spec fn dictionary(&self) -> ValueDictionary {
        self.mappings
    }

    /// The table of canonical keys and their short keys.
    pub closed spec fn abbreviations(&self) -> TableView {
        self.property_mappings@
    }

    /// The dictionary is sound and has 32-bit codes, and the table is
    /// reversible.
    pub open spec fn wf(&self) -> bool {
        &&& self.dictionary().wf()
        &&& self.dictionary().width() == CodeWidth::Bits32
        &&& crate::fields::reversible(self.abbreviations())
    }

    /// A compactor with an empty dictionary and the well-known mappings.
    pub fn new() -> (c: Self)
        ensures
            c.wf(),
            c.dictionary()@ == Seq::<Seq<char>>::empty(),
            c.abbreviations() == table_from(default_mappings()),
    {
        DataCompactor {
            mappings: ValueDictionary::new(CodeWidth::Bits32),
            property_mappings: Self::initialize_property_mappings(),
        }
    }

    /// The table of the well-known mappings.
    pub fn initialize_property_mappings() -> (t: FieldAbbreviator)
        ensures
            t.wf(),
            t@ == table_from(default_mappings()),
    {
        let pairs: Vec<(&'static str, &'static str)> = vec![
            (
                "https://atomicdata.dev/properties/isA",
                "isA",
            ),
            (
                "https://atomicdata.dev/properties/parent",
                "parent",
            ),
            (
                "https://atomicdata.dev/properties/lastCommit",
                "lastCommit",
            ),
            (
                "https://atomicdata.dev/properties/subresources",
                "subresources",
            ),
            (
                "https://common.terraphim.io/01jxw2jx8qze6yakh4fz24mnhy/property/company-name",
                "companyName",
            ),
            (
                "https://common.terraphim.io/01jxw2jx8qze6yakh4fz24mnhy/property/company-description",
                "companyDesc",
            ),
            (
                "https://common.terraphim.io/01jxw2jx8qze6yakh4fz24mnhy/property/business-website",
                "website",
            ),
            (
                "https://common.terraphim.io/01jxw2jx8qze6yakh4fz24mnhy/property/company-registration-number",
                "regNumber",
            ),
            (
                "https://common.terraphim.io/01jxw2jx8qze6yakh4fz24mnhy/property/year-of-incorporation",
                "yearInc",
            ),
            (
                "https://common.terraphim.io/01jxw2jx8qze6yakh4fz24mnhy/property/country-of-registration",
                "country",
            ),
            (
                "https://common.terraphim.io/01jxw2jx8qze6yakh4fz24mnhy/property/trading-name",
                "tradingName",
            ),
            (
                "https://common.terraphim.io/01jxw2jx8qze6yakh4fz24mnhy/property/business-type",
                "bizType",
            ),
            (
                "https://common.terraphim.io/01jxw2jx8qze6yakh4fz24mnhy/property/annual-revenue",
                "revenue",
            ),
            (
                "https://common.terraphim.io/01jxw2jx8qze6yakh4fz24mnhy/property/number-of-employees",
                "employees",
            ),
            (
                "https://common.terraphim.io/01jxw2jx8qze6yakh4fz24mnhy/property/years-in-business",
                "yearsInBiz",
            ),
            (
                "https://common.terraphim.io/01jxw2jx8qze6yakh4fz24mnhy/property/is-business-female-lead",
                "femaleLed",
            ),
            (
                "https://common.terraphim.io/01jxw2jx8qze6yakh4fz24mnhy/property/board-of-directors",
                "board",
            ),
            (
                "https://common.terraphim.io/01jxw2jx8qze6yakh4fz24mnhy/property/key-management-personnel",
                "management",
            ),
            (
                "https://common.terraphim.io/01jxw2jx8qze6yakh4fz24mnhy/property/business-owners",
                "owners",
            ),
            (
                "https://common.terraphim.io/01jxw2jx8qze6yakh4fz24mnhy/property/business-auditors",
                "auditors",
            ),
        ];
        assert(slices_of(pairs@) =~= default_mappings());
        table_of(&pairs)
    }
}


/// The counters and sizes of a run.
#[derive(Clone, Copy, Debug, PartialEq, Eq, Structural)]
pub struct CompressionStats {
    pub original_size: usize,
    pub compacted_size: usize,
    pub urls_compressed: u32,
    pub strings_compressed: u32,
    pub properties_abbreviated: u32,
}

impl CompressionStats {
    /// The share of the original size that was saved, in millionths. It is
    /// not positive where the compacted form is no smaller than the original.
    pub fn compression_ratio_ppm(&self) -> (r: i128)
        ensures
            r == saved_ppm(self.original_size as nat, self.compacted_size as nat),
            self.compacted_size >= self.original_size ==> r <= 0,
    {
        compression_ratio_ppm(self.original_size, self.compacted_size)
    }
}

/// The artifact of a run that rewrites values in place.
#[derive(Debug, PartialEq, Eq)]
pub struct CompactedData {
    /// The rewritten value.
    pub data: Datum,
    /// The URLs that were replaced, each with its code.
    pub url_lookup: Vec<(u32, String)>,
    /// The other texts that were replaced, each with its code.
    pub string_lookup: Vec<(u32, String)>,
    /// Pairs of a canonical key and the short key that stands for it.
    pub property_lookup: Vec<(String, String)>,
    pub stats: CompressionStats,
    /// Always `Substitution`: decoding does not restore the top level of
    /// the input.
    pub fidelity: FidelityMode,
}

/// A text that is replaced by a code: a URL, or a text of more than 50
/// bytes.
pub open spec fn replaced(s: Seq<char>) -> bool {
    is_url(s) || utf8_len(s) > 50
}

/// The entries of the dictionary after a value was rewritten: the texts in
/// it that are replaced are interned, in the order in which they stand.
pub open spec fn after_rewrite(v: DatumView, entries: Seq<Seq<char>>) -> Seq<Seq<char>>
    decreases v,
{
    match v {
        DatumView::Str(s) => if replaced(s) {
            interned(entries, s)
        } else {
            entries
        },
        DatumView::Array(items) => after_rewrite_items(items, entries),
        DatumView::Object(fields) => after_rewrite_fields(fields, entries),
        _ => entries,
    }
}

/// The entries of the dictionary after the given items were rewritten.
pub open spec fn after_rewrite_items(items: Seq<DatumView>, entries: Seq<Seq<char>>) -> Seq<
    Seq<char>,
>
    decreases items,
{
    if items.len() == 0 {
        entries
    } else {
        after_rewrite(items.last(), after_rewrite_items(items.drop_last(), entries))
    }
}

/// The entries of the dictionary after the values of the given fields were
/// rewritten.
pub open spec fn after_rewrite_fields(fields: FieldsView, entries: Seq<Seq<char>>) -> Seq<
    Seq<char>,
>
    decreases fields,
{
    if fields.len() == 0 {
        entries
    } else {
        after_rewrite(fields.last().1, after_rewrite_fields(fields.drop_last(), entries))
    }
}

/// How many keys in a value the table abbreviates.
pub open spec fn abbreviations_within(table: TableView, v: DatumView) -> nat
    decreases v,
{
    match v {
        DatumView::Array(items) => abbreviations_in_items(table, items),
        DatumView::Object(fields) => abbreviations_in_fields(table, fields),
        _ => 0,
    }
}

/// How many keys in the given items the table abbreviates.
pub open spec fn abbreviations_in_items(table: TableView, items: Seq<DatumView>) -> nat
    decreases items,
{
    if items.len() == 0 {
        0
    } else {
        abbreviations_in_items(table, items.drop_last()) + abbreviations_within(table, items.last())
    }
}

/// How many keys of the given fields, and in their values, the table
/// abbreviates.
pub open spec fn abbreviations_in_fields(table: TableView, fields: FieldsView) -> nat
    decreases fields,
{
    if fields.len() == 0 {
        0
    } else {
        abbreviations_in_fields(table, fields.drop_last()) + (if short_of(table, fields.last().0)
            is Some {
            1nat
        } else {
            0nat
        }) + abbreviations_within(table, fields.last().1)
    }
}

/// The rewritten form of a value, given the table and the dictionary: a key
/// is replaced by its short key, a text that is replaced by its code, a
/// truth value by `T` or `F`; every other leaf stays.
pub open spec fn rewritten(v: DatumView, table: TableView, entries: Seq<Seq<char>>) -> DatumView
    decreases v,
{
    match v {
        DatumView::Str(s) => if replaced(s) {
            code_value(entries, s, v)
        } else {
            v
        },
        DatumView::Bool(b) => DatumView::Str(
            if b {
                "T"@
            } else {
                "F"@
            },
        ),
        DatumView::Array(items) => DatumView::Array(rewritten_items(items, table, entries)),
        DatumView::Object(fields) => DatumView::Object(rewritten_fields(fields, table, entries)),
        _ => v,
    }
}

/// The rewritten forms of the given items, in order.
pub open spec fn rewritten_items(
    items: Seq<DatumView>,
    table: TableView,
    entries: Seq<Seq<char>>,
) -> Seq<DatumView>
    decreases items,
{
    if items.len() == 0 {
        Seq::empty()
    } else {
        rewritten_items(items.drop_last(), table, entries).push(
            rewritten(items.last(), table, entries),
        )
    }
}

/// The rewritten fields: each is set under its short key, in order, so that
/// of two fields with one short key the later one stays.
pub open spec fn rewritten_fields(
    fields: FieldsView,
    table: TableView,
    entries: Seq<Seq<char>>,
) -> FieldsView
    decreases fields,
{
    if fields.len() == 0 {
        Seq::empty()
    } else {
        upserted(
            rewritten_fields(fields.drop_last(), table, entries),
            abbreviated(table, fields.last().0),
            rewritten(fields.last().1, table, entries),
        )
    }
}

/// Rewriting a value adds at the end of the dictionary, if at all.
pub proof fn lemma_after_rewrite(v: DatumView, entries: Seq<Seq<char>>)
    ensures
        entries.is_prefix_of(after_rewrite(v, entries)),
    decreases v,
{
    assert(entries.subrange(0, entries.len() as int) =~= entries);
    match v {
        DatumView::Str(s) => {
            lemma_interned(entries, s);
        },
        DatumView::Array(items) => {
            lemma_after_rewrite_items(items, entries, 0);
            assert(items.take(0) =~= Seq::<DatumView>::empty());
        },
        DatumView::Object(fields) => {
            lemma_after_rewrite_fields(fields, entries, 0);
            assert(fields.take(0) =~= FieldsView::empty());
        },
        _ => {},
    }
}

/// Rewriting the first `n` items leaves a dictionary that the one after all
/// items begins with.
pub proof fn lemma_after_rewrite_items(items: Seq<DatumView>, entries: Seq<Seq<char>>, n: int)
    requires
        0 <= n <= items.len(),
    ensures
        after_rewrite_items(items.take(n), entries).is_prefix_of(
            after_rewrite_items(items, entries),
        ),
    decreases items, items.len() - n,
{
    let here = after_rewrite_items(items.take(n), entries);
    if n < items.len() {
        assert(items.take(n + 1).drop_last() == items.take(n));
        assert(items.take(n + 1).last() == items[n]);
        lemma_after_rewrite(items[n], here);
        lemma_after_rewrite_items(items, entries, n + 1);
        lemma_prefix_trans(
            here,
            after_rewrite_items(items.take(n + 1), entries),
            after_rewrite_items(items, entries),
        );
    } else {
        assert(items.take(n) == items);
        assert(here.subrange(0, here.len() as int) =~= here);
    }
}

/// Rewriting the first `n` fields leaves a dictionary that the one after
/// all fields begins with.
pub proof fn lemma_after_rewrite_fields(fields: FieldsView, entries: Seq<Seq<char>>, n: int)
    requires
        0 <= n <= fields.len(),
    ensures
        after_rewrite_fields(fields.take(n), entries).is_prefix_of(
            after_rewrite_fields(fields, entries),
        ),
    decreases fields, fields.len() - n,
{
    let here = after_rewrite_fields(fields.take(n), entries);
    if n < fields.len() {
        assert(fields.take(n + 1).drop_last() == fields.take(n));
        assert(fields.take(n + 1).last() == fields[n]);
        lemma_after_rewrite(fields[n].1, here);
        lemma_after_rewrite_fields(fields, entries, n + 1);
        lemma_prefix_trans(
            here,
            after_rewrite_fields(fields.take(n + 1), entries),
            after_rewrite_fields(fields, entries),
        );
    } else {
        assert(fields.take(n) == fields);
        assert(here.subrange(0, here.len() as int) =~= here);
    }
}

impl DataCompactor {
    /// Whether a text looks like a URL.
    pub fn is_url(&self, s: &str) -> (r: bool)
        ensures
            r == is_url(s@),
    {
        text_starts_with(s, "https://") || text_starts_with(s, "http://")
    }

    /// Puts the texts of a value that are replaced into the dictionary.
    ///
    /// Fails exactly when the dictionary would come to hold more texts than
    /// it has codes.
    pub fn intern_within(&mut self, value: &Datum) -> (r: Result<(), CompactError>)
        requires
            old(self).wf(),
        ensures
            final(self).wf(),
            final(self).abbreviations() == old(self).abbreviations(),
            old(self).dictionary()@.is_prefix_of(final(self).dictionary()@),
            r is Ok <==> after_rewrite(value@, old(self).dictionary()@).len()
                <= CodeWidth::Bits32.capacity(),
            match r {
                Ok(_) => final(self).dictionary()@ == after_rewrite(value@, old(self).dictionary()@),
                Err(e) => e == CompactError::DictionaryExhausted,
            },
        decreases value,
    {
        let ghost entries0 = self.dictionary()@;
        proof {
            assert(entries0.subrange(0, entries0.len() as int) =~= entries0);
        }
        match value {
            Datum::Str(s) => {
                if self.is_url(s.as_str()) || byte_len(s.as_str()) > 50 {
                    proof {
                        lemma_interned(entries0, s@);
                    }
                    match self.mappings.intern(s.as_str()) {
                        Ok(_) => Ok(()),
                        Err(e) => Err(e),
                    }
                } else {
                    Ok(())
                }
            },
            Datum::Array(items) => {
                let ghost views = items_view(items@);
                proof {
                    lemma_items_view_len(items@);
                    assert(views.take(0) =~= Seq::<DatumView>::empty());
                }
                let mut i: usize = 0;
                while i < items.len()
                    invariant
                        i <= items.len(),
                        *value == Datum::Array(*items),
                        views == items_view(items@),
                        views.len() == items.len(),
                        value@ == DatumView::Array(views),
                        self.wf(),
                        self.abbreviations() == old(self).abbreviations(),
                        entries0 == old(self).dictionary()@,
                        entries0.is_prefix_of(self.dictionary()@),
                        self.dictionary()@ == after_rewrite_items(views.take(i as int), entries0),
                    decreases items.len() - i,
                {
                    let ghost here = self.dictionary()@;
                    proof {
                        lemma_items_view_index(items@, i as int);
                        assert(views.take(i + 1).drop_last() == views.take(i as int));
                        assert(views.take(i + 1).last() == items[i as int]@);
                        assert(decreases_to!(*value => value->Array_0));
                        assert(decreases_to!(*items => items[i as int]));
                    }
                    let item = &items[i];
                    let outcome = self.intern_within(item);
                    proof {
                        lemma_prefix_trans(entries0, here, self.dictionary()@);
                    }
                    match outcome {
                        Ok(_) => {},
                        Err(e) => {
                            proof {
                                lemma_after_rewrite_items(views, entries0, i + 1);
                            }
                            return Err(e);
                        },
                    }
                    i += 1;
                }
                assert(views.take(i as int) == views);
                Ok(())
            },
            Datum::Object(fields) => {
                let ghost views = fields_view(fields@);
                proof {
                    lemma_fields_view_len(fields@);
                    assert(views.take(0) =~= FieldsView::empty());
                }
                let mut i: usize = 0;
                while i < fields.len()
                    invariant
                        i <= fields.len(),
                        *value == Datum::Object(*fields),
                        views == fields_view(fields@),
                        views.len() == fields.len(),
                        value@ == DatumView::Object(views),
                        self.wf(),
                        self.abbreviations() == old(self).abbreviations(),
                        entries0 == old(self).dictionary()@,
                        entries0.is_prefix_of(self.dictionary()@),
                        self.dictionary()@ == after_rewrite_fields(views.take(i as int), entries0),
                    decreases fields.len() - i,
                {
                    let ghost here = self.dictionary()@;
                    proof {
                        lemma_fields_view_index(fields@, i as int);
                        assert(views.take(i + 1).drop_last() == views.take(i as int));
                        assert(views.take(i + 1).last() == (fields[i as int].0@, fields[i as int].1@));
                        assert(decreases_to!(*value => value->Object_0));
                        assert(decreases_to!(*fields => fields[i as int]));
                        assert(decreases_to!(fields[i as int] => fields[i as int].1));
                    }
                    let inner = &fields[i].1;
                    let outcome = self.intern_within(inner);
                    proof {
                        lemma_prefix_trans(entries0, here, self.dictionary()@);
                    }
                    match outcome {
                        Ok(_) => {},
                        Err(e) => {
                            proof {
                                lemma_after_rewrite_fields(views, entries0, i + 1);
                            }
                            return Err(e);
                        },
                    }
                    i += 1;
                }
                assert(views.take(i as int) == views);
                Ok(())
            },
            _ => Ok(()),
        }
    }

    /// The rewritten form of a value, given the dictionary as it is. Counts
    /// every key that the table abbreviates.
    pub fn rewrite(&self, value: &Datum, stats: &mut CompressionStats) -> (r: Datum)
        requires
            self.wf(),
        ensures
            r@ == rewritten(value@, self.abbreviations(), self.dictionary()@),
            *final(stats) == (CompressionStats {
                properties_abbreviated: bumped_by(
                    old(stats).properties_abbreviated,
                    abbreviations_within(self.abbreviations(), value@),
                ),
                ..*old(stats)
            }),
        decreases value,
    {
        match value {
            Datum::Str(s) => {
                if self.is_url(s.as_str()) || byte_len(s.as_str()) > 50 {
                    match self.mappings.lookup(s.as_str()) {
                        Some(c) => Datum::Int(c as i64),
                        None => Datum::Str(s.clone()),
                    }
                } else {
                    Datum::Str(s.clone())
                }
            },
            Datum::Bool(b) => {
                if *b {
                    Datum::Str("T".to_owned())
                } else {
                    Datum::Str("F".to_owned())
                }
            },
            Datum::Array(items) => {
                let ghost views = items_view(items@);
                let ghost table = self.abbreviations();
                proof {
                    lemma_items_view_len(items@);
                    assert(views.take(0) =~= Seq::<DatumView>::empty());
                }
                let mut out: Vec<Datum> = Vec::new();
                let mut i: usize = 0;
                while i < items.len()
                    invariant
                        i <= items.len(),
                        *value == Datum::Array(*items),
                        views == items_view(items@),
                        views.len() == items.len(),
                        self.wf(),
                        table == self.abbreviations(),
                        items_view(out@) == rewritten_items(
                            views.take(i as int),
                            table,
                            self.dictionary()@,
                        ),
                        *stats == (CompressionStats {
                            properties_abbreviated: bumped_by(
                                old(stats).properties_abbreviated,
                                abbreviations_in_items(table, views.take(i as int)),
                            ),
                            ..*old(stats)
                        }),
                    decreases items.len() - i,
                {
                    proof {
                        lemma_items_view_index(items@, i as int);
                        assert(views.take(i + 1).drop_last() == views.take(i as int));
                        assert(views.take(i + 1).last() == items[i as int]@);
                        assert(decreases_to!(*value => value->Array_0));
                        assert(decreases_to!(*items => items[i as int]));
                    }
                    let item = &items[i];
                    let ghost before = out@;
                    out.push(self.rewrite(item, stats));
                    assert(out@.drop_last() =~= before);
                    i += 1;
                }
                assert(views.take(i as int) == views);
                Datum::Array(out)
            },
            Datum::Object(fields) => {
                let ghost views = fields_view(fields@);
                let ghost table = self.abbreviations();
                proof {
                    lemma_fields_view_len(fields@);
                    assert(views.take(0) =~= FieldsView::empty());
                }
                let mut out: Vec<(String, Datum)> = Vec::new();
                proof {
                    lemma_fields_view_len(out@);
                }
                let mut i: usize = 0;
                while i < fields.len()
                    invariant
                        i <= fields.len(),
                        *value == Datum::Object(*fields),
                        views == fields_view(fields@),
                        views.len() == fields.len(),
                        self.wf(),
                        table == self.abbreviations(),
                        fields_view(out@) == rewritten_fields(
                            views.take(i as int),
                            table,
                            self.dictionary()@,
                        ),
                        *stats == (CompressionStats {
                            properties_abbreviated: bumped_by(
                                old(stats).properties_abbreviated,
                                abbreviations_in_fields(table, views.take(i as int)),
                            ),
                            ..*old(stats)
                        }),
                    decreases fields.len() - i,
                {
                    proof {
                        lemma_fields_view_index(fields@, i as int);
                        assert(views.take(i + 1).drop_last() == views.take(i as int));
                        assert(views.take(i + 1).last() == (fields[i as int].0@, fields[i as int].1@));
                        assert(decreases_to!(*value => value->Object_0));
                        assert(decreases_to!(*fields => fields[i as int]));
                        assert(decreases_to!(fields[i as int] => fields[i as int].1));
                    }
                    let key = match self.property_mappings.short_for(fields[i].0.as_str()) {
                        Some(short) => {
                            stats.properties_abbreviated = bump(stats.properties_abbreviated);
                            short.clone()
                        },
                        None => fields[i].0.clone(),
                    };
                    let inner = &fields[i].1;
                    let rewritten_value = self.rewrite(inner, stats);
                    upsert(&mut out, key, rewritten_value);
                    i += 1;
                }
                assert(views.take(i as int) == views);
                Datum::Object(out)
            },
            _ => clone_datum(value),
        }
    }

    /// Rewrites a value: keys are abbreviated, URLs and long texts replaced
    /// by their codes, truth values by `T` and `F`.
    ///
    /// Fails exactly when the dictionary would come to hold more texts than
    /// it has codes.
    pub fn compact_value(&mut self, value: &Datum, stats: &mut CompressionStats) -> (r: Result<
        Datum,
        CompactError,
    >)
        requires
            old(self).wf(),
        ensures
            final(self).wf(),
            final(self).abbreviations() == old(self).abbreviations(),
            old(self).dictionary()@.is_prefix_of(final(self).dictionary()@),
            r is Ok <==> after_rewrite(value@, old(self).dictionary()@).len()
                <= CodeWidth::Bits32.capacity(),
            match r {
                Ok(v) => {
                    &&& final(self).dictionary()@ == after_rewrite(value@, old(self).dictionary()@)
                    &&& v@ == rewritten(
                        value@,
                        old(self).abbreviations(),
                        final(self).dictionary()@,
                    )
                    &&& *final(stats) == (CompressionStats {
                        properties_abbreviated: bumped_by(
                            old(stats).properties_abbreviated,
                            abbreviations_within(old(self).abbreviations(), value@),
                        ),
                        ..*old(stats)
                    })
                },
                Err(e) => e == CompactError::DictionaryExhausted && *final(stats) == *old(stats),
            },
    {
        match self.intern_within(value) {
            Ok(_) => Ok(self.rewrite(value, stats)),
            Err(e) => Err(e),
        }
    }
}


/// The fields without those named `key`.
pub open spec fn without(fields: FieldsView, key: Seq<char>) -> FieldsView
    decreases fields.len(),
{
    if fields.len() == 0 {
        Seq::empty()
    } else if fields.last().0 == key {
        without(fields.drop_last(), key)
    } else {
        without(fields.drop_last(), key).push(fields.last())
    }
}

/// The groups of the given tags as fields: under each tag the array of the
/// records of its group, in the order of the input.
pub open spec fn grouped_fields(records: Seq<DatumView>, tags: Seq<Seq<char>>) -> FieldsView {
    Seq::new(tags.len(), |g: int| (tags[g], DatumView::Array(group_rows(records, tags[g]))))
}

/// The input with its records grouped by type: where it is an object whose
/// field `subresources` is an array, that field is taken out, and the field
/// `subresources_grouped` is set to an object that holds, under each type
/// tag, the array of the records of that type. A record without a type is
/// left out. Any other input stays as it is.
pub open spec fn restructured(data: DatumView) -> DatumView {
    match data {
        DatumView::Object(fields) => match lookup(fields, "subresources"@) {
            Some(DatumView::Array(items)) => DatumView::Object(
                without(
                    upserted(
                        fields,
                        "subresources_grouped"@,
                        DatumView::Object(grouped_fields(items, tags_of(items))),
                    ),
                    "subresources"@,
                ),
            ),
            _ => data,
        },
        _ => data,
    }
}

/// The entries that are URLs (`urls`), or those that are not, each with its
/// code, in the order of the codes.
pub open spec fn coded(entries: Seq<Seq<char>>, urls: bool) -> Seq<(u32, Seq<char>)>
    decreases entries.len(),
{
    if entries.len() == 0 {
        Seq::empty()
    } else if is_url(entries.last()) == urls {
        coded(entries.drop_last(), urls).push((entries.len() as u32, entries.last()))
    } else {
        coded(entries.drop_last(), urls)
    }
}

/// The codes and texts held in a lookup table, the texts as texts.
pub open spec fn lookup_view(table: Seq<(u32, String)>) -> Seq<(u32, Seq<char>)> {
    Seq::new(table.len(), |i: int| (table[i].0, table[i].1@))
}

/// The text that a lookup table has for a code: that of the first pair with
/// the code.
pub open spec fn text_for(table: Seq<(u32, Seq<char>)>, code: u32) -> Option<Seq<char>>
    decreases table.len(),
{
    if table.len() == 0 {
        None
    } else if table[0].0 == code {
        Some(table[0].1)
    } else {
        text_for(table.drop_first(), code)
    }
}

/// The code that a number is taken for: what is left of it after division
/// by 2 to the 32. A negative number is taken for none.
pub open spec fn number_code(i: i64) -> Option<u32> {
    if i >= 0 {
        Some((i as int % 0x1_0000_0000) as u32)
    } else {
        None
    }
}

/// What a rewritten value stands for: a key stands for the canonical key
/// that the table has for it; a number whose code one of the lookup tables
/// has stands for the text with that code, that of the URLs first; `T` and
/// `F` stand for the truth values; every other leaf stands for itself.
pub open spec fn restored(
    v: DatumView,
    table: TableView,
    urls: Seq<(u32, Seq<char>)>,
    strings: Seq<(u32, Seq<char>)>,
) -> DatumView
    decreases v,
{
    match v {
        DatumView::Int(i) => match number_code(i) {
            Some(code) => match text_for(urls, code) {
                Some(t) => DatumView::Str(t),
                None => match text_for(strings, code) {
                    Some(t) => DatumView::Str(t),
                    None => v,
                },
            },
            None => v,
        },
        DatumView::Str(s) => if s == "T"@ {
            DatumView::Bool(true)
        } else if s == "F"@ {
            DatumView::Bool(false)
        } else {
            v
        },
        DatumView::Array(items) => DatumView::Array(restored_items(items, table, urls, strings)),
        DatumView::Object(fields) => DatumView::Object(
            restored_fields(fields, table, urls, strings),
        ),
        _ => v,
    }
}

/// What the given items stand for, in order.
pub open spec fn restored_items(
    items: Seq<DatumView>,
    table: TableView,
    urls: Seq<(u32, Seq<char>)>,
    strings: Seq<(u32, Seq<char>)>,
) -> Seq<DatumView>
    decreases items,
{
    if items.len() == 0 {
        Seq::empty()
    } else {
        restored_items(items.drop_last(), table, urls, strings).push(
            restored(items.last(), table, urls, strings),
        )
    }
}

/// What the given fields stand for: each is set under its canonical key, in
/// order.
pub open spec fn restored_fields(
    fields: FieldsView,
    table: TableView,
    urls: Seq<(u32, Seq<char>)>,
    strings: Seq<(u32, Seq<char>)>,
) -> FieldsView
    decreases fields,
{
    if fields.len() == 0 {
        Seq::empty()
    } else {
        upserted(
            restored_fields(fields.drop_last(), table, urls, strings),
            expanded(table, fields.last().0),
            restored(fields.last().1, table, urls, strings),
        )
    }
}

/// `artifact` is what a run leaves that started with the table `table` and
/// with a dictionary that held `entries0`, on the input `data` of the given
/// serialized size. Of the compacted size nothing is said.
pub open spec fn rewritten_artifact(
    artifact: &CompactedData,
    table: TableView,
    data: DatumView,
    entries0: Seq<Seq<char>>,
    original_size: nat,
) -> bool {
    let entries = after_rewrite(restructured(data), entries0);
    &&& artifact.data@ == rewritten(restructured(data), table, entries)
    &&& lookup_view(artifact.url_lookup@) == coded(entries, true)
    &&& lookup_view(artifact.string_lookup@) == coded(entries, false)
    &&& pairs_of(artifact.property_lookup@) == table
    &&& artifact.stats == (CompressionStats {
        original_size: original_size as usize,
        compacted_size: artifact.stats.compacted_size,
        urls_compressed: bumped_by(
            0,
            (coded(entries, true).len() - coded(entries0, true).len()) as nat,
        ),
        strings_compressed: bumped_by(
            0,
            (coded(entries, false).len() - coded(entries0, false).len()) as nat,
        ),
        properties_abbreviated: bumped_by(0, abbreviations_within(table, restructured(data))),
    })
    &&& artifact.fidelity == FidelityMode::Substitution
}

/// The entries of a longer dictionary with a code hold those of one that it
/// begins with.
pub proof fn lemma_coded_grows(entries: Seq<Seq<char>>, longer: Seq<Seq<char>>, urls: bool)
    requires
        entries.is_prefix_of(longer),
    ensures
        coded(entries, urls).len() <= coded(longer, urls).len(),
    decreases longer.len(),
{
    if entries.len() < longer.len() {
        assert(longer.drop_last().subrange(0, entries.len() as int) =~= longer.subrange(
            0,
            entries.len() as int,
        ));
        lemma_coded_grows(entries, longer.drop_last(), urls);
    } else {
        assert(longer.subrange(0, entries.len() as int) =~= longer);
    }
}

/// The copies of the given fields, without those named `key`.
fn fields_without(fields: &Vec<(String, Datum)>, key: &str) -> (out: Vec<(String, Datum)>)
    ensures
        fields_view(out@) == without(fields_view(fields@), key@),
{
    let ghost all = fields_view(fields@);
    proof {
        lemma_fields_view_len(fields@);
        assert(all.take(0) =~= FieldsView::empty());
    }
    let mut out: Vec<(String, Datum)> = Vec::new();
    proof {
        lemma_fields_view_len(out@);
    }
    let mut i: usize = 0;
    while i < fields.len()
        invariant
            i <= fields.len(),
            all == fields_view(fields@),
            all.len() == fields.len(),
            fields_view(out@) == without(all.take(i as int), key@),
        decreases fields.len() - i,
    {
        proof {
            lemma_fields_view_index(fields@, i as int);
            assert(all.take(i + 1).drop_last() == all.take(i as int));
            assert(all.take(i + 1).last() == (fields[i as int].0@, fields[i as int].1@));
        }
        if !same_text(fields[i].0.as_str(), key) {
            let ghost before = out@;
            out.push((fields[i].0.clone(), clone_datum(&fields[i].1)));
            assert(out@.drop_last() =~= before);
        }
        i += 1;
    }
    assert(all.take(i as int) == all);
    out
}

/// The text that a lookup table has for a code.
fn text_for_exec<'a>(table: &'a Vec<(u32, String)>, code: u32) -> (r: Option<&'a String>)
    ensures
        match r {
            Some(t) => text_for(lookup_view(table@), code) == Some(t@),
            None => text_for(lookup_view(table@), code) is None,
        },
{
    let ghost all = lookup_view(table@);
    let mut i: usize = 0;
    assert(all.skip(0) =~= all);
    while i < table.len()
        invariant
            i <= table.len(),
            all == lookup_view(table@),
            text_for(all.skip(i as int), code) == text_for(all, code),
        decreases table.len() - i,
    {
        assert(all.skip(i as int)[0] == all[i as int]);
        assert(all.skip(i as int).drop_first() =~= all.skip(i + 1));
        if table[i].0 == code {
            return Some(&table[i].1);
        }
        i += 1;
    }
    None
}

impl DataCompactor {
    /// Groups the records of the input by their type.
    #[verifier::loop_isolation(false)]
    pub fn apply_structural_compaction(&self, data: &Datum) -> (r: Datum)
        ensures
            r@ == restructured(data@),
    {
        broadcast use crate::value::group_datum_view;

        let fields = match data {
            Datum::Object(fields) => fields,
            _ => {
                return clone_datum(data);
            },
        };
        let items = match data.get("subresources") {
            Some(Datum::Array(items)) => items,
            _ => {
                return clone_datum(data);
            },
        };
        let ghost recs = items_view(items@);
        let ghost tags = tags_of(recs);
        let (groups, _processed) = classify(items);
        let mut grouped: Vec<(String, Datum)> = Vec::new();
        let mut g: usize = 0;
        while g < groups.len()
            invariant
                g <= groups.len(),
                grouped.len() == g,
                forall|k: int|
                    0 <= k < g ==> (#[trigger] grouped[k]).0@ == tags[k] && grouped[k].1@
                        == DatumView::Array(group_rows(recs, tags[k])),
            decreases groups.len() - g,
        {
            let ghost tag = tags[g as int];
            let places = &groups[g].rows;
            proof {
                assert(crate::classify::group_tags(groups@)[g as int] == groups[g as int].tag@);
                lemma_members_in_range(recs, tag);
                assert forall|k: int| 0 <= k < places.len() implies (#[trigger] places[k])
                    < items.len() by {
                    assert(positions(places@)[k] == places[k]);
                }
            }
            let mut rows: Vec<Datum> = Vec::new();
            let mut k: usize = 0;
            while k < places.len()
                invariant
                    k <= places.len(),
                    rows.len() == k,
                    forall|j: int| 0 <= j < k ==> (#[trigger] rows[j])@ == recs[places[j] as int],
                decreases places.len() - k,
            {
                rows.push(clone_datum(&items[places[k]]));
                k += 1;
            }
            assert(items_view(rows@) =~= group_rows(recs, tag)) by {
                assert forall|j: int| 0 <= j < rows.len() implies items_view(rows@)[j]
                    == group_rows(recs, tag)[j] by {
                    assert(positions(places@)[j] == places[j]);
                }
            }
            grouped.push((groups[g].tag.clone(), Datum::Array(rows)));
            g += 1;
        }
        assert(fields_view(grouped@) =~= grouped_fields(recs, tags));
        let mut out: Vec<(String, Datum)> = Vec::new();
        let mut i: usize = 0;
        while i < fields.len()
            invariant
                i <= fields.len(),
                out.len() == i,
                forall|k: int|
                    0 <= k < i ==> (#[trigger] out[k]).0@ == fields[k].0@ && out[k].1@
                        == fields[k].1@,
            decreases fields.len() - i,
        {
            out.push((fields[i].0.clone(), clone_datum(&fields[i].1)));
            i += 1;
        }
        assert(fields_view(out@) =~= fields_view(fields@));
        upsert(&mut out, "subresources_grouped".to_owned(), Datum::Object(grouped));
        Datum::Object(fields_without(&out, "subresources"))
    }

    /// The entries of the dictionary that are URLs (`urls`), or those that
    /// are not, each with its code.
    fn create_reverse_lookup(&self, urls: bool) -> (out: Vec<(u32, String)>)
        requires
            self.wf(),
        ensures
            lookup_view(out@) == coded(self.dictionary()@, urls),
    {
        let entries = self.mappings.entries();
        let ghost all = self.dictionary()@;
        let mut out: Vec<(u32, String)> = Vec::new();
        let mut i: usize = 0;
        assert(all.take(0) =~= Seq::<Seq<char>>::empty());
        assert(lookup_view(out@) =~= coded(all.take(0), urls));
        while i < entries.len()
            invariant
                i <= entries.len(),
                all == texts_of(entries@),
                all.len() <= CodeWidth::Bits32.capacity(),
                lookup_view(out@) == coded(all.take(i as int), urls),
            decreases entries.len() - i,
        {
            assert(all.take(i + 1).drop_last() == all.take(i as int));
            assert(all.take(i + 1).last() == entries[i as int]@);
            if self.is_url(entries[i].as_str()) == urls {
                let ghost before = out@;
                out.push(((i + 1) as u32, entries[i].clone()));
                assert(lookup_view(out@) =~= lookup_view(before).push(
                    ((i + 1) as u32, entries[i as int]@),
                ));
            }
            i += 1;
        }
        assert(all.take(i as int) == all);
        out
    }

    /// The URLs of the dictionary, each with its code.
    pub fn create_reverse_url_lookup(&self) -> (out: Vec<(u32, String)>)
        requires
            self.wf(),
        ensures
            lookup_view(out@) == coded(self.dictionary()@, true),
    {
        self.create_reverse_lookup(true)
    }

    /// The texts of the dictionary that are no URLs, each with its code.
    pub fn create_reverse_string_lookup(&self) -> (out: Vec<(u32, String)>)
        requires
            self.wf(),
        ensures
            lookup_view(out@) == coded(self.dictionary()@, false),
    {
        self.create_reverse_lookup(false)
    }

    /// Compacts `data` in place into an artifact whose size is not measured
    /// yet: the compacted size in its stats is 0.
    ///
    /// The records of the input are grouped by type, and the whole value is
    /// rewritten. The run fails with `Serialization` exactly when the input
    /// has no serialized form, and else with `DictionaryExhausted` exactly
    /// when the dictionary would come to hold more texts than it has codes.
    pub fn compact_unmeasured(&mut self, data: &Datum) -> (r: Result<
        CompactedData,
        CompactError,
    >)
        requires
            old(self).wf(),
        ensures
            final(self).wf(),
            final(self).abbreviations() == old(self).abbreviations(),
            old(self).dictionary()@.is_prefix_of(final(self).dictionary()@),
            match r {
                Ok(artifact) => {
                    &&& text_of(data@) is Some
                    &&& rewritten_artifact(
                        &artifact,
                        old(self).abbreviations(),
                        data@,
                        old(self).dictionary()@,
                        utf8_len(text_of(data@)->0),
                    )
                    &&& final(self).dictionary()@ == after_rewrite(
                        restructured(data@),
                        old(self).dictionary()@,
                    )
                    &&& artifact.stats.compacted_size == 0
                },
                Err(CompactError::Serialization) => {
                    &&& text_of(data@) is None
                    &&& final(self).dictionary()@ == old(self).dictionary()@
                },
                Err(CompactError::DictionaryExhausted) => {
                    &&& text_of(data@) is Some
                    &&& after_rewrite(restructured(data@), old(self).dictionary()@).len()
                        > CodeWidth::Bits32.capacity()
                },
            },
    {
        let ghost entries0 = self.dictionary()@;
        assert(entries0.subrange(0, entries0.len() as int) =~= entries0);
        let text = match datum_to_text(data) {
            Some(t) => t,
            None => {
                return Err(CompactError::Serialization);
            },
        };
        let original_size = byte_len(text.as_str());
        let mut stats = CompressionStats {
            original_size,
            compacted_size: 0,
            urls_compressed: 0,
            strings_compressed: 0,
            properties_abbreviated: 0,
        };
        let urls_before = self.create_reverse_url_lookup().len();
        let strings_before = self.create_reverse_string_lookup().len();
        let structurally = self.apply_structural_compaction(data);
        let compacted = match self.compact_value(&structurally, &mut stats) {
            Ok(v) => v,
            Err(e) => {
                return Err(e);
            },
        };
        let url_lookup = self.create_reverse_url_lookup();
        let string_lookup = self.create_reverse_string_lookup();
        proof {
            lemma_coded_grows(entries0, self.dictionary()@, true);
            lemma_coded_grows(entries0, self.dictionary()@, false);
        }
        stats.urls_compressed = bump_by(0, url_lookup.len() - urls_before);
        stats.strings_compressed = bump_by(0, string_lookup.len() - strings_before);
        Ok(
            CompactedData {
                data: compacted,
                url_lookup,
                string_lookup,
                property_lookup: clone_pairs(self.property_mappings.pairs()),
                stats,
                fidelity: FidelityMode::Substitution,
            },
        )
    }

    /// What a rewritten value stands for, given the table and the lookup
    /// tables of an artifact.
    pub fn decompress_value(
        value: &Datum,
        table: &Vec<(String, String)>,
        url_lookup: &Vec<(u32, String)>,
        string_lookup: &Vec<(u32, String)>,
    ) -> (r: Datum)
        ensures
            r@ == restored(
                value@,
                pairs_of(table@),
                lookup_view(url_lookup@),
                lookup_view(string_lookup@),
            ),
        decreases value,
    {
        let ghost names = pairs_of(table@);
        let ghost urls = lookup_view(url_lookup@);
        let ghost strings = lookup_view(string_lookup@);
        match value {
            Datum::Int(i) => {
                if *i >= 0 {
                    let code: u32 = (*i % 0x1_0000_0000) as u32;
                    match text_for_exec(url_lookup, code) {
                        Some(t) => {
                            return Datum::Str(t.clone());
                        },
                        None => {},
                    }
                    match text_for_exec(string_lookup, code) {
                        Some(t) => {
                            return Datum::Str(t.clone());
                        },
                        None => {},
                    }
                }
                Datum::Int(*i)
            },
            Datum::Str(s) => {
                if same_text(s.as_str(), "T") {
                    Datum::Bool(true)
                } else if same_text(s.as_str(), "F") {
                    Datum::Bool(false)
                } else {
                    Datum::Str(s.clone())
                }
            },
            Datum::Array(items) => {
                let ghost views = items_view(items@);
                proof {
                    lemma_items_view_len(items@);
                    assert(views.take(0) =~= Seq::<DatumView>::empty());
                }
                let mut out: Vec<Datum> = Vec::new();
                let mut i: usize = 0;
                while i < items.len()
                    invariant
                        i <= items.len(),
                        *value == Datum::Array(*items),
                        views == items_view(items@),
                        views.len() == items.len(),
                        names == pairs_of(table@),
                        urls == lookup_view(url_lookup@),
                        strings == lookup_view(string_lookup@),
                        items_view(out@) == restored_items(
                            views.take(i as int),
                            names,
                            urls,
                            strings,
                        ),
                    decreases items.len() - i,
                {
                    proof {
                        lemma_items_view_index(items@, i as int);
                        assert(views.take(i + 1).drop_last() == views.take(i as int));
                        assert(views.take(i + 1).last() == items[i as int]@);
                        assert(decreases_to!(*value => value->Array_0));
                        assert(decreases_to!(*items => items[i as int]));
                    }
                    let item = &items[i];
                    let ghost before = out@;
                    out.push(Self::decompress_value(item, table, url_lookup, string_lookup));
                    assert(out@.drop_last() =~= before);
                    i += 1;
                }
                assert(views.take(i as int) == views);
                Datum::Array(out)
            },
            Datum::Object(fields) => {
                let ghost views = fields_view(fields@);
                proof {
                    lemma_fields_view_len(fields@);
                    assert(views.take(0) =~= FieldsView::empty());
                }
                let mut out: Vec<(String, Datum)> = Vec::new();
                proof {
                    lemma_fields_view_len(out@);
                }
                let mut i: usize = 0;
                while i < fields.len()
                    invariant
                        i <= fields.len(),
                        *value == Datum::Object(*fields),
                        views == fields_view(fields@),
                        views.len() == fields.len(),
                        names == pairs_of(table@),
                        urls == lookup_view(url_lookup@),
                        strings == lookup_view(string_lookup@),
                        fields_view(out@) == restored_fields(
                            views.take(i as int),
                            names,
                            urls,
                            strings,
                        ),
                    decreases fields.len() - i,
                {
                    proof {
                        lemma_fields_view_index(fields@, i as int);
                        assert(views.take(i + 1).drop_last() == views.take(i as int));
                        assert(views.take(i + 1).last() == (fields[i as int].0@, fields[i as int].1@));
                        assert(decreases_to!(*value => value->Object_0));
                        assert(decreases_to!(*fields => fields[i as int]));
                        assert(decreases_to!(fields[i as int] => fields[i as int].1));
                    }
                    let key = match first_for(table, fields[i].0.as_str()) {
                        Some(full) => full.clone(),
                        None => fields[i].0.clone(),
                    };
                    let inner = &fields[i].1;
                    let restored_value = Self::decompress_value(
                        inner,
                        table,
                        url_lookup,
                        string_lookup,
                    );
                    upsert(&mut out, key, restored_value);
                    i += 1;
                }
                assert(views.take(i as int) == views);
                Datum::Object(out)
            },
            _ => clone_datum(value),
        }
    }

    /// The value that an artifact stands for, as far as it gives it back:
    /// the grouping of the records stays. It does not fail.
    pub fn decompress(&self, compacted: &CompactedData) -> (r: Result<Datum, DecodeError>)
        ensures
            r is Ok,
            r->Ok_0@ == restored(
                compacted.data@,
                pairs_of(compacted.property_lookup@),
                lookup_view(compacted.url_lookup@),
                lookup_view(compacted.string_lookup@),
            ),
    {
        Ok(
            Self::decompress_value(
                &compacted.data,
                &compacted.property_lookup,
                &compacted.url_lookup,
                &compacted.string_lookup,
            ),
        )
    }
}

impl CompactedData {
    /// The artifact with the size of its serialized form entered into the
    /// stats.
    pub fn with_compacted_size(self, compacted_size: usize) -> (r: Self)
        ensures
            r.data == self.data,
            r.url_lookup == self.url_lookup,
            r.string_lookup == self.string_lookup,
            r.property_lookup == self.property_lookup,
            r.fidelity == self.fidelity,
            r.stats == (CompressionStats { compacted_size, ..self.stats }),
    {
        let mut stats = self.stats;
        stats.compacted_size = compacted_size;
        CompactedData {
            data: self.data,
            url_lookup: self.url_lookup,
            string_lookup: self.string_lookup,
            property_lookup: self.property_lookup,
            stats,
            fidelity: self.fidelity,
        }
    }
}

/// Copies of the given pairs, in order.
fn clone_pairs(pairs: &Vec<(String, String)>) -> (out: Vec<(String, String)>)
    ensures
        pairs_of(out@) == pairs_of(pairs@),
{
    let mut out: Vec<(String, String)> = Vec::new();
    let mut i: usize = 0;
    while i < pairs.len()
        invariant
            i <= pairs.len(),
            out.len() == i,
            forall|k: int|
                0 <= k < i ==> (#[trigger] out[k]).0@ == pairs[k].0@ && out[k].1@ == pairs[k].1@,
        decreases pairs.len() - i,
    {
        out.push((pairs[i].0.clone(), pairs[i].1.clone()));
        i += 1;
    }
    assert(pairs_of(out@) =~= pairs_of(pairs@));
    out
}


/// A lookup table as a value: an object that holds each text under the
/// decimal text of its code.
pub open spec fn lookup_value(table: Seq<(u32, Seq<char>)>) -> DatumView {
    DatumView::Object(
        Seq::new(table.len(), |i: int| (decimal(table[i].0 as nat), DatumView::Str(table[i].1))),
    )
}

/// The stats as a value. The ratio is given in millionths.
pub open spec fn stats_value(stats: CompressionStats) -> DatumView {
    DatumView::Object(
        seq![
            ("original_size"@, count_value(stats.original_size as nat)),
            ("compacted_size"@, count_value(stats.compacted_size as nat)),
            (
                "compression_ratio_ppm"@,
                int_value(saved_ppm(stats.original_size as nat, stats.compacted_size as nat)),
            ),
            ("urls_compressed"@, DatumView::Int(stats.urls_compressed as i64)),
            ("strings_compressed"@, DatumView::Int(stats.strings_compressed as i64)),
            ("properties_abbreviated"@, DatumView::Int(stats.properties_abbreviated as i64)),
        ],
    )
}

/// The artifact as one value: the form in which it is written out.
pub open spec fn artifact_value(
    data: DatumView,
    urls: Seq<(u32, Seq<char>)>,
    strings: Seq<(u32, Seq<char>)>,
    table: TableView,
    stats: CompressionStats,
    fidelity: FidelityMode,
) -> DatumView {
    DatumView::Object(
        seq![
            ("data"@, data),
            ("url_lookup"@, lookup_value(urls)),
            ("string_lookup"@, lookup_value(strings)),
            ("property_lookup"@, pairs_value(table)),
            ("stats"@, stats_value(stats)),
            ("fidelity"@, DatumView::Str(fidelity_name(fidelity))),
        ],
    )
}

/// Computes [`lookup_value`].
fn lookup_datum(table: &Vec<(u32, String)>) -> (r: Datum)
    ensures
        r@ == lookup_value(lookup_view(table@)),
{
    let mut out: Vec<(String, Datum)> = Vec::new();
    let mut i: usize = 0;
    while i < table.len()
        invariant
            i <= table.len(),
            out.len() == i,
            forall|k: int|
                0 <= k < i ==> (#[trigger] out[k]).0@ == decimal(table[k].0 as nat) && out[k].1@
                    == DatumView::Str(table[k].1@),
        decreases table.len() - i,
    {
        out.push((decimal_text(table[i].0 as u128), Datum::Str(table[i].1.clone())));
        i += 1;
    }
    proof {
        lemma_fields_all(out@);
        assert(fields_view(out@) =~= Seq::new(
            lookup_view(table@).len(),
            |i: int|
                (
                    decimal(lookup_view(table@)[i].0 as nat),
                    DatumView::Str(lookup_view(table@)[i].1),
                ),
        ));
    }
    Datum::Object(out)
}

/// Computes [`stats_value`].
fn stats_datum(stats: &CompressionStats) -> (r: Datum)
    ensures
        r@ == stats_value(*stats),
{
    let mut fields: Vec<(String, Datum)> = Vec::new();
    fields.push(("original_size".to_owned(), count_datum(stats.original_size)));
    fields.push(("compacted_size".to_owned(), count_datum(stats.compacted_size)));
    fields.push(("compression_ratio_ppm".to_owned(), int_datum(stats.compression_ratio_ppm())));
    fields.push(("urls_compressed".to_owned(), Datum::Int(stats.urls_compressed as i64)));
    fields.push(("strings_compressed".to_owned(), Datum::Int(stats.strings_compressed as i64)));
    fields.push(
        ("properties_abbreviated".to_owned(), Datum::Int(stats.properties_abbreviated as i64)),
    );
    proof {
        lemma_fields_all(fields@);
        assert(fields_view(fields@) =~= stats_value(*stats)->Object_0);
    }
    Datum::Object(fields)
}

impl CompactedData {
    /// The written-out form of this artifact.
    pub open spec fn value(&self) -> DatumView {
        artifact_value(
            self.data@,
            lookup_view(self.url_lookup@),
            lookup_view(self.string_lookup@),
            pairs_of(self.property_lookup@),
            self.stats,
            self.fidelity,
        )
    }

    /// The artifact as one value: the form in which it is written out.
    pub fn to_datum(&self) -> (r: Datum)
        ensures
            r@ == self.value(),
    {
        let mut top: Vec<(String, Datum)> = Vec::new();
        top.push(("data".to_owned(), clone_datum(&self.data)));
        top.push(("url_lookup".to_owned(), lookup_datum(&self.url_lookup)));
        top.push(("string_lookup".to_owned(), lookup_datum(&self.string_lookup)));
        top.push(("property_lookup".to_owned(), pairs_datum(&self.property_lookup)));
        top.push(("stats".to_owned(), stats_datum(&self.stats)));
        top.push(("fidelity".to_owned(), Datum::Str(fidelity_text(self.fidelity))));
        proof {
            lemma_fields_all(top@);
            assert(fields_view(top@) =~= self.value()->Object_0);
        }
        Datum::Object(top)
    }
}

impl DataCompactor {
    /// Compacts `data` in place into an artifact.
    ///
    /// The records of the input are grouped by type, and the whole value is
    /// rewritten. The stats hold, as the compacted size, the size of the
    /// serialized form of the rewritten value, without the lookup tables.
    ///
    /// The run succeeds exactly when the input has a serialized form and the
    /// dictionary has codes enough. It fails with `Serialization` exactly
    /// when the input has no serialized form, and else with
    /// `DictionaryExhausted` exactly when the dictionary would come to hold
    /// more texts than it has codes. The rewritten value of an input that
    /// has a serialized form has one too.
    pub fn compact_comprehensive_data(&mut self, data: &Datum) -> (r: Result<
        CompactedData,
        CompactError,
    >)
        requires
            old(self).wf(),
        ensures
            final(self).wf(),
            final(self).abbreviations() == old(self).abbreviations(),
            old(self).dictionary()@.is_prefix_of(final(self).dictionary()@),
            r is Ok <==> text_of(data@) is Some && after_rewrite(
                restructured(data@),
                old(self).dictionary()@,
            ).len() <= CodeWidth::Bits32.capacity(),
            match r {
                Ok(artifact) => {
                    &&& text_of(artifact.data@) is Some
                    &&& rewritten_artifact(
                        &artifact,
                        old(self).abbreviations(),
                        data@,
                        old(self).dictionary()@,
                        utf8_len(text_of(data@)->0),
                    )
                    &&& artifact.stats.compacted_size == utf8_len(text_of(artifact.data@)->0)
                    &&& final(self).dictionary()@ == after_rewrite(
                        restructured(data@),
                        old(self).dictionary()@,
                    )
                },
                Err(CompactError::Serialization) => text_of(data@) is None,
                Err(CompactError::DictionaryExhausted) => text_of(data@) is Some && after_rewrite(
                    restructured(data@),
                    old(self).dictionary()@,
                ).len() > CodeWidth::Bits32.capacity(),
            },
    {
        let artifact = match self.compact_unmeasured(data) {
            Ok(a) => a,
            Err(e) => {
                return Err(e);
            },
        };
        proof {
            lemma_restructured_writable(data@);
            lemma_rewritten_writable(
                restructured(data@),
                old(self).abbreviations(),
                after_rewrite(restructured(data@), old(self).dictionary()@),
            );
        }
        let text = datum_to_text(&artifact.data).unwrap();
        Ok(artifact.with_compacted_size(byte_len(text.as_str())))
    }
}

} // verus!
