use vstd::prelude::*;
use crate::classify::tags_of;
use crate::columnar::{group_rows, TextKind};
use crate::dictionary::{texts_of, CodeWidth};
use crate::efficient_compactor::subresources_of;
use crate::encode::{
    clone_fields, count_datum, count_value, int_datum, int_value, lemma_fields_all, texts_datum,
    texts_value,
};
use crate::error::CompactError;
use crate::fidelity::{fidelity_name, fidelity_text, FidelityMode};
use crate::json::{datum_to_text, text_of};
use crate::stats::saved_ppm;
use crate::text::{byte_len, utf8_len};
use crate::written::{lemma_records_writable, lemma_run_format_writable};
use crate::truly_efficient_compactor::{
    after_short_groups, aggressively_compacted, group_tabulated, listed, order_of_groups,
    origin_value, short_cell, short_layout_of, short_layout_view, types_of_groups, CompactFormat,
    CompactStats, ShortLayout, TabularData, TrulyEfficientCompactor,
};
use crate::value::{fields_of, fields_view, Datum, DatumView, FieldsView};

verus! {

/// Type letters by column as a value: an object that holds for each column
/// its letter as a text.
pub open spec fn letters_value(types: ShortLayout) -> DatumView {
    DatumView::Object(Seq::new(types.len(), |i: int| (types[i].0, DatumView::Str(seq![types[i].1]))))
}

/// A dictionary as a value: the array of its texts, or null where it is
/// empty.
pub open spec fn dictionary_value(entries: Seq<Seq<char>>) -> DatumView {
    if entries.len() == 0 {
        DatumView::Null
    } else {
        texts_value(entries)
    }
}

/// A group as a value: the number of its rows, and its columns by name.
pub open spec fn table_value(n: nat, columns: FieldsView) -> DatumView {
    DatumView::Object(seq![("n"@, count_value(n)), ("c"@, DatumView::Object(columns))])
}

/// The sizes as a value. The ratio is given in millionths.
pub open spec fn sizes_value(stats: CompactStats) -> DatumView {
    DatumView::Object(
        seq![
            ("orig"@, count_value(stats.orig as nat)),
            ("comp"@, count_value(stats.comp as nat)),
            ("ratio_ppm"@, int_value(saved_ppm(stats.orig as nat, stats.comp as nat))),
        ],
    )
}

/// An artifact as one value, put together from its parts.
pub open spec fn format_of(
    types: ShortLayout,
    order: Seq<Seq<char>>,
    groups: FieldsView,
    urls: Seq<Seq<char>>,
    strings: Seq<Seq<char>>,
    stats: CompactStats,
    fidelity: FidelityMode,
) -> DatumView {
    DatumView::Object(
        seq![
            (
                "s"@,
                DatumView::Object(
                    seq![("types"@, letters_value(types)), ("order"@, texts_value(order))],
                ),
            ),
            ("d"@, DatumView::Object(groups)),
            ("u"@, dictionary_value(urls)),
            ("t"@, dictionary_value(strings)),
            ("stats"@, sizes_value(stats)),
            ("fidelity"@, DatumView::Str(fidelity_name(fidelity))),
        ],
    )
}

/// The groups of an artifact as fields: each under its tag.
pub open spec fn tables_view(groups: Seq<(String, TabularData)>) -> FieldsView {
    Seq::new(
        groups.len(),
        |g: int| (groups[g].0@, table_value(groups[g].1.n as nat, fields_view(groups[g].1.c@))),
    )
}

/// The columns of a group: one for each column of its layout, and in it
/// the array of the cells of the rows.
pub open spec fn short_columns_of(
    rows: Seq<DatumView>,
    urls: Seq<Seq<char>>,
    strings: Seq<Seq<char>>,
) -> FieldsView {
    Seq::new(
        short_layout_of(rows).len(),
        |c: int|
            (
                short_layout_of(rows)[c].0,
                DatumView::Array(
                    Seq::new(
                        rows.len(),
                        |i: int|
                            short_cell(
                                origin_value(fields_of(rows[i]), short_layout_of(rows)[c].0),
                                urls,
                                strings,
                            ),
                    ),
                ),
            ),
    )
}

/// The groups of a run as fields: each under its tag, compressed against
/// the dictionaries as the group left them.
pub open spec fn run_tables(
    records: Seq<DatumView>,
    urls0: Seq<Seq<char>>,
    strings0: Seq<Seq<char>>,
) -> FieldsView {
    let tags = tags_of(records);
    Seq::new(
        tags.len(),
        |g: int|
            (
                tags[g],
                table_value(
                    group_rows(records, tags[g]).len(),
                    short_columns_of(
                        group_rows(records, tags[g]),
                        after_short_groups(TextKind::Url, records, tags.take(g + 1), urls0),
                        after_short_groups(TextKind::Plain, records, tags.take(g + 1), strings0),
                    ),
                ),
            ),
    )
}

/// The written-out form of the artifact of an aggressive run that started
/// with dictionaries that held `urls0` and `strings0`, on an input of the
/// given serialized size with the records `records`, once its own
/// serialized size was found to be `comp`.
pub open spec fn run_format(
    records: Seq<DatumView>,
    urls0: Seq<Seq<char>>,
    strings0: Seq<Seq<char>>,
    orig: nat,
    comp: nat,
) -> DatumView {
    let tags = tags_of(records);
    format_of(
        types_of_groups(records, tags),
        order_of_groups(records, tags),
        run_tables(records, urls0, strings0),
        after_short_groups(TextKind::Url, records, tags, urls0),
        after_short_groups(TextKind::Plain, records, tags, strings0),
        CompactStats { orig: orig as usize, comp: comp as usize },
        FidelityMode::AggressiveColumnar,
    )
}

impl CompactFormat {
    /// The written-out form of this artifact.
    pub open spec fn value(&self) -> DatumView {
        format_of(
            short_layout_view(self.s.types@),
            texts_of(self.s.order@),
            tables_view(self.d@),
            listed(self.u),
            listed(self.t),
            self.stats,
            self.fidelity,
        )
    }
}

/// The written-out form of an artifact that a run leaves is that of the
/// run.
pub proof fn lemma_run_format(
    artifact: &CompactFormat,
    records: Seq<DatumView>,
    urls0: Seq<Seq<char>>,
    strings0: Seq<Seq<char>>,
    orig: nat,
)
    requires
        aggressively_compacted(artifact, records, urls0, strings0, orig),
    ensures
        artifact.value() == run_format(records, urls0, strings0, orig, artifact.stats.comp as nat),
{
    let tags = tags_of(records);
    let wanted = run_tables(records, urls0, strings0);
    let have = tables_view(artifact.d@);
    assert forall|g: int| 0 <= g < tags.len() implies have[g] == wanted[g] by {
        let rows = group_rows(records, tags[g]);
        let urls = after_short_groups(TextKind::Url, records, tags.take(g + 1), urls0);
        let strings = after_short_groups(TextKind::Plain, records, tags.take(g + 1), strings0);
        assert(group_tabulated(artifact.d[g], rows, tags[g], urls, strings));
        let columns = fields_view(artifact.d[g].1.c@);
        let target = short_columns_of(rows, urls, strings);
        assert forall|c: int| 0 <= c < columns.len() implies columns[c] == target[c] by {
            assert(columns[c].1->Array_0 =~= target[c].1->Array_0);
        }
        assert(columns =~= target);
    }
    assert(have =~= wanted);
}

/// Computes [`letters_value`].
fn letters_datum(types: &Vec<(String, char)>) -> (r: Datum)
    ensures
        r@ == letters_value(short_layout_view(types@)),
{
    let mut out: Vec<(String, Datum)> = Vec::new();
    let mut i: usize = 0;
    while i < types.len()
        invariant
            i <= types.len(),
            out.len() == i,
            forall|k: int|
                0 <= k < i ==> (#[trigger] out[k]).0@ == types[k].0@ && out[k].1@
                    == DatumView::Str(seq![types[k].1]),
        decreases types.len() - i,
    {
        let mut letter = String::new();
        letter.push(types[i].1);
        assert(letter@ =~= seq![types[i as int].1]);
        out.push((types[i].0.clone(), Datum::Str(letter)));
        i += 1;
    }
    proof {
        lemma_fields_all(out@);
        assert(fields_view(out@) =~= Seq::new(
            short_layout_view(types@).len(),
            |i: int|
                (
                    short_layout_view(types@)[i].0,
                    DatumView::Str(seq![short_layout_view(types@)[i].1]),
                ),
        ));
    }
    Datum::Object(out)
}

/// Computes [`dictionary_value`].
fn dictionary_datum(entries: &Option<Vec<String>>) -> (r: Datum)
    ensures
        r@ == dictionary_value(listed(*entries)),
{
    match entries {
        Some(texts) => {
            assert(texts_of(texts@).len() == texts.len());
            if texts.len() > 0 {
                texts_datum(texts)
            } else {
                Datum::Null
            }
        },
        None => Datum::Null,
    }
}

/// Computes [`sizes_value`].
fn sizes_datum(stats: &CompactStats) -> (r: Datum)
    ensures
        r@ == sizes_value(*stats),
{
    let mut fields: Vec<(String, Datum)> = Vec::new();
    fields.push(("orig".to_owned(), count_datum(stats.orig)));
    fields.push(("comp".to_owned(), count_datum(stats.comp)));
    fields.push(("ratio_ppm".to_owned(), int_datum(stats.ratio_ppm())));
    proof {
        lemma_fields_all(fields@);
        assert(fields_view(fields@) =~= sizes_value(*stats)->Object_0);
    }
    Datum::Object(fields)
}

impl CompactFormat {
    /// The artifact as one value: the form in which it is written out. A
    /// dictionary without entries is written as one that is not there.
    pub fn to_datum(&self) -> (r: Datum)
        ensures
            r@ == self.value(),
    {
        let mut groups: Vec<(String, Datum)> = Vec::new();
        let mut g: usize = 0;
        while g < self.d.len()
            invariant
                g <= self.d.len(),
                groups.len() == g,
                forall|k: int|
                    0 <= k < g ==> (#[trigger] groups[k]).0@ == self.d[k].0@ && groups[k].1@
                        == table_value(self.d[k].1.n as nat, fields_view(self.d[k].1.c@)),
            decreases self.d.len() - g,
        {
            let mut fields: Vec<(String, Datum)> = Vec::new();
            fields.push(("n".to_owned(), count_datum(self.d[g].1.n)));
            fields.push(("c".to_owned(), Datum::Object(clone_fields(&self.d[g].1.c))));
            proof {
                lemma_fields_all(fields@);
                assert(fields_view(fields@) =~= table_value(
                    self.d[g as int].1.n as nat,
                    fields_view(self.d[g as int].1.c@),
                )->Object_0);
            }
            groups.push((self.d[g].0.clone(), Datum::Object(fields)));
            g += 1;
        }
        proof {
            lemma_fields_all(groups@);
            assert(fields_view(groups@) =~= tables_view(self.d@));
        }
        let mut schema: Vec<(String, Datum)> = Vec::new();
        schema.push(("types".to_owned(), letters_datum(&self.s.types)));
        schema.push(("order".to_owned(), texts_datum(&self.s.order)));
        let mut top: Vec<(String, Datum)> = Vec::new();
        proof {
            lemma_fields_all(schema@);
            assert(fields_view(schema@) =~= self.value()->Object_0[0].1->Object_0);
        }
        top.push(("s".to_owned(), Datum::Object(schema)));
        top.push(("d".to_owned(), Datum::Object(groups)));
        top.push(("u".to_owned(), dictionary_datum(&self.u)));
        top.push(("t".to_owned(), dictionary_datum(&self.t)));
        top.push(("stats".to_owned(), sizes_datum(&self.stats)));
        top.push(("fidelity".to_owned(), Datum::Str(fidelity_text(self.fidelity))));
        proof {
            lemma_fields_all(top@);
            assert(fields_view(top@) =~= self.value()->Object_0);
        }
        Datum::Object(top)
    }
}

/// Both dictionaries have codes enough for a run of `compactor` on `data`.
pub open spec fn fits(compactor: &TrulyEfficientCompactor, data: DatumView) -> bool {
    &&& after_short_groups(
        TextKind::Url,
        subresources_of(data),
        tags_of(subresources_of(data)),
        compactor.url_dictionary()@,
    ).len() <= CodeWidth::Bits8.capacity()
    &&& after_short_groups(
        TextKind::Plain,
        subresources_of(data),
        tags_of(subresources_of(data)),
        compactor.string_dictionary()@,
    ).len() <= CodeWidth::Bits8.capacity()
}

/// The written-out form of the artifact of a run of `compactor` on `data`
/// before its size is measured: the compacted size in it is 0.
pub open spec fn unmeasured(compactor: &TrulyEfficientCompactor, data: DatumView) -> DatumView {
    run_format(
        subresources_of(data),
        compactor.url_dictionary()@,
        compactor.string_dictionary()@,
        utf8_len(text_of(data)->0),
        0,
    )
}

impl TrulyEfficientCompactor {
    /// Compacts the records of `data` into an artifact.
    ///
    /// The records are the items of the array in the field `subresources`.
    /// A record without a type is left out. The stats hold, as the
    /// compacted size, the size of the artifact's own serialized form, taken
    /// while the compacted size in it was still 0.
    ///
    /// The run succeeds exactly when the input has a serialized form and the
    /// dictionaries have codes enough. It fails with `Serialization` exactly
    /// when the input has no serialized form, and else with
    /// `DictionaryExhausted` exactly when one of the dictionaries would come
    /// to hold more texts than it has codes. The artifact of an input that
    /// has a serialized form has one too.
    pub fn compact(&mut self, data: &Datum) -> (r: Result<CompactFormat, CompactError>)
        requires
            old(self).wf(),
        ensures
            final(self).wf(),
            old(self).url_dictionary()@.is_prefix_of(final(self).url_dictionary()@),
            old(self).string_dictionary()@.is_prefix_of(final(self).string_dictionary()@),
            r is Ok <==> text_of(data@) is Some && fits(old(self), data@),
            match r {
                Ok(artifact) => {
                    &&& text_of(unmeasured(old(self), data@)) is Some
                    &&& aggressively_compacted(
                        &artifact,
                        subresources_of(data@),
                        old(self).url_dictionary()@,
                        old(self).string_dictionary()@,
                        utf8_len(text_of(data@)->0),
                    )
                    &&& artifact.stats.comp == utf8_len(text_of(unmeasured(old(self), data@))->0)
                    &&& final(self).url_dictionary()@ == listed(artifact.u)
                    &&& final(self).string_dictionary()@ == listed(artifact.t)
                },
                Err(CompactError::Serialization) => text_of(data@) is None,
                Err(CompactError::DictionaryExhausted) => text_of(data@) is Some && !fits(
                    old(self),
                    data@,
                ),
            },
    {
        let ghost urls0 = self.url_dictionary()@;
        let ghost strings0 = self.string_dictionary()@;
        let artifact = match self.compact_unmeasured(data) {
            Ok(a) => a,
            Err(e) => {
                return Err(e);
            },
        };
        proof {
            lemma_run_format(
                &artifact,
                subresources_of(data@),
                urls0,
                strings0,
                utf8_len(text_of(data@)->0),
            );
            lemma_records_writable(data@);
            lemma_run_format_writable(
                subresources_of(data@),
                urls0,
                strings0,
                utf8_len(text_of(data@)->0),
                0,
            );
        }
        let text = datum_to_text(&artifact.to_datum()).unwrap();
        Ok(artifact.with_compacted_size(byte_len(text.as_str())))
    }
}

/// In the artifact of an aggressive run, every column of every group is an
/// array that has as many cells as the group has rows.
pub proof fn law_tables_aligned(
    artifact: &CompactFormat,
    records: Seq<DatumView>,
    urls0: Seq<Seq<char>>,
    strings0: Seq<Seq<char>>,
    orig: nat,
)
    requires
        aggressively_compacted(artifact, records, urls0, strings0, orig),
    ensures
        forall|g: int, c: int|
            0 <= g < artifact.d.len() && 0 <= c < fields_view(artifact.d[g].1.c@).len() ==> {
                &&& (#[trigger] fields_view(artifact.d[g].1.c@)[c]).1 is Array
                &&& fields_view(artifact.d[g].1.c@)[c].1->Array_0.len() == artifact.d[g].1.n
            },
{
    let tags = tags_of(records);
    assert forall|g: int, c: int|
        0 <= g < artifact.d.len() && 0 <= c < fields_view(artifact.d[g].1.c@).len() implies {
        &&& (#[trigger] fields_view(artifact.d[g].1.c@)[c]).1 is Array
        &&& fields_view(artifact.d[g].1.c@)[c].1->Array_0.len() == artifact.d[g].1.n
    } by {
        assert(group_tabulated(
            artifact.d[g],
            group_rows(records, tags[g]),
            tags[g],
            after_short_groups(TextKind::Url, records, tags.take(g + 1), urls0),
            after_short_groups(TextKind::Plain, records, tags.take(g + 1), strings0),
        ));
    }
}

} // verus!
