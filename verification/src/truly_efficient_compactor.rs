use vstd::prelude::*;
use crate::classify::{
    borrow_rows, classify, expand_tag, extract_tag, positions, tags_of, type_field, type_id_of_tag,
    type_tag,
};
use crate::columnar::{
    group_rows, lemma_members_in_range, option_view, position_of, upserted, wrapped, TextKind,
};
use crate::stats::{compression_ratio_ppm, saved_ppm};
use crate::dictionary::{
    clone_strings, code_value, interned, lemma_interned, lemma_prefix_trans, texts_of, CodeWidth,
    ValueDictionary,
};
use crate::efficient_compactor::subresources_of;
use crate::json::{datum_to_text, text_of};
use crate::error::{CompactError, DecodeError};
use crate::fidelity::FidelityMode;
use crate::text::{
    byte_len, chars_of, contains_text, first_chars, first_chars_exec, initials, initials_exec, last_piece,
    last_piece_exec, same_text, starts_with, string_of, text_contains, text_starts_with, utf8_len,
};
use crate::value::{
    clone_datum, fields_of, fields_view, find_field, items_view, lemma_fields_view_index,
    lemma_fields_view_len, lemma_items_view_index, lemma_items_view_len, lookup, rows_view,
    Datum, DatumView, FieldsView,
};

verus! {

/// Compacts records aggressively: 8-bit codes, and keys shortened by a rule
/// that cannot always be undone.
pub struct TrulyEfficientCompactor {
    url_dict: ValueDictionary,
    string_dict: ValueDictionary,
}

/// The types of the columns of an artifact, and the order of the columns.
#[derive(Debug, PartialEq, Eq)]
pub struct Schema {
    /// The type of each column: `s`, `i`, `f`, `b`, `u` or `j`.
    pub types: Vec<(String, char)>,
    pub order: Vec<String>,
}

/// The longest key that the shortening rule gives, in characters.
pub const KEY_LIMIT: usize = 4;

/// The short key of a field.
///
/// A well-known key has a fixed short key. A key that names a well-known
/// property has the short key of that property. Of every other key that
/// holds `/property/`, the short key is made of the initials of what
/// follows the last `/property/`, cut at each `-`. A key of at most four
/// bytes stays. Any other key is cut to its first four characters.
pub open spec fn aggressive_short(field: Seq<char>) -> Seq<char> {
    if field == "https://atomicdata.dev/properties/isA"@ {
        "t"@
    } else if field == "https://atomicdata.dev/properties/parent"@ {
        "p"@
    } else if field == "https://atomicdata.dev/properties/lastCommit"@ {
        "lc"@
    } else if field == "url"@ {
        "u"@
    } else if field == "resource_type"@ {
        "rt"@
    } else if field == "json_format"@ {
        "jf"@
    } else if field == "json_ad_format"@ {
        "jaf"@
    } else if field == "turtle_format"@ {
        "tf"@
    } else if field == "fetch_errors"@ {
        "fe"@
    } else if contains_text(field, "company-name"@) {
        "cn"@
    } else if contains_text(field, "company-description"@) {
        "cd"@
    } else if contains_text(field, "business-website"@) {
        "bw"@
    } else if contains_text(field, "year-of-incorporation"@) {
        "yi"@
    } else if contains_text(field, "country-of-registration"@) {
        "cr"@
    } else if contains_text(field, "registration-number"@) {
        "rn"@
    } else if contains_text(field, "/property/"@) {
        first_chars(initials(last_piece(field, "/property/"@)), KEY_LIMIT as nat)
    } else if utf8_len(field) <= 4 {
        field
    } else {
        first_chars(field, KEY_LIMIT as nat)
    }
}

/// The key that a short key is expanded to: the well-known key that it
/// stands for; any other short key stays as it is.
pub open spec fn aggressive_expansion(abbrev: Seq<char>) -> Seq<char> {
    if abbrev == "t"@ {
        "https://atomicdata.dev/properties/isA"@
    } else if abbrev == "p"@ {
        "https://atomicdata.dev/properties/parent"@
    } else if abbrev == "lc"@ {
        "https://atomicdata.dev/properties/lastCommit"@
    } else if abbrev == "cn"@ {
        "https://common.terraphim.io/01jxw2jx8qze6yakh4fz24mnhy/property/company-name"@
    } else if abbrev == "cd"@ {
        "https://common.terraphim.io/01jxw2jx8qze6yakh4fz24mnhy/property/company-description"@
    } else if abbrev == "bw"@ {
        "https://common.terraphim.io/01jxw2jx8qze6yakh4fz24mnhy/property/business-website"@
    } else if abbrev == "yi"@ {
        "https://common.terraphim.io/01jxw2jx8qze6yakh4fz24mnhy/property/year-of-incorporation"@
    } else if abbrev == "cr"@ {
        "https://common.terraphim.io/01jxw2jx8qze6yakh4fz24mnhy/property/country-of-registration"@
    } else if abbrev == "rn"@ {
        "https://common.terraphim.io/01jxw2jx8qze6yakh4fz24mnhy/property/company-registration-number"@
    } else if abbrev == "u"@ {
        "url"@
    } else if abbrev == "rt"@ {
        "resource_type"@
    } else if abbrev == "jf"@ {
        "json_format"@
    } else if abbrev == "jaf"@ {
        "json_ad_format"@
    } else if abbrev == "tf"@ {
        "turtle_format"@
    } else if abbrev == "fe"@ {
        "fetch_errors"@
    } else {
        abbrev
    }
}

/// The letter for the type that a value's shape calls for: `u` for a text
/// that begins with `http`, `s` for any other text and for null, `i`, `f`
/// and `b` for an integer, another number and a truth value, `j` for an
/// array or an object.
pub open spec fn compact_type_of(v: DatumView) -> char {
    match v {
        DatumView::Str(s) => if starts_with(s, "http"@) {
            'u'
        } else {
            's'
        },
        DatumView::Int(_) => 'i',
        DatumView::Float(_) => 'f',
        DatumView::Bool(_) => 'b',
        DatumView::Array(_) | DatumView::Object(_) => 'j',
        DatumView::Null => 's',
    }
}

/// The keys that are tried for a short key before any other, in order.
pub open spec fn candidates(abbrev: Seq<char>) -> Seq<Seq<char>> {
    if abbrev == "t"@ {
        seq!["https://atomicdata.dev/properties/isA"@]
    } else if abbrev == "p"@ {
        seq!["https://atomicdata.dev/properties/parent"@]
    } else if abbrev == "lc"@ {
        seq!["https://atomicdata.dev/properties/lastCommit"@]
    } else if abbrev == "cn"@ {
        seq![
            "https://common.terraphim.io/01jxw2jx8qze6yakh4fz24mnhy/property/company-name"@,
            "company-name"@,
        ]
    } else if abbrev == "cd"@ {
        seq![
            "https://common.terraphim.io/01jxw2jx8qze6yakh4fz24mnhy/property/company-description"@,
            "company-description"@,
        ]
    } else if abbrev == "yi"@ {
        seq![
            "https://common.terraphim.io/01jxw2jx8qze6yakh4fz24mnhy/property/year-of-incorporation"@,
            "year-of-incorporation"@,
        ]
    } else {
        Seq::empty()
    }
}

/// The value of the first of `keys` that `fields` have.
pub open spec fn first_present(fields: FieldsView, keys: Seq<Seq<char>>) -> Option<DatumView>
    decreases keys.len(),
{
    if keys.len() == 0 {
        None
    } else {
        match lookup(fields, keys[0]) {
            Some(v) => Some(v),
            None => first_present(fields, keys.drop_first()),
        }
    }
}

/// The value of the first field whose short key is `abbrev`.
pub open spec fn first_shortened(fields: FieldsView, abbrev: Seq<char>) -> Option<DatumView>
    decreases fields.len(),
{
    if fields.len() == 0 {
        None
    } else if aggressive_short(fields[0].0) == abbrev {
        Some(fields[0].1)
    } else {
        first_shortened(fields.drop_first(), abbrev)
    }
}

/// The value that `fields` have for the column `abbrev`: that of the field
/// named `abbrev`, else that of the first candidate key that they have,
/// else that of the first field whose short key is `abbrev`.
pub open spec fn origin_value(fields: FieldsView, abbrev: Seq<char>) -> Option<DatumView> {
    match lookup(fields, abbrev) {
        Some(v) => Some(v),
        None => match first_present(fields, candidates(abbrev)) {
            Some(v) => Some(v),
            None => first_shortened(fields, abbrev),
        },
    }
}

/// The text belongs into the dictionary of the given kind: a text that
/// begins with `http` into that of the URLs, any other text of more than 50
/// bytes into that of the long texts.
pub open spec fn goes_to(kind: TextKind, s: Seq<char>) -> bool {
    match kind {
        TextKind::Url => starts_with(s, "http"@),
        TextKind::Plain => !starts_with(s, "http"@) && utf8_len(s) > 50,
    }
}

/// The entries of a dictionary after a value was compressed: its text, or
/// the texts of the items of an array, those of arrays in it too, are
/// interned where they belong into the dictionary.
pub open spec fn after_value(kind: TextKind, v: DatumView, entries: Seq<Seq<char>>) -> Seq<
    Seq<char>,
>
    decreases v,
{
    match v {
        DatumView::Str(s) => if goes_to(kind, s) {
            interned(entries, s)
        } else {
            entries
        },
        DatumView::Array(items) => after_items(kind, items, entries),
        _ => entries,
    }
}

/// The entries of a dictionary after the given items were compressed, in
/// order.
pub open spec fn after_items(kind: TextKind, items: Seq<DatumView>, entries: Seq<Seq<char>>) -> Seq<
    Seq<char>,
>
    decreases items,
{
    if items.len() == 0 {
        entries
    } else {
        after_value(kind, items.last(), after_items(kind, items.drop_last(), entries))
    }
}

/// The compressed form of a value, given the dictionaries: a text that
/// belongs into a dictionary becomes its code, an array becomes the array of
/// the compressed forms of its items, and every other value stays.
pub open spec fn compressed(v: DatumView, urls: Seq<Seq<char>>, strings: Seq<Seq<char>>) -> DatumView
    decreases v,
{
    match v {
        DatumView::Str(s) => if goes_to(TextKind::Url, s) {
            code_value(urls, s, v)
        } else if goes_to(TextKind::Plain, s) {
            code_value(strings, s, v)
        } else {
            v
        },
        DatumView::Array(items) => DatumView::Array(compressed_items(items, urls, strings)),
        _ => v,
    }
}

/// The compressed forms of the given items, in order.
pub open spec fn compressed_items(
    items: Seq<DatumView>,
    urls: Seq<Seq<char>>,
    strings: Seq<Seq<char>>,
) -> Seq<DatumView>
    decreases items,
{
    if items.len() == 0 {
        Seq::empty()
    } else {
        compressed_items(items.drop_last(), urls, strings).push(
            compressed(items.last(), urls, strings),
        )
    }
}

/// Compressing a value adds at the end of a dictionary, if at all.
pub proof fn lemma_after_value(kind: TextKind, v: DatumView, entries: Seq<Seq<char>>)
    ensures
        entries.is_prefix_of(after_value(kind, v, entries)),
    decreases v,
{
    match v {
        DatumView::Str(s) => {
            lemma_interned(entries, s);
            assert(entries.subrange(0, entries.len() as int) =~= entries);
        },
        DatumView::Array(items) => {
            lemma_after_items(kind, items, entries, 0);
            assert(items.take(0) =~= Seq::<DatumView>::empty());
        },
        _ => {
            assert(entries.subrange(0, entries.len() as int) =~= entries);
        },
    }
}

/// Compressing the first `n` items leaves a dictionary that the one after
/// all items begins with.
pub proof fn lemma_after_items(
    kind: TextKind,
    items: Seq<DatumView>,
    entries: Seq<Seq<char>>,
    n: int,
)
    requires
        0 <= n <= items.len(),
    ensures
        after_items(kind, items.take(n), entries).is_prefix_of(after_items(kind, items, entries)),
    decreases items, items.len() - n,
{
    let here = after_items(kind, items.take(n), entries);
    if n < items.len() {
        assert(items.take(n + 1).drop_last() == items.take(n));
        assert(items.take(n + 1).last() == items[n]);
        lemma_after_value(kind, items[n], here);
        lemma_after_items(kind, items, entries, n + 1);
        lemma_prefix_trans(
            here,
            after_items(kind, items.take(n + 1), entries),
            after_items(kind, items, entries),
        );
    } else {
        assert(items.take(n) == items);
        assert(here.subrange(0, here.len() as int) =~= here);
    }
}

impl TrulyEfficientCompactor {
    /// The dictionary of the URLs.
    pub closed spec fn url_dictionary(&self) -> ValueDictionary {
        self.url_dict
    }

    /// The dictionary of the long texts.
    pub closed spec fn string_dictionary(&self) -> ValueDictionary {
        self.string_dict
    }

    /// Both dictionaries are sound and have 8-bit codes.
    pub open spec fn wf(&self) -> bool {
        &&& self.url_dictionary().wf()
        &&& self.string_dictionary().wf()
        &&& self.url_dictionary().width() == CodeWidth::Bits8
        &&& self.string_dictionary().width() == CodeWidth::Bits8
    }

    /// A compactor with empty dictionaries.
    pub fn new() -> (c: Self)
        ensures
            c.wf(),
            c.url_dictionary()@ == Seq::<Seq<char>>::empty(),
            c.string_dictionary()@ == Seq::<Seq<char>>::empty(),
    {
        TrulyEfficientCompactor {
            url_dict: ValueDictionary::new(CodeWidth::Bits8),
            string_dict: ValueDictionary::new(CodeWidth::Bits8),
        }
    }

    /// The type tag of a type identifier: its last path segment, without a
    /// `-step` at its end, and with `_` for each `-`.
    pub fn shorten_resource_type(&self, resource_type: &str) -> (tag: String)
        ensures
            tag@ == type_tag(resource_type@),
    {
        extract_tag(resource_type)
    }

    /// The short key of a field.
    pub fn abbreviate_field(&self, field: &str) -> (r: String)
        ensures
            r@ == aggressive_short(field@),
    {
        if same_text(field, "https://atomicdata.dev/properties/isA") {
            "t".to_owned()
        } else if same_text(field, "https://atomicdata.dev/properties/parent") {
            "p".to_owned()
        } else if same_text(field, "https://atomicdata.dev/properties/lastCommit") {
            "lc".to_owned()
        } else if same_text(field, "url") {
            "u".to_owned()
        } else if same_text(field, "resource_type") {
            "rt".to_owned()
        } else if same_text(field, "json_format") {
            "jf".to_owned()
        } else if same_text(field, "json_ad_format") {
            "jaf".to_owned()
        } else if same_text(field, "turtle_format") {
            "tf".to_owned()
        } else if same_text(field, "fetch_errors") {
            "fe".to_owned()
        } else if text_contains(field, "company-name") {
            "cn".to_owned()
        } else if text_contains(field, "company-description") {
            "cd".to_owned()
        } else if text_contains(field, "business-website") {
            "bw".to_owned()
        } else if text_contains(field, "year-of-incorporation") {
            "yi".to_owned()
        } else if text_contains(field, "country-of-registration") {
            "cr".to_owned()
        } else if text_contains(field, "registration-number") {
            "rn".to_owned()
        } else if text_contains(field, "/property/") {
            let chars = chars_of(field);
            let separator = chars_of("/property/");
            let tail = last_piece_exec(&chars, &separator);
            let letters = initials_exec(&tail);
            string_of(&first_chars_exec(&letters, KEY_LIMIT))
        } else if byte_len(field) <= 4 {
            field.to_owned()
        } else {
            let chars = chars_of(field);
            string_of(&first_chars_exec(&chars, KEY_LIMIT))
        }
    }

    /// The key that a short key is expanded to.
    pub fn expand_field_name(abbrev: &str) -> (r: String)
        ensures
            r@ == aggressive_expansion(abbrev@),
    {
        if same_text(abbrev, "t") {
            "https://atomicdata.dev/properties/isA".to_owned()
        } else if same_text(abbrev, "p") {
            "https://atomicdata.dev/properties/parent".to_owned()
        } else if same_text(abbrev, "lc") {
            "https://atomicdata.dev/properties/lastCommit".to_owned()
        } else if same_text(abbrev, "cn") {
            "https://common.terraphim.io/01jxw2jx8qze6yakh4fz24mnhy/property/company-name".to_owned()
        } else if same_text(abbrev, "cd") {
            "https://common.terraphim.io/01jxw2jx8qze6yakh4fz24mnhy/property/company-description".to_owned()
        } else if same_text(abbrev, "bw") {
            "https://common.terraphim.io/01jxw2jx8qze6yakh4fz24mnhy/property/business-website".to_owned()
        } else if same_text(abbrev, "yi") {
            "https://common.terraphim.io/01jxw2jx8qze6yakh4fz24mnhy/property/year-of-incorporation".to_owned()
        } else if same_text(abbrev, "cr") {
            "https://common.terraphim.io/01jxw2jx8qze6yakh4fz24mnhy/property/country-of-registration".to_owned()
        } else if same_text(abbrev, "rn") {
            "https://common.terraphim.io/01jxw2jx8qze6yakh4fz24mnhy/property/company-registration-number".to_owned()
        } else if same_text(abbrev, "u") {
            "url".to_owned()
        } else if same_text(abbrev, "rt") {
            "resource_type".to_owned()
        } else if same_text(abbrev, "jf") {
            "json_format".to_owned()
        } else if same_text(abbrev, "jaf") {
            "json_ad_format".to_owned()
        } else if same_text(abbrev, "tf") {
            "turtle_format".to_owned()
        } else if same_text(abbrev, "fe") {
            "fetch_errors".to_owned()
        } else {
            abbrev.to_owned()
        }
    }

    /// The letter for the type that the shape of `value` calls for.
    pub fn infer_compact_type(&self, value: &Datum) -> (ty: char)
        ensures
            ty == compact_type_of(value@),
    {
        match value {
            Datum::Str(s) => if text_starts_with(s.as_str(), "http") {
                'u'
            } else {
                's'
            },
            Datum::Int(_) => 'i',
            Datum::Float(_) => 'f',
            Datum::Bool(_) => 'b',
            Datum::Array(_) | Datum::Object(_) => 'j',
            Datum::Null => 's',
        }
    }

    /// Where among `fields` the value for the column `abbrev` stands.
    #[verifier::loop_isolation(false)]
    pub fn find_original_key(&self, fields: &Vec<(String, Datum)>, abbrev: &str) -> (r: Option<
        usize,
    >)
        ensures
            match r {
                Some(k) => k < fields.len() && origin_value(fields_view(fields@), abbrev@) == Some(
                    fields[k as int].1@,
                ),
                None => origin_value(fields_view(fields@), abbrev@) is None,
            },
    {
        match find_field(fields, abbrev) {
            Some(k) => {
                return Some(k);
            },
            None => {},
        }
        let possible: Vec<&'static str> = if same_text(abbrev, "t") {
            vec!["https://atomicdata.dev/properties/isA"]
        } else if same_text(abbrev, "p") {
            vec!["https://atomicdata.dev/properties/parent"]
        } else if same_text(abbrev, "lc") {
            vec!["https://atomicdata.dev/properties/lastCommit"]
        } else if same_text(abbrev, "cn") {
            vec![
                "https://common.terraphim.io/01jxw2jx8qze6yakh4fz24mnhy/property/company-name",
                "company-name",
            ]
        } else if same_text(abbrev, "cd") {
            vec![
                "https://common.terraphim.io/01jxw2jx8qze6yakh4fz24mnhy/property/company-description",
                "company-description",
            ]
        } else if same_text(abbrev, "yi") {
            vec![
                "https://common.terraphim.io/01jxw2jx8qze6yakh4fz24mnhy/property/year-of-incorporation",
                "year-of-incorporation",
            ]
        } else {
            Vec::new()
        };
        let ghost keys = Seq::new(possible@.len(), |i: int| possible@[i]@);
        assert(keys =~= candidates(abbrev@));
        let ghost all = fields_view(fields@);
        let mut c: usize = 0;
        assert(keys.skip(0) =~= keys);
        while c < possible.len()
            invariant
                c <= possible.len(),
                keys == Seq::new(possible@.len(), |i: int| possible@[i]@),
                all == fields_view(fields@),
                first_present(all, keys.skip(c as int)) == first_present(all, keys),
            decreases possible.len() - c,
        {
            assert(keys.skip(c as int)[0] == possible[c as int]@);
            assert(keys.skip(c as int).drop_first() =~= keys.skip(c + 1));
            match find_field(fields, possible[c]) {
                Some(k) => {
                    return Some(k);
                },
                None => {},
            }
            c += 1;
        }
        proof {
            lemma_fields_view_len(fields@);
        }
        let mut k: usize = 0;
        assert(all.skip(0) =~= all);
        while k < fields.len()
            invariant
                k <= fields.len(),
                all == fields_view(fields@),
                all.len() == fields.len(),
                first_shortened(all.skip(k as int), abbrev@) == first_shortened(all, abbrev@),
            decreases fields.len() - k,
        {
            proof {
                lemma_fields_view_index(fields@, k as int);
                assert(all.skip(k as int)[0] == all[k as int]);
                assert(all.skip(k as int).drop_first() =~= all.skip(k + 1));
            }
            let short = self.abbreviate_field(fields[k].0.as_str());
            if same_text(short.as_str(), abbrev) {
                return Some(k);
            }
            k += 1;
        }
        None
    }
}


/// The rows of one type tag, stored column by column.
#[derive(Debug, PartialEq, Eq)]
pub struct TabularData {
    /// The number of rows.
    pub n: usize,
    /// The columns by name, each an array with one cell for each row.
    pub c: Vec<(String, Datum)>,
}

/// The sizes of a compaction run.
#[derive(Clone, Copy, Debug, PartialEq, Eq, Structural)]
pub struct CompactStats {
    pub orig: usize,
    pub comp: usize,
}

impl CompactStats {
    /// The share of the original size that was saved, in millionths. It is
    /// not positive where the compacted form is no smaller than the original.
    pub fn ratio_ppm(&self) -> (r: i128)
        ensures
            r == saved_ppm(self.orig as nat, self.comp as nat),
            self.comp >= self.orig ==> r <= 0,
    {
        compression_ratio_ppm(self.orig, self.comp)
    }
}

/// The artifact of an aggressive compaction run.
#[derive(Debug, PartialEq, Eq)]
pub struct CompactFormat {
    pub s: Schema,
    /// The groups by type tag.
    pub d: Vec<(String, TabularData)>,
    /// The URLs, the one with code `k` at position `k - 1`; `None` where
    /// there is none.
    pub u: Option<Vec<String>>,
    /// The long texts, the one with code `k` at position `k - 1`; `None`
    /// where there is none.
    pub t: Option<Vec<String>>,
    pub stats: CompactStats,
    /// Always `AggressiveColumnar`: decoding may give back less than the
    /// input held.
    pub fidelity: FidelityMode,
}

/// The columns of a group, by short key and type letter, in order.
pub type ShortLayout = Seq<(Seq<char>, char)>;

/// The short keys and type letters held in `layout`, the keys as texts.
pub open spec fn short_layout_view(layout: Seq<(String, char)>) -> ShortLayout {
    Seq::new(layout.len(), |c: int| (layout[c].0@, layout[c].1))
}

/// `layout` has a column named `name`.
pub open spec fn has_short_column(layout: ShortLayout, name: Seq<char>) -> bool {
    exists|c: int| 0 <= c < layout.len() && (#[trigger] layout[c]).0 == name
}

/// The layout after a record's fields were noted, in order: a field whose
/// short key is new adds a column, of the type of that field's value.
pub open spec fn noted_short(layout: ShortLayout, fields: FieldsView) -> ShortLayout
    decreases fields.len(),
{
    if fields.len() == 0 {
        layout
    } else {
        let before = noted_short(layout, fields.drop_last());
        let name = aggressive_short(fields.last().0);
        if has_short_column(before, name) {
            before
        } else {
            before.push((name, compact_type_of(fields.last().1)))
        }
    }
}

/// The layout of a group: a column for each short key, in the order in which
/// the keys first occur, typed by the first value that occurs with it.
pub open spec fn short_layout_of(rows: Seq<DatumView>) -> ShortLayout
    decreases rows.len(),
{
    if rows.len() == 0 {
        Seq::empty()
    } else {
        noted_short(short_layout_of(rows.drop_last()), fields_of(rows.last()))
    }
}

/// The entries of a dictionary after one cell was compressed.
pub open spec fn after_short_cell(
    kind: TextKind,
    value: Option<DatumView>,
    entries: Seq<Seq<char>>,
) -> Seq<Seq<char>> {
    match value {
        Some(v) => after_value(kind, v, entries),
        None => entries,
    }
}

/// The entries of a dictionary after the cells of one row were compressed,
/// column by column.
pub open spec fn after_short_row(
    kind: TextKind,
    layout: ShortLayout,
    row: DatumView,
    entries: Seq<Seq<char>>,
) -> Seq<Seq<char>>
    decreases layout.len(),
{
    if layout.len() == 0 {
        entries
    } else {
        after_short_cell(
            kind,
            origin_value(fields_of(row), layout.last().0),
            after_short_row(kind, layout.drop_last(), row, entries),
        )
    }
}

/// The entries of a dictionary after all rows were compressed, row by row.
pub open spec fn after_short_rows(
    kind: TextKind,
    layout: ShortLayout,
    rows: Seq<DatumView>,
    entries: Seq<Seq<char>>,
) -> Seq<Seq<char>>
    decreases rows.len(),
{
    if rows.len() == 0 {
        entries
    } else {
        after_short_row(
            kind,
            layout,
            rows.last(),
            after_short_rows(kind, layout, rows.drop_last(), entries),
        )
    }
}

/// The entries of a dictionary after a group of rows was compressed.
pub open spec fn after_short_group(
    kind: TextKind,
    rows: Seq<DatumView>,
    entries: Seq<Seq<char>>,
) -> Seq<Seq<char>> {
    after_short_rows(kind, short_layout_of(rows), rows, entries)
}

/// The entries of a dictionary after the groups with the given tags were
/// compressed, one group after the other.
pub open spec fn after_short_groups(
    kind: TextKind,
    records: Seq<DatumView>,
    tags: Seq<Seq<char>>,
    entries: Seq<Seq<char>>,
) -> Seq<Seq<char>>
    decreases tags.len(),
{
    if tags.len() == 0 {
        entries
    } else {
        after_short_group(
            kind,
            group_rows(records, tags.last()),
            after_short_groups(kind, records, tags.drop_last(), entries),
        )
    }
}

/// The cell for a value: its compressed form, or null where it is missing.
pub open spec fn short_cell(
    value: Option<DatumView>,
    urls: Seq<Seq<char>>,
    strings: Seq<Seq<char>>,
) -> DatumView {
    match value {
        Some(v) => compressed(v, urls, strings),
        None => DatumView::Null,
    }
}

/// `columns` hold the rows `rows` in the given layout, compressed against
/// the given dictionaries: a column for each entry of the layout, and in it
/// an array with a cell for each row.
pub open spec fn tabulates(
    columns: FieldsView,
    layout: ShortLayout,
    rows: Seq<DatumView>,
    urls: Seq<Seq<char>>,
    strings: Seq<Seq<char>>,
) -> bool {
    &&& columns.len() == layout.len()
    &&& forall|c: int|
        0 <= c < columns.len() ==> {
            &&& (#[trigger] columns[c]).0 == layout[c].0
            &&& columns[c].1 is Array
            &&& columns[c].1->Array_0.len() == rows.len()
            &&& forall|i: int|
                0 <= i < rows.len() ==> (#[trigger] columns[c].1->Array_0[i]) == short_cell(
                    origin_value(fields_of(rows[i]), layout[c].0),
                    urls,
                    strings,
                )
        }
}

/// Compressing the first `c` columns of a row leaves a dictionary that the
/// one after all columns begins with.
pub proof fn lemma_after_short_row(
    kind: TextKind,
    layout: ShortLayout,
    row: DatumView,
    entries: Seq<Seq<char>>,
    c: int,
)
    requires
        0 <= c <= layout.len(),
    ensures
        after_short_row(kind, layout.take(c), row, entries).is_prefix_of(
            after_short_row(kind, layout, row, entries),
        ),
    decreases layout.len() - c,
{
    let here = after_short_row(kind, layout.take(c), row, entries);
    if c < layout.len() {
        assert(layout.take(c + 1).drop_last() == layout.take(c));
        assert(layout.take(c + 1).last() == layout[c]);
        match origin_value(fields_of(row), layout[c].0) {
            Some(v) => {
                lemma_after_value(kind, v, here);
            },
            None => {
                assert(here.subrange(0, here.len() as int) =~= here);
            },
        }
        lemma_after_short_row(kind, layout, row, entries, c + 1);
        lemma_prefix_trans(
            here,
            after_short_row(kind, layout.take(c + 1), row, entries),
            after_short_row(kind, layout, row, entries),
        );
    } else {
        assert(layout.take(c) == layout);
        assert(here.subrange(0, here.len() as int) =~= here);
    }
}

/// Compressing the first `i` rows leaves a dictionary that the one after all
/// rows begins with.
pub proof fn lemma_after_short_rows(
    kind: TextKind,
    layout: ShortLayout,
    rows: Seq<DatumView>,
    entries: Seq<Seq<char>>,
    i: int,
)
    requires
        0 <= i <= rows.len(),
    ensures
        after_short_rows(kind, layout, rows.take(i), entries).is_prefix_of(
            after_short_rows(kind, layout, rows, entries),
        ),
    decreases rows.len() - i,
{
    let here = after_short_rows(kind, layout, rows.take(i), entries);
    if i < rows.len() {
        assert(rows.take(i + 1).drop_last() == rows.take(i));
        assert(rows.take(i + 1).last() == rows[i]);
        lemma_after_short_row(kind, layout, rows[i], here, 0);
        assert(layout.take(0) =~= ShortLayout::empty());
        lemma_after_short_rows(kind, layout, rows, entries, i + 1);
        lemma_prefix_trans(
            here,
            after_short_rows(kind, layout, rows.take(i + 1), entries),
            after_short_rows(kind, layout, rows, entries),
        );
    } else {
        assert(rows.take(i) == rows);
        assert(here.subrange(0, here.len() as int) =~= here);
    }
}

/// Compressing the first `g` groups leaves a dictionary that the one after
/// all groups begins with.
pub proof fn lemma_after_short_groups(
    kind: TextKind,
    records: Seq<DatumView>,
    tags: Seq<Seq<char>>,
    entries: Seq<Seq<char>>,
    g: int,
)
    requires
        0 <= g <= tags.len(),
    ensures
        after_short_groups(kind, records, tags.take(g), entries).is_prefix_of(
            after_short_groups(kind, records, tags, entries),
        ),
    decreases tags.len() - g,
{
    let here = after_short_groups(kind, records, tags.take(g), entries);
    if g < tags.len() {
        assert(tags.take(g + 1).drop_last() == tags.take(g));
        assert(tags.take(g + 1).last() == tags[g]);
        let rows = group_rows(records, tags[g]);
        lemma_after_short_rows(kind, short_layout_of(rows), rows, here, 0);
        assert(rows.take(0) =~= Seq::<DatumView>::empty());
        lemma_after_short_groups(kind, records, tags, entries, g + 1);
        lemma_prefix_trans(
            here,
            after_short_groups(kind, records, tags.take(g + 1), entries),
            after_short_groups(kind, records, tags, entries),
        );
    } else {
        assert(tags.take(g) == tags);
        assert(here.subrange(0, here.len() as int) =~= here);
    }
}

impl TrulyEfficientCompactor {
    /// Puts the texts of a value into the dictionaries where they belong.
    ///
    /// Fails exactly when one of the dictionaries would come to hold more
    /// texts than it has codes.
    pub fn intern_value(&mut self, value: &Datum) -> (r: Result<(), CompactError>)
        requires
            old(self).wf(),
        ensures
            final(self).wf(),
            old(self).url_dictionary()@.is_prefix_of(final(self).url_dictionary()@),
            old(self).string_dictionary()@.is_prefix_of(final(self).string_dictionary()@),
            r is Ok <==> after_value(TextKind::Url, value@, old(self).url_dictionary()@).len()
                <= CodeWidth::Bits8.capacity() && after_value(
                TextKind::Plain,
                value@,
                old(self).string_dictionary()@,
            ).len() <= CodeWidth::Bits8.capacity(),
            match r {
                Ok(_) => {
                    &&& final(self).url_dictionary()@ == after_value(
                        TextKind::Url,
                        value@,
                        old(self).url_dictionary()@,
                    )
                    &&& final(self).string_dictionary()@ == after_value(
                        TextKind::Plain,
                        value@,
                        old(self).string_dictionary()@,
                    )
                },
                Err(e) => e == CompactError::DictionaryExhausted,
            },
        decreases value,
    {
        let ghost urls0 = self.url_dictionary()@;
        let ghost strings0 = self.string_dictionary()@;
        proof {
            assert(urls0.subrange(0, urls0.len() as int) =~= urls0);
            assert(strings0.subrange(0, strings0.len() as int) =~= strings0);
        }
        match value {
            Datum::Str(s) => {
                if text_starts_with(s.as_str(), "http") {
                    proof {
                        lemma_interned(urls0, s@);
                    }
                    match self.url_dict.intern(s.as_str()) {
                        Ok(_) => Ok(()),
                        Err(e) => Err(e),
                    }
                } else if byte_len(s.as_str()) > 50 {
                    proof {
                        lemma_interned(strings0, s@);
                    }
                    match self.string_dict.intern(s.as_str()) {
                        Ok(_) => Ok(()),
                        Err(e) => Err(e),
                    }
                } else {
                    Ok(())
                }
            },
            Datum::Array(items) => {
                let ghost views = items_view(items@);
                proof {
                    lemma_items_view_len(items@);
                    assert(views.take(0) =~= Seq::<DatumView>::empty());
                }
                let mut i: usize = 0;
                while i < items.len()
                    invariant
                        i <= items.len(),
                        *value == Datum::Array(*items),
                        views == items_view(items@),
                        views.len() == items.len(),
                        value@ == DatumView::Array(views),
                        self.wf(),
                        urls0 == old(self).url_dictionary()@,
                        strings0 == old(self).string_dictionary()@,
                        urls0.is_prefix_of(self.url_dictionary()@),
                        strings0.is_prefix_of(self.string_dictionary()@),
                        self.url_dictionary()@ == after_items(
                            TextKind::Url,
                            views.take(i as int),
                            urls0,
                        ),
                        self.string_dictionary()@ == after_items(
                            TextKind::Plain,
                            views.take(i as int),
                            strings0,
                        ),
                    decreases items.len() - i,
                {
                    let ghost urls_here = self.url_dictionary()@;
                    let ghost strings_here = self.string_dictionary()@;
                    proof {
                        lemma_items_view_index(items@, i as int);
                        assert(views.take(i + 1).drop_last() == views.take(i as int));
                        assert(views.take(i + 1).last() == items[i as int]@);
                        assert(decreases_to!(*value => value->Array_0));
                        assert(decreases_to!(*items => items[i as int]));
                    }
                    let item = &items[i];
                    match self.intern_value(item) {
                        Ok(_) => {
                            proof {
                                lemma_prefix_trans(urls0, urls_here, self.url_dictionary()@);
                                lemma_prefix_trans(strings0, strings_here, self.string_dictionary()@);
                            }
                        },
                        Err(e) => {
                            proof {
                                lemma_prefix_trans(urls0, urls_here, self.url_dictionary()@);
                                lemma_prefix_trans(strings0, strings_here, self.string_dictionary()@);
                                lemma_after_items(TextKind::Url, views, urls0, i + 1);
                                lemma_after_items(TextKind::Plain, views, strings0, i + 1);
                            }
                            return Err(e);
                        },
                    }
                    i += 1;
                }
                assert(views.take(i as int) == views);
                Ok(())
            },
            _ => Ok(()),
        }
    }

    /// The compressed form of a value, given the dictionaries as they are.
    pub fn encoded(&self, value: &Datum) -> (r: Datum)
        requires
            self.wf(),
        ensures
            r@ == compressed(value@, self.url_dictionary()@, self.string_dictionary()@),
        decreases value,
    {
        match value {
            Datum::Str(s) => {
                if text_starts_with(s.as_str(), "http") {
                    match self.url_dict.lookup(s.as_str()) {
                        Some(c) => Datum::Int(c as i64),
                        None => Datum::Str(s.clone()),
                    }
                } else if byte_len(s.as_str()) > 50 {
                    match self.string_dict.lookup(s.as_str()) {
                        Some(c) => Datum::Int(c as i64),
                        None => Datum::Str(s.clone()),
                    }
                } else {
                    Datum::Str(s.clone())
                }
            },
            Datum::Array(items) => {
                let ghost views = items_view(items@);
                proof {
                    lemma_items_view_len(items@);
                    assert(views.take(0) =~= Seq::<DatumView>::empty());
                }
                let mut out: Vec<Datum> = Vec::new();
                let mut i: usize = 0;
                while i < items.len()
                    invariant
                        i <= items.len(),
                        *value == Datum::Array(*items),
                        views == items_view(items@),
                        views.len() == items.len(),
                        self.wf(),
                        items_view(out@) == compressed_items(
                            views.take(i as int),
                            self.url_dictionary()@,
                            self.string_dictionary()@,
                        ),
                    decreases items.len() - i,
                {
                    proof {
                        lemma_items_view_index(items@, i as int);
                        assert(views.take(i + 1).drop_last() == views.take(i as int));
                        assert(views.take(i + 1).last() == items[i as int]@);
                        assert(decreases_to!(*value => value->Array_0));
                        assert(decreases_to!(*items => items[i as int]));
                    }
                    let item = &items[i];
                    let ghost before = out@;
                    out.push(self.encoded(item));
                    assert(out@.drop_last() =~= before);
                    i += 1;
                }
                assert(views.take(i as int) == views);
                Datum::Array(out)
            },
            _ => clone_datum(value),
        }
    }

    /// Compresses a value: its texts are interned where they belong into a
    /// dictionary, and replaced by their codes.
    ///
    /// Fails exactly when one of the dictionaries would come to hold more
    /// texts than it has codes.
    pub fn compress_value(&mut self, value: &Datum) -> (r: Result<Datum, CompactError>)
        requires
            old(self).wf(),
        ensures
            final(self).wf(),
            old(self).url_dictionary()@.is_prefix_of(final(self).url_dictionary()@),
            old(self).string_dictionary()@.is_prefix_of(final(self).string_dictionary()@),
            r is Ok <==> after_value(TextKind::Url, value@, old(self).url_dictionary()@).len()
                <= CodeWidth::Bits8.capacity() && after_value(
                TextKind::Plain,
                value@,
                old(self).string_dictionary()@,
            ).len() <= CodeWidth::Bits8.capacity(),
            match r {
                Ok(v) => {
                    &&& final(self).url_dictionary()@ == after_value(
                        TextKind::Url,
                        value@,
                        old(self).url_dictionary()@,
                    )
                    &&& final(self).string_dictionary()@ == after_value(
                        TextKind::Plain,
                        value@,
                        old(self).string_dictionary()@,
                    )
                    &&& v@ == compressed(
                        value@,
                        final(self).url_dictionary()@,
                        final(self).string_dictionary()@,
                    )
                },
                Err(e) => e == CompactError::DictionaryExhausted,
            },
    {
        match self.intern_value(value) {
            Ok(_) => Ok(self.encoded(value)),
            Err(e) => Err(e),
        }
    }
}


/// The type of the column `name`, set to `ty`: in place where there is such
/// a column, else at the end.
pub open spec fn retyped(types: ShortLayout, name: Seq<char>, ty: char) -> ShortLayout {
    match type_position(types, name) {
        Some(i) => types.update(i, (name, ty)),
        None => types.push((name, ty)),
    }
}

/// The position of the first column named `name`, if there is one.
pub open spec fn type_position(types: ShortLayout, name: Seq<char>) -> Option<int>
    decreases types.len(),
{
    if types.len() == 0 {
        None
    } else {
        match type_position(types.drop_last(), name) {
            Some(i) => Some(i),
            None => if types.last().0 == name {
                Some(types.len() - 1)
            } else {
                None
            },
        }
    }
}

/// The schema types after the columns of a group were merged in, in order.
pub open spec fn types_merged(types: ShortLayout, layout: ShortLayout) -> ShortLayout
    decreases layout.len(),
{
    if layout.len() == 0 {
        types
    } else {
        retyped(types_merged(types, layout.drop_last()), layout.last().0, layout.last().1)
    }
}

/// The schema order after the columns of a group were merged in: a name
/// that is new is added at the end.
pub open spec fn order_merged(order: Seq<Seq<char>>, layout: ShortLayout) -> Seq<Seq<char>>
    decreases layout.len(),
{
    if layout.len() == 0 {
        order
    } else {
        interned(order_merged(order, layout.drop_last()), layout.last().0)
    }
}

/// The schema types after the groups with the given tags were merged in.
pub open spec fn types_of_groups(records: Seq<DatumView>, tags: Seq<Seq<char>>) -> ShortLayout
    decreases tags.len(),
{
    if tags.len() == 0 {
        Seq::empty()
    } else {
        types_merged(
            types_of_groups(records, tags.drop_last()),
            short_layout_of(group_rows(records, tags.last())),
        )
    }
}

/// The schema order after the groups with the given tags were merged in.
pub open spec fn order_of_groups(records: Seq<DatumView>, tags: Seq<Seq<char>>) -> Seq<Seq<char>>
    decreases tags.len(),
{
    if tags.len() == 0 {
        Seq::empty()
    } else {
        order_merged(
            order_of_groups(records, tags.drop_last()),
            short_layout_of(group_rows(records, tags.last())),
        )
    }
}

/// What the artifact holds as a dictionary: nothing where it has none.
pub open spec fn listed(entries: Option<Vec<String>>) -> Seq<Seq<char>> {
    match entries {
        Some(v) => texts_of(v@),
        None => Seq::empty(),
    }
}

/// `artifact` is what an aggressive run leaves that started with
/// dictionaries that held `urls0` and `strings0`, on an input of the given
/// serialized size with the records `records`.
///
/// There is one group for each type tag, in the order in which the tags
/// first occur. Each group has the rows of its records in the order of the
/// input, in columns that all have the length of the group, compressed
/// against the dictionaries as the group left them. The dictionaries are
/// those that the run left; an empty one is not listed. Of the compacted
/// size nothing is said.
pub open spec fn aggressively_compacted(
    artifact: &CompactFormat,
    records: Seq<DatumView>,
    urls0: Seq<Seq<char>>,
    strings0: Seq<Seq<char>>,
    original_size: nat,
) -> bool {
    let tags = tags_of(records);
    &&& artifact.d.len() == tags.len()
    &&& forall|g: int|
        0 <= g < tags.len() ==> group_tabulated(
            #[trigger] artifact.d[g],
            group_rows(records, tags[g]),
            tags[g],
            after_short_groups(TextKind::Url, records, tags.take(g + 1), urls0),
            after_short_groups(TextKind::Plain, records, tags.take(g + 1), strings0),
        )
    &&& listed(artifact.u) == after_short_groups(TextKind::Url, records, tags, urls0)
    &&& listed(artifact.t) == after_short_groups(TextKind::Plain, records, tags, strings0)
    &&& artifact.u is Some <==> listed(artifact.u).len() > 0
    &&& artifact.t is Some <==> listed(artifact.t).len() > 0
    &&& short_layout_view(artifact.s.types@) == types_of_groups(records, tags)
    &&& texts_of(artifact.s.order@) == order_of_groups(records, tags)
    &&& artifact.stats == (CompactStats {
        orig: original_size as usize,
        comp: artifact.stats.comp,
    })
    &&& artifact.fidelity == FidelityMode::AggressiveColumnar
}

/// `group` holds the rows `rows` under the tag `tag`, compressed against the
/// given dictionaries.
pub open spec fn group_tabulated(
    group: (String, TabularData),
    rows: Seq<DatumView>,
    tag: Seq<char>,
    urls: Seq<Seq<char>>,
    strings: Seq<Seq<char>>,
) -> bool {
    &&& group.0@ == tag
    &&& group.1.n == rows.len()
    &&& tabulates(fields_view(group.1.c@), short_layout_of(rows), rows, urls, strings)
}

/// Fields that are not there have none of the keys.
pub proof fn lemma_none_present(keys: Seq<Seq<char>>)
    ensures
        first_present(FieldsView::empty(), keys) is None,
    decreases keys.len(),
{
    if keys.len() > 0 {
        lemma_none_present(keys.drop_first());
    }
}

/// Whether `layout` has a column named `name`.
fn has_short_column_exec(layout: &Vec<(String, char)>, name: &str) -> (r: bool)
    ensures
        r == has_short_column(short_layout_view(layout@), name@),
{
    let mut c: usize = 0;
    while c < layout.len()
        invariant
            c <= layout.len(),
            forall|k: int| 0 <= k < c ==> (#[trigger] short_layout_view(layout@)[k]).0 != name@,
        decreases layout.len() - c,
    {
        if same_text(layout[c].0.as_str(), name) {
            assert(short_layout_view(layout@)[c as int].0 == name@);
            return true;
        }
        c += 1;
    }
    false
}

/// The position of the first column named `name`, if there is one.
fn type_position_exec(types: &Vec<(String, char)>, name: &str) -> (r: Option<usize>)
    ensures
        match r {
            Some(i) => type_position(short_layout_view(types@), name@) == Some(i as int) && i
                < types.len(),
            None => type_position(short_layout_view(types@), name@) is None,
        },
{
    let ghost all = short_layout_view(types@);
    let mut i: usize = 0;
    while i < types.len()
        invariant
            i <= types.len(),
            all == short_layout_view(types@),
            type_position(all.take(i as int), name@) is None,
        decreases types.len() - i,
    {
        assert(all.take(i + 1).drop_last() == all.take(i as int));
        if same_text(types[i].0.as_str(), name) {
            proof {
                lemma_type_position_grows(all, name@, i + 1);
            }
            return Some(i);
        }
        i += 1;
    }
    assert(all.take(i as int) == all);
    None
}

/// A position found among the first `n` columns is the one found among all.
pub proof fn lemma_type_position_grows(types: ShortLayout, name: Seq<char>, n: int)
    requires
        0 <= n <= types.len(),
        type_position(types.take(n), name) is Some,
    ensures
        type_position(types, name) == type_position(types.take(n), name),
    decreases types.len() - n,
{
    if n < types.len() {
        assert(types.take(n + 1).drop_last() == types.take(n));
        lemma_type_position_grows(types, name, n + 1);
    } else {
        assert(types.take(n) == types);
    }
}

/// Whether `order` holds `name`.
fn holds_name(order: &Vec<String>, name: &str) -> (r: bool)
    ensures
        r == texts_of(order@).contains(name@),
{
    let mut i: usize = 0;
    while i < order.len()
        invariant
            i <= order.len(),
            forall|k: int| 0 <= k < i ==> (#[trigger] texts_of(order@)[k]) != name@,
        decreases order.len() - i,
    {
        if same_text(order[i].as_str(), name) {
            assert(texts_of(order@)[i as int] == name@);
            return true;
        }
        i += 1;
    }
    false
}

impl TrulyEfficientCompactor {
    /// The value that `row` has for the column `name`.
    pub fn value_of<'a>(&self, row: &'a Datum, name: &str) -> (r: Option<&'a Datum>)
        ensures
            option_view(r) == origin_value(fields_of(row@), name@),
    {
        match row {
            Datum::Object(fields) => match self.find_original_key(fields, name) {
                Some(k) => Some(&fields[k].1),
                None => None,
            },
            _ => {
                proof {
                    lemma_none_present(candidates(name@));
                }
                None
            },
        }
    }

    /// The columns that a group of records needs, and their type letters.
    #[verifier::loop_isolation(false)]
    pub fn analyze_fields(&self, resources: &Vec<&Datum>) -> (layout: Vec<(String, char)>)
        ensures
            short_layout_view(layout@) == short_layout_of(rows_view(resources@)),
    {
        let ghost rows = rows_view(resources@);
        let mut layout: Vec<(String, char)> = Vec::new();
        let mut i: usize = 0;
        assert(short_layout_view(layout@) =~= short_layout_of(rows.take(0)));
        while i < resources.len()
            invariant
                i <= resources.len(),
                short_layout_view(layout@) == short_layout_of(rows.take(i as int)),
            decreases resources.len() - i,
        {
            let ghost base = short_layout_of(rows.take(i as int));
            assert(rows.take(i + 1).drop_last() == rows.take(i as int));
            assert(rows.take(i + 1).last() == resources[i as int]@);
            match resources[i] {
                Datum::Object(fields) => {
                    let ghost views = fields_view(fields@);
                    let mut k: usize = 0;
                    proof {
                        lemma_fields_view_len(fields@);
                    }
                    assert(views.take(0) =~= FieldsView::empty());
                    while k < fields.len()
                        invariant
                            k <= fields.len(),
                            short_layout_view(layout@) == noted_short(base, views.take(k as int)),
                        decreases fields.len() - k,
                    {
                        proof {
                            lemma_fields_view_index(fields@, k as int);
                            assert(views.take(k + 1).drop_last() == views.take(k as int));
                            assert(views.take(k + 1).last() == (
                                fields[k as int].0@,
                                fields[k as int].1@,
                            ));
                        }
                        let name = self.abbreviate_field(fields[k].0.as_str());
                        let ty = self.infer_compact_type(&fields[k].1);
                        if !has_short_column_exec(&layout, name.as_str()) {
                            let ghost before = layout@;
                            layout.push((name, ty));
                            assert(short_layout_view(layout@) =~= short_layout_view(before).push(
                                (name@, ty),
                            ));
                        }
                        k += 1;
                    }
                    assert(views.take(k as int) == views);
                },
                _ => {},
            }
            i += 1;
        }
        assert(rows.take(i as int) == rows);
        layout
    }

    /// Puts the texts of all cells of a group into the dictionaries, row by
    /// row and column by column.
    ///
    /// Fails exactly when one of the dictionaries would come to hold more
    /// texts than it has codes.
    #[verifier::loop_isolation(false)]
    pub fn intern_rows(&mut self, layout: &Vec<(String, char)>, resources: &Vec<&Datum>) -> (r:
        Result<(), CompactError>)
        requires
            old(self).wf(),
        ensures
            final(self).wf(),
            old(self).url_dictionary()@.is_prefix_of(final(self).url_dictionary()@),
            old(self).string_dictionary()@.is_prefix_of(final(self).string_dictionary()@),
            r is Ok <==> after_short_rows(
                TextKind::Url,
                short_layout_view(layout@),
                rows_view(resources@),
                old(self).url_dictionary()@,
            ).len() <= CodeWidth::Bits8.capacity() && after_short_rows(
                TextKind::Plain,
                short_layout_view(layout@),
                rows_view(resources@),
                old(self).string_dictionary()@,
            ).len() <= CodeWidth::Bits8.capacity(),
            match r {
                Ok(_) => {
                    &&& final(self).url_dictionary()@ == after_short_rows(
                        TextKind::Url,
                        short_layout_view(layout@),
                        rows_view(resources@),
                        old(self).url_dictionary()@,
                    )
                    &&& final(self).string_dictionary()@ == after_short_rows(
                        TextKind::Plain,
                        short_layout_view(layout@),
                        rows_view(resources@),
                        old(self).string_dictionary()@,
                    )
                },
                Err(e) => e == CompactError::DictionaryExhausted,
            },
    {
        let ghost rows = rows_view(resources@);
        let ghost columns = short_layout_view(layout@);
        let ghost urls0 = self.url_dictionary()@;
        let ghost strings0 = self.string_dictionary()@;
        let mut i: usize = 0;
        assert(urls0.subrange(0, urls0.len() as int) =~= urls0);
        assert(strings0.subrange(0, strings0.len() as int) =~= strings0);
        while i < resources.len()
            invariant
                i <= resources.len(),
                self.wf(),
                urls0.is_prefix_of(self.url_dictionary()@),
                strings0.is_prefix_of(self.string_dictionary()@),
                self.url_dictionary()@ == after_short_rows(
                    TextKind::Url,
                    columns,
                    rows.take(i as int),
                    urls0,
                ),
                self.string_dictionary()@ == after_short_rows(
                    TextKind::Plain,
                    columns,
                    rows.take(i as int),
                    strings0,
                ),
            decreases resources.len() - i,
        {
            let ghost row = resources[i as int]@;
            let ghost base_urls = self.url_dictionary()@;
            let ghost base_strings = self.string_dictionary()@;
            proof {
                assert(rows.take(i + 1).drop_last() == rows.take(i as int));
                assert(rows.take(i + 1).last() == row);
                assert(columns.take(0) =~= ShortLayout::empty());
            }
            let mut c: usize = 0;
            while c < layout.len()
                invariant
                    c <= layout.len(),
                    self.wf(),
                    urls0.is_prefix_of(self.url_dictionary()@),
                    strings0.is_prefix_of(self.string_dictionary()@),
                    self.url_dictionary()@ == after_short_row(
                        TextKind::Url,
                        columns.take(c as int),
                        row,
                        base_urls,
                    ),
                    self.string_dictionary()@ == after_short_row(
                        TextKind::Plain,
                        columns.take(c as int),
                        row,
                        base_strings,
                    ),
                decreases layout.len() - c,
            {
                proof {
                    assert(columns.take(c + 1).drop_last() == columns.take(c as int));
                    assert(columns.take(c + 1).last() == (layout[c as int].0@, layout[c as int].1));
                }
                let ghost urls_here = self.url_dictionary()@;
                let ghost strings_here = self.string_dictionary()@;
                match self.value_of(resources[i], layout[c].0.as_str()) {
                    Some(v) => {
                        let outcome = self.intern_value(v);
                        proof {
                            lemma_prefix_trans(urls0, urls_here, self.url_dictionary()@);
                            lemma_prefix_trans(strings0, strings_here, self.string_dictionary()@);
                        }
                        match outcome {
                            Ok(_) => {},
                            Err(e) => {
                                proof {
                                    lemma_after_short_row(
                                        TextKind::Url,
                                        columns,
                                        row,
                                        base_urls,
                                        c + 1,
                                    );
                                    lemma_after_short_row(
                                        TextKind::Plain,
                                        columns,
                                        row,
                                        base_strings,
                                        c + 1,
                                    );
                                    lemma_after_short_rows(
                                        TextKind::Url,
                                        columns,
                                        rows,
                                        urls0,
                                        i + 1,
                                    );
                                    lemma_after_short_rows(
                                        TextKind::Plain,
                                        columns,
                                        rows,
                                        strings0,
                                        i + 1,
                                    );
                                }
                                return Err(e);
                            },
                        }
                    },
                    None => {},
                }
                c += 1;
            }
            assert(columns.take(c as int) == columns);
            i += 1;
        }
        assert(rows.take(i as int) == rows);
        Ok(())
    }

    /// The columns of a group in the given layout, compressed against the
    /// dictionaries as they are.
    #[verifier::loop_isolation(false)]
    pub fn fill_columns(&self, layout: &Vec<(String, char)>, resources: &Vec<&Datum>) -> (columns:
        Vec<(String, Datum)>)
        requires
            self.wf(),
        ensures
            tabulates(
                fields_view(columns@),
                short_layout_view(layout@),
                rows_view(resources@),
                self.url_dictionary()@,
                self.string_dictionary()@,
            ),
    {
        let ghost rows = rows_view(resources@);
        let ghost urls = self.url_dictionary()@;
        let ghost strings = self.string_dictionary()@;
        let mut columns: Vec<(String, Datum)> = Vec::new();
        let mut c: usize = 0;
        proof {
            lemma_fields_view_len(columns@);
        }
        while c < layout.len()
            invariant
                c <= layout.len(),
                tabulates(
                    fields_view(columns@),
                    short_layout_view(layout@).take(c as int),
                    rows,
                    urls,
                    strings,
                ),
            decreases layout.len() - c,
        {
            let mut cells: Vec<Datum> = Vec::new();
            let mut i: usize = 0;
            while i < resources.len()
                invariant
                    i <= resources.len(),
                    cells.len() == i,
                    forall|k: int|
                        0 <= k < i ==> (#[trigger] cells[k])@ == short_cell(
                            origin_value(fields_of(rows[k]), layout[c as int].0@),
                            urls,
                            strings,
                        ),
                decreases resources.len() - i,
            {
                let cell = match self.value_of(resources[i], layout[c].0.as_str()) {
                    Some(v) => self.encoded(v),
                    None => Datum::Null,
                };
                cells.push(cell);
                i += 1;
            }
            let ghost before = fields_view(columns@);
            let ghost old_columns = columns@;
            let ghost cell_views = items_view(cells@);
            proof {
                lemma_items_view_len(cells@);
                assert forall|k: int| 0 <= k < cells.len() implies cell_views[k] == cells[k]@ by {
                    lemma_items_view_index(cells@, k);
                }
            }
            columns.push((layout[c].0.clone(), Datum::Array(cells)));
            proof {
                let after = fields_view(columns@);
                let wanted = short_layout_view(layout@).take(c + 1);
                assert(columns@.drop_last() =~= old_columns);
                assert(columns@.last().1@ == DatumView::Array(cell_views));
                assert(after == before.push((layout[c as int].0@, DatumView::Array(cell_views))));
                assert forall|k: int| 0 <= k < after.len() implies {
                    &&& (#[trigger] after[k]).0 == wanted[k].0
                    &&& after[k].1 is Array
                    &&& after[k].1->Array_0.len() == rows.len()
                    &&& forall|i: int|
                        0 <= i < rows.len() ==> (#[trigger] after[k].1->Array_0[i]) == short_cell(
                            origin_value(fields_of(rows[i]), wanted[k].0),
                            urls,
                            strings,
                        )
                } by {
                    if k < c {
                        assert(after[k] == before[k]);
                        assert(wanted[k] == short_layout_view(layout@).take(c as int)[k]);
                    }
                }
            }
            c += 1;
        }
        assert(short_layout_view(layout@).take(c as int) == short_layout_view(layout@));
        columns
    }

    /// Stores a group of records column by column, and returns the columns
    /// together with their type letters.
    ///
    /// Every column is an array with one cell for each record, so all have
    /// the length of the group. The dictionaries grow by the texts of the
    /// cells.
    ///
    /// Fails exactly when one of the dictionaries would come to hold more
    /// texts than it has codes.
    pub fn convert_to_tabular(&mut self, resources: &Vec<&Datum>) -> (r: Result<
        (TabularData, Vec<(String, char)>),
        CompactError,
    >)
        requires
            old(self).wf(),
        ensures
            final(self).wf(),
            old(self).url_dictionary()@.is_prefix_of(final(self).url_dictionary()@),
            old(self).string_dictionary()@.is_prefix_of(final(self).string_dictionary()@),
            r is Ok <==> after_short_group(
                TextKind::Url,
                rows_view(resources@),
                old(self).url_dictionary()@,
            ).len() <= CodeWidth::Bits8.capacity() && after_short_group(
                TextKind::Plain,
                rows_view(resources@),
                old(self).string_dictionary()@,
            ).len() <= CodeWidth::Bits8.capacity(),
            match r {
                Ok(out) => {
                    &&& final(self).url_dictionary()@ == after_short_group(
                        TextKind::Url,
                        rows_view(resources@),
                        old(self).url_dictionary()@,
                    )
                    &&& final(self).string_dictionary()@ == after_short_group(
                        TextKind::Plain,
                        rows_view(resources@),
                        old(self).string_dictionary()@,
                    )
                    &&& out.0.n == resources.len()
                    &&& short_layout_view(out.1@) == short_layout_of(rows_view(resources@))
                    &&& tabulates(
                        fields_view(out.0.c@),
                        short_layout_of(rows_view(resources@)),
                        rows_view(resources@),
                        final(self).url_dictionary()@,
                        final(self).string_dictionary()@,
                    )
                },
                Err(e) => e == CompactError::DictionaryExhausted,
            },
    {
        let layout = self.analyze_fields(resources);
        match self.intern_rows(&layout, resources) {
            Ok(_) => {},
            Err(e) => {
                return Err(e);
            },
        }
        let columns = self.fill_columns(&layout, resources);
        Ok((TabularData { n: resources.len(), c: columns }, layout))
    }
}


impl TrulyEfficientCompactor {
    /// Compacts the records of `data` into an artifact whose size is not
    /// measured yet: the compacted size in its stats is 0.
    ///
    /// The records are the items of the array in the field `subresources`.
    /// A record without a type is left out. The run fails with
    /// `Serialization` exactly when the input has no serialized form, and
    /// else with `DictionaryExhausted` exactly when one of the dictionaries
    /// would come to hold more texts than it has codes.
    #[verifier::loop_isolation(false)]
    pub fn compact_unmeasured(&mut self, data: &Datum) -> (r: Result<CompactFormat, CompactError>)
        requires
            old(self).wf(),
        ensures
            final(self).wf(),
            old(self).url_dictionary()@.is_prefix_of(final(self).url_dictionary()@),
            old(self).string_dictionary()@.is_prefix_of(final(self).string_dictionary()@),
            match r {
                Ok(artifact) => {
                    &&& text_of(data@) is Some
                    &&& aggressively_compacted(
                        &artifact,
                        subresources_of(data@),
                        old(self).url_dictionary()@,
                        old(self).string_dictionary()@,
                        utf8_len(text_of(data@)->0),
                    )
                    &&& final(self).url_dictionary()@ == listed(artifact.u)
                    &&& final(self).string_dictionary()@ == listed(artifact.t)
                    &&& artifact.stats.comp == 0
                },
                Err(CompactError::Serialization) => {
                    &&& text_of(data@) is None
                    &&& final(self).url_dictionary()@ == old(self).url_dictionary()@
                    &&& final(self).string_dictionary()@ == old(self).string_dictionary()@
                },
                Err(CompactError::DictionaryExhausted) => {
                    &&& text_of(data@) is Some
                    &&& (after_short_groups(
                        TextKind::Url,
                        subresources_of(data@),
                        tags_of(subresources_of(data@)),
                        old(self).url_dictionary()@,
                    ).len() > CodeWidth::Bits8.capacity() || after_short_groups(
                        TextKind::Plain,
                        subresources_of(data@),
                        tags_of(subresources_of(data@)),
                        old(self).string_dictionary()@,
                    ).len() > CodeWidth::Bits8.capacity())
                },
            },
    {
        let ghost urls0 = self.url_dictionary()@;
        let ghost strings0 = self.string_dictionary()@;
        assert(urls0.subrange(0, urls0.len() as int) =~= urls0);
        assert(strings0.subrange(0, strings0.len() as int) =~= strings0);
        let text = match datum_to_text(data) {
            Some(t) => t,
            None => {
                return Err(CompactError::Serialization);
            },
        };
        let original_size = byte_len(text.as_str());
        let nothing: Vec<Datum> = Vec::new();
        let records: &Vec<Datum> = match data.get("subresources") {
            Some(Datum::Array(items)) => items,
            _ => &nothing,
        };
        let ghost recs = items_view(records@);
        proof {
            lemma_items_view_len(records@);
        }
        assert(recs == subresources_of(data@));
        let (groups, _processed) = classify(records);
        let ghost tags = tags_of(recs);
        let mut tables: Vec<(String, TabularData)> = Vec::new();
        let mut types: Vec<(String, char)> = Vec::new();
        let mut order: Vec<String> = Vec::new();
        let mut g: usize = 0;
        assert(tags.take(0) =~= Seq::<Seq<char>>::empty());
        assert(short_layout_view(types@) =~= types_of_groups(recs, tags.take(0)));
        assert(texts_of(order@) =~= order_of_groups(recs, tags.take(0)));
        while g < groups.len()
            invariant
                g <= groups.len(),
                tags.len() == groups.len(),
                self.wf(),
                urls0.is_prefix_of(self.url_dictionary()@),
                strings0.is_prefix_of(self.string_dictionary()@),
                self.url_dictionary()@ == after_short_groups(
                    TextKind::Url,
                    recs,
                    tags.take(g as int),
                    urls0,
                ),
                self.string_dictionary()@ == after_short_groups(
                    TextKind::Plain,
                    recs,
                    tags.take(g as int),
                    strings0,
                ),
                tables.len() == g,
                forall|k: int|
                    0 <= k < g ==> group_tabulated(
                        #[trigger] tables[k],
                        group_rows(recs, tags[k]),
                        tags[k],
                        after_short_groups(TextKind::Url, recs, tags.take(k + 1), urls0),
                        after_short_groups(TextKind::Plain, recs, tags.take(k + 1), strings0),
                    ),
                short_layout_view(types@) == types_of_groups(recs, tags.take(g as int)),
                texts_of(order@) == order_of_groups(recs, tags.take(g as int)),
            decreases groups.len() - g,
        {
            let ghost urls_here = self.url_dictionary()@;
            let ghost strings_here = self.string_dictionary()@;
            let ghost old_tables = tables@;
            let ghost tag = tags[g as int];
            let ghost group = group_rows(recs, tag);
            proof {
                assert(tags.take(g + 1).drop_last() == tags.take(g as int));
                assert(tags.take(g + 1).last() == tag);
                assert(crate::classify::group_tags(groups@)[g as int] == groups[g as int].tag@);
                lemma_members_in_range(recs, tag);
                assert forall|k: int| 0 <= k < groups[g as int].rows.len() implies (
                #[trigger] groups[g as int].rows[k]) < records.len() by {
                    assert(positions(groups[g as int].rows@)[k] == groups[g as int].rows[k]);
                }
            }
            let rows = borrow_rows(records, &groups[g].rows);
            assert(rows_view(rows@) == group);
            match self.convert_to_tabular(&rows) {
                Ok((tabular, layout)) => {
                    proof {
                        lemma_prefix_trans(urls0, urls_here, self.url_dictionary()@);
                        lemma_prefix_trans(strings0, strings_here, self.string_dictionary()@);
                    }
                    tables.push((groups[g].tag.clone(), tabular));
                    proof {
                        assert forall|k: int| 0 <= k < g + 1 implies group_tabulated(
                            #[trigger] tables[k],
                            group_rows(recs, tags[k]),
                            tags[k],
                            after_short_groups(TextKind::Url, recs, tags.take(k + 1), urls0),
                            after_short_groups(TextKind::Plain, recs, tags.take(k + 1), strings0),
                        ) by {
                            if k < g {
                                assert(tables[k] == old_tables[k]);
                            }
                        }
                    }
                    let ghost columns = short_layout_view(layout@);
                    let ghost base_types = short_layout_view(types@);
                    let ghost base_order = texts_of(order@);
                    let mut c: usize = 0;
                    assert(columns.take(0) =~= ShortLayout::empty());
                    while c < layout.len()
                        invariant
                            c <= layout.len(),
                            short_layout_view(types@) == types_merged(
                                base_types,
                                columns.take(c as int),
                            ),
                            texts_of(order@) == order_merged(base_order, columns.take(c as int)),
                        decreases layout.len() - c,
                    {
                        proof {
                            assert(columns.take(c + 1).drop_last() == columns.take(c as int));
                            assert(columns.take(c + 1).last() == (
                                layout[c as int].0@,
                                layout[c as int].1,
                            ));
                        }
                        let ghost types_before = types@;
                        match type_position_exec(&types, layout[c].0.as_str()) {
                            Some(i) => {
                                types[i] = (layout[c].0.clone(), layout[c].1);
                                assert(short_layout_view(types@) =~= short_layout_view(
                                    types_before,
                                ).update(i as int, (layout[c as int].0@, layout[c as int].1)));
                            },
                            None => {
                                types.push((layout[c].0.clone(), layout[c].1));
                                assert(short_layout_view(types@) =~= short_layout_view(
                                    types_before,
                                ).push((layout[c as int].0@, layout[c as int].1)));
                            },
                        }
                        if !holds_name(&order, layout[c].0.as_str()) {
                            let ghost order_before = order@;
                            order.push(layout[c].0.clone());
                            assert(texts_of(order@) =~= texts_of(order_before).push(
                                layout[c as int].0@,
                            ));
                        }
                        c += 1;
                    }
                    assert(columns.take(c as int) == columns);
                },
                Err(e) => {
                    proof {
                        lemma_prefix_trans(urls0, urls_here, self.url_dictionary()@);
                        lemma_prefix_trans(strings0, strings_here, self.string_dictionary()@);
                        lemma_after_short_groups(TextKind::Url, recs, tags, urls0, g + 1);
                        lemma_after_short_groups(TextKind::Plain, recs, tags, strings0, g + 1);
                    }
                    return Err(e);
                },
            }
            g += 1;
        }
        assert(tags.take(g as int) == tags);
        let u = if self.url_dict.len() == 0 {
            None
        } else {
            Some(clone_strings(self.url_dict.entries()))
        };
        let t = if self.string_dict.len() == 0 {
            None
        } else {
            Some(clone_strings(self.string_dict.entries()))
        };
        assert(listed(u) =~= self.url_dictionary()@);
        assert(listed(t) =~= self.string_dictionary()@);
        Ok(
            CompactFormat {
                s: Schema { types, order },
                d: tables,
                u,
                t,
                stats: CompactStats { orig: original_size, comp: 0 },
                fidelity: FidelityMode::AggressiveColumnar,
            },
        )
    }
}

impl CompactFormat {
    /// The artifact with the size of its serialized form entered into the
    /// stats.
    pub fn with_compacted_size(self, compacted_size: usize) -> (r: Self)
        ensures
            r.s == self.s,
            r.d == self.d,
            r.u == self.u,
            r.t == self.t,
            r.fidelity == self.fidelity,
            r.stats == (CompactStats { comp: compacted_size, ..self.stats }),
    {
        let mut stats = self.stats;
        stats.comp = compacted_size;
        CompactFormat {
            s: self.s,
            d: self.d,
            u: self.u,
            t: self.t,
            stats,
            fidelity: self.fidelity,
        }
    }
}

/// The code that a number is taken for: what is left of it after division
/// by 256. A negative number is taken for none.
pub open spec fn number_code(i: i64) -> int {
    if i >= 0 {
        i as int % 256
    } else {
        0
    }
}

/// The value that a compressed value stands for: a number whose code one of
/// the dictionaries has is the text with that code, that of the URLs first;
/// an array is the array of what its items stand for; every other value
/// stands for itself.
pub open spec fn decompressed(v: DatumView, urls: Seq<Seq<char>>, strings: Seq<Seq<char>>) -> DatumView
    decreases v,
{
    match v {
        DatumView::Int(i) => {
            let id = number_code(i);
            if 1 <= id <= urls.len() {
                DatumView::Str(urls[id - 1])
            } else if 1 <= id <= strings.len() {
                DatumView::Str(strings[id - 1])
            } else {
                v
            }
        },
        DatumView::Array(items) => DatumView::Array(decompressed_items(items, urls, strings)),
        _ => v,
    }
}

/// What the given items stand for, in order.
pub open spec fn decompressed_items(
    items: Seq<DatumView>,
    urls: Seq<Seq<char>>,
    strings: Seq<Seq<char>>,
) -> Seq<DatumView>
    decreases items,
{
    if items.len() == 0 {
        Seq::empty()
    } else {
        decompressed_items(items.drop_last(), urls, strings).push(
            decompressed(items.last(), urls, strings),
        )
    }
}

/// What a column gives to the record of row `i`: nothing where it is no
/// array, or too short, or has null there.
pub open spec fn short_given(
    column: (Seq<char>, DatumView),
    i: int,
    urls: Seq<Seq<char>>,
    strings: Seq<Seq<char>>,
) -> Option<(Seq<char>, DatumView)> {
    match column.1 {
        DatumView::Array(cells) => if 0 <= i < cells.len() && !(cells[i] is Null) {
            Some((aggressive_expansion(column.0), decompressed(cells[i], urls, strings)))
        } else {
            None
        },
        _ => None,
    }
}

/// The fields of row `i` after the given columns were decoded into `start`,
/// one column after the other.
pub open spec fn short_decoded_fields(
    columns: FieldsView,
    i: int,
    urls: Seq<Seq<char>>,
    strings: Seq<Seq<char>>,
    start: FieldsView,
) -> FieldsView
    decreases columns.len(),
{
    if columns.len() == 0 {
        start
    } else {
        let before = short_decoded_fields(columns.drop_last(), i, urls, strings, start);
        match short_given(columns.last(), i, urls, strings) {
            Some(kv) => upserted(before, kv.0, kv.1),
            None => before,
        }
    }
}

/// The fields with which a decoded record of the given tag starts.
pub open spec fn short_start(tag: Seq<char>) -> FieldsView {
    seq![(type_field(), DatumView::Str(type_id_of_tag(tag)))]
}

/// The records that a group decodes to, in the order of its rows.
pub open spec fn short_decoded_group(
    tag: Seq<char>,
    n: nat,
    columns: FieldsView,
    urls: Seq<Seq<char>>,
    strings: Seq<Seq<char>>,
) -> Seq<DatumView> {
    Seq::new(
        n,
        |i: int|
            DatumView::Object(short_decoded_fields(columns, i, urls, strings, short_start(tag))),
    )
}

/// The records that the groups decode to: those of the first group, then
/// those of the second, and so on.
pub open spec fn short_decoded_groups(
    groups: Seq<(String, TabularData)>,
    urls: Seq<Seq<char>>,
    strings: Seq<Seq<char>>,
) -> Seq<DatumView>
    decreases groups.len(),
{
    if groups.len() == 0 {
        Seq::empty()
    } else {
        short_decoded_groups(groups.drop_last(), urls, strings) + short_decoded_group(
            groups.last().0@,
            groups.last().1.n as nat,
            fields_view(groups.last().1.c@),
            urls,
            strings,
        )
    }
}

/// The position of the first field named `key`, if there is one.
fn position_exec(fields: &Vec<(String, Datum)>, key: &str) -> (r: Option<usize>)
    ensures
        match r {
            Some(i) => position_of(fields_view(fields@), key@) == Some(i as int) && i
                < fields.len(),
            None => position_of(fields_view(fields@), key@) is None,
        },
{
    let ghost all = fields_view(fields@);
    proof {
        lemma_fields_view_len(fields@);
    }
    let mut i: usize = 0;
    while i < fields.len()
        invariant
            i <= fields.len(),
            all == fields_view(fields@),
            all.len() == fields.len(),
            position_of(all.take(i as int), key@) is None,
        decreases fields.len() - i,
    {
        proof {
            lemma_fields_view_index(fields@, i as int);
            assert(all.take(i + 1).drop_last() == all.take(i as int));
        }
        if same_text(fields[i].0.as_str(), key) {
            proof {
                crate::columnar::lemma_position_grows(all, key@, i + 1);
            }
            return Some(i);
        }
        i += 1;
    }
    assert(all.take(i as int) == all);
    None
}

/// Sets the field `key` to `value`: in place where there is such a field,
/// else at the end.
pub fn upsert(fields: &mut Vec<(String, Datum)>, key: String, value: Datum)
    ensures
        fields_view(final(fields)@) == upserted(fields_view(old(fields)@), key@, value@),
{
    let ghost before = fields@;
    proof {
        lemma_fields_view_len(before);
    }
    match position_exec(fields, key.as_str()) {
        Some(i) => {
            fields[i] = (key, value);
            proof {
                lemma_fields_view_len(fields@);
                assert forall|k: int| 0 <= k < fields.len() implies fields_view(fields@)[k]
                    == fields_view(before).update(i as int, (key@, value@))[k] by {
                    lemma_fields_view_index(fields@, k);
                    lemma_fields_view_index(before, k);
                }
                assert(fields_view(fields@) =~= fields_view(before).update(
                    i as int,
                    (key@, value@),
                ));
            }
        },
        None => {
            fields.push((key, value));
            assert(fields@.drop_last() =~= before);
        },
    }
}

impl TrulyEfficientCompactor {
    /// What a compressed value stands for, given the dictionaries of an
    /// artifact.
    pub fn decompress_value(value: &Datum, compact: &CompactFormat) -> (r: Datum)
        ensures
            r@ == decompressed(value@, listed(compact.u), listed(compact.t)),
        decreases value,
    {
        match value {
            Datum::Int(i) => {
                if *i >= 0 {
                    let id: usize = (*i % 256) as usize;
                    match &compact.u {
                        Some(urls) => {
                            if 1 <= id && id <= urls.len() {
                                return Datum::Str(urls[id - 1].clone());
                            }
                        },
                        None => {},
                    }
                    match &compact.t {
                        Some(strings) => {
                            if 1 <= id && id <= strings.len() {
                                return Datum::Str(strings[id - 1].clone());
                            }
                        },
                        None => {},
                    }
                }
                Datum::Int(*i)
            },
            Datum::Array(items) => {
                let ghost views = items_view(items@);
                proof {
                    lemma_items_view_len(items@);
                    assert(views.take(0) =~= Seq::<DatumView>::empty());
                }
                let mut out: Vec<Datum> = Vec::new();
                let mut i: usize = 0;
                while i < items.len()
                    invariant
                        i <= items.len(),
                        *value == Datum::Array(*items),
                        views == items_view(items@),
                        views.len() == items.len(),
                        items_view(out@) == decompressed_items(
                            views.take(i as int),
                            listed(compact.u),
                            listed(compact.t),
                        ),
                    decreases items.len() - i,
                {
                    proof {
                        lemma_items_view_index(items@, i as int);
                        assert(views.take(i + 1).drop_last() == views.take(i as int));
                        assert(views.take(i + 1).last() == items[i as int]@);
                        assert(decreases_to!(*value => value->Array_0));
                        assert(decreases_to!(*items => items[i as int]));
                    }
                    let item = &items[i];
                    let ghost before = out@;
                    out.push(Self::decompress_value(item, compact));
                    assert(out@.drop_last() =~= before);
                    i += 1;
                }
                assert(views.take(i as int) == views);
                Datum::Array(out)
            },
            _ => clone_datum(value),
        }
    }

    /// Rebuilds records from an artifact, as far as it gives them back.
    ///
    /// The records of the first group come first, in the order of its rows,
    /// then those of the second, and so on: not the order of the input of
    /// the run. Each record has its type field, and a field for each cell of
    /// its row that is there and not null, under the key that the column's
    /// short key expands to. It does not fail.
    #[verifier::loop_isolation(false)]
    pub fn reconstruct(compact: &CompactFormat) -> (r: Result<Datum, DecodeError>)
        ensures
            r is Ok,
            r->Ok_0@ == wrapped(
                short_decoded_groups(compact.d@, listed(compact.u), listed(compact.t)),
            ),
    {
        broadcast use crate::value::group_datum_view;

        let ghost urls = listed(compact.u);
        let ghost strings = listed(compact.t);
        let mut out: Vec<Datum> = Vec::new();
        let mut g: usize = 0;
        assert(compact.d@.take(0) =~= Seq::<(String, TabularData)>::empty());
        while g < compact.d.len()
            invariant
                g <= compact.d.len(),
                items_view(out@) == short_decoded_groups(compact.d@.take(g as int), urls, strings),
            decreases compact.d.len() - g,
        {
            let tag = &compact.d[g].0;
            let tabular = &compact.d[g].1;
            let ghost done = items_view(out@);
            let ghost columns = fields_view(tabular.c@);
            let ghost wanted = short_decoded_group(tag@, tabular.n as nat, columns, urls, strings);
            proof {
                assert(compact.d@.take(g + 1).drop_last() == compact.d@.take(g as int));
                assert(compact.d@.take(g + 1).last() == compact.d[g as int]);
                assert(done + wanted.take(0) =~= done);
                lemma_fields_view_len(tabular.c@);
            }
            let mut i: usize = 0;
            while i < tabular.n
                invariant
                    i <= tabular.n,
                    items_view(out@) == done + wanted.take(i as int),
                decreases tabular.n - i,
            {
                let mut fields: Vec<(String, Datum)> = Vec::new();
                fields.push(("resource_type".to_owned(), Datum::Str(expand_tag(tag.as_str()))));
                proof {
                    assert(fields@.drop_last() =~= Seq::<(String, Datum)>::empty());
                    assert(fields_view(fields@) =~= short_start(tag@));
                    assert(columns.take(0) =~= FieldsView::empty());
                }
                let mut c: usize = 0;
                while c < tabular.c.len()
                    invariant
                        c <= tabular.c.len(),
                        fields_view(fields@) == short_decoded_fields(
                            columns.take(c as int),
                            i as int,
                            urls,
                            strings,
                            short_start(tag@),
                        ),
                    decreases tabular.c.len() - c,
                {
                    proof {
                        lemma_fields_view_index(tabular.c@, c as int);
                        assert(columns.take(c + 1).drop_last() == columns.take(c as int));
                        assert(columns.take(c + 1).last() == (
                            tabular.c[c as int].0@,
                            tabular.c[c as int].1@,
                        ));
                    }
                    match &tabular.c[c].1 {
                        Datum::Array(cells) => {
                            proof {
                                lemma_items_view_len(cells@);
                            }
                            if i < cells.len() {
                                proof {
                                    lemma_items_view_index(cells@, i as int);
                                }
                                match &cells[i] {
                                    Datum::Null => {},
                                    cell => {
                                        let value = Self::decompress_value(cell, compact);
                                        let key = Self::expand_field_name(tabular.c[c].0.as_str());
                                        upsert(&mut fields, key, value);
                                    },
                                }
                            }
                        },
                        _ => {},
                    }
                    c += 1;
                }
                assert(columns.take(c as int) == columns);
                let ghost before = out@;
                let record = Datum::Object(fields);
                out.push(record);
                proof {
                    assert(out@.drop_last() =~= before);
                    assert(record@ == wanted[i as int]);
                    assert(wanted.take(i + 1) =~= wanted.take(i as int).push(wanted[i as int]));
                    assert(items_view(out@) =~= done + wanted.take(i + 1));
                }
                i += 1;
            }
            assert(wanted.take(i as int) == wanted);
            g += 1;
        }
        assert(compact.d@.take(g as int) == compact.d@);
        let ghost records = items_view(out@);
        let mut top: Vec<(String, Datum)> = Vec::new();
        top.push(("subresources".to_owned(), Datum::Array(out)));
        proof {
            assert(top@.drop_last() =~= Seq::<(String, Datum)>::empty());
            assert(fields_view(top@) =~= seq![("subresources"@, DatumView::Array(records))]);
        }
        Ok(Datum::Object(top))
    }
}

} // verus!
