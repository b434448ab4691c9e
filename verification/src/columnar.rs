use vstd::prelude::*;
use crate::dictionary::{
    code_in, distinct, interned, lemma_code_stable, lemma_interned, lemma_prefix_contains,
    lemma_prefix_trans,
};
use crate::classify::{members_of, tags_of, type_field, type_id_of_tag};
use crate::fields::{abbreviated, added, canonical_of, short_of, TableView};
use crate::json::{json_parse, text_of};
use crate::text::starts_with;
use crate::value::{fields_of, lookup, Datum, DatumView, FieldsView};

verus! {

/// The type of the cells of a column.
#[derive(Clone, Copy, Debug, PartialEq, Eq, Structural)]
pub enum FieldType {
    Str,
    Int,
    Float,
    Bool,
    Url,
    Json,
}

/// One cell of a column: empty, a literal, or the code of an interned text.
#[derive(Debug, PartialEq, Eq)]
pub enum Cell {
    Null,
    Int(i64),
    /// A number that is no `i64`, as its decimal text.
    Float(String),
    Bool(bool),
    Code(u32),
}

/// The content of a [`Cell`].
pub enum CellView {
    Null,
    Int(i64),
    Float(Seq<char>),
    Bool(bool),
    Code(u32),
}

impl View for Cell {
    type V = CellView;

    open spec fn view(&self) -> CellView {
        match self {
            Cell::Null => CellView::Null,
            Cell::Int(i) => CellView::Int(*i),
            Cell::Float(t) => CellView::Float(t@),
            Cell::Bool(b) => CellView::Bool(*b),
            Cell::Code(c) => CellView::Code(*c),
        }
    }
}

/// The contents of a list of cells, in order.
pub open spec fn cells_view(cells: Seq<Cell>) -> Seq<CellView> {
    Seq::new(cells.len(), |i: int| cells[i]@)
}

/// A named column: one cell for each row of its group.
#[derive(Debug, PartialEq, Eq)]
pub struct Column {
    pub name: String,
    pub field_type: FieldType,
    pub cells: Vec<Cell>,
}

/// The content of a [`Column`].
pub struct ColumnView {
    pub name: Seq<char>,
    pub field_type: FieldType,
    pub cells: Seq<CellView>,
}

impl View for Column {
    type V = ColumnView;

    open spec fn view(&self) -> ColumnView {
        ColumnView { name: self.name@, field_type: self.field_type, cells: cells_view(self.cells@) }
    }
}

/// The contents of a list of columns, in order.
pub open spec fn columns_view(columns: Seq<Column>) -> Seq<ColumnView> {
    Seq::new(columns.len(), |i: int| columns[i]@)
}

/// The columns of a group, by name and type, in order.
pub type Layout = Seq<(Seq<char>, FieldType)>;

/// Which of the two dictionaries a text belongs to.
#[derive(Clone, Copy, Debug, PartialEq, Eq, Structural)]
pub enum TextKind {
    Url,
    Plain,
}

/// `s` looks like a URL: it begins with `https://` or with `http://`.
pub open spec fn is_url(s: Seq<char>) -> bool {
    starts_with(s, "https://"@) || starts_with(s, "http://"@)
}

/// The column type that a value's shape calls for.
pub open spec fn field_type_of(v: DatumView) -> FieldType {
    match v {
        DatumView::Str(s) => if is_url(s) {
            FieldType::Url
        } else {
            FieldType::Str
        },
        DatumView::Int(_) => FieldType::Int,
        DatumView::Float(_) => FieldType::Float,
        DatumView::Bool(_) => FieldType::Bool,
        DatumView::Array(_) | DatumView::Object(_) => FieldType::Json,
        DatumView::Null => FieldType::Str,
    }
}

/// `layout` has a column named `name`.
pub open spec fn has_column(layout: Layout, name: Seq<char>) -> bool {
    exists|c: int| 0 <= c < layout.len() && (#[trigger] layout[c]).0 == name
}

/// The layout after a record's fields were noted, in order: a field whose
/// stored key is new adds a column, of the type of that field's value.
pub open spec fn noted(table: TableView, layout: Layout, fields: FieldsView) -> Layout
    decreases fields.len(),
{
    if fields.len() == 0 {
        layout
    } else {
        let before = noted(table, layout, fields.drop_last());
        let name = abbreviated(table, fields.last().0);
        if has_column(before, name) {
            before
        } else {
            before.push((name, field_type_of(fields.last().1)))
        }
    }
}

/// The layout of a group: a column for each stored key, in the order in
/// which the keys first occur, typed by the first value that occurs with it.
pub open spec fn layout_of(table: TableView, rows: Seq<DatumView>) -> Layout
    decreases rows.len(),
{
    if rows.len() == 0 {
        Seq::empty()
    } else {
        noted(table, layout_of(table, rows.drop_last()), fields_of(rows.last()))
    }
}

/// How many of `fields` have a key that the table abbreviates.
pub open spec fn abbreviations_in(table: TableView, fields: FieldsView) -> nat
    decreases fields.len(),
{
    if fields.len() == 0 {
        0
    } else if short_of(table, fields.last().0) is Some {
        abbreviations_in(table, fields.drop_last()) + 1
    } else {
        abbreviations_in(table, fields.drop_last())
    }
}

/// How many fields of `rows` have a key that the table abbreviates.
pub open spec fn abbreviations_of(table: TableView, rows: Seq<DatumView>) -> nat
    decreases rows.len(),
{
    if rows.len() == 0 {
        0
    } else {
        abbreviations_of(table, rows.drop_last()) + abbreviations_in(table, fields_of(rows.last()))
    }
}

/// The table of the names in use after a field named `key` was met: where
/// `table` abbreviates the key, the pair of the key and its short key is
/// offered to the names.
pub open spec fn named(table: TableView, names: TableView, key: Seq<char>) -> TableView {
    match short_of(table, key) {
        Some(s) => added(names, key, s),
        None => names,
    }
}

/// The table of the names in use after the given fields were met, in order.
pub open spec fn names_after_fields(table: TableView, names: TableView, fields: FieldsView) -> TableView
    decreases fields.len(),
{
    if fields.len() == 0 {
        names
    } else {
        named(table, names_after_fields(table, names, fields.drop_last()), fields.last().0)
    }
}

/// The table of the names in use after the fields of the given rows were
/// met, row by row.
pub open spec fn names_after_rows(table: TableView, names: TableView, rows: Seq<DatumView>) -> TableView
    decreases rows.len(),
{
    if rows.len() == 0 {
        names
    } else {
        names_after_fields(
            table,
            names_after_rows(table, names, rows.drop_last()),
            fields_of(rows.last()),
        )
    }
}

/// The value that a record has for the column `name`: that of its field
/// named `name`, else that of the field whose canonical key `name` stands for.
pub open spec fn value_for(table: TableView, row: DatumView, name: Seq<char>) -> Option<DatumView> {
    value_in(table, fields_of(row), name)
}

/// The value that `fields` have for the column `name`: that of the field
/// named `name`, else that of the field whose canonical key `name` stands for.
pub open spec fn value_in(table: TableView, fields: FieldsView, name: Seq<char>) -> Option<
    DatumView,
> {
    match lookup(fields, name) {
        Some(v) => Some(v),
        None => match canonical_of(table, name) {
            Some(full) => lookup(fields, full),
            None => None,
        },
    }
}

/// The serialized form of a value, or the empty text where it has none.
pub open spec fn text_or_empty(v: DatumView) -> Seq<char> {
    match text_of(v) {
        Some(t) => t,
        None => Seq::empty(),
    }
}

/// The text that a cell puts into the dictionary of the given kind.
pub open spec fn cell_text(kind: TextKind, ty: FieldType, value: Option<DatumView>) -> Option<
    Seq<char>,
> {
    match (kind, ty, value) {
        (TextKind::Url, FieldType::Url, Some(DatumView::Str(s))) => Some(s),
        (TextKind::Plain, FieldType::Str, Some(DatumView::Str(s))) => Some(s),
        (TextKind::Plain, FieldType::Json, Some(v)) => Some(text_or_empty(v)),
        _ => None,
    }
}

/// The entries of a dictionary after one cell was encoded.
pub open spec fn after_cell(
    kind: TextKind,
    entries: Seq<Seq<char>>,
    ty: FieldType,
    value: Option<DatumView>,
) -> Seq<Seq<char>> {
    match cell_text(kind, ty, value) {
        Some(t) => interned(entries, t),
        None => entries,
    }
}

/// The entries of a dictionary after the cells of one row were encoded,
/// column by column.
pub open spec fn after_row(
    kind: TextKind,
    table: TableView,
    layout: Layout,
    row: DatumView,
    entries: Seq<Seq<char>>,
) -> Seq<Seq<char>>
    decreases layout.len(),
{
    if layout.len() == 0 {
        entries
    } else {
        after_cell(
            kind,
            after_row(kind, table, layout.drop_last(), row, entries),
            layout.last().1,
            value_for(table, row, layout.last().0),
        )
    }
}

/// The entries of a dictionary after all rows were encoded, row by row.
pub open spec fn after_rows(
    kind: TextKind,
    table: TableView,
    layout: Layout,
    rows: Seq<DatumView>,
    entries: Seq<Seq<char>>,
) -> Seq<Seq<char>>
    decreases rows.len(),
{
    if rows.len() == 0 {
        entries
    } else {
        after_row(
            kind,
            table,
            layout,
            rows.last(),
            after_rows(kind, table, layout, rows.drop_last(), entries),
        )
    }
}

/// The cell that holds the code of `s`; empty where `s` has none.
pub open spec fn code_cell(entries: Seq<Seq<char>>, s: Seq<char>) -> CellView {
    match code_in(entries, s) {
        Some(c) => CellView::Code(c as u32),
        None => CellView::Null,
    }
}

/// The cell of a column of type `ty` for a row whose value is `value`,
/// given the dictionaries.
///
/// A text is stored as its code. A number is stored as it is, and an integer
/// is at home in a float column too. A truth value that is missing is
/// stored as `false`. Every other value that is missing, or does not fit the
/// type, leaves the cell empty.
pub open spec fn cell_of(
    ty: FieldType,
    value: Option<DatumView>,
    urls: Seq<Seq<char>>,
    strings: Seq<Seq<char>>,
) -> CellView {
    match ty {
        FieldType::Str => match value {
            Some(DatumView::Str(s)) => code_cell(strings, s),
            _ => CellView::Null,
        },
        FieldType::Url => match value {
            Some(DatumView::Str(s)) => code_cell(urls, s),
            _ => CellView::Null,
        },
        FieldType::Int => match value {
            Some(DatumView::Int(i)) => CellView::Int(i),
            _ => CellView::Null,
        },
        FieldType::Float => match value {
            Some(DatumView::Float(t)) => CellView::Float(t),
            Some(DatumView::Int(i)) => CellView::Int(i),
            _ => CellView::Null,
        },
        FieldType::Bool => match value {
            Some(DatumView::Bool(b)) => CellView::Bool(b),
            _ => CellView::Bool(false),
        },
        FieldType::Json => match value {
            Some(v) => code_cell(strings, text_or_empty(v)),
            None => CellView::Null,
        },
    }
}

/// The entries of a dictionary after a group of rows was encoded, starting
/// from `entries`.
pub open spec fn after_group(
    kind: TextKind,
    table: TableView,
    rows: Seq<DatumView>,
    entries: Seq<Seq<char>>,
) -> Seq<Seq<char>> {
    after_rows(kind, table, layout_of(table, rows), rows, entries)
}

/// The names and types held in `layout`, with the names as texts.
pub open spec fn layout_view(layout: Seq<(String, FieldType)>) -> Layout {
    Seq::new(layout.len(), |c: int| (layout[c].0@, layout[c].1))
}

/// The content of a value that may be missing.
pub open spec fn option_view(value: Option<&Datum>) -> Option<DatumView> {
    match value {
        Some(v) => Some(v@),
        None => None,
    }
}

/// Encoding the first `c` columns of a row leaves a dictionary no larger
/// than encoding all of them.
pub proof fn lemma_after_row_len(
    kind: TextKind,
    table: TableView,
    layout: Layout,
    row: DatumView,
    entries: Seq<Seq<char>>,
    c: int,
)
    requires
        0 <= c <= layout.len(),
    ensures
        after_row(kind, table, layout.take(c), row, entries).len() <= after_row(
            kind,
            table,
            layout,
            row,
            entries,
        ).len(),
    decreases layout.len() - c,
{
    if c < layout.len() {
        assert(layout.take(c + 1).drop_last() == layout.take(c));
        lemma_after_row_len(kind, table, layout, row, entries, c + 1);
    } else {
        assert(layout.take(c) == layout);
    }
}

/// Encoding the first `i` rows leaves a dictionary no larger than encoding
/// all of them.
pub proof fn lemma_after_rows_len(
    kind: TextKind,
    table: TableView,
    layout: Layout,
    rows: Seq<DatumView>,
    entries: Seq<Seq<char>>,
    i: int,
)
    requires
        0 <= i <= rows.len(),
    ensures
        after_rows(kind, table, layout, rows.take(i), entries).len() <= after_rows(
            kind,
            table,
            layout,
            rows,
            entries,
        ).len(),
    decreases rows.len() - i,
{
    if i < rows.len() {
        assert(rows.take(i + 1).drop_last() == rows.take(i));
        lemma_after_row_len(
            kind,
            table,
            layout,
            rows[i],
            after_rows(kind, table, layout, rows.take(i), entries),
            0,
        );
        assert(layout.take(0) =~= Layout::empty());
        lemma_after_rows_len(kind, table, layout, rows, entries, i + 1);
    } else {
        assert(rows.take(i) == rows);
    }
}

/// Encoding a cell adds at the end of a dictionary, if at all, and keeps it
/// free of repetitions.
pub proof fn lemma_after_cell(
    kind: TextKind,
    entries: Seq<Seq<char>>,
    ty: FieldType,
    value: Option<DatumView>,
)
    ensures
        entries.is_prefix_of(after_cell(kind, entries, ty, value)),
        distinct(entries) ==> distinct(after_cell(kind, entries, ty, value)),
        cell_text(kind, ty, value) is Some ==> after_cell(kind, entries, ty, value).contains(
            cell_text(kind, ty, value)->0,
        ),
{
    match cell_text(kind, ty, value) {
        Some(t) => {
            lemma_interned(entries, t);
        },
        None => {
            assert(entries.subrange(0, entries.len() as int) =~= entries);
        },
    }
}

/// Encoding a row adds at the end of a dictionary, if at all, and keeps it
/// free of repetitions.
pub proof fn lemma_after_row(
    kind: TextKind,
    table: TableView,
    layout: Layout,
    row: DatumView,
    entries: Seq<Seq<char>>,
)
    ensures
        entries.is_prefix_of(after_row(kind, table, layout, row, entries)),
        distinct(entries) ==> distinct(after_row(kind, table, layout, row, entries)),
    decreases layout.len(),
{
    if layout.len() == 0 {
        assert(entries.subrange(0, entries.len() as int) =~= entries);
    } else {
        let before = after_row(kind, table, layout.drop_last(), row, entries);
        lemma_after_row(kind, table, layout.drop_last(), row, entries);
        lemma_after_cell(kind, before, layout.last().1, value_for(table, row, layout.last().0));
        lemma_prefix_trans(entries, before, after_row(kind, table, layout, row, entries));
    }
}

/// Encoding rows adds at the end of a dictionary, if at all, and keeps it
/// free of repetitions.
pub proof fn lemma_after_rows(
    kind: TextKind,
    table: TableView,
    layout: Layout,
    rows: Seq<DatumView>,
    entries: Seq<Seq<char>>,
)
    ensures
        entries.is_prefix_of(after_rows(kind, table, layout, rows, entries)),
        distinct(entries) ==> distinct(after_rows(kind, table, layout, rows, entries)),
    decreases rows.len(),
{
    if rows.len() == 0 {
        assert(entries.subrange(0, entries.len() as int) =~= entries);
    } else {
        let before = after_rows(kind, table, layout, rows.drop_last(), entries);
        lemma_after_rows(kind, table, layout, rows.drop_last(), entries);
        lemma_after_row(kind, table, layout, rows.last(), before);
        lemma_prefix_trans(entries, before, after_rows(kind, table, layout, rows, entries));
    }
}

/// After a row was encoded, the dictionary holds the text of each of its
/// cells.
pub proof fn lemma_row_texts_held(
    kind: TextKind,
    table: TableView,
    layout: Layout,
    row: DatumView,
    entries: Seq<Seq<char>>,
    c: int,
)
    requires
        0 <= c < layout.len(),
        cell_text(kind, layout[c].1, value_for(table, row, layout[c].0)) is Some,
    ensures
        after_row(kind, table, layout, row, entries).contains(
            cell_text(kind, layout[c].1, value_for(table, row, layout[c].0))->0,
        ),
    decreases layout.len(),
{
    let before = after_row(kind, table, layout.drop_last(), row, entries);
    let t = cell_text(kind, layout[c].1, value_for(table, row, layout[c].0))->0;
    lemma_after_cell(kind, before, layout.last().1, value_for(table, row, layout.last().0));
    if c < layout.len() - 1 {
        assert(layout.drop_last()[c] == layout[c]);
        lemma_row_texts_held(kind, table, layout.drop_last(), row, entries, c);
        lemma_prefix_contains(before, after_row(kind, table, layout, row, entries), t);
    }
}

/// After rows were encoded, the dictionary holds the text of each of their
/// cells.
pub proof fn lemma_rows_texts_held(
    kind: TextKind,
    table: TableView,
    layout: Layout,
    rows: Seq<DatumView>,
    entries: Seq<Seq<char>>,
    i: int,
    c: int,
)
    requires
        0 <= i < rows.len(),
        0 <= c < layout.len(),
        cell_text(kind, layout[c].1, value_for(table, rows[i], layout[c].0)) is Some,
    ensures
        after_rows(kind, table, layout, rows, entries).contains(
            cell_text(kind, layout[c].1, value_for(table, rows[i], layout[c].0))->0,
        ),
    decreases rows.len(),
{
    let before = after_rows(kind, table, layout, rows.drop_last(), entries);
    let t = cell_text(kind, layout[c].1, value_for(table, rows[i], layout[c].0))->0;
    if i < rows.len() - 1 {
        assert(rows.drop_last()[i] == rows[i]);
        lemma_rows_texts_held(kind, table, layout, rows.drop_last(), entries, i, c);
        lemma_after_row(kind, table, layout, rows.last(), before);
        lemma_prefix_contains(before, after_rows(kind, table, layout, rows, entries), t);
    } else {
        lemma_row_texts_held(kind, table, layout, rows.last(), before, c);
    }
}

/// A cell whose texts the dictionaries hold stays the same when entries are
/// added behind.
pub proof fn lemma_cell_stable(
    ty: FieldType,
    value: Option<DatumView>,
    urls: Seq<Seq<char>>,
    strings: Seq<Seq<char>>,
    more_urls: Seq<Seq<char>>,
    more_strings: Seq<Seq<char>>,
)
    requires
        urls.is_prefix_of(more_urls),
        strings.is_prefix_of(more_strings),
        cell_text(TextKind::Url, ty, value) is Some ==> urls.contains(
            cell_text(TextKind::Url, ty, value)->0,
        ),
        cell_text(TextKind::Plain, ty, value) is Some ==> strings.contains(
            cell_text(TextKind::Plain, ty, value)->0,
        ),
    ensures
        cell_of(ty, value, more_urls, more_strings) == cell_of(ty, value, urls, strings),
{
    match cell_text(TextKind::Url, ty, value) {
        Some(t) => {
            lemma_code_stable(urls, more_urls, t);
        },
        None => {},
    }
    match cell_text(TextKind::Plain, ty, value) {
        Some(t) => {
            lemma_code_stable(strings, more_strings, t);
        },
        None => {},
    }
}

/// The dictionary holds the text of every cell of the group that belongs
/// into it.
pub open spec fn holds_texts(
    kind: TextKind,
    table: TableView,
    layout: Layout,
    rows: Seq<DatumView>,
    entries: Seq<Seq<char>>,
) -> bool {
    forall|i: int, c: int|
        0 <= i < rows.len() && 0 <= c < layout.len() && (#[trigger] cell_text(
            kind,
            layout[c].1,
            value_for(table, rows[i], layout[c].0),
        )) is Some ==> entries.contains(
            cell_text(kind, layout[c].1, value_for(table, rows[i], layout[c].0))->0,
        )
}

/// After a group was encoded, the dictionary holds the texts of its cells.
pub proof fn lemma_holds_after_rows(
    kind: TextKind,
    table: TableView,
    layout: Layout,
    rows: Seq<DatumView>,
    entries: Seq<Seq<char>>,
)
    ensures
        holds_texts(kind, table, layout, rows, after_rows(kind, table, layout, rows, entries)),
{
    assert forall|i: int, c: int|
        0 <= i < rows.len() && 0 <= c < layout.len() && (#[trigger] cell_text(
            kind,
            layout[c].1,
            value_for(table, rows[i], layout[c].0),
        )) is Some implies after_rows(kind, table, layout, rows, entries).contains(
        cell_text(kind, layout[c].1, value_for(table, rows[i], layout[c].0))->0,
    ) by {
        lemma_rows_texts_held(kind, table, layout, rows, entries, i, c);
    }
}

/// A dictionary that begins with one that holds the texts holds them too.
pub proof fn lemma_holds_grows(
    kind: TextKind,
    table: TableView,
    layout: Layout,
    rows: Seq<DatumView>,
    entries: Seq<Seq<char>>,
    longer: Seq<Seq<char>>,
)
    requires
        holds_texts(kind, table, layout, rows, entries),
        entries.is_prefix_of(longer),
    ensures
        holds_texts(kind, table, layout, rows, longer),
{
    assert forall|i: int, c: int|
        0 <= i < rows.len() && 0 <= c < layout.len() && (#[trigger] cell_text(
            kind,
            layout[c].1,
            value_for(table, rows[i], layout[c].0),
        )) is Some implies longer.contains(
        cell_text(kind, layout[c].1, value_for(table, rows[i], layout[c].0))->0,
    ) by {
        lemma_prefix_contains(
            entries,
            longer,
            cell_text(kind, layout[c].1, value_for(table, rows[i], layout[c].0))->0,
        );
    }
}

/// Columns that encode a group against dictionaries that hold its texts
/// encode it against any dictionaries that begin with those.
pub proof fn lemma_encodes_stable(
    columns: Seq<ColumnView>,
    table: TableView,
    layout: Layout,
    rows: Seq<DatumView>,
    urls: Seq<Seq<char>>,
    strings: Seq<Seq<char>>,
    more_urls: Seq<Seq<char>>,
    more_strings: Seq<Seq<char>>,
)
    requires
        encodes(columns, table, layout, rows, urls, strings),
        holds_texts(TextKind::Url, table, layout, rows, urls),
        holds_texts(TextKind::Plain, table, layout, rows, strings),
        urls.is_prefix_of(more_urls),
        strings.is_prefix_of(more_strings),
    ensures
        encodes(columns, table, layout, rows, more_urls, more_strings),
{
    assert forall|c: int| 0 <= c < columns.len() implies {
        &&& (#[trigger] columns[c]).name == layout[c].0
        &&& columns[c].field_type == layout[c].1
        &&& columns[c].cells.len() == rows.len()
        &&& forall|i: int|
            0 <= i < rows.len() ==> (#[trigger] columns[c].cells[i]) == cell_of(
                layout[c].1,
                value_for(table, rows[i], layout[c].0),
                more_urls,
                more_strings,
            )
    } by {
        assert forall|i: int| 0 <= i < rows.len() implies (#[trigger] columns[c].cells[i])
            == cell_of(
            layout[c].1,
            value_for(table, rows[i], layout[c].0),
            more_urls,
            more_strings,
        ) by {
            let ty = layout[c].1;
            let v = value_for(table, rows[i], layout[c].0);
            lemma_cell_stable(ty, v, urls, strings, more_urls, more_strings);
        }
    }
}

/// `columns` hold the rows `rows` in the given layout, encoded against the
/// given dictionaries: a column for each entry of the layout, and in it a
/// cell for each row.
pub open spec fn encodes(
    columns: Seq<ColumnView>,
    table: TableView,
    layout: Layout,
    rows: Seq<DatumView>,
    urls: Seq<Seq<char>>,
    strings: Seq<Seq<char>>,
) -> bool {
    &&& columns.len() == layout.len()
    &&& forall|c: int|
        0 <= c < columns.len() ==> {
            &&& (#[trigger] columns[c]).name == layout[c].0
            &&& columns[c].field_type == layout[c].1
            &&& columns[c].cells.len() == rows.len()
            &&& forall|i: int|
                0 <= i < rows.len() ==> (#[trigger] columns[c].cells[i]) == cell_of(
                    layout[c].1,
                    value_for(table, rows[i], layout[c].0),
                    urls,
                    strings,
                )
        }
}

/// The cell is of a kind that its column's type admits.
pub open spec fn cell_typed(ty: FieldType, cell: CellView) -> bool {
    match cell {
        CellView::Null => true,
        CellView::Int(_) => ty == FieldType::Int || ty == FieldType::Float,
        CellView::Float(_) => ty == FieldType::Float,
        CellView::Bool(_) => ty == FieldType::Bool,
        CellView::Code(_) => ty == FieldType::Str || ty == FieldType::Url || ty == FieldType::Json,
    }
}

/// A code in the cell is one that its dictionary has.
pub open spec fn cell_resolves(ty: FieldType, cell: CellView, urls: nat, strings: nat) -> bool {
    match cell {
        CellView::Code(c) => if ty == FieldType::Url {
            1 <= c <= urls
        } else {
            1 <= c <= strings
        },
        _ => true,
    }
}

/// The value that a cell stands for; `None` for an empty one.
///
/// The text behind a code in a JSON column is read as JSON; where it is not
/// JSON, the text itself is the value.
pub open spec fn decoded_cell(
    ty: FieldType,
    cell: CellView,
    urls: Seq<Seq<char>>,
    strings: Seq<Seq<char>>,
) -> Option<DatumView> {
    match cell {
        CellView::Null => None,
        CellView::Int(i) => Some(DatumView::Int(i)),
        CellView::Float(t) => Some(DatumView::Float(t)),
        CellView::Bool(b) => Some(DatumView::Bool(b)),
        CellView::Code(c) => match ty {
            FieldType::Url => Some(DatumView::Str(urls[c - 1])),
            FieldType::Json => match json_parse(strings[c - 1]) {
                Some(v) => Some(v),
                None => Some(DatumView::Str(strings[c - 1])),
            },
            _ => Some(DatumView::Str(strings[c - 1])),
        },
    }
}

/// The position of the first field named `key`, if there is one.
pub open spec fn position_of(fields: FieldsView, key: Seq<char>) -> Option<int>
    decreases fields.len(),
{
    if fields.len() == 0 {
        None
    } else {
        match position_of(fields.drop_last(), key) {
            Some(i) => Some(i),
            None => if fields.last().0 == key {
                Some(fields.len() - 1)
            } else {
                None
            },
        }
    }
}

/// `fields` with the field `key` set to `value`: in place where there is
/// such a field, else at the end.
pub open spec fn upserted(fields: FieldsView, key: Seq<char>, value: DatumView) -> FieldsView {
    match position_of(fields, key) {
        Some(i) => fields.update(i, (key, value)),
        None => fields.push((key, value)),
    }
}

/// The fields of row `i` after the given columns were decoded into `start`,
/// each under its canonical key, one column after the other.
pub open spec fn decoded_fields(
    properties: TableView,
    columns: Seq<ColumnView>,
    i: int,
    urls: Seq<Seq<char>>,
    strings: Seq<Seq<char>>,
    start: FieldsView,
) -> FieldsView
    decreases columns.len(),
{
    if columns.len() == 0 {
        start
    } else {
        let before = decoded_fields(properties, columns.drop_last(), i, urls, strings, start);
        let column = columns.last();
        match decoded_cell(column.field_type, column.cells[i], urls, strings) {
            Some(v) => upserted(
                before,
                match short_of(properties, column.name) {
                    Some(full) => full,
                    None => column.name,
                },
                v,
            ),
            None => before,
        }
    }
}

/// The content of a group: the number of its rows, and its columns.
pub struct GroupView {
    pub count: nat,
    pub columns: Seq<ColumnView>,
}

/// Every column of the group has one cell for each row.
pub open spec fn group_aligned(group: GroupView) -> bool {
    forall|c: int|
        0 <= c < group.columns.len() ==> (#[trigger] group.columns[c]).cells.len() == group.count
}

/// Every cell of the column meets the condition: that it resolves
/// (`codes`), or that it is of a kind that the column's type admits.
pub open spec fn column_holds(column: ColumnView, codes: bool, urls: nat, strings: nat) -> bool {
    forall|i: int|
        0 <= i < column.cells.len() ==> cell_holds(
            column.field_type,
            #[trigger] column.cells[i],
            codes,
            urls,
            strings,
        )
}

/// The cell meets the condition: that it resolves (`codes`), or that it is
/// of a kind that the column's type admits.
pub open spec fn cell_holds(
    ty: FieldType,
    cell: CellView,
    codes: bool,
    urls: nat,
    strings: nat,
) -> bool {
    if codes {
        cell_resolves(ty, cell, urls, strings)
    } else {
        cell_typed(ty, cell)
    }
}

/// Every cell of the group meets the condition.
pub open spec fn group_holds(group: GroupView, codes: bool, urls: nat, strings: nat) -> bool {
    forall|c: int|
        0 <= c < group.columns.len() ==> column_holds(
            #[trigger] group.columns[c],
            codes,
            urls,
            strings,
        )
}

/// Every column of every group has one cell for each row of its group.
pub open spec fn aligned(groups: Seq<(Seq<char>, GroupView)>) -> bool {
    forall|g: int| 0 <= g < groups.len() ==> group_aligned((#[trigger] groups[g]).1)
}

/// Every cell is of a kind that the type of its column admits.
pub open spec fn typed(groups: Seq<(Seq<char>, GroupView)>) -> bool {
    forall|g: int| 0 <= g < groups.len() ==> group_holds((#[trigger] groups[g]).1, false, 0, 0)
}

/// Every code in a cell is one that its dictionary has.
pub open spec fn resolvable(groups: Seq<(Seq<char>, GroupView)>, urls: nat, strings: nat) -> bool {
    forall|g: int|
        0 <= g < groups.len() ==> group_holds((#[trigger] groups[g]).1, true, urls, strings)
}

/// The fields with which a decoded record of the given tag starts: its type
/// field, holding the type identifier that the tag expands to.
pub open spec fn start_fields(tag: Seq<char>) -> FieldsView {
    seq![(type_field(), DatumView::Str(type_id_of_tag(tag)))]
}

/// The record that row `i` of a group decodes to.
pub open spec fn decoded_record(
    properties: TableView,
    tag: Seq<char>,
    columns: Seq<ColumnView>,
    i: int,
    urls: Seq<Seq<char>>,
    strings: Seq<Seq<char>>,
) -> DatumView {
    DatumView::Object(decoded_fields(properties, columns, i, urls, strings, start_fields(tag)))
}

/// The records that a group decodes to, in the order of its rows.
pub open spec fn decoded_group(
    properties: TableView,
    tag: Seq<char>,
    group: GroupView,
    urls: Seq<Seq<char>>,
    strings: Seq<Seq<char>>,
) -> Seq<DatumView> {
    Seq::new(group.count, |i: int| decoded_record(properties, tag, group.columns, i, urls, strings))
}

/// The records that the groups decode to: those of the first group, then
/// those of the second, and so on.
pub open spec fn decoded_groups(
    properties: TableView,
    groups: Seq<(Seq<char>, GroupView)>,
    urls: Seq<Seq<char>>,
    strings: Seq<Seq<char>>,
) -> Seq<DatumView>
    decreases groups.len(),
{
    if groups.len() == 0 {
        Seq::empty()
    } else {
        decoded_groups(properties, groups.drop_last(), urls, strings) + decoded_group(
            properties,
            groups.last().0,
            groups.last().1,
            urls,
            strings,
        )
    }
}

/// The value that holds the given records the way an input does: an object
/// whose field `subresources` is the array of them.
pub open spec fn wrapped(records: Seq<DatumView>) -> DatumView {
    DatumView::Object(seq![("subresources"@, DatumView::Array(records))])
}

/// A position found among the first `n` fields is the one found among all.
pub proof fn lemma_position_grows(fields: FieldsView, key: Seq<char>, n: int)
    requires
        0 <= n <= fields.len(),
        position_of(fields.take(n), key) is Some,
    ensures
        position_of(fields, key) == position_of(fields.take(n), key),
    decreases fields.len() - n,
{
    if n < fields.len() {
        assert(fields.take(n + 1).drop_last() == fields.take(n));
        lemma_position_grows(fields, key, n + 1);
    } else {
        assert(fields.take(n) == fields);
    }
}

/// The record has a field named `key`.
pub open spec fn has_key(row: DatumView, key: Seq<char>) -> bool {
    lookup(fields_of(row), key) is Some
}

/// Every one of `rows` has a field named `key`.
pub open spec fn in_all(rows: Seq<DatumView>, key: Seq<char>) -> bool {
    forall|i: int| 0 <= i < rows.len() ==> has_key(#[trigger] rows[i], key)
}

/// Those of `keys`, in order, that every row has (`required`), or that some
/// row lacks (`!required`).
pub open spec fn keys_where(rows: Seq<DatumView>, keys: Layout, required: bool) -> Seq<Seq<char>>
    decreases keys.len(),
{
    if keys.len() == 0 {
        Seq::empty()
    } else {
        let before = keys_where(rows, keys.drop_last(), required);
        if in_all(rows, keys.last().0) == required {
            before.push(keys.last().0)
        } else {
            before
        }
    }
}

/// The content of the schema of a group.
pub struct ResourceSchemaView {
    pub required: Seq<Seq<char>>,
    pub optional: Seq<Seq<char>>,
    pub types: Layout,
}

/// The schema of a group: each canonical key with the type of the first
/// value that occurs with it, the keys that every record has as required,
/// the others as optional, all in the order in which the keys first occur.
pub open spec fn schema_of(rows: Seq<DatumView>) -> ResourceSchemaView {
    let types = layout_of(TableView::empty(), rows);
    ResourceSchemaView {
        required: keys_where(rows, types, true),
        optional: keys_where(rows, types, false),
        types,
    }
}

/// The rows at the given positions of `records`.
pub open spec fn rows_at(records: Seq<DatumView>, places: Seq<int>) -> Seq<DatumView> {
    Seq::new(places.len(), |k: int| records[places[k]])
}

/// The rows of the group with the tag `tag`, in the order of the input.
pub open spec fn group_rows(records: Seq<DatumView>, tag: Seq<char>) -> Seq<DatumView> {
    rows_at(records, members_of(records, tag))
}

/// The entries of a dictionary after the groups with the given tags were
/// encoded, one group after the other.
pub open spec fn after_groups(
    kind: TextKind,
    table: TableView,
    records: Seq<DatumView>,
    tags: Seq<Seq<char>>,
    entries: Seq<Seq<char>>,
) -> Seq<Seq<char>>
    decreases tags.len(),
{
    if tags.len() == 0 {
        entries
    } else {
        after_group(
            kind,
            table,
            group_rows(records, tags.last()),
            after_groups(kind, table, records, tags.drop_last(), entries),
        )
    }
}

/// The entries of a dictionary after a whole run on `records`.
pub open spec fn after_run(
    kind: TextKind,
    table: TableView,
    records: Seq<DatumView>,
    entries: Seq<Seq<char>>,
) -> Seq<Seq<char>> {
    after_groups(kind, table, records, tags_of(records), entries)
}

/// The table of the names in use after the groups with the given tags were
/// analysed, one group after the other.
pub open spec fn names_after_groups(
    table: TableView,
    records: Seq<DatumView>,
    tags: Seq<Seq<char>>,
    names: TableView,
) -> TableView
    decreases tags.len(),
{
    if tags.len() == 0 {
        names
    } else {
        names_after_rows(
            table,
            names_after_groups(table, records, tags.drop_last(), names),
            group_rows(records, tags.last()),
        )
    }
}

/// The table of the names in use after a whole run on `records`.
pub open spec fn names_after_run(
    table: TableView,
    records: Seq<DatumView>,
    names: TableView,
) -> TableView {
    names_after_groups(table, records, tags_of(records), names)
}

/// How many fields of the groups with the given tags have a key that the
/// table abbreviates.
pub open spec fn abbreviations_of_groups(
    table: TableView,
    records: Seq<DatumView>,
    tags: Seq<Seq<char>>,
) -> nat
    decreases tags.len(),
{
    if tags.len() == 0 {
        0
    } else {
        abbreviations_of_groups(table, records, tags.drop_last()) + abbreviations_of(
            table,
            group_rows(records, tags.last()),
        )
    }
}

/// Encoding the first `g` groups leaves a dictionary that the one after all
/// groups begins with.
pub proof fn lemma_after_groups_prefix(
    kind: TextKind,
    table: TableView,
    records: Seq<DatumView>,
    tags: Seq<Seq<char>>,
    entries: Seq<Seq<char>>,
    g: int,
)
    requires
        0 <= g <= tags.len(),
    ensures
        after_groups(kind, table, records, tags.take(g), entries).is_prefix_of(
            after_groups(kind, table, records, tags, entries),
        ),
    decreases tags.len() - g,
{
    let here = after_groups(kind, table, records, tags.take(g), entries);
    if g < tags.len() {
        assert(tags.take(g + 1).drop_last() == tags.take(g));
        let rows = group_rows(records, tags[g]);
        lemma_after_rows(kind, table, layout_of(table, rows), rows, here);
        lemma_after_groups_prefix(kind, table, records, tags, entries, g + 1);
        lemma_prefix_trans(
            here,
            after_groups(kind, table, records, tags.take(g + 1), entries),
            after_groups(kind, table, records, tags, entries),
        );
    } else {
        assert(tags.take(g) == tags);
        assert(here.subrange(0, here.len() as int) =~= here);
    }
}

/// The positions of a group's members are positions of `rows`.
pub proof fn lemma_members_in_range(rows: Seq<DatumView>, tag: Seq<char>)
    ensures
        forall|k: int|
            0 <= k < members_of(rows, tag).len() ==> 0 <= (#[trigger] members_of(
                rows,
                tag,
            )[k]) < rows.len(),
        members_of(rows, tag).len() <= rows.len(),
    decreases rows.len(),
{
    if rows.len() > 0 {
        lemma_members_in_range(rows.drop_last(), tag);
    }
}

} // verus!
