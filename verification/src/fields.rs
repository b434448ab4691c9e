use vstd::prelude::*;
use crate::text::same_text;

verus! {

/// A table of field names: pairs of a canonical key and its short key.
pub type TableView = Seq<(Seq<char>, Seq<char>)>;

/// The texts of a list of pairs of strings, in order.
pub open spec fn pairs_of(pairs: Seq<(String, String)>) -> TableView {
    Seq::new(pairs.len(), |i: int| (pairs[i].0@, pairs[i].1@))
}

/// No canonical key and no short key occurs twice in `table`.
pub open spec fn reversible(table: TableView) -> bool {
    forall|i: int, j: int|
        0 <= i < j < table.len() ==> table[i].0 != table[j].0 && table[i].1 != table[j].1
}

/// The short key that `table` gives for the canonical key `key`.
pub open spec fn short_of(table: TableView, key: Seq<char>) -> Option<Seq<char>>
    decreases table.len(),
{
    if table.len() == 0 {
        None
    } else {
        match short_of(table.drop_last(), key) {
            Some(s) => Some(s),
            None => if table.last().0 == key {
                Some(table.last().1)
            } else {
                None
            },
        }
    }
}

/// The canonical key for which `table` gives the short key `short`.
pub open spec fn canonical_of(table: TableView, short: Seq<char>) -> Option<Seq<char>>
    decreases table.len(),
{
    if table.len() == 0 {
        None
    } else {
        match canonical_of(table.drop_last(), short) {
            Some(c) => Some(c),
            None => if table.last().1 == short {
                Some(table.last().0)
            } else {
                None
            },
        }
    }
}

/// The key under which a field named `key` is stored: its short key where
/// the table has one, else `key` itself.
pub open spec fn abbreviated(table: TableView, key: Seq<char>) -> Seq<char> {
    match short_of(table, key) {
        Some(s) => s,
        None => key,
    }
}

/// The canonical key of a stored key: the one the table has for it, else
/// the stored key itself.
pub open spec fn expanded(table: TableView, short: Seq<char>) -> Seq<char> {
    match canonical_of(table, short) {
        Some(c) => c,
        None => short,
    }
}

/// The table after the pair was offered: it is added at the end unless the
/// table already has the canonical key or the short key.
pub open spec fn added(table: TableView, canonical: Seq<char>, short: Seq<char>) -> TableView {
    if short_of(table, canonical) is Some || canonical_of(table, short) is Some {
        table
    } else {
        table.push((canonical, short))
    }
}

/// The table that comes of offering each of `pairs` in order to an empty one.
pub open spec fn table_from(pairs: TableView) -> TableView
    decreases pairs.len(),
{
    if pairs.len() == 0 {
        Seq::empty()
    } else {
        added(table_from(pairs.drop_last()), pairs.last().0, pairs.last().1)
    }
}

/// `short_of` finds an entry with the key, and none where there is none.
pub proof fn lemma_short_of(table: TableView, key: Seq<char>)
    ensures
        match short_of(table, key) {
            Some(s) => exists|i: int| 0 <= i < table.len() && table[i] == (key, s),
            None => forall|i: int| 0 <= i < table.len() ==> table[i].0 != key,
        },
    decreases table.len(),
{
    if table.len() > 0 {
        let front = table.drop_last();
        lemma_short_of(front, key);
        assert forall|i: int| 0 <= i < front.len() implies front[i] == table[i] by {}
        match short_of(front, key) {
            Some(s) => {
                let i = choose|i: int| 0 <= i < front.len() && front[i] == (key, s);
                assert(table[i] == (key, s));
            },
            None => {
                if table.last().0 == key {
                    assert(table[table.len() - 1] == (key, table.last().1));
                } else {
                    assert forall|i: int| 0 <= i < table.len() implies table[i].0 != key by {
                        if i < front.len() {
                            assert(front[i] == table[i]);
                        }
                    }
                }
            },
        }
    }
}

/// `canonical_of` finds an entry with the short key, and none where there is
/// none.
pub proof fn lemma_canonical_of(table: TableView, short: Seq<char>)
    ensures
        match canonical_of(table, short) {
            Some(c) => exists|i: int| 0 <= i < table.len() && table[i] == (c, short),
            None => forall|i: int| 0 <= i < table.len() ==> table[i].1 != short,
        },
    decreases table.len(),
{
    if table.len() > 0 {
        let front = table.drop_last();
        lemma_canonical_of(front, short);
        assert forall|i: int| 0 <= i < front.len() implies front[i] == table[i] by {}
        match canonical_of(front, short) {
            Some(c) => {
                let i = choose|i: int| 0 <= i < front.len() && front[i] == (c, short);
                assert(table[i] == (c, short));
            },
            None => {
                if table.last().1 == short {
                    assert(table[table.len() - 1] == (table.last().0, short));
                } else {
                    assert forall|i: int| 0 <= i < table.len() implies table[i].1 != short by {
                        if i < front.len() {
                            assert(front[i] == table[i]);
                        }
                    }
                }
            },
        }
    }
}

/// The pairs of `table`, each turned round.
pub open spec fn swapped(table: TableView) -> TableView {
    Seq::new(table.len(), |i: int| (table[i].1, table[i].0))
}

/// Looking up a short key in a table is looking up the turned pairs.
pub proof fn lemma_swapped(table: TableView, short: Seq<char>)
    ensures
        short_of(swapped(table), short) == canonical_of(table, short),
    decreases table.len(),
{
    if table.len() > 0 {
        assert(swapped(table).drop_last() =~= swapped(table.drop_last()));
        lemma_swapped(table.drop_last(), short);
    }
}

/// In a reversible table the entry at `i` is what both lookups find.
pub proof fn lemma_reversible_entry(table: TableView, i: int)
    requires
        reversible(table),
        0 <= i < table.len(),
    ensures
        short_of(table, table[i].0) == Some(table[i].1),
        canonical_of(table, table[i].1) == Some(table[i].0),
{
    lemma_short_of(table, table[i].0);
    lemma_canonical_of(table, table[i].1);
}

/// Maps verbose field keys to short ones, and back.
pub struct FieldAbbreviator {
    pairs: Vec<(String, String)>,
}

impl View for FieldAbbreviator {
    type V = TableView;

    /// The pairs of canonical key and short key, in the order they were added.
    closed spec fn view(&self) -> TableView {
        pairs_of(self.pairs@)
    }
}

impl FieldAbbreviator {
    /// Every canonical key has one short key and the other way round.
    pub open spec fn wf(&self) -> bool {
        reversible(self@)
    }

    /// A table without entries.
    pub fn new() -> (t: Self)
        ensures
            t@ == TableView::empty(),
            t.wf(),
    {
        let t = FieldAbbreviator { pairs: Vec::new() };
        assert(t@ =~= TableView::empty());
        t
    }

    /// The short key of `key`, if the table has one.
    pub fn short_for(&self, key: &str) -> (r: Option<&String>)
        ensures
            match r {
                Some(s) => short_of(self@, key@) == Some(s@),
                None => short_of(self@, key@) is None,
            },
    {
        let mut i: usize = 0;
        while i < self.pairs.len()
            invariant
                i <= self.pairs.len(),
                short_of(self@.take(i as int), key@) is None,
            decreases self.pairs.len() - i,
        {
            assert(self@.take(i + 1).drop_last() == self@.take(i as int));
            if same_text(self.pairs[i].0.as_str(), key) {
                proof {
                    lemma_short_grows(self@, key@, i + 1);
                }
                return Some(&self.pairs[i].1);
            }
            i += 1;
        }
        assert(self@.take(i as int) == self@);
        None
    }

    /// The canonical key that has the short key `short`, if there is one.
    pub fn canonical_for(&self, short: &str) -> (r: Option<&String>)
        ensures
            match r {
                Some(c) => canonical_of(self@, short@) == Some(c@),
                None => canonical_of(self@, short@) is None,
            },
    {
        let mut i: usize = 0;
        while i < self.pairs.len()
            invariant
                i <= self.pairs.len(),
                canonical_of(self@.take(i as int), short@) is None,
            decreases self.pairs.len() - i,
        {
            assert(self@.take(i + 1).drop_last() == self@.take(i as int));
            if same_text(self.pairs[i].1.as_str(), short) {
                proof {
                    lemma_canonical_grows(self@, short@, i + 1);
                }
                return Some(&self.pairs[i].0);
            }
            i += 1;
        }
        assert(self@.take(i as int) == self@);
        None
    }

    /// Offers a pair to the table. It is added, and `true` returned, unless
    /// the table already has the canonical key or the short key.
    pub fn add(&mut self, canonical: &str, short: &str) -> (was_added: bool)
        requires
            old(self).wf(),
        ensures
            final(self).wf(),
            final(self)@ == added(old(self)@, canonical@, short@),
            was_added == (final(self)@ != old(self)@),
    {
        if self.short_for(canonical).is_some() || self.canonical_for(short).is_some() {
            return false;
        }
        let ghost before = self@;
        proof {
            lemma_short_of(before, canonical@);
            lemma_canonical_of(before, short@);
        }
        self.pairs.push((canonical.to_owned(), short.to_owned()));
        assert(self@ =~= before.push((canonical@, short@)));
        assert forall|i: int, j: int| 0 <= i < j < self@.len() implies self@[i].0 != self@[j].0
            && self@[i].1 != self@[j].1 by {
            assert(self@[i] == before[i]);
            if j < before.len() {
                assert(self@[j] == before[j]);
            }
        }
        assert(self@.len() != before.len());
        true
    }

    /// The stored key of a field named `key`.
    pub fn abbreviate(&self, key: &str) -> (r: String)
        ensures
            r@ == abbreviated(self@, key@),
    {
        match self.short_for(key) {
            Some(s) => s.clone(),
            None => key.to_owned(),
        }
    }

    /// The canonical key of the stored key `short`.
    pub fn expand(&self, short: &str) -> (r: String)
        ensures
            r@ == expanded(self@, short@),
    {
        match self.canonical_for(short) {
            Some(c) => c.clone(),
            None => short.to_owned(),
        }
    }

    /// The pairs of canonical key and short key, in the order they were added.
    pub fn pairs(&self) -> (out: &Vec<(String, String)>)
        ensures
            pairs_of(out@) == self@,
    {
        &self.pairs
    }
}

/// What the pairs give for `key`: the second part of the first pair whose
/// first part is `key`.
pub fn second_for<'a>(pairs: &'a Vec<(String, String)>, key: &str) -> (r: Option<&'a String>)
    ensures
        match r {
            Some(s) => short_of(pairs_of(pairs@), key@) == Some(s@),
            None => short_of(pairs_of(pairs@), key@) is None,
        },
{
    let ghost all = pairs_of(pairs@);
    let mut i: usize = 0;
    while i < pairs.len()
        invariant
            i <= pairs.len(),
            all == pairs_of(pairs@),
            short_of(all.take(i as int), key@) is None,
        decreases pairs.len() - i,
    {
        assert(all.take(i + 1).drop_last() == all.take(i as int));
        if same_text(pairs[i].0.as_str(), key) {
            proof {
                lemma_short_grows(all, key@, i + 1);
            }
            return Some(&pairs[i].1);
        }
        i += 1;
    }
    assert(all.take(i as int) == all);
    None
}

/// What the pairs hold before `second`: the first part of the first pair
/// whose second part is `second`.
pub fn first_for<'a>(pairs: &'a Vec<(String, String)>, second: &str) -> (r: Option<&'a String>)
    ensures
        match r {
            Some(c) => canonical_of(pairs_of(pairs@), second@) == Some(c@),
            None => canonical_of(pairs_of(pairs@), second@) is None,
        },
{
    let ghost all = pairs_of(pairs@);
    let mut i: usize = 0;
    while i < pairs.len()
        invariant
            i <= pairs.len(),
            all == pairs_of(pairs@),
            canonical_of(all.take(i as int), second@) is None,
        decreases pairs.len() - i,
    {
        assert(all.take(i + 1).drop_last() == all.take(i as int));
        if same_text(pairs[i].1.as_str(), second) {
            proof {
                lemma_canonical_grows(all, second@, i + 1);
            }
            return Some(&pairs[i].0);
        }
        i += 1;
    }
    assert(all.take(i as int) == all);
    None
}

/// The texts of a list of pairs of string slices, in order.
pub open spec fn slices_of(pairs: Seq<(&'static str, &'static str)>) -> TableView {
    Seq::new(pairs.len(), |i: int| (pairs[i].0@, pairs[i].1@))
}

/// The table that comes of offering each of `pairs`, a canonical key and
/// its short key, in order to an empty table.
pub fn table_of(pairs: &Vec<(&'static str, &'static str)>) -> (t: FieldAbbreviator)
    ensures
        t@ == table_from(slices_of(pairs@)),
        t.wf(),
{
    let mut t = FieldAbbreviator::new();
    let ghost all = slices_of(pairs@);
    let mut i: usize = 0;
    assert(all.take(0) =~= TableView::empty());
    while i < pairs.len()
        invariant
            i <= pairs.len(),
            all == slices_of(pairs@),
            t.wf(),
            t@ == table_from(all.take(i as int)),
        decreases pairs.len() - i,
    {
        assert(all.take(i + 1).drop_last() == all.take(i as int));
        t.add(pairs[i].0, pairs[i].1);
        i += 1;
    }
    assert(all.take(i as int) == all);
    t
}

/// A short key found in the first `n` entries is the one found in all.
pub proof fn lemma_short_grows(table: TableView, key: Seq<char>, n: int)
    requires
        0 <= n <= table.len(),
        short_of(table.take(n), key) is Some,
    ensures
        short_of(table, key) == short_of(table.take(n), key),
    decreases table.len() - n,
{
    if n < table.len() {
        assert(table.take(n + 1).drop_last() == table.take(n));
        lemma_short_grows(table, key, n + 1);
    } else {
        assert(table.take(n) == table);
    }
}

/// A canonical key found in the first `n` entries is the one found in all.
pub proof fn lemma_canonical_grows(table: TableView, short: Seq<char>, n: int)
    requires
        0 <= n <= table.len(),
        canonical_of(table.take(n), short) is Some,
    ensures
        canonical_of(table, short) == canonical_of(table.take(n), short),
    decreases table.len() - n,
{
    if n < table.len() {
        assert(table.take(n + 1).drop_last() == table.take(n));
        lemma_canonical_grows(table, short, n + 1);
    } else {
        assert(table.take(n) == table);
    }
}

} // verus!
