use vstd::prelude::*;
use crate::error::{CompactError, DecodeError};
use crate::text::same_text;
use crate::value::DatumView;

verus! {

/// How many bits a dictionary code has. Code 0 is never given out.
#[derive(Clone, Copy, Debug, PartialEq, Eq, Structural)]
pub enum CodeWidth {
    Bits8,
    Bits16,
    Bits32,
}

impl CodeWidth {
    /// The number of codes of this width, which is the largest code.
    pub open spec fn capacity(self) -> nat {
        match self {
            CodeWidth::Bits8 => 255,
            CodeWidth::Bits16 => 65_535,
            CodeWidth::Bits32 => 4_294_967_295,
        }
    }

    /// The largest code of this width.
    pub fn max_code(self) -> (c: u32)
        ensures
            c == self.capacity(),
    {
        match self {
            CodeWidth::Bits8 => 255,
            CodeWidth::Bits16 => 65_535,
            CodeWidth::Bits32 => 4_294_967_295,
        }
    }
}

/// The texts of a list of strings, in order.
pub open spec fn texts_of(strings: Seq<String>) -> Seq<Seq<char>> {
    Seq::new(strings.len(), |i: int| strings[i]@)
}

/// No text occurs twice in `entries`.
pub open spec fn distinct(entries: Seq<Seq<char>>) -> bool {
    forall|i: int, j: int| 0 <= i < j < entries.len() ==> entries[i] != entries[j]
}

/// The code of `s` in a dictionary with these entries: one more than the
/// position of its first occurrence.
pub open spec fn code_in(entries: Seq<Seq<char>>, s: Seq<char>) -> Option<nat>
    decreases entries.len(),
{
    if entries.len() == 0 {
        None
    } else {
        match code_in(entries.drop_last(), s) {
            Some(c) => Some(c),
            None => if entries.last() == s {
                Some(entries.len())
            } else {
                None
            },
        }
    }
}

/// The entries after `s` was interned: `s` is added at the end unless it is
/// there already.
pub open spec fn interned(entries: Seq<Seq<char>>, s: Seq<char>) -> Seq<Seq<char>> {
    if entries.contains(s) {
        entries
    } else {
        entries.push(s)
    }
}

/// The entries after each of `texts` was interned, in order.
pub open spec fn interned_all(entries: Seq<Seq<char>>, texts: Seq<Seq<char>>) -> Seq<Seq<char>>
    decreases texts.len(),
{
    if texts.len() == 0 {
        entries
    } else {
        interned(interned_all(entries, texts.drop_last()), texts.last())
    }
}

/// A code is that of `s` exactly when the entry at its place is `s` and no
/// earlier one is.
pub proof fn lemma_code_in(entries: Seq<Seq<char>>, s: Seq<char>)
    ensures
        match code_in(entries, s) {
            Some(c) => 1 <= c <= entries.len() && entries[c - 1] == s && forall|i: int|
                0 <= i < c - 1 ==> entries[i] != s,
            None => !entries.contains(s),
        },
    decreases entries.len(),
{
    if entries.len() > 0 {
        let front = entries.drop_last();
        lemma_code_in(front, s);
        assert forall|i: int| 0 <= i < front.len() implies front[i] == entries[i] by {}
        match code_in(front, s) {
            Some(c) => {
                assert(entries[c - 1] == front[c - 1]);
            },
            None => {
                assert forall|i: int| 0 <= i < front.len() implies entries[i] != s by {
                    assert(front.contains(front[i]));
                }
                if entries.last() != s {
                    assert(!entries.contains(s));
                }
            },
        }
    } else {
        assert(!entries.contains(s));
    }
}

/// Strings interned to small integer codes, counted from 1 in the order in
/// which the strings first came.
pub struct ValueDictionary {
    entries: Vec<String>,
    width: CodeWidth,
}

impl View for ValueDictionary {
    type V = Seq<Seq<char>>;

    /// The interned texts; the text at position `k` has code `k + 1`.
    closed spec fn view(&self) -> Seq<Seq<char>> {
        texts_of(self.entries@)
    }
}

impl ValueDictionary {
    /// The declared width of the codes.
    pub closed spec fn width(&self) -> CodeWidth {
        self.width
    }

    /// No text is held twice, and every held text has a code of the width.
    pub open spec fn wf(&self) -> bool {
        &&& distinct(self@)
        &&& self@.len() <= self.width().capacity()
    }

    /// The code of `s`, if it is interned.
    pub open spec fn code(&self, s: Seq<char>) -> Option<nat> {
        code_in(self@, s)
    }

    /// An empty dictionary with codes of the given width.
    pub fn new(width: CodeWidth) -> (d: Self)
        ensures
            d@ == Seq::<Seq<char>>::empty(),
            d.width() == width,
            d.wf(),
    {
        let d = ValueDictionary { entries: Vec::new(), width };
        assert(d@ =~= Seq::<Seq<char>>::empty());
        d
    }

    /// The declared width of the codes.
    pub fn code_width(&self) -> (w: CodeWidth)
        ensures
            w == self.width(),
    {
        self.width
    }

    /// How many texts are interned.
    pub fn len(&self) -> (n: usize)
        ensures
            n == self@.len(),
    {
        self.entries.len()
    }

    /// The code of `s`, if it is interned.
    pub fn lookup(&self, s: &str) -> (r: Option<u32>)
        requires
            self.wf(),
        ensures
            match r {
                Some(c) => self.code(s@) == Some(c as nat),
                None => self.code(s@) is None,
            },
    {
        let mut i: usize = 0;
        while i < self.entries.len()
            invariant
                i <= self.entries.len(),
                self.wf(),
                code_in(self@.take(i as int), s@) is None,
            decreases self.entries.len() - i,
        {
            assert(self@.take(i + 1).drop_last() == self@.take(i as int));
            if same_text(self.entries[i].as_str(), s) {
                assert(self@.take(i + 1).last() == s@);
                proof {
                    lemma_code_grows(self@, s@, i + 1);
                }
                return Some((i + 1) as u32);
            }
            i += 1;
        }
        assert(self@.take(i as int) == self@);
        None
    }

    /// Gives `s` a code: the one it has, or the next free one.
    ///
    /// Fails, and leaves the dictionary as it is, exactly when `s` is new and
    /// every code of the width is taken.
    pub fn intern(&mut self, s: &str) -> (r: Result<u32, CompactError>)
        requires
            old(self).wf(),
        ensures
            final(self).wf(),
            final(self).width() == old(self).width(),
            match r {
                Ok(c) => final(self)@ == interned(old(self)@, s@) && final(self).code(s@) == Some(
                    c as nat,
                ),
                Err(e) => e == CompactError::DictionaryExhausted && final(self)@ == old(self)@
                    && !old(self)@.contains(s@) && old(self)@.len() == old(
                    self,
                ).width().capacity(),
            },
    {
        proof {
            lemma_code_in(self@, s@);
        }
        match self.lookup(s) {
            Some(c) => Ok(c),
            None => {
                if self.entries.len() >= self.width.max_code() as usize {
                    return Err(CompactError::DictionaryExhausted);
                }
                let ghost before = self@;
                self.entries.push(s.to_owned());
                assert(self@ =~= before.push(s@));
                assert(self@.drop_last() =~= before);
                proof {
                    assert forall|i: int, j: int| 0 <= i < j < self@.len() implies self@[i]
                        != self@[j] by {
                        if j == self@.len() - 1 {
                            assert(before[i] == self@[i]);
                            assert(before.contains(before[i]));
                        } else {
                            assert(before[i] == self@[i] && before[j] == self@[j]);
                        }
                    }
                }
                Ok(self.entries.len() as u32)
            },
        }
    }

    /// The text that has the code `c`.
    ///
    /// Fails exactly when no text has that code.
    pub fn resolve(&self, c: u32) -> (r: Result<&String, DecodeError>)
        ensures
            match r {
                Ok(s) => 1 <= c <= self@.len() && s@ == self@[c - 1],
                Err(e) => e == DecodeError::UnknownCode && !(1 <= c <= self@.len()),
            },
    {
        if c >= 1 && (c as usize) <= self.entries.len() {
            Ok(&self.entries[(c - 1) as usize])
        } else {
            Err(DecodeError::UnknownCode)
        }
    }

    /// The interned texts in the order of their codes, starting at code 1.
    pub fn entries(&self) -> (out: &Vec<String>)
        ensures
            texts_of(out@) == self@,
    {
        &self.entries
    }
}

/// A text keeps its code when entries are added behind it.
pub proof fn lemma_code_stable(entries: Seq<Seq<char>>, longer: Seq<Seq<char>>, s: Seq<char>)
    requires
        entries.is_prefix_of(longer),
        entries.contains(s),
    ensures
        code_in(longer, s) == code_in(entries, s),
{
    lemma_code_in(entries, s);
    assert(longer.take(entries.len() as int) =~= entries);
    lemma_code_grows(longer, s, entries.len() as int);
}

/// Interning adds at the end, if at all, and what was interned is there.
pub proof fn lemma_interned(entries: Seq<Seq<char>>, s: Seq<char>)
    ensures
        entries.is_prefix_of(interned(entries, s)),
        interned(entries, s).contains(s),
        interned(entries, s).len() <= entries.len() + 1,
        distinct(entries) ==> distinct(interned(entries, s)),
{
    let after = interned(entries, s);
    if !entries.contains(s) {
        assert(after[after.len() - 1] == s);
        assert(after.subrange(0, entries.len() as int) =~= entries);
        if distinct(entries) {
            assert forall|i: int, j: int| 0 <= i < j < after.len() implies after[i] != after[j] by {
                assert(after[i] == entries[i]);
                assert(entries.contains(entries[i]));
                if j < entries.len() {
                    assert(after[j] == entries[j]);
                }
            }
        }
    } else {
        assert(after.subrange(0, entries.len() as int) =~= entries);
    }
}

/// What a list holds, a longer list that begins with it holds too.
pub proof fn lemma_prefix_contains(entries: Seq<Seq<char>>, longer: Seq<Seq<char>>, s: Seq<char>)
    requires
        entries.is_prefix_of(longer),
        entries.contains(s),
    ensures
        longer.contains(s),
{
    let i = choose|i: int| 0 <= i < entries.len() && entries[i] == s;
    assert(longer.subrange(0, entries.len() as int)[i] == longer[i]);
}

/// Beginning with is transitive.
pub proof fn lemma_prefix_trans(a: Seq<Seq<char>>, b: Seq<Seq<char>>, c: Seq<Seq<char>>)
    requires
        a.is_prefix_of(b),
        b.is_prefix_of(c),
    ensures
        a.is_prefix_of(c),
{
    assert(c.subrange(0, a.len() as int) =~= a) by {
        assert forall|i: int| 0 <= i < a.len() implies c[i] == a[i] by {
            assert(b.subrange(0, a.len() as int)[i] == b[i]);
            assert(c.subrange(0, b.len() as int)[i] == c[i]);
        }
    }
}

/// Interning is idempotent: to intern a text a second time changes nothing,
/// and the text has the code that it got the first time.
pub proof fn law_intern_idempotent(entries: Seq<Seq<char>>, s: Seq<char>)
    ensures
        interned(interned(entries, s), s) == interned(entries, s),
        code_in(interned(entries, s), s) is Some,
        code_in(interned(interned(entries, s), s), s) == code_in(interned(entries, s), s),
{
    lemma_interned(entries, s);
    lemma_code_in(interned(entries, s), s);
}

/// A text keeps its code when another text is interned.
pub proof fn law_code_kept(entries: Seq<Seq<char>>, s: Seq<char>, other: Seq<char>)
    requires
        code_in(entries, s) is Some,
    ensures
        code_in(interned(entries, other), s) == code_in(entries, s),
{
    lemma_code_in(entries, s);
    lemma_interned(entries, other);
    lemma_code_stable(entries, interned(entries, other), s);
}

/// Two texts that have one code are one text.
pub proof fn law_codes_distinct(entries: Seq<Seq<char>>, s: Seq<char>, t: Seq<char>)
    requires
        code_in(entries, s) is Some,
        code_in(entries, s) == code_in(entries, t),
    ensures
        s == t,
{
    lemma_code_in(entries, s);
    lemma_code_in(entries, t);
}

/// Interning distinct texts into an empty dictionary gives each a code of
/// its own: the texts are the entries, in their order, so the text at
/// position `i` has the code `i + 1`.
pub proof fn law_distinct_texts_distinct_codes(texts: Seq<Seq<char>>)
    requires
        distinct(texts),
    ensures
        interned_all(Seq::empty(), texts) == texts,
        forall|i: int| 0 <= i < texts.len() ==> code_in(texts, #[trigger] texts[i]) == Some((i + 1) as nat),
    decreases texts.len(),
{
    if texts.len() > 0 {
        let front = texts.drop_last();
        assert forall|i: int, j: int| 0 <= i < j < front.len() implies front[i] != front[j] by {
            assert(front[i] == texts[i] && front[j] == texts[j]);
        }
        law_distinct_texts_distinct_codes(front);
        assert(!front.contains(texts.last())) by {
            if front.contains(texts.last()) {
                let i = choose|i: int| 0 <= i < front.len() && front[i] == texts.last();
                assert(texts[i] == texts[texts.len() - 1]);
            }
        }
        assert(front.push(texts.last()) =~= texts);
    }
    assert forall|i: int| 0 <= i < texts.len() implies code_in(texts, #[trigger] texts[i]) == Some(
        (i + 1) as nat,
    ) by {
        lemma_code_in(texts, texts[i]);
        assert(texts.contains(texts[i]));
        let c = code_in(texts, texts[i])->0;
        if c - 1 != i {
            if c - 1 < i {
                assert(texts[c - 1] != texts[i]);
            } else {
                assert(texts[i] != texts[c - 1]);
            }
        }
    }
}

/// Interning pairwise distinct texts one after the other into an empty
/// dictionary counts up: the call for the text at position `k` finds the
/// first `k` texts as the entries, adds the text, and gives it the code
/// `k + 1`. In the end there are as many entries as texts.
pub proof fn law_codes_count_up(texts: Seq<Seq<char>>)
    requires
        distinct(texts),
    ensures
        interned_all(Seq::empty(), texts).len() == texts.len(),
        forall|k: int|
            0 <= k < texts.len() ==> {
                &&& #[trigger] interned_all(Seq::empty(), texts.take(k)) == texts.take(k)
                &&& interned(texts.take(k), texts[k]) == texts.take(k + 1)
                &&& code_in(texts.take(k + 1), texts[k]) == Some((k + 1) as nat)
            },
{
    law_distinct_texts_distinct_codes(texts);
    assert forall|k: int| 0 <= k < texts.len() implies {
        &&& #[trigger] interned_all(Seq::empty(), texts.take(k)) == texts.take(k)
        &&& interned(texts.take(k), texts[k]) == texts.take(k + 1)
        &&& code_in(texts.take(k + 1), texts[k]) == Some((k + 1) as nat)
    } by {
        let before = texts.take(k);
        let with = texts.take(k + 1);
        assert forall|i: int, j: int| 0 <= i < j < with.len() implies with[i] != with[j] by {
            assert(with[i] == texts[i] && with[j] == texts[j]);
        }
        assert forall|i: int, j: int| 0 <= i < j < before.len() implies before[i] != before[j] by {
            assert(before[i] == texts[i] && before[j] == texts[j]);
        }
        law_distinct_texts_distinct_codes(before);
        law_distinct_texts_distinct_codes(with);
        assert(!before.contains(texts[k])) by {
            if before.contains(texts[k]) {
                let i = choose|i: int| 0 <= i < before.len() && before[i] == texts[k];
                assert(texts[i] == texts[k]);
            }
        }
        assert(before.push(texts[k]) =~= with);
        assert(with[k] == texts[k]);
    }
}

/// Copies of the given strings, in order.
pub fn clone_strings(strings: &Vec<String>) -> (out: Vec<String>)
    ensures
        texts_of(out@) == texts_of(strings@),
{
    let mut out: Vec<String> = Vec::new();
    let mut i: usize = 0;
    while i < strings.len()
        invariant
            i <= strings.len(),
            out.len() == i,
            forall|k: int| 0 <= k < i ==> (#[trigger] out[k])@ == strings[k]@,
        decreases strings.len() - i,
    {
        out.push(strings[i].clone());
        i += 1;
    }
    assert(texts_of(out@) =~= texts_of(strings@));
    out
}

/// The number that stands for the text `s`: its code. Where the dictionary
/// does not have the text, the value stays.
pub open spec fn code_value(entries: Seq<Seq<char>>, s: Seq<char>, v: DatumView) -> DatumView {
    match code_in(entries, s) {
        Some(c) => DatumView::Int(c as i64),
        None => v,
    }
}

/// A code found in the first `n` entries is the code in all of them.
pub proof fn lemma_code_grows(entries: Seq<Seq<char>>, s: Seq<char>, n: int)
    requires
        0 <= n <= entries.len(),
        code_in(entries.take(n), s) is Some,
    ensures
        code_in(entries, s) == code_in(entries.take(n), s),
    decreases entries.len() - n,
{
    if n < entries.len() {
        assert(entries.take(n + 1).drop_last() == entries.take(n));
        lemma_code_grows(entries, s, n + 1);
    } else {
        assert(entries.take(n) == entries);
    }
}

} // verus!
