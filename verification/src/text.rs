use vstd::prelude::*;
use vstd::std_specs::iter::IteratorSpec;
use vstd::string::StringExecFns;

verus! {

/// `String::push` appends one character to the end of the string.
pub assume_specification[ String::push ](s: &mut String, c: char)
    ensures
        final(s)@ == old(s)@.push(c),
;

/// `str`'s `==` holds exactly when the two slices have the same characters.
pub assume_specification[ <str as PartialEq>::eq ](a: &str, b: &str) -> (r: bool)
    ensures
        r == (a@ == b@),
;

/// The length of a text in bytes, as UTF-8.
pub open spec fn utf8_len(t: Seq<char>) -> nat {
    vstd::utf8::encode_utf8(t).len()
}

/// The length of `s` in bytes.
pub fn byte_len(s: &str) -> (n: usize)
    ensures
        n == utf8_len(s@),
{
    s.as_bytes().len()
}

/// Whether `a` and `b` are the same text.
pub fn same_text(a: &str, b: &str) -> (r: bool)
    ensures
        r == (a@ == b@),
{
    *a == *b
}

/// The characters of `s`, in order.
pub fn chars_of(s: &str) -> (out: Vec<char>)
    ensures
        out@ == s@,
{
    let mut out: Vec<char> = Vec::new();
    let mut it = s.chars();
    broadcast use vstd::string::group_string_axioms;

    loop
        invariant
            it.obeys_prophetic_iter_laws(),
            out@ + it.remaining() == s@,
            it.decrease() is Some,
        decreases it.decrease()->0,
    {
        match it.next() {
            Some(c) => {
                out.push(c);
            },
            None => {
                return out;
            },
        }
    }
}

/// The string whose characters are `v`, in order.
pub fn string_of(v: &Vec<char>) -> (out: String)
    ensures
        out@ == v@,
{
    let mut out = String::new();
    let mut i: usize = 0;
    while i < v.len()
        invariant
            i <= v.len(),
            out@ == v@.take(i as int),
        decreases v.len() - i,
    {
        out.push(v[i]);
        i += 1;
    }
    out
}

/// `pat` stands in `s` at position `i`.
pub open spec fn occurs_at(s: Seq<char>, pat: Seq<char>, i: int) -> bool {
    0 <= i && i + pat.len() <= s.len() && s.subrange(i, i + pat.len()) == pat
}

/// `s` begins with `pat`.
pub open spec fn starts_with(s: Seq<char>, pat: Seq<char>) -> bool {
    occurs_at(s, pat, 0)
}

/// `pat` stands somewhere in `s`.
pub open spec fn contains_text(s: Seq<char>, pat: Seq<char>) -> bool {
    exists|i: int| occurs_at(s, pat, i)
}

/// Whether `pat` stands in `s` at position `i`.
pub fn occurs_at_exec(s: &Vec<char>, pat: &Vec<char>, i: usize) -> (r: bool)
    ensures
        r == occurs_at(s@, pat@, i as int),
{
    if pat.len() > s.len() || i > s.len() - pat.len() {
        return false;
    }
    let mut k: usize = 0;
    while k < pat.len()
        invariant
            k <= pat.len(),
            i + pat.len() <= s.len(),
            forall|j: int| 0 <= j < k ==> s[i + j] == pat[j],
        decreases pat.len() - k,
    {
        if s[i + k] != pat[k] {
            assert(s@.subrange(i as int, i + pat.len())[k as int] == s[i + k]);
            return false;
        }
        k += 1;
    }
    assert(s@.subrange(i as int, i + pat.len()) =~= pat@);
    true
}

/// Whether `s` begins with `pat`.
pub fn text_starts_with(s: &str, pat: &str) -> (r: bool)
    ensures
        r == starts_with(s@, pat@),
{
    let sv = chars_of(s);
    let pv = chars_of(pat);
    occurs_at_exec(&sv, &pv, 0)
}

/// `s` ends with `pat`.
pub open spec fn ends_with(s: Seq<char>, pat: Seq<char>) -> bool {
    occurs_at(s, pat, s.len() - pat.len())
}

/// `s` without `suffix` at its end, where it ends with it; else `s`.
pub open spec fn without_suffix(s: Seq<char>, suffix: Seq<char>) -> Seq<char> {
    if ends_with(s, suffix) {
        s.take(s.len() - suffix.len())
    } else {
        s
    }
}

/// Whether `s` ends with `pat`.
pub fn ends_with_exec(s: &Vec<char>, pat: &Vec<char>) -> (r: bool)
    ensures
        r == ends_with(s@, pat@),
{
    if pat.len() > s.len() {
        false
    } else {
        occurs_at_exec(s, pat, s.len() - pat.len())
    }
}

/// Whether `s` ends with `pat`.
pub fn text_ends_with(s: &str, pat: &str) -> (r: bool)
    ensures
        r == ends_with(s@, pat@),
{
    let sv = chars_of(s);
    let pv = chars_of(pat);
    ends_with_exec(&sv, &pv)
}

/// Computes [`without_suffix`].
pub fn without_suffix_exec(s: &Vec<char>, suffix: &Vec<char>) -> (out: Vec<char>)
    ensures
        out@ == without_suffix(s@, suffix@),
{
    if ends_with_exec(s, suffix) {
        first_chars_exec(s, s.len() - suffix.len())
    } else {
        assert(s@.take(s.len() as int) == s@);
        first_chars_exec(s, s.len())
    }
}

/// Whether `pat` stands somewhere in `s`.
pub fn contains_exec(s: &Vec<char>, pat: &Vec<char>) -> (r: bool)
    ensures
        r == contains_text(s@, pat@),
{
    if pat.len() > s.len() {
        return false;
    }
    if pat.len() == 0 {
        assert(s@.subrange(0, 0) =~= pat@);
        assert(occurs_at(s@, pat@, 0));
        return true;
    }
    let last: usize = s.len() - pat.len();
    let mut i: usize = 0;
    while i <= last
        invariant
            i <= last + 1,
            pat.len() > 0,
            last == s.len() - pat.len(),
            forall|j: int| 0 <= j < i ==> !occurs_at(s@, pat@, j),
        decreases last + 1 - i,
    {
        if occurs_at_exec(s, pat, i) {
            return true;
        }
        i += 1;
    }
    false
}

/// Whether `pat` stands somewhere in `s`.
pub fn text_contains(s: &str, pat: &str) -> (r: bool)
    ensures
        r == contains_text(s@, pat@),
{
    let sv = chars_of(s);
    let pv = chars_of(pat);
    contains_exec(&sv, &pv)
}

/// `s` with every occurrence of `pat` replaced by `with`, found from left to
/// right, none overlapping another. An empty `pat` leaves `s` as it is.
pub open spec fn replace_all(s: Seq<char>, pat: Seq<char>, with: Seq<char>) -> Seq<char>
    decreases s.len(),
{
    if pat.len() == 0 || s.len() < pat.len() {
        s
    } else if occurs_at(s, pat, 0) {
        with + replace_all(s.skip(pat.len() as int), pat, with)
    } else {
        seq![s[0]] + replace_all(s.skip(1), pat, with)
    }
}

/// Computes [`replace_all`].
pub fn replace_all_exec(s: &Vec<char>, pat: &Vec<char>, with: &Vec<char>) -> (out: Vec<char>)
    ensures
        out@ == replace_all(s@, pat@, with@),
{
    let mut out: Vec<char> = Vec::new();
    let mut i: usize = 0;
    if pat.len() == 0 {
        while i < s.len()
            invariant
                i <= s.len(),
                out@ == s@.take(i as int),
            decreases s.len() - i,
        {
            out.push(s[i]);
            i += 1;
        }
        assert(s@.take(i as int) == s@);
        return out;
    }
    assert(s@.skip(0) =~= s@);
    assert(out@ + s@ =~= s@);
    while i < s.len()
        invariant
            i <= s.len(),
            pat.len() > 0,
            out@ + replace_all(s@.skip(i as int), pat@, with@) == replace_all(s@, pat@, with@),
        decreases s.len() - i,
    {
        let ghost rest = s@.skip(i as int);
        let ghost before = out@;
        if occurs_at_exec(s, pat, i) {
            assert(rest.subrange(0, pat.len() as int) =~= s@.subrange(i as int, i + pat.len()));
            let mut k: usize = 0;
            while k < with.len()
                invariant
                    k <= with.len(),
                    out@ == before + with@.take(k as int),
                decreases with.len() - k,
            {
                out.push(with[k]);
                assert(with@.take(k + 1) =~= with@.take(k as int).push(with[k as int]));
                k += 1;
            }
            assert(with@.take(k as int) == with@);
            assert(rest.skip(pat.len() as int) =~= s@.skip(i + pat.len()));
            assert(out@ + replace_all(s@.skip(i + pat.len()), pat@, with@) =~= before
                + replace_all(rest, pat@, with@));
            i += pat.len();
        } else {
            if s.len() - i >= pat.len() {
                assert(rest.subrange(0, pat.len() as int) =~= s@.subrange(
                    i as int,
                    i + pat.len(),
                ));
                assert(rest.skip(1) =~= s@.skip(i + 1));
                out.push(s[i]);
                assert(out@ + replace_all(s@.skip(i + 1), pat@, with@) =~= before + replace_all(
                    rest,
                    pat@,
                    with@,
                ));
                i += 1;
            } else {
                let ghost from = i;
                while i < s.len()
                    invariant
                        from <= i <= s.len(),
                        out@ == before + s@.subrange(from as int, i as int),
                    decreases s.len() - i,
                {
                    out.push(s[i]);
                    i += 1;
                }
                assert(s@.subrange(from as int, i as int) =~= rest);
                assert(replace_all(s@.skip(i as int), pat@, with@) =~= Seq::<char>::empty());
                assert(out@ + Seq::<char>::empty() =~= out@);
            }
        }
    }
    assert(s@.skip(i as int) =~= Seq::<char>::empty());
    assert(out@ + Seq::<char>::empty() =~= out@);
    out
}

/// The piece of `s` that lies behind the last of the occurrences of `sep`
/// that a scan from position `at` finds, none overlapping another; a piece is
/// open from `start`. With no occurrence it is `s` from `start` on.
pub open spec fn last_piece_from(s: Seq<char>, sep: Seq<char>, start: int, at: int) -> Seq<char>
    decreases s.len() - at,
{
    if sep.len() == 0 || at < 0 || start < 0 || start > at || at + sep.len() > s.len() {
        if 0 <= start <= s.len() {
            s.subrange(start, s.len() as int)
        } else {
            s
        }
    } else if occurs_at(s, sep, at) {
        last_piece_from(s, sep, at + sep.len(), at + sep.len())
    } else {
        last_piece_from(s, sep, start, at + 1)
    }
}

/// The last of the pieces into which the occurrences of `sep` cut `s`.
pub open spec fn last_piece(s: Seq<char>, sep: Seq<char>) -> Seq<char> {
    last_piece_from(s, sep, 0, 0)
}

/// Computes [`last_piece`].
pub fn last_piece_exec(s: &Vec<char>, sep: &Vec<char>) -> (out: Vec<char>)
    ensures
        out@ == last_piece(s@, sep@),
{
    let mut start: usize = 0;
    let mut at: usize = 0;
    if sep.len() > 0 && sep.len() <= s.len() {
        let last: usize = s.len() - sep.len();
        while at <= last
            invariant
                start <= at <= s.len(),
                sep.len() > 0,
                last == s.len() - sep.len(),
                last_piece_from(s@, sep@, start as int, at as int) == last_piece(s@, sep@),
            decreases s.len() - at,
        {
            if occurs_at_exec(s, sep, at) {
                at += sep.len();
                start = at;
            } else {
                at += 1;
            }
        }
    }
    let mut out: Vec<char> = Vec::new();
    let mut i: usize = start;
    while i < s.len()
        invariant
            start <= i <= s.len(),
            out@ == s@.subrange(start as int, i as int),
        decreases s.len() - i,
    {
        out.push(s[i]);
        i += 1;
    }
    out
}

/// The first characters of the pieces into which each `-` cuts `s`, from
/// the piece that begins at the start of `s` on if `at_start`, else from the
/// piece behind the next `-` on. An empty piece gives `x`.
pub open spec fn initials_from(s: Seq<char>, at_start: bool) -> Seq<char>
    decreases s.len(),
{
    if s.len() == 0 {
        if at_start {
            seq!['x']
        } else {
            Seq::empty()
        }
    } else if s[0] == '-' {
        if at_start {
            seq!['x'] + initials_from(s.skip(1), true)
        } else {
            initials_from(s.skip(1), true)
        }
    } else {
        if at_start {
            seq![s[0]] + initials_from(s.skip(1), false)
        } else {
            initials_from(s.skip(1), false)
        }
    }
}

/// The first characters of the pieces into which each `-` cuts `s`; an
/// empty piece gives `x`.
pub open spec fn initials(s: Seq<char>) -> Seq<char> {
    initials_from(s, true)
}

/// Computes [`initials`].
pub fn initials_exec(s: &Vec<char>) -> (out: Vec<char>)
    ensures
        out@ == initials(s@),
{
    let mut out: Vec<char> = Vec::new();
    let mut at_start = true;
    let mut i: usize = 0;
    assert(s@.skip(0) =~= s@);
    assert(out@ + initials_from(s@, true) =~= initials(s@));
    while i < s.len()
        invariant
            i <= s.len(),
            out@ + initials_from(s@.skip(i as int), at_start) == initials(s@),
        decreases s.len() - i,
    {
        let ghost rest = s@.skip(i as int);
        let ghost before = out@;
        assert(rest.skip(1) =~= s@.skip(i + 1));
        assert(rest[0] == s[i as int]);
        if s[i] == '-' {
            if at_start {
                out.push('x');
                assert(out@ + initials_from(s@.skip(i + 1), true) =~= before + (seq!['x']
                    + initials_from(rest.skip(1), true)));
            }
            at_start = true;
        } else {
            if at_start {
                out.push(s[i]);
                assert(out@ + initials_from(s@.skip(i + 1), false) =~= before + (seq![rest[0]]
                    + initials_from(rest.skip(1), false)));
            }
            at_start = false;
        }
        i += 1;
    }
    if at_start {
        let ghost before = out@;
        out.push('x');
        assert(out@ =~= before + seq!['x']);
    } else {
        assert(out@ + Seq::<char>::empty() =~= out@);
    }
    out
}

/// The character for a digit.
pub open spec fn digit_char(d: nat) -> char {
    if d == 0 {
        '0'
    } else if d == 1 {
        '1'
    } else if d == 2 {
        '2'
    } else if d == 3 {
        '3'
    } else if d == 4 {
        '4'
    } else if d == 5 {
        '5'
    } else if d == 6 {
        '6'
    } else if d == 7 {
        '7'
    } else if d == 8 {
        '8'
    } else {
        '9'
    }
}

/// The decimal digits of a number, the most significant first, without
/// leading zeros.
pub open spec fn decimal(n: nat) -> Seq<char>
    decreases n,
{
    if n < 10 {
        seq![digit_char(n)]
    } else {
        decimal(n / 10).push(digit_char(n % 10))
    }
}

/// The decimal text of a signed number: `-` and the digits of its amount
/// where it is negative.
pub open spec fn signed_decimal(x: int) -> Seq<char> {
    if x < 0 {
        seq!['-'] + decimal((-x) as nat)
    } else {
        decimal(x as nat)
    }
}

/// Computes [`digit_char`].
fn digit_exec(d: u8) -> (c: char)
    requires
        d < 10,
    ensures
        c == digit_char(d as nat),
{
    if d == 0 {
        '0'
    } else if d == 1 {
        '1'
    } else if d == 2 {
        '2'
    } else if d == 3 {
        '3'
    } else if d == 4 {
        '4'
    } else if d == 5 {
        '5'
    } else if d == 6 {
        '6'
    } else if d == 7 {
        '7'
    } else if d == 8 {
        '8'
    } else {
        '9'
    }
}

/// Computes [`decimal`].
pub fn decimal_exec(n: u128) -> (out: Vec<char>)
    ensures
        out@ == decimal(n as nat),
{
    let mut backwards: Vec<char> = Vec::new();
    let mut rest: u128 = n;
    assert(decimal(n as nat) + backwards@.reverse() =~= decimal(n as nat));
    while rest >= 10
        invariant
            decimal(rest as nat) + backwards@.reverse() == decimal(n as nat),
        decreases rest,
    {
        let d = digit_exec((rest % 10) as u8);
        let ghost before = backwards@;
        let ghost old_rest = rest;
        backwards.push(d);
        rest = rest / 10;
        proof {
            assert(backwards@.reverse() =~= seq![d] + before.reverse());
            assert(decimal(old_rest as nat) == decimal(rest as nat).push(d));
            assert(decimal(rest as nat) + backwards@.reverse() =~= decimal(old_rest as nat)
                + before.reverse());
        }
    }
    let mut out: Vec<char> = Vec::new();
    out.push(digit_exec(rest as u8));
    let ghost head = out@;
    assert(head =~= decimal(rest as nat));
    let mut k: usize = backwards.len();
    assert(backwards@.reverse().take(0) =~= Seq::<char>::empty());
    assert(head + Seq::<char>::empty() =~= head);
    while k > 0
        invariant
            k <= backwards.len(),
            out@ == head + backwards@.reverse().take(backwards.len() - k),
        decreases k,
    {
        k -= 1;
        out.push(backwards[k]);
        assert(backwards@.reverse()[backwards.len() - 1 - k] == backwards[k as int]);
        assert(backwards@.reverse().take(backwards.len() - k) =~= backwards@.reverse().take(
            backwards.len() - 1 - k,
        ).push(backwards[k as int]));
    }
    assert(backwards@.reverse().take(backwards.len() as int) =~= backwards@.reverse());
    out
}

/// The decimal text of `n`.
pub fn decimal_text(n: u128) -> (out: String)
    ensures
        out@ == decimal(n as nat),
{
    string_of(&decimal_exec(n))
}

/// The decimal text of `x`.
pub fn signed_decimal_text(x: i128) -> (out: String)
    ensures
        out@ == signed_decimal(x as int),
{
    if x < 0 {
        let amount: u128 = if x == i128::MIN {
            0x8000_0000_0000_0000_0000_0000_0000_0000u128
        } else {
            (-x) as u128
        };
        let digits = decimal_exec(amount);
        let mut out: Vec<char> = Vec::new();
        out.push('-');
        let mut i: usize = 0;
        while i < digits.len()
            invariant
                i <= digits.len(),
                out@ == seq!['-'] + digits@.take(i as int),
            decreases digits.len() - i,
        {
            out.push(digits[i]);
            assert(digits@.take(i + 1) =~= digits@.take(i as int).push(digits[i as int]));
            i += 1;
        }
        assert(digits@.take(i as int) == digits@);
        string_of(&out)
    } else {
        string_of(&decimal_exec(x as u128))
    }
}

/// Whether `c` is one of the digits `0` to `9`.
pub open spec fn is_digit(c: char) -> bool {
    '0' as u32 <= c as u32 <= '9' as u32
}

/// The number that the digits spell. A character that is no digit counts
/// as 0.
pub open spec fn digits_value(digits: Seq<char>) -> nat
    decreases digits.len(),
{
    if digits.len() == 0 {
        0
    } else {
        digits_value(digits.drop_last()) * 10 + (if is_digit(digits.last()) {
            (digits.last() as u32 - '0' as u32) as nat
        } else {
            0nat
        })
    }
}

/// The number that a text spells: the text is one or more digits, with `+`
/// before them or not, and the number fits 64 bits. Any other text spells
/// none.
pub open spec fn spelled_u64(s: Seq<char>) -> Option<u64> {
    if unsigned_part(s).len() > 0 && all_digits(unsigned_part(s)) && digits_value(
        unsigned_part(s),
    ) <= u64::MAX {
        Some(digits_value(unsigned_part(s)) as u64)
    } else {
        None
    }
}

/// The text without the `+` that it may begin with.
pub open spec fn unsigned_part(s: Seq<char>) -> Seq<char> {
    if s.len() > 0 && s[0] == '+' {
        s.skip(1)
    } else {
        s
    }
}

/// Every character of the text is a digit.
pub open spec fn all_digits(s: Seq<char>) -> bool {
    forall|i: int| 0 <= i < s.len() ==> is_digit(#[trigger] s[i])
}

/// More digits do not spell a smaller number.
proof fn lemma_digits_grow(digits: Seq<char>, n: int)
    requires
        0 <= n <= digits.len(),
    ensures
        digits_value(digits.take(n)) <= digits_value(digits),
    decreases digits.len() - n,
{
    if n < digits.len() {
        assert(digits.take(n + 1).drop_last() == digits.take(n));
        lemma_digits_grow(digits, n + 1);
    } else {
        assert(digits.take(n) == digits);
    }
}

/// Computes [`spelled_u64`].
#[verifier::loop_isolation(false)]
pub fn parse_u64(s: &str) -> (r: Option<u64>)
    ensures
        r == spelled_u64(s@),
{
    let chars = chars_of(s);
    let start: usize = if chars.len() > 0 && chars[0] == '+' {
        1
    } else {
        0
    };
    let ghost digits = chars@.skip(start as int);
    assert(chars@.skip(0) =~= chars@);
    assert(unsigned_part(s@) == digits);
    if chars.len() == start {
        return None;
    }
    let mut value: u64 = 0;
    let mut i: usize = start;
    assert(digits.take(0) =~= Seq::<char>::empty());
    while i < chars.len()
        invariant
            start <= i <= chars.len(),
            digits == chars@.skip(start as int),
            forall|k: int| 0 <= k < i - start ==> is_digit(#[trigger] digits[k]),
            value == digits_value(digits.take(i - start)),
        decreases chars.len() - i,
    {
        let c = chars[i];
        assert(digits[i - start] == c);
        assert(digits.take(i - start + 1).drop_last() == digits.take(i - start));
        assert(digits.take(i - start + 1).last() == c);
        if (c as u32) < ('0' as u32) || (c as u32) > ('9' as u32) {
            assert(!is_digit(digits[i - start]));
            return None;
        }
        let d: u64 = (c as u32 - '0' as u32) as u64;
        assert(digits_value(digits.take(i - start + 1)) == value * 10 + d);
        let next: u128 = (value as u128) * 10 + (d as u128);
        if next > 0xffff_ffff_ffff_ffff {
            proof {
                lemma_digits_grow(digits, i - start + 1);
            }
            return None;
        }
        value = next as u64;
        i += 1;
    }
    assert(digits.take(i - start) == digits);
    Some(value)
}

/// The texts in order, with `sep` between each two.
pub open spec fn joined(texts: Seq<Seq<char>>, sep: Seq<char>) -> Seq<char>
    decreases texts.len(),
{
    if texts.len() == 0 {
        Seq::empty()
    } else if texts.len() == 1 {
        texts[0]
    } else {
        joined(texts.drop_last(), sep) + sep + texts.last()
    }
}

/// Computes [`joined`].
pub fn join_texts(texts: &Vec<String>, sep: &str) -> (out: String)
    ensures
        out@ == joined(Seq::new(texts@.len(), |i: int| texts@[i]@), sep@),
{
    let ghost all = Seq::new(texts@.len(), |i: int| texts@[i]@);
    let mut out = String::new();
    let mut i: usize = 0;
    assert(all.take(0) =~= Seq::<Seq<char>>::empty());
    while i < texts.len()
        invariant
            i <= texts.len(),
            all == Seq::new(texts@.len(), |i: int| texts@[i]@),
            out@ == joined(all.take(i as int), sep@),
        decreases texts.len() - i,
    {
        assert(all.take(i + 1).drop_last() == all.take(i as int));
        assert(all.take(i + 1).last() == texts[i as int]@);
        if i > 0 {
            out.append(sep);
        } else {
            assert(Seq::<char>::empty() + texts[i as int]@ =~= texts[i as int]@);
        }
        out.append(texts[i].as_str());
        i += 1;
    }
    assert(all.take(i as int) == all);
    out
}

/// The text of a truth value: `true` or `false`.
pub open spec fn truth_name(b: bool) -> Seq<char> {
    if b {
        "true"@
    } else {
        "false"@
    }
}

/// Computes [`truth_name`].
pub fn truth_text(b: bool) -> (out: String)
    ensures
        out@ == truth_name(b),
{
    if b {
        "true".to_owned()
    } else {
        "false".to_owned()
    }
}

/// The first `n` characters of `s`, or all of it where it has fewer.
pub open spec fn first_chars(s: Seq<char>, n: nat) -> Seq<char> {
    if n < s.len() {
        s.take(n as int)
    } else {
        s
    }
}

/// Computes [`first_chars`].
pub fn first_chars_exec(s: &Vec<char>, n: usize) -> (out: Vec<char>)
    ensures
        out@ == first_chars(s@, n as nat),
{
    let end: usize = if n < s.len() {
        n
    } else {
        s.len()
    };
    let mut out: Vec<char> = Vec::new();
    let mut i: usize = 0;
    while i < end
        invariant
            i <= end <= s.len(),
            out@ == s@.take(i as int),
        decreases end - i,
    {
        out.push(s[i]);
        i += 1;
    }
    assert(s@.take(s.len() as int) == s@);
    out
}

} // verus!
