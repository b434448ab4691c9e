use vstd::prelude::*;
use crate::dictionary::texts_of;

verus! {

/// The groups of one match: the whole match first, then each group of the
/// pattern, `None` for a group that took no part in the match.
pub type Groups = Seq<Option<Seq<char>>>;

/// The groups of the first match of `pattern` in `content`, as
/// `regex::Regex::new` and `regex::Regex::captures` find it; `None` where
/// the pattern is none that the engine takes, and where nothing matches.
pub uninterp spec fn first_match(pattern: Seq<char>, content: Seq<char>) -> Option<Groups>;

/// The groups of every match of `pattern` in `content`, one after the
/// other, as `regex::Regex::new` and `regex::Regex::captures_iter` find
/// them; none where the pattern is none that the engine takes.
pub uninterp spec fn all_matches(pattern: Seq<char>, content: Seq<char>) -> Seq<Groups>;

/// The text in lower case, as `str::to_lowercase` gives it.
pub uninterp spec fn lowercase(s: Seq<char>) -> Seq<char>;

/// The character is white space: it has the Unicode property `White_Space`.
pub open spec fn is_white_space(c: char) -> bool {
    let n = c as u32;
    ||| 0x09 <= n <= 0x0d
    ||| n == 0x20
    ||| n == 0x85
    ||| n == 0xa0
    ||| n == 0x1680
    ||| 0x2000 <= n <= 0x200a
    ||| n == 0x2028
    ||| n == 0x2029
    ||| n == 0x202f
    ||| n == 0x205f
    ||| n == 0x3000
}

/// The text without the white space at its start.
pub open spec fn trimmed_start(s: Seq<char>) -> Seq<char>
    decreases s.len(),
{
    if s.len() > 0 && is_white_space(s[0]) {
        trimmed_start(s.drop_first())
    } else {
        s
    }
}

/// The text without the white space at its end.
pub open spec fn trimmed_end(s: Seq<char>) -> Seq<char>
    decreases s.len(),
{
    if s.len() > 0 && is_white_space(s.last()) {
        trimmed_end(s.drop_last())
    } else {
        s
    }
}

/// The text without the white space at its ends.
pub open spec fn trimmed(s: Seq<char>) -> Seq<char> {
    trimmed_end(trimmed_start(s))
}

/// A line without the carriage return that its line feed followed, if it
/// followed one.
pub open spec fn without_return(line: Seq<char>) -> Seq<char> {
    if line.len() > 0 && line.last() == '\r' {
        line.drop_last()
    } else {
        line
    }
}

/// The lines of `s` from position `start` on, where the scan for the next
/// line feed stands at `at`.
pub open spec fn lines_from(s: Seq<char>, start: int, at: int) -> Seq<Seq<char>>
    decreases s.len() - at,
{
    if start < 0 || at < start {
        Seq::empty()
    } else if at >= s.len() {
        if start < s.len() {
            seq![s.subrange(start, s.len() as int)]
        } else {
            Seq::empty()
        }
    } else if s[at] == '\n' {
        seq![without_return(s.subrange(start, at))] + lines_from(s, at + 1, at + 1)
    } else {
        lines_from(s, start, at + 1)
    }
}

/// The lines of the text. A line ends with a line feed, or with a carriage
/// return and a line feed, and is given without them. What stands behind
/// the last line feed is a line as it is, unless it is empty.
pub open spec fn lines_in(s: Seq<char>) -> Seq<Seq<char>> {
    lines_from(s, 0, 0)
}

/// The words of `s` from position `start` on, where the scan for the next
/// white space stands at `at`.
pub open spec fn words_from(s: Seq<char>, start: int, at: int) -> Seq<Seq<char>>
    decreases s.len() - at,
{
    if start < 0 || at < start {
        Seq::empty()
    } else if at >= s.len() {
        if start < s.len() {
            seq![s.subrange(start, s.len() as int)]
        } else {
            Seq::empty()
        }
    } else if is_white_space(s[at]) {
        if start < at {
            seq![s.subrange(start, at)] + words_from(s, at + 1, at + 1)
        } else {
            words_from(s, at + 1, at + 1)
        }
    } else {
        words_from(s, start, at + 1)
    }
}

/// The words of the text: its longest pieces without white space, in
/// order.
pub open spec fn words_in(s: Seq<char>) -> Seq<Seq<char>> {
    words_from(s, 0, 0)
}

/// The texts of the groups of one match.
pub open spec fn groups_of(groups: Seq<Option<String>>) -> Groups {
    Seq::new(
        groups.len(),
        |i: int|
            match groups[i] {
                Some(text) => Some(text@),
                None => None,
            },
    )
}

/// The texts of the groups of a list of matches.
pub open spec fn matches_of(matches: Seq<Vec<Option<String>>>) -> Seq<Groups> {
    Seq::new(matches.len(), |i: int| groups_of(matches[i]@))
}

/// The text that group `i` took, if there is such a group and it took part.
pub open spec fn group(groups: Groups, i: int) -> Option<Seq<char>> {
    if 0 <= i < groups.len() {
        groups[i]
    } else {
        None
    }
}

/// `regex::Regex::new` on the pattern, and `regex::Regex::captures` on the
/// content: the groups of the first match, each as the text that it took.
/// A pattern that the engine does not take gives `None`, as no match does.
#[verifier::external_body]
pub(crate) fn captures(pattern: &str, content: &str) -> (r: Option<Vec<Option<String>>>)
    ensures
        match r {
            Some(groups) => first_match(pattern@, content@) == Some(groups_of(groups@)),
            None => first_match(pattern@, content@) is None,
        },
{
    let re = regex::Regex::new(pattern).ok()?;
    let found = re.captures(content)?;
    Some(found.iter().map(|m| m.map(|part| part.as_str().to_owned())).collect())
}

/// `regex::Regex::new` on the pattern, and `regex::Regex::captures_iter` on
/// the content: the groups of every match, each as the text that it took. A
/// pattern that the engine does not take gives no match.
#[verifier::external_body]
pub(crate) fn captures_all(pattern: &str, content: &str) -> (r: Vec<Vec<Option<String>>>)
    ensures
        matches_of(r@) == all_matches(pattern@, content@),
{
    match regex::Regex::new(pattern) {
        Ok(re) => re
            .captures_iter(content)
            .map(|found| found.iter().map(|m| m.map(|part| part.as_str().to_owned())).collect())
            .collect(),
        Err(_) => Vec::new(),
    }
}

/// `str::to_lowercase`: the text with each character in its lower case.
pub assume_specification[ str::to_lowercase ](s: &str) -> (r: String)
    ensures
        r@ == lowercase(s@),
;

/// `str::trim`: the text without the white space at its two ends, where
/// white space is what has the Unicode property `White_Space`.
pub assume_specification[ str::trim ](s: &str) -> (r: &str)
    ensures
        r@ == trimmed(s@),
;

/// `str::lines`: the lines of the text, each as a text of its own. A line
/// ends with a line feed, or with a carriage return and a line feed; the
/// last line need not end with one.
#[verifier::external_body]
pub(crate) fn lines_of(s: &str) -> (r: Vec<String>)
    ensures
        texts_of(r@) == lines_in(s@),
{
    s.lines().map(|line| line.to_owned()).collect()
}

/// `str::split_whitespace`: the parts of the text between its white space,
/// each as a text of its own, none of them empty. White space is what has
/// the Unicode property `White_Space`.
#[verifier::external_body]
pub(crate) fn words_of(s: &str) -> (r: Vec<String>)
    ensures
        texts_of(r@) == words_in(s@),
{
    s.split_whitespace().map(|word| word.to_owned()).collect()
}

/// The group `i` of a match, if there is such a group and it took part.
pub fn group_text(groups: &Vec<Option<String>>, i: usize) -> (r: Option<&String>)
    ensures
        match r {
            Some(text) => group(groups_of(groups@), i as int) == Some(text@),
            None => group(groups_of(groups@), i as int) is None,
        },
{
    if i < groups.len() {
        match &groups[i] {
            Some(text) => Some(text),
            None => None,
        }
    } else {
        None
    }
}

} // verus!
