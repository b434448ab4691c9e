use vstd::prelude::*;
use crate::dictionary::texts_of;
use crate::patterns::{lines_in, lines_of, trimmed, words_in, words_of};

verus! {

/// Checks that a directory has room for the results of a run.
#[derive(Clone, Copy, Debug, PartialEq, Eq, Structural)]
pub struct DiskValidator;

impl DiskValidator {
    /// A disk validator.
    pub fn new() -> (v: Self)
        ensures
            v == DiskValidator,
    {
        DiskValidator
    }
}

/// Why a report on the disk space could not be read.
#[derive(Clone, Copy, Debug, PartialEq, Eq, Structural)]
pub enum ReportError {
    /// The report has no second line.
    NoSecondLine,
    /// The second line has no fourth word.
    NoFourthWord,
}

/// The word of a report on the disk space that tells the free space: the
/// fourth word of the second line of the report without the white space
/// at its ends.
pub open spec fn free_space_in(report: Seq<char>) -> Result<Seq<char>, ReportError> {
    let lines = lines_in(trimmed(report));
    if lines.len() < 2 {
        Err(ReportError::NoSecondLine)
    } else if words_in(lines[1]).len() < 4 {
        Err(ReportError::NoFourthWord)
    } else {
        Ok(words_in(lines[1])[3])
    }
}

/// The word of a report on the disk space that tells the free space.
pub fn free_space_word(report: &str) -> (r: Result<String, ReportError>)
    ensures
        match r {
            Ok(word) => free_space_in(report@) == Ok::<Seq<char>, ReportError>(word@),
            Err(e) => free_space_in(report@) == Err::<Seq<char>, ReportError>(e),
        },
{
    let lines = lines_of(report.trim());
    if lines.len() < 2 {
        return Err(ReportError::NoSecondLine);
    }
    assert(texts_of(lines@)[1] == lines[1]@);
    let mut words = words_of(lines[1].as_str());
    if words.len() < 4 {
        return Err(ReportError::NoFourthWord);
    }
    assert(texts_of(words@)[3] == words[3]@);
    Ok(words.swap_remove(3))
}

} // verus!
