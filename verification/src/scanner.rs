//! Finding visibility annotations in a text.
//!
//! An annotation is found by a regular expression, matched by the `regex`
//! crate. What that crate reports is taken on trust and given a name; what
//! is made of a report, which of them count as an annotation and what
//! visibility each one spells, is decided and proved here.

use vstd::prelude::*;
use vstd::string::*;
use vstd::utf8::*;
use crate::lattice::PubKind;
use crate::text::byte_len;

verus! {

/// The regular expression for one annotation: the keyword, then an optional
/// qualifier in parentheses, with white space allowed around the
/// parentheses, then the blank that sets the annotation off from what it
/// qualifies, if there is one. The qualifier is the first capture group.
pub const ANNOTATION_PATTERN: &'static str = "pub(?:\\s*\\(\\s*(.*?)\\s*\\))? ?";

#[verifier::external_type_specification]
#[verifier::external_body]
pub struct ExRegex(regex::Regex);

#[verifier::external_type_specification]
#[verifier::external_body]
pub struct ExRegexError(regex::Error);

/// The pattern that a regular expression was compiled from, if it was
/// compiled in multi-line mode with every other option at its default.
pub uninterp spec fn multi_line_source(re: regex::Regex) -> Option<Seq<char>>;

/// Whether `pattern` compiles in multi-line mode with every other option at
/// its default: whether it is a valid regular expression within the default
/// size limits.
pub uninterp spec fn multi_line_compiles(pattern: Seq<char>) -> bool;

/// What a search reports: the byte range of the leftmost match of `pattern`,
/// compiled in multi-line mode, in `text` at or after the byte offset
/// `start`, and the byte range of the first capture group if it took part
/// in the match.
pub uninterp spec fn multi_line_captures_at(
    pattern: Seq<char>,
    text: Seq<char>,
    start: int,
) -> Option<((usize, usize), Option<(usize, usize)>)>;

/// Compiles `pattern` with `regex::RegexBuilder`, multi-line mode switched
/// on. Trusted: whether the pattern compiles depends on the pattern alone,
/// and a regular expression that comes back was compiled from `pattern` in
/// that mode. Which patterns compile is named, not claimed.
#[verifier::external_body]
fn build_multi_line(pattern: &str) -> (r: Result<regex::Regex, regex::Error>)
    ensures
        r is Ok <==> multi_line_compiles(pattern@),
        r matches Ok(re) ==> multi_line_source(re) == Some(pattern@),
{
    regex::RegexBuilder::new(pattern).multi_line(true).build()
}

/// Searches with `regex::Regex::captures_read_at` and reads the first group
/// with `regex::CaptureLocations::get`. Trusted: the report is a function of
/// the pattern, the text and the offset; a match begins at or after
/// `start`, does not end before it begins, lies within the text and has both
/// ends between two characters. The search must not start behind the end of
/// the text.
#[verifier::external_body]
fn captures_at(re: &regex::Regex, text: &str, start: usize) -> (r: Option<
    ((usize, usize), Option<(usize, usize)>),
>)
    requires
        start <= text.spec_bytes().len(),
    ensures
        multi_line_source(*re) matches Some(pattern) ==> r == multi_line_captures_at(
            pattern,
            text@,
            start as int,
        ),
        r matches Some((whole, _)) ==> {
            &&& start <= whole.0 <= whole.1 <= text.spec_bytes().len()
            &&& is_char_boundary(text.spec_bytes(), whole.0 as int)
            &&& is_char_boundary(text.spec_bytes(), whole.1 as int)
        },
{
    let mut locs = re.capture_locations();
    match re.captures_read_at(&mut locs, text, start) {
        Some(m) => Some(((m.start(), m.end()), locs.get(1))),
        None => None,
    }
}

/// One visibility annotation in a text.
#[derive(Clone, Copy, Debug, PartialEq, Eq)]
pub struct Occurrence {
    /// The byte offset at which the annotation begins.
    pub start: usize,
    /// The byte offset just behind the annotation.
    pub end: usize,
    /// The byte range of the qualifier between the parentheses, if the
    /// annotation has one.
    pub qualifier: Option<(usize, usize)>,
    /// The visibility that the annotation spells; `None` where the
    /// qualifier is not supported.
    pub kind: Option<PubKind>,
}

/// The visibility spelled by an annotation whose qualifier is the byte range
/// `group` of `text`. A range that does not lie in the text spells none.
pub open spec fn kind_of(text: Seq<u8>, group: Option<(usize, usize)>) -> Option<PubKind> {
    match group {
        None => Some(PubKind::Pub),
        Some((start, end)) => if start <= end <= text.len() {
            PubKind::of_qualifier(Some(text.subrange(start as int, end as int)))
        } else {
            None
        },
    }
}

/// Whether a reported match counts as an annotation for a scan of `text`
/// that starts at `from`: it begins at or after `from`, is not empty, lies
/// within the text and has both ends between two characters.
pub open spec fn admissible(text: Seq<u8>, from: int, whole: (usize, usize)) -> bool {
    &&& from <= whole.0 < whole.1 <= text.len()
    &&& is_char_boundary(text, whole.0 as int)
    &&& is_char_boundary(text, whole.1 as int)
}

/// The annotation that a report stands for, if it stands for one.
pub open spec fn occurrence_at(
    text: Seq<u8>,
    from: int,
    found: Option<((usize, usize), Option<(usize, usize)>)>,
) -> Option<Occurrence> {
    match found {
        None => None,
        Some((whole, group)) => if admissible(text, from, whole) {
            Some(
                Occurrence {
                    start: whole.0,
                    end: whole.1,
                    qualifier: group,
                    kind: kind_of(text, group),
                },
            )
        } else {
            None
        },
    }
}

/// The first annotation in `text` at or after the byte offset `from`.
pub open spec fn next_occurrence(text: Seq<u8>, from: int) -> Option<Occurrence> {
    occurrence_at(
        text,
        from,
        multi_line_captures_at(ANNOTATION_PATTERN@, decode_utf8(text), from),
    )
}

impl Occurrence {
    /// Whether this is an annotation of `text` that a scan from `from` may
    /// report: placed as [`admissible`] asks, with the visibility that its
    /// qualifier spells.
    pub open spec fn lies_in(&self, text: Seq<u8>, from: int) -> bool {
        &&& admissible(text, from, (self.start, self.end))
        &&& self.kind == kind_of(text, self.qualifier)
    }

    /// Whether the qualifier is one that the search can demote.
    pub open spec fn is_supported(&self) -> bool {
        self.kind is Some
    }

    /// Computes [`Occurrence::is_supported`].
    pub fn supported(&self) -> (r: bool)
        ensures
            r == self.is_supported(),
    {
        self.kind.is_some()
    }

    /// Turns the report of a search of `text` from `from` into the
    /// annotation it stands for, or into `None` where it stands for none.
    pub fn from_capture(
        text: &str,
        from: usize,
        found: Option<((usize, usize), Option<(usize, usize)>)>,
    ) -> (r: Option<Occurrence>)
        ensures
            r == occurrence_at(text.spec_bytes(), from as int, found),
            r matches Some(occurrence) ==> occurrence.lies_in(text.spec_bytes(), from as int),
    {
        match found {
            None => None,
            Some((whole, group)) => {
                let len: usize = byte_len(text);
                if from <= whole.0 && whole.0 < whole.1 && whole.1 <= len && text.is_char_boundary(
                    whole.0,
                ) && text.is_char_boundary(whole.1) {
                    Some(
                        Occurrence {
                            start: whole.0,
                            end: whole.1,
                            qualifier: group,
                            kind: classify(text.as_bytes(), group),
                        },
                    )
                } else {
                    None
                }
            },
        }
    }
}

/// Reads the visibility of an annotation whose qualifier is the byte range
/// `group` of `text`.
pub fn classify(text: &[u8], group: Option<(usize, usize)>) -> (r: Option<PubKind>)
    ensures
        r == kind_of(text@, group),
{
    match group {
        None => PubKind::from_qualifier(None),
        Some((start, end)) => {
            if start <= end && end <= text.len() {
                PubKind::from_qualifier(Some(&text[start..end]))
            } else {
                None
            }
        },
    }
}

/// Why a scanner could not be made.
#[derive(Clone, Copy, Debug, PartialEq, Eq)]
pub enum ScanError {
    /// The regular expression for an annotation did not compile.
    Pattern,
}

/// The compiled regular expression for an annotation.
pub struct Scanner {
    re: regex::Regex,
}

impl Scanner {
    /// The pattern that the scanner was compiled from, if it was compiled
    /// in multi-line mode.
    pub closed spec fn pattern(&self) -> Option<Seq<char>> {
        multi_line_source(self.re)
    }

    /// Whether the scanner holds the regular expression for an annotation.
    pub open spec fn wf(&self) -> bool {
        self.pattern() == Some(ANNOTATION_PATTERN@)
    }

    /// Makes a scanner of what a compilation came to: the regular
    /// expression is taken over as it is, and any error becomes
    /// [`ScanError::Pattern`].
    pub fn from_built(built: Result<regex::Regex, regex::Error>) -> (r: Result<Scanner, ScanError>)
        ensures
            match built {
                Ok(re) => r matches Ok(scanner) && scanner.pattern() == multi_line_source(re),
                Err(_) => r matches Err(error) && error == ScanError::Pattern,
            },
    {
        match built {
            Ok(re) => Ok(Scanner { re }),
            Err(_) => Err(ScanError::Pattern),
        }
    }

    /// Compiles [`ANNOTATION_PATTERN`]. A scanner comes back exactly when
    /// the `regex` crate compiles that pattern, and it then holds the
    /// regular expression compiled from it; otherwise the error is
    /// [`ScanError::Pattern`].
    pub fn new() -> (r: Result<Scanner, ScanError>)
        ensures
            r is Ok <==> multi_line_compiles(ANNOTATION_PATTERN@),
            r matches Ok(scanner) ==> scanner.wf(),
            r matches Err(error) ==> error == ScanError::Pattern,
    {
        Scanner::from_built(build_multi_line(ANNOTATION_PATTERN))
    }

    /// Finds the first annotation of `text` at or after the byte offset
    /// `from`. An annotation whose qualifier is not supported is reported
    /// too, so that the caller can step over it. Every match that the
    /// regular expression reports is an annotation unless it is empty.
    pub fn next_occurrence(&self, text: &str, from: usize) -> (r: Option<Occurrence>)
        requires
            self.wf(),
        ensures
            r == next_occurrence(text.spec_bytes(), from as int),
            r matches Some(occurrence) ==> occurrence.lies_in(text.spec_bytes(), from as int),
            r is Some <==> match multi_line_captures_at(ANNOTATION_PATTERN@, text@, from as int) {
                Some((whole, _)) => from < text.spec_bytes().len() && whole.0 < whole.1,
                None => false,
            },
    {
        broadcast use encode_utf8_decode_utf8;

        if from >= byte_len(text) {
            return None;
        }
        Occurrence::from_capture(text, from, captures_at(&self.re, text, from))
    }
}

} // verus!
