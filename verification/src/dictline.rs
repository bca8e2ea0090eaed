//! Parsing of raw bilingual dictionary lines through the dictionary-format
//! parser of the cedict crate.

use vstd::prelude::*;

verus! {

/// One bilingual entry as parsed from the source corpus.
pub struct RawDictionaryLine {
    pub simplified: String,
    pub traditional: String,
    pub pinyin: String,
    pub definitions: Vec<String>,
}

/// What parsing one corpus line yields: an entry, a line to skip (comment,
/// metadata or blank), or a malformed line.
pub enum ParsedLine {
    Entry(RawDictionaryLine),
    Skip,
    Malformed,
}

/// What the dictionary-format parser returns for a line: the fields of an
/// entry line (simplified form, traditional form, pronunciation,
/// definitions), nothing for a comment, metadata or blank line, or an error
/// for a line in no recognized shape.
pub uninterp spec fn parsed_line_of(line: Seq<char>) -> Result<
    Option<(Seq<char>, Seq<char>, Seq<char>, Seq<Seq<char>>)>,
    (),
>;

/// Whether a line may be handed to the dictionary-format parser: a metadata
/// line must carry a key-value separator, since the parser splits on it
/// unconditionally.
pub open spec fn parsable_line(line: Seq<char>) -> bool {
    (line.len() > 1 && line[0] == '#' && line[1] == '!') ==> exists|i: int|
        2 <= i < line.len() && line[i] == '='
}

/// Relies on `cedict::parse_line`: tells entry lines, comment, metadata and
/// blank lines, and malformed lines apart, and splits an entry line into its
/// fields; the result depends on the line's characters alone.
#[verifier::external_body]
pub fn parse_dictionary_line(line: &str) -> (r: ParsedLine)
    requires
        parsable_line(line@),
    ensures
        (match r {
            ParsedLine::Entry(e) => parsed_line_of(line@) == Ok::<
                Option<(Seq<char>, Seq<char>, Seq<char>, Seq<Seq<char>>)>,
                (),
            >(Some((e.simplified@, e.traditional@, e.pinyin@, e.definitions.deep_view()))),
            ParsedLine::Skip => parsed_line_of(line@) == Ok::<
                Option<(Seq<char>, Seq<char>, Seq<char>, Seq<Seq<char>>)>,
                (),
            >(None),
            ParsedLine::Malformed => parsed_line_of(line@) == Err::<
                Option<(Seq<char>, Seq<char>, Seq<char>, Seq<Seq<char>>)>,
                (),
            >(()),
        }),
{
    match cedict::parse_line(line) {
        cedict::Line::Entry(e) => ParsedLine::Entry(RawDictionaryLine {
            simplified: e.simplified().to_string(),
            traditional: e.traditional().to_string(),
            pinyin: e.pinyin().to_string(),
            definitions: e.definitions().map(|d| d.to_string()).collect(),
        }),
        cedict::Line::Comment(_) => ParsedLine::Skip,
        cedict::Line::Metadata(_, _) => ParsedLine::Skip,
        cedict::Line::Empty => ParsedLine::Skip,
        cedict::Line::Incorrect => ParsedLine::Malformed,
    }
}

/// Checks that a line is safe to hand to the dictionary-format parser.
pub fn is_parsable_line(line: &str) -> (r: bool)
    ensures
        r == parsable_line(line@),
{
    let chars = crate::text::str_chars(line);
    if chars.len() > 1 && chars[0] == '#' && chars[1] == '!' {
        let mut i: usize = 2;
        while i < chars.len()
            invariant
                chars@ == line@,
                2 <= i <= chars@.len(),
                forall|j: int| 2 <= j < i ==> line@[j] != '=',
            decreases chars@.len() - i,
        {
            if chars[i] == '=' {
                assert(line@[i as int] == '=');
                return true;
            }
            i = i + 1;
        }
        false
    } else {
        true
    }
}

} // verus!
