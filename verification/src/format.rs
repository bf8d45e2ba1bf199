//! The output formats that a tutorial can be written in.
use vstd::prelude::*;

verus! {

/// The format of the generated tutorial.
#[derive(Debug, Clone, Copy, PartialEq, Eq, Structural)]
pub enum OutputFormat {
    Markdown,
    Json,
}

/// What `str::to_lowercase` returns for a text: each character replaced by
/// its Unicode lowercase mapping.
pub uninterp spec fn lowercase_of(s: Seq<char>) -> Seq<char>;

/// Every character of `s` is ASCII.
pub open spec fn all_ascii(s: Seq<char>) -> bool {
    forall|i: int| 0 <= i < s.len() ==> (s[i] as u32) < 128
}

/// An ASCII letter's lowercase form: 'A' to 'Z' become 'a' to 'z', every
/// other character stays as it is.
pub open spec fn ascii_lower_char(c: char) -> char {
    if 'A' <= c && c <= 'Z' {
        ((c as u32) + 32) as char
    } else {
        c
    }
}

/// `s` with its ASCII capital letters lowercased.
pub open spec fn ascii_lowercase(s: Seq<char>) -> Seq<char> {
    Seq::new(s.len(), |i: int| ascii_lower_char(s[i]))
}

/// Calls `str::to_lowercase`. Claimed: the result is `lowercase_of` of the
/// argument (the mapping depends on the text alone, not on a locale), and for
/// an ASCII text it maps 'A' to 'Z' onto 'a' to 'z' and keeps every other
/// character, as the documentation of `to_lowercase` and of
/// `to_ascii_lowercase` says; nothing is claimed of how other characters map.
#[verifier::external_body]
fn lowercase(s: &str) -> (r: String)
    ensures
        r@ == lowercase_of(s@),
        all_ascii(s@) ==> r@ == ascii_lowercase(s@),
{
    s.to_lowercase()
}

/// The format named by an already lowercased name: "markdown" or "md" for
/// Markdown, "json" for JSON.
pub open spec fn format_named(name: Seq<char>) -> Option<OutputFormat> {
    if name == "markdown"@ || name == "md"@ {
        Some(OutputFormat::Markdown)
    } else if name == "json"@ {
        Some(OutputFormat::Json)
    } else {
        None
    }
}

/// The format that a lowercased name stands for, if any.
pub fn format_from_lowercase(name: &str) -> (r: Option<OutputFormat>)
    ensures
        r == format_named(name@),
{
    let owned = String::from_str(name);
    if owned == String::from_str("markdown") || owned == String::from_str("md") {
        Some(OutputFormat::Markdown)
    } else if owned == String::from_str("json") {
        Some(OutputFormat::Json)
    } else {
        None
    }
}

/// The format that the user asked for, in any letter case; `None` for a name
/// that is none of "markdown", "md" and "json" once lowercased.
pub fn parse_output_format(format: &str) -> (r: Option<OutputFormat>)
    ensures
        r == format_named(lowercase_of(format@)),
        all_ascii(format@) ==> r == format_named(ascii_lowercase(format@)),
{
    let lowered = lowercase(format);
    format_from_lowercase(lowered.as_str())
}

} // verus!
