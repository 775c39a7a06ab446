//! XML text helpers: escaping of markup-significant characters, a title
//! serialisation shim, and the XML 1.0 forbidden-character test.

use vstd::prelude::*;
use vstd::string::StrSliceExecFns;
use vstd::string::StringExecFns;

use crate::textnorm::trimmed;
use crate::title::DocumentTitleError;
use crate::TeiDocument;
use crate::TeiError;

verus! {

/// The escaped form of one character: markup-significant characters become
/// entities, everything else stays itself.
pub open spec fn escape_char(c: char) -> Seq<char> {
    if c == '&' {
        seq!['&', 'a', 'm', 'p', ';']
    } else if c == '<' {
        seq!['&', 'l', 't', ';']
    } else if c == '>' {
        seq!['&', 'g', 't', ';']
    } else if c == '"' {
        seq!['&', 'q', 'u', 'o', 't', ';']
    } else if c == '\'' {
        seq!['&', 'a', 'p', 'o', 's', ';']
    } else {
        seq![c]
    }
}

/// The escaped form of a character sequence.
pub open spec fn escaped(s: Seq<char>) -> Seq<char>
    decreases s.len(),
{
    if s.len() == 0 {
        Seq::empty()
    } else {
        escaped(s.drop_last()) + escape_char(s.last())
    }
}

/// Encodes text for inclusion in XML content.
///
/// The helper escapes markup-significant characters to keep the resulting
/// document well-formed. It intentionally mirrors the narrow surface
/// required for text nodes, not attributes.
pub fn escape_xml_text(input: &str) -> (r: String)
    ensures
        r@ == escaped(input@),
{
    let n = input.unicode_len();
    let mut out = String::new();
    let mut i: usize = 0;
    while i < n
        invariant
            i <= n,
            n == input@.len(),
            out@ == escaped(input@.subrange(0, i as int)),
        decreases n - i,
    {
        let ghost pre = input@.subrange(0, i as int);
        let c = input.get_char(i);
        match c {
            '&' => out.append("&amp;"),
            '<' => out.append("&lt;"),
            '>' => out.append("&gt;"),
            '"' => out.append("&quot;"),
            '\'' => out.append("&apos;"),
            other => {
                let piece = input.substring_char(i, i + 1);
                out.append(piece);
            },
        }
        proof {
            reveal_strlit("&amp;");
            reveal_strlit("&lt;");
            reveal_strlit("&gt;");
            reveal_strlit("&quot;");
            reveal_strlit("&apos;");
            let post = input@.subrange(0, i + 1);
            assert(post.drop_last() =~= pre);
            assert(post.last() == input@[i as int]);
            if !(c == '&' || c == '<' || c == '>' || c == '"' || c == '\'') {
                assert(input@.subrange(i as int, i + 1) =~= seq![input@[i as int]]);
            }
            assert(out@ =~= escaped(post));
        }
        i = i + 1;
    }
    proof {
        assert(input@.subrange(0, n as int) =~= input@);
    }
    out
}

/// Serialises the document title into a minimal TEI snippet.
pub fn serialize_title(document: &TeiDocument) -> (r: String)
    ensures
        r@ == "<title>"@ + escaped(document.spec_header().spec_file_desc().spec_title()@)
            + "</title>"@,
{
    let mut out = String::new();
    out.append("<title>");
    let body = escape_xml_text(document.title().as_str());
    out.append(body.as_str());
    out.append("</title>");
    out
}

/// Validates a raw title and returns the serialised markup.
///
/// Fails exactly when the title trims to an empty string.
pub fn serialize_document_title(raw_title: &str) -> (r: Result<String, TeiError>)
    ensures
        r is Err <==> trimmed(raw_title@).len() == 0,
        r matches Err(e) ==> e == TeiError::DocumentTitle(DocumentTitleError::Empty),
        r matches Ok(markup) ==> markup@ == "<title>"@ + escaped(trimmed(raw_title@))
            + "</title>"@,
{
    match TeiDocument::from_title_str(raw_title) {
        Ok(document) => Ok(serialize_title(&document)),
        Err(e) => Err(e),
    }
}

/// A character XML 1.0 forbids in documents: most control characters and
/// the two non-characters at the end of the basic plane. (Surrogate code
/// points cannot occur in well-formed text at all.)
pub open spec fn forbidden_xml_char(c: char) -> bool {
    (c as u32) <= 0x8 || (c as u32) == 0xB || (c as u32) == 0xC || (0xE <= (c as u32) && (c as u32)
        <= 0x1F) || (c as u32) == 0xFFFE || (c as u32) == 0xFFFF || (0xD800 <= (c as u32) && (
    c as u32) <= 0xDFFF)
}

/// Reports whether XML 1.0 forbids this character.
pub fn is_forbidden_xml_char(character: char) -> (r: bool)
    ensures
        r == forbidden_xml_char(character),
{
    let codepoint = character as u32;
    codepoint <= 0x8 || codepoint == 0xB || codepoint == 0xC || (0xE <= codepoint && codepoint
        <= 0x1F) || codepoint == 0xFFFE || codepoint == 0xFFFF || (0xD800 <= codepoint && codepoint
        <= 0xDFFF)
}

/// Returns the first character of `value` that XML 1.0 forbids, if any.
pub fn first_forbidden_xml_char(value: &str) -> (r: Option<char>)
    ensures
        r is Some <==> exists|i: int|
            0 <= i < value@.len() && forbidden_xml_char(#[trigger] value@[i]),
        r matches Some(c) ==> exists|i: int|
            0 <= i < value@.len() && (#[trigger] value@[i]) == c && forbidden_xml_char(c) && (
            forall|j: int| 0 <= j < i ==> !forbidden_xml_char(#[trigger] value@[j])),
{
    let n = value.unicode_len();
    let mut i: usize = 0;
    while i < n
        invariant
            i <= n,
            n == value@.len(),
            forall|j: int| 0 <= j < i ==> !forbidden_xml_char(#[trigger] value@[j]),
        decreases n - i,
    {
        let c = value.get_char(i);
        if is_forbidden_xml_char(c) {
            proof {
                assert(value@[i as int] == c && forbidden_xml_char(value@[i as int]));
            }
            return Some(c);
        }
        i = i + 1;
    }
    None
}

} // verus!
