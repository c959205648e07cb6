//! The XML token stream, read through quick-xml.
//!
//! The tokenizer is an outside collaborator: nothing is assumed about the
//! tokens it hands back, and the record extraction downstream is verified
//! for every possible token sequence.

use vstd::prelude::*;

verus! {

/// One token of an XML stream, with its name or character data copied out.
#[derive(Debug)]
pub enum XmlToken {
    /// An opening tag, by qualified name.
    Open(String),
    /// A closing tag, by qualified name.
    Close(String),
    /// Raw character data between tags.
    Chars(String),
    /// Any other kind of token: declarations, comments, empty tags and the
    /// like.
    Other,
    /// The end of the document.
    Eof,
}

#[verifier::external_type_specification]
#[verifier::external_body]
#[verifier::reject_recursive_types(R)]
pub struct ExReader<R>(quick_xml::Reader<R>);

/// Relies on quick-xml's `Reader::from_str`: a tokenizer over the text.
#[verifier::external_body]
fn reader_from_str<'a>(input: &'a str) -> (r: quick_xml::Reader<&'a [u8]>) {
    quick_xml::Reader::from_str(input)
}

/// Relies on quick-xml's `Reader::read_event` for one token. Each variant is
/// passed through with its name or text copied; a tokenizer error is handed
/// back as `None`. Nothing is assumed about which token comes back.
#[verifier::external_body]
fn next_token(reader: &mut quick_xml::Reader<&[u8]>) -> (r: Option<XmlToken>) {
    match reader.read_event() {
        Ok(quick_xml::events::Event::Start(e)) => Some(XmlToken::Open(e.name().as_ref().into())),
        Ok(quick_xml::events::Event::End(e)) => Some(XmlToken::Close(e.name().as_ref().into())),
        Ok(quick_xml::events::Event::Text(e)) => Some(XmlToken::Chars(e.as_ref().into())),
        Ok(quick_xml::events::Event::Eof) => Some(XmlToken::Eof),
        Ok(_) => Some(XmlToken::Other),
        Err(_) => None,
    }
}

/// Collect the whole token stream of a document. The stream ends with `Eof`
/// when the tokenizer reached the end of the text; on a tokenizer error, or
/// if the tokenizer were to keep producing tokens past one per input byte,
/// the stream is cut short without an `Eof`.
pub fn tokenize(input: &str) -> (r: Vec<XmlToken>)
{
    let mut reader = reader_from_str(input);
    let mut tokens: Vec<XmlToken> = Vec::new();
    let len = input.as_bytes().len();
    let fuel = if len < usize::MAX {
        len + 1
    } else {
        len
    };
    let mut used: usize = 0;
    while used < fuel
        invariant
            used <= fuel,
        decreases fuel - used,
    {
        match next_token(&mut reader) {
            None => {
                return tokens;
            },
            Some(token) => {
                let done = matches!(token, XmlToken::Eof);
                tokens.push(token);
                if done {
                    return tokens;
                }
            },
        }
        used = used + 1;
    }
    tokens
}

} // verus!
