//! Markup tokens, and reading them from a document held in memory.

use quick_xml::events::Event::{Empty, End, Eof, Start, Text};
use vstd::prelude::*;

verus! {

/// One attribute of an opening tag: its key and its value as written, both
/// still escaped.
#[derive(Debug, Clone)]
pub struct Attribute {
    pub key: Vec<u8>,
    pub value: Vec<u8>,
}

/// What a markup reader hands out, one piece at a time.
#[derive(Debug, Clone)]
pub enum Token {
    /// `<name key="value">`: the name, then the attributes that are well formed.
    Open(Vec<u8>, Vec<Attribute>),
    /// `<name/>`: the name.
    Empty(Vec<u8>),
    /// `</name>`: the name.
    Close(Vec<u8>),
    /// Character data between tags, as written: not yet decoded or unescaped.
    Text(Vec<u8>),
    /// A comment, a declaration, a processing instruction, a CDATA section or
    /// a document type.
    Other,
    /// The place where the document stops being well formed.
    Malformed,
}

/// An attribute as a pair of byte sequences.
pub struct AttributeView {
    pub key: Seq<u8>,
    pub value: Seq<u8>,
}

/// A token as mathematical data.
pub enum TokenView {
    Open(Seq<u8>, Seq<AttributeView>),
    Empty(Seq<u8>),
    Close(Seq<u8>),
    Text(Seq<u8>),
    Other,
    Malformed,
}

impl View for Attribute {
    type V = AttributeView;

    open spec fn view(&self) -> AttributeView {
        AttributeView { key: self.key@, value: self.value@ }
    }
}

impl View for Token {
    type V = TokenView;

    open spec fn view(&self) -> TokenView {
        match *self {
            Token::Open(name, attributes) => TokenView::Open(
                name@,
                attributes@.map_values(|a: Attribute| a@),
            ),
            Token::Empty(name) => TokenView::Empty(name@),
            Token::Close(name) => TokenView::Close(name@),
            Token::Text(raw) => TokenView::Text(raw@),
            Token::Other => TokenView::Other,
            Token::Malformed => TokenView::Malformed,
        }
    }
}

/// The views of a run of tokens.
pub open spec fn token_views(tokens: Seq<Token>) -> Seq<TokenView> {
    tokens.map_values(|t: Token| t@)
}

/// `quick_xml::Reader`, of which nothing is seen but what the two names
/// below say of it.
#[verifier::external_type_specification]
#[verifier::external_body]
#[verifier::reject_recursive_types(R)]
pub struct ExReader<R>(quick_xml::Reader<R>);

/// The tokens that `quick_xml` reads from `text`, up to the end of the input
/// or up to and including the first `Malformed`. With `trim`, white space at
/// both ends of each run of character data is dropped.
pub uninterp spec fn markup_tokens(text: Seq<char>, trim: bool) -> Seq<TokenView>;

/// The tokens that `reader` has yet to hand out.
pub uninterp spec fn pending_tokens(reader: quick_xml::Reader<&[u8]>) -> Seq<TokenView>;

/// `quick_xml::Reader::from_str`, then `trim_text`: a reader at the start of
/// `text`, from which the tokens of `text` are still to come.
#[verifier::external_body]
fn open_reader<'a>(text: &'a str, trim: bool) -> (reader: quick_xml::Reader<&'a [u8]>)
    ensures
        pending_tokens(reader) == markup_tokens(text@, trim),
{
    let mut reader = quick_xml::Reader::from_str(text);
    reader.trim_text(trim);
    reader
}

/// `quick_xml::Reader::read_event`: hands out the first pending token and
/// leaves the rest pending, or `None` once nothing is pending. An error of
/// the reader comes out as `Malformed`, after which nothing is pending.
#[verifier::external_body]
fn next_token(reader: &mut quick_xml::Reader<&[u8]>) -> (token: Option<Token>)
    ensures
        pending_tokens(*old(reader)).len() == 0 ==> token is None && pending_tokens(
            *final(reader),
        ).len() == 0,
        pending_tokens(*old(reader)).len() > 0 ==> token is Some && token->0@ == pending_tokens(
            *old(reader),
        )[0] && pending_tokens(*final(reader)) == pending_tokens(*old(reader)).skip(1),
{
    match reader.read_event() {
        Ok(Eof) => None,
        Ok(Start(e)) => Some(
            Token::Open(
                e.name().0.to_vec(),
                e.attributes().flatten().map(|a| Attribute { key: a.key.0.to_vec(), value: a.value.to_vec() }).collect(),
            ),
        ),
        Ok(Empty(e)) => Some(Token::Empty(e.name().0.to_vec())),
        Ok(End(e)) => Some(Token::Close(e.name().0.to_vec())),
        Ok(Text(e)) => Some(Token::Text(e.to_vec())),
        Ok(_) => Some(Token::Other),
        Err(_) => Some(Token::Malformed),
    }
}

/// What `quick_xml` makes of character data as written: the bytes decoded as
/// UTF-8, with each `&...;` reference replaced by what it stands for. `None`
/// where the bytes are not UTF-8 or a reference is unknown or cut short.
pub uninterp spec fn unescaped(raw: Seq<u8>) -> Option<Seq<char>>;

/// `quick_xml::escape::unescape` on the decoded bytes, which is what
/// `BytesText::unescape` does: the readable text, or `None` where decoding or
/// unescaping fails.
#[verifier::external_body]
pub(crate) fn unescape(raw: &[u8]) -> (out: Option<String>)
    ensures
        out is Some <==> unescaped(raw@) is Some,
        out matches Some(s) ==> unescaped(raw@) == Some(s@),
{
    let text = std::str::from_utf8(raw).ok()?;
    quick_xml::escape::unescape(text).ok().map(|s| s.into_owned())
}

/// Reads every token of `text`.
pub fn read_tokens(text: &str, trim: bool) -> (tokens: Vec<Token>)
    ensures
        token_views(tokens@) == markup_tokens(text@, trim),
{
    let mut reader = open_reader(text, trim);
    let mut tokens: Vec<Token> = Vec::new();
    loop
        invariant
            token_views(tokens@) + pending_tokens(reader) == markup_tokens(text@, trim),
        ensures
            token_views(tokens@) == markup_tokens(text@, trim),
        decreases pending_tokens(reader).len(),
    {
        let ghost before = pending_tokens(reader);
        match next_token(&mut reader) {
            None => {
                assert(token_views(tokens@) + pending_tokens(reader) == token_views(tokens@));
                break ;
            },
            Some(token) => {
                proof {
                    assert(token_views(tokens@.push(token)) == token_views(tokens@).push(token@));
                    assert(token_views(tokens@).push(token@) + before.skip(1) == token_views(
                        tokens@,
                    ) + before);
                }
                tokens.push(token);
            },
        }
    }
    tokens
}

} // verus!
