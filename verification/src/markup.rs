//! The tokens of an HTML document, as the tokenizer of `html5ever` gives them.

use html5ever::tendril::SliceExt;
use html5ever::tokenizer::{BufferQueue, Tag, TagKind, Token, TokenSink, TokenSinkResult, Tokenizer};
use crate::text::byte_len;
use vstd::prelude::*;

verus! {

/// An attribute of a start tag.
#[derive(Debug)]
pub struct TagAttribute {
    pub name: String,
    pub value: String,
}

/// An attribute as character sequences.
pub struct TagAttributeView {
    pub name: Seq<char>,
    pub value: Seq<char>,
}

impl View for TagAttribute {
    type V = TagAttributeView;

    open spec fn view(&self) -> TagAttributeView {
        TagAttributeView { name: self.name@, value: self.value@ }
    }
}

/// The views of a run of attributes, in order.
pub open spec fn attributes_view(attrs: Seq<TagAttribute>) -> Seq<TagAttributeView> {
    attrs.map_values(|a: TagAttribute| a@)
}

/// One token of a document.
#[derive(Debug)]
pub enum MarkupToken {
    /// A run of character data.
    Characters { text: String },
    /// A single U+0000 in the character data.
    NullCharacter,
    /// The start of an element; `self_closing` where it is written `<x/>`.
    StartTag { name: String, attrs: Vec<TagAttribute>, self_closing: bool },
    /// The end of an element.
    EndTag { name: String },
    /// A document type declaration.
    Doctype,
    /// A comment.
    Comment,
    /// The end of the document.
    EndOfInput,
    /// A place where the document breaks the rules of the markup.
    ParseError { message: String },
}

/// A token as character sequences.
pub enum MarkupTokenView {
    Characters { text: Seq<char> },
    NullCharacter,
    StartTag { name: Seq<char>, attrs: Seq<TagAttributeView>, self_closing: bool },
    EndTag { name: Seq<char> },
    Doctype,
    Comment,
    EndOfInput,
    ParseError { message: Seq<char> },
}

impl View for MarkupToken {
    type V = MarkupTokenView;

    open spec fn view(&self) -> MarkupTokenView {
        match self {
            MarkupToken::Characters { text } => MarkupTokenView::Characters { text: text@ },
            MarkupToken::NullCharacter => MarkupTokenView::NullCharacter,
            MarkupToken::StartTag { name, attrs, self_closing } => MarkupTokenView::StartTag {
                name: name@,
                attrs: attributes_view(attrs@),
                self_closing: *self_closing,
            },
            MarkupToken::EndTag { name } => MarkupTokenView::EndTag { name: name@ },
            MarkupToken::Doctype => MarkupTokenView::Doctype,
            MarkupToken::Comment => MarkupTokenView::Comment,
            MarkupToken::EndOfInput => MarkupTokenView::EndOfInput,
            MarkupToken::ParseError { message } => MarkupTokenView::ParseError {
                message: message@,
            },
        }
    }
}

/// The views of a run of tokens, in order.
pub open spec fn tokens_view(tokens: Seq<MarkupToken>) -> Seq<MarkupTokenView> {
    tokens.map_values(|t: MarkupToken| t@)
}

/// `html5ever::tokenizer::Token`: a token as the tokenizer hands it to its
/// sink. Nothing is said of what it holds.
#[verifier::external_type_specification]
#[verifier::external_body]
pub struct ExToken(html5ever::tokenizer::Token);

/// `html5ever::tokenizer::Tag`: the tag inside a tag token. Nothing is said
/// of what it holds.
#[verifier::external_type_specification]
#[verifier::external_body]
pub struct ExTag(html5ever::tokenizer::Tag);

/// `html5ever::tokenizer::TokenSinkResult`: what a sink answers the
/// tokenizer. Nothing is said of what it holds.
#[verifier::external_type_specification]
#[verifier::external_body]
#[verifier::reject_recursive_types(Handle)]
pub struct ExTokenSinkResult<Handle>(html5ever::tokenizer::TokenSinkResult<Handle>);

/// The most bytes that a document may have to be tokenized. The tokenizer
/// keeps text in buffers whose length is a 32-bit number and whose room
/// grows to the next power of two, and it gives up where either no longer
/// fits. What it keeps stems from the document character by character, and
/// the one change that makes it longer is U+FFFD, of three bytes, in place
/// of U+0000, of one. So three times the bytes of the document must not be
/// more than 2^31.
pub const MAX_DOCUMENT_BYTES: usize = 715_827_882;

/// The tokens that the tokenizer of `html5ever`, with its default options,
/// emits for a document, the end-of-input token included.
pub uninterp spec fn html_tokens(content: Seq<char>) -> Seq<MarkupTokenView>;

/// Gathers the tokens that the tokenizer emits.
struct TokenCollector {
    tokens: Vec<MarkupToken>,
}

/// Carries a tag of `html5ever` over, field by field: the local name, the
/// attributes' local names and values, and the self-closing flag.
#[verifier::external_body]
fn convert_tag(tag: Tag) -> MarkupToken {
    let name = tag.name.to_string();
    match tag.kind {
        TagKind::EndTag => MarkupToken::EndTag { name },
        TagKind::StartTag => {
            let attrs = tag.attrs.into_iter().map(
                |a| TagAttribute { name: a.name.local.to_string(), value: a.value.to_string() },
            ).collect();
            MarkupToken::StartTag { name, attrs, self_closing: tag.self_closing }
        },
    }
}

impl TokenSink for TokenCollector {
    type Handle = ();

    /// `TokenSink::process_token`, which the tokenizer calls once for each
    /// token: keeps the token and lets the tokenizer go on.
    #[verifier::external_body]
    fn process_token(&mut self, token: Token, _line_number: u64) -> TokenSinkResult<()> {
        self.tokens.push(
            match token {
                Token::CharacterTokens(text) => MarkupToken::Characters { text: text.to_string() },
                Token::NullCharacterToken => MarkupToken::NullCharacter,
                Token::TagToken(tag) => convert_tag(tag),
                Token::DoctypeToken(_) => MarkupToken::Doctype,
                Token::CommentToken(_) => MarkupToken::Comment,
                Token::EOFToken => MarkupToken::EndOfInput,
                Token::ParseError(message) => MarkupToken::ParseError { message: message.to_string() },
            },
        );
        TokenSinkResult::Continue
    }
}

/// Runs `Tokenizer::feed` and `Tokenizer::end` of `html5ever` over the whole
/// document, which `SliceExt::to_tendril` of `tendril` has copied into a
/// buffer. The tokens depend on the document alone; what they are is left to
/// the tokenizer and goes by the name `html_tokens`. A document of more than
/// `MAX_DOCUMENT_BYTES` bytes is left out: on such a one the buffers of the
/// tokenizer can overflow their 32-bit lengths, which ends the program.
#[verifier::external_body]
pub(crate) fn tokenize(content: &str) -> (tokens: Vec<MarkupToken>)
    requires
        byte_len(content@) <= MAX_DOCUMENT_BYTES,
    ensures
        tokens_view(tokens@) == html_tokens(content@),
{
    let mut tokenizer = Tokenizer::new(TokenCollector { tokens: Vec::new() }, Default::default());
    let mut queue = BufferQueue::new();
    queue.push_back(content.to_tendril());
    let _ = tokenizer.feed(&mut queue);
    tokenizer.end();
    tokenizer.sink.tokens
}

} // verus!
