use vstd::prelude::*;

use svgparser::svg::{ElementEnd, Name, QName, Token, Tokenizer};
use svgparser::xmlparser::FromSpan;

verus! {

/// An element or attribute name as the SVG tokenizer gives it: an SVG name
/// (one that SVG defines, which the tokenizer maps one for one to an element
/// or attribute id) or a plain XML name. The namespace prefix is not kept.
#[derive(Debug, Clone, PartialEq, Eq)]
pub enum SvgName<S> {
    Svg(S),
    Xml(S),
}

/// How an element ends.
#[derive(Debug, Clone, PartialEq, Eq)]
pub enum ElementEndKind<S> {
    /// `>`: the element has content.
    Open,
    /// `</name>`.
    Close(SvgName<S>),
    /// `/>`: the element is empty.
    Empty,
}

/// An SVG token: one variant per token kind of the SVG tokenizer. `S` is the
/// text type: `String` in executable code, `Seq<char>` in specifications.
/// Of the kinds the map reader does not look into, only the kind is kept.
#[derive(Debug, Clone, PartialEq, Eq)]
pub enum MapToken<S> {
    /// `<?xml ...?>`.
    Declaration,
    /// `<?target content?>`.
    ProcessingInstruction,
    /// `<!ENTITY name "value">`.
    EntityDeclaration,
    /// `<!-- text -->`.
    Comment,
    /// `<name`: the start of an element.
    ElementStart(SvgName<S>),
    /// The end of an element.
    ElementEnd(ElementEndKind<S>),
    /// `name="value"`: an attribute of the element being opened.
    Attribute(SvgName<S>, S),
    /// Text between elements.
    Text,
    /// `<![CDATA[text]]>`.
    Cdata,
    /// Whitespace between elements.
    Whitespaces,
}

/// The kind of a token.
#[derive(Debug, Clone, Copy, PartialEq, Eq)]
pub enum TokenKind {
    Declaration,
    ProcessingInstruction,
    EntityDeclaration,
    Comment,
    ElementStart,
    ElementEnd,
    Attribute,
    Text,
    Cdata,
    Whitespaces,
}

/// A tokenizer error, by its message.
#[derive(Debug, Clone, PartialEq, Eq)]
pub struct SvgError {
    pub message: String,
}

/// A token in executable code.
pub type SvgToken = MapToken<String>;

/// A token in specifications.
pub type TokenView = MapToken<Seq<char>>;

/// What the tokenizer yields: a token or the error that ends the stream.
pub type SvgItem = Result<SvgToken, SvgError>;

/// An item of the token stream in specifications.
pub type ItemView = Result<TokenView, Seq<char>>;

impl View for SvgName<String> {
    type V = SvgName<Seq<char>>;

    open spec fn view(&self) -> SvgName<Seq<char>> {
        match self {
            SvgName::Svg(n) => SvgName::Svg(n@),
            SvgName::Xml(n) => SvgName::Xml(n@),
        }
    }
}

impl View for ElementEndKind<String> {
    type V = ElementEndKind<Seq<char>>;

    open spec fn view(&self) -> ElementEndKind<Seq<char>> {
        match self {
            ElementEndKind::Open => ElementEndKind::Open,
            ElementEndKind::Close(n) => ElementEndKind::Close(n@),
            ElementEndKind::Empty => ElementEndKind::Empty,
        }
    }
}

impl View for MapToken<String> {
    type V = TokenView;

    open spec fn view(&self) -> TokenView {
        match self {
            MapToken::Declaration => MapToken::Declaration,
            MapToken::ProcessingInstruction => MapToken::ProcessingInstruction,
            MapToken::EntityDeclaration => MapToken::EntityDeclaration,
            MapToken::Comment => MapToken::Comment,
            MapToken::ElementStart(n) => MapToken::ElementStart(n@),
            MapToken::ElementEnd(e) => MapToken::ElementEnd(e@),
            MapToken::Attribute(n, v) => MapToken::Attribute(n@, v@),
            MapToken::Text => MapToken::Text,
            MapToken::Cdata => MapToken::Cdata,
            MapToken::Whitespaces => MapToken::Whitespaces,
        }
    }
}

/// The kind of a token.
pub open spec fn kind_of(t: TokenView) -> TokenKind {
    match t {
        MapToken::Declaration => TokenKind::Declaration,
        MapToken::ProcessingInstruction => TokenKind::ProcessingInstruction,
        MapToken::EntityDeclaration => TokenKind::EntityDeclaration,
        MapToken::Comment => TokenKind::Comment,
        MapToken::ElementStart(_) => TokenKind::ElementStart,
        MapToken::ElementEnd(_) => TokenKind::ElementEnd,
        MapToken::Attribute(_, _) => TokenKind::Attribute,
        MapToken::Text => TokenKind::Text,
        MapToken::Cdata => TokenKind::Cdata,
        MapToken::Whitespaces => TokenKind::Whitespaces,
    }
}

impl View for SvgError {
    type V = Seq<char>;

    open spec fn view(&self) -> Seq<char> {
        self.message@
    }
}

/// The view of a stream item.
pub open spec fn item_view(item: SvgItem) -> ItemView {
    match item {
        Ok(t) => Ok(t@),
        Err(e) => Err(e@),
    }
}

/// The SVG tokenizer of the `svgparser` crate.
#[verifier::external_type_specification]
#[verifier::external_body]
pub struct ExTokenizer<'a>(Tokenizer<'a>);

/// A token of the `svgparser` crate, which its tokenizer yields.
#[verifier::external_type_specification]
#[verifier::external_body]
pub struct ExSvgParserToken<'a>(Token<'a>);

/// The error of the `xmlparser` crate, which the SVG tokenizer yields
/// (declared because the tokenizer's `Iterator` impl names it).
#[verifier::external_type_specification]
#[verifier::external_body]
pub struct ExXmlError(svgparser::xmlparser::Error);

/// The items that `svgparser::svg::Tokenizer::from_str` yields on `text`,
/// each seen as a `MapToken`: the tokens in document order, ending with the
/// error that stops the tokenizer, if any. What they are for a given text
/// (the XML and SVG grammar) is the tokenizer's and is not stated here; the
/// trusted claim is only that they depend on the text alone.
pub uninterp spec fn svg_tokens_of(text: Seq<char>) -> Seq<ItemView>;

/// The items that a tokenizer has still to yield before it yields `None`.
pub uninterp spec fn svg_tokens_left(tokens: Tokenizer) -> Seq<ItemView>;

/// A token of the tokenizer, held as it came, with the `MapToken` it stands
/// for.
pub struct TokenHolder<'a> {
    token: Token<'a>,
    view: Ghost<TokenView>,
}

impl<'a> TokenHolder<'a> {
    /// The `MapToken` this token stands for.
    pub closed spec fn token_view(&self) -> TokenView {
        self.view@
    }
}

/// The view of an item as the tokenizer yields it.
pub open spec fn held_item_view(item: Result<TokenHolder, SvgError>) -> ItemView {
    match item {
        Ok(t) => Ok(t.token_view()),
        Err(e) => Err(e@),
    }
}

/// `svgparser::svg::Tokenizer::from_str` (from `xmlparser::FromSpan`).
/// Trusted claim: the new tokenizer has the items of `text` still to yield.
#[verifier::external_body]
pub(crate) fn svg_tokenizer(text: &str) -> (tokens: Tokenizer<'_>)
    ensures
        svg_tokens_left(tokens) == svg_tokens_of(text@),
{
    Tokenizer::from_str(text)
}

/// `Iterator::next` of `svgparser::svg::Tokenizer`. Trusted claim: it yields
/// the first item still to yield and drops it from what is left, and `None`
/// once nothing is left. A token is held as it came; an error is converted
/// to its message.
#[verifier::external_body]
pub(crate) fn next_svg_token<'a>(tokens: &mut Tokenizer<'a>) -> (item: Option<
    Result<TokenHolder<'a>, SvgError>,
>)
    ensures
        svg_tokens_left(*old(tokens)).len() == 0 ==> item is None,
        svg_tokens_left(*old(tokens)).len() > 0 ==> {
            &&& item is Some
            &&& held_item_view(item->Some_0) == svg_tokens_left(*old(tokens))[0]
            &&& svg_tokens_left(*final(tokens)) == svg_tokens_left(*old(tokens)).drop_first()
        },
{
    match tokens.next()? {
        Ok(token) => Some(Ok(TokenHolder { token, view: Ghost(arbitrary()) })),
        Err(e) => Some(Err(SvgError { message: e.to_string() })),
    }
}

/// Tells the variants of `svgparser::svg::Token` apart. Trusted claim: the
/// kind is that of the token the held token stands for.
#[verifier::external_body]
pub(crate) fn token_kind(t: &TokenHolder) -> (k: TokenKind)
    ensures
        k == kind_of(t.token_view()),
{
    match &t.token {
        Token::Declaration(..) => TokenKind::Declaration,
        Token::ProcessingInstruction(..) => TokenKind::ProcessingInstruction,
        Token::EntityDeclaration(..) => TokenKind::EntityDeclaration,
        Token::Comment(..) => TokenKind::Comment,
        Token::ElementStart(..) => TokenKind::ElementStart,
        Token::ElementEnd(..) => TokenKind::ElementEnd,
        Token::Attribute(..) => TokenKind::Attribute,
        Token::Text(..) => TokenKind::Text,
        Token::Cdata(..) => TokenKind::Cdata,
        Token::Whitespaces(..) => TokenKind::Whitespaces,
    }
}

/// The name of `svgparser::svg::Token::ElementStart`, an SVG id converted to
/// its SVG name (`ElementId::name`). Trusted claim: it is the name of the
/// token the held token stands for.
#[verifier::external_body]
pub(crate) fn element_start_name(t: &TokenHolder) -> (n: SvgName<String>)
    requires
        t.token_view() is ElementStart,
    ensures
        n@ == t.token_view()->ElementStart_0,
{
    match &t.token {
        Token::ElementStart(QName { local: Name::Svg(id), .. }) => SvgName::Svg(id.name().to_string()),
        Token::ElementStart(QName { local: Name::Xml(s), .. }) => SvgName::Xml(s.to_string()),
        _ => unreached(),
    }
}

/// The name and value of `svgparser::svg::Token::Attribute`, an SVG id
/// converted to its SVG name (`AttributeId::name`), the value to its text
/// (`StrSpan::to_str`). Trusted claim: they are those of the token the held
/// token stands for.
#[verifier::external_body]
pub(crate) fn attribute_parts(t: &TokenHolder) -> (p: (SvgName<String>, String))
    requires
        t.token_view() is Attribute,
    ensures
        p.0@ == t.token_view()->Attribute_0,
        p.1@ == t.token_view()->Attribute_1,
{
    match &t.token {
        Token::Attribute(QName { local: Name::Svg(id), .. }, v) => (SvgName::Svg(id.name().to_string()), v.to_str().to_string()),
        Token::Attribute(QName { local: Name::Xml(s), .. }, v) => (SvgName::Xml(s.to_string()), v.to_str().to_string()),
        _ => unreached(),
    }
}

/// The kind of `svgparser::svg::ElementEnd` in a `Token::ElementEnd`, the
/// name of a `Close` converted as in `element_start_name`. Trusted claim: it
/// is that of the token the held token stands for.
#[verifier::external_body]
pub(crate) fn element_end_kind(t: &TokenHolder) -> (e: ElementEndKind<String>)
    requires
        t.token_view() is ElementEnd,
    ensures
        e@ == t.token_view()->ElementEnd_0,
{
    match &t.token {
        Token::ElementEnd(ElementEnd::Open) => ElementEndKind::Open,
        Token::ElementEnd(ElementEnd::Close(QName { local: Name::Svg(id), .. })) => ElementEndKind::Close(SvgName::Svg(id.name().to_string())),
        Token::ElementEnd(ElementEnd::Close(QName { local: Name::Xml(s), .. })) => ElementEndKind::Close(SvgName::Xml(s.to_string())),
        Token::ElementEnd(ElementEnd::Empty) => ElementEndKind::Empty,
        _ => unreached(),
    }
}

/// The `MapToken` a held token stands for.
pub(crate) fn convert_token(t: &TokenHolder) -> (m: SvgToken)
    ensures
        m@ == t.token_view(),
{
    match token_kind(t) {
        TokenKind::Declaration => MapToken::Declaration,
        TokenKind::ProcessingInstruction => MapToken::ProcessingInstruction,
        TokenKind::EntityDeclaration => MapToken::EntityDeclaration,
        TokenKind::Comment => MapToken::Comment,
        TokenKind::ElementStart => MapToken::ElementStart(element_start_name(t)),
        TokenKind::ElementEnd => MapToken::ElementEnd(element_end_kind(t)),
        TokenKind::Attribute => {
            let (n, v) = attribute_parts(t);
            MapToken::Attribute(n, v)
        },
        TokenKind::Text => MapToken::Text,
        TokenKind::Cdata => MapToken::Cdata,
        TokenKind::Whitespaces => MapToken::Whitespaces,
    }
}

/// The next item of a tokenizer, as a `MapToken`, or `None` once nothing is
/// left.
pub(crate) fn next_item(tokens: &mut Tokenizer<'_>) -> (item: Option<SvgItem>)
    ensures
        svg_tokens_left(*old(tokens)).len() == 0 ==> item is None,
        svg_tokens_left(*old(tokens)).len() > 0 ==> {
            &&& item is Some
            &&& item_view(item->Some_0) == svg_tokens_left(*old(tokens))[0]
            &&& svg_tokens_left(*final(tokens)) == svg_tokens_left(*old(tokens)).drop_first()
        },
{
    match next_svg_token(tokens) {
        None => None,
        Some(Ok(t)) => Some(Ok(convert_token(&t))),
        Some(Err(e)) => Some(Err(e)),
    }
}

} // verus!
