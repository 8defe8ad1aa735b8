//! How a token is shown: its text, its emphasis, and the styled string that
//! a text view takes.

use vstd::prelude::*;
use vstd::string::StringExecFns;
use cursive::theme::{Effect, Style};
use cursive::utils::markup::StyledString;
use cursive::utils::span::SpannedString;
use crate::gemtext::{token_views, GemtextToken, Token, TokenKind};

verus! {

/// The emphasis of a piece of text.
#[derive(Copy, Clone, Debug, PartialEq, Eq, Structural)]
pub enum Emphasis {
    Plain,
    Bold,
    Underline,
}

/// The emphasis that each kind of token is shown with: a link underlined,
/// a heading and a heading of the third level bold, anything else plain.
pub open spec fn emphasis_of(kind: TokenKind) -> Emphasis {
    match kind {
        TokenKind::Link => Emphasis::Underline,
        TokenKind::Heading => Emphasis::Bold,
        TokenKind::SubSubHeading => Emphasis::Bold,
        _ => Emphasis::Plain,
    }
}

/// What a link is called: its display name, or its target when it has none.
pub open spec fn label_of(token: Token) -> Seq<char> {
    if token.extra.len() == 0 {
        token.data
    } else {
        token.extra
    }
}

/// What `str::to_uppercase` makes of `text`.
pub uninterp spec fn uppercase(text: Seq<char>) -> Seq<char>;

/// Calls `str::to_uppercase`. The contract names the result and claims
/// nothing more of it.
#[verifier::external_body]
fn to_uppercase(text: &str) -> (upper: String)
    ensures
        upper@ == uppercase(text@),
{
    text.to_uppercase()
}

/// The text that a token is shown as: a link as an arrow and its label, a
/// heading in upper case, anything else as it is.
pub open spec fn display_text(token: Token) -> Seq<char> {
    match token.kind {
        TokenKind::Link => seq!['\u{2192}', ' '] + label_of(token),
        TokenKind::Heading => uppercase(token.data),
        _ => token.data,
    }
}

/// The spanned string of `cursive`, of which `StyledString` is the kind whose
/// spans carry a style.
#[verifier::external_type_specification]
#[verifier::external_body]
#[verifier::reject_recursive_types(T)]
pub struct ExSpannedString<T>(SpannedString<T>);

/// The style of `cursive`: effects and a color.
#[verifier::external_type_specification]
#[verifier::external_body]
pub struct ExStyle(Style);

/// The source text of a styled string.
pub uninterp spec fn styled_source(styled: StyledString) -> Seq<char>;

/// The spans of a styled string, in order: of each its text, whether its
/// style holds the effect `Bold`, and whether it holds the effect
/// `Underline`.
pub uninterp spec fn styled_spans(styled: StyledString) -> Seq<(Seq<char>, bool, bool)>;

/// The one span that `text` in `emphasis` makes.
pub open spec fn span_of(text: Seq<char>, emphasis: Emphasis) -> (Seq<char>, bool, bool) {
    (text, emphasis == Emphasis::Bold, emphasis == Emphasis::Underline)
}

/// Calls `StyledString::styled`, which makes a styled string of one span:
/// the whole of `text`, in the style given. The style is made of
/// `Style::default`, which holds no effect, or of the effect `Bold` or
/// `Underline` alone. The contract claims that the source text of the
/// result is `text`, and that its one span holds `text` and the effect that
/// the emphasis stands for.
#[verifier::external_body]
fn styled(text: String, emphasis: Emphasis) -> (out: StyledString)
    ensures
        styled_source(out) == text@,
        styled_spans(out) == seq![span_of(text@, emphasis)],
{
    let style = match emphasis {
        Emphasis::Plain => Style::default(),
        Emphasis::Bold => Style::from(Effect::Bold),
        Emphasis::Underline => Style::from(Effect::Underline),
    };
    StyledString::styled(text, style)
}

/// Calls `StyledString::new`, which makes a styled string without text and
/// without spans. The contract claims both.
#[verifier::external_body]
fn empty_styled() -> (out: StyledString)
    ensures
        styled_source(out) == Seq::<char>::empty(),
        styled_spans(out) == Seq::<(Seq<char>, bool, bool)>::empty(),
{
    StyledString::new()
}

/// Calls `StyledString::append`, which puts the text and the spans of
/// `other` behind those of `styled`. The contract claims that the source
/// text afterwards is the source text before, followed by that of `other`,
/// and the same of the spans.
#[verifier::external_body]
fn append_styled(styled: &mut StyledString, other: StyledString)
    ensures
        styled_source(*final(styled)) == styled_source(*old(styled)) + styled_source(other),
        styled_spans(*final(styled)) == styled_spans(*old(styled)) + styled_spans(other),
{
    styled.append(other)
}

impl GemtextToken {
    /// What a link is called: its display name, or its target when it has
    /// none.
    pub fn label(&self) -> (label: &str)
        ensures
            label@ == label_of(self@),
    {
        if self.extra.as_str().is_empty() {
            self.data.as_str()
        } else {
            self.extra.as_str()
        }
    }

    /// The emphasis that this token is shown with.
    pub fn emphasis(&self) -> (emphasis: Emphasis)
        ensures
            emphasis == emphasis_of(self.kind),
    {
        match self.kind {
            TokenKind::Link => Emphasis::Underline,
            TokenKind::Heading => Emphasis::Bold,
            TokenKind::SubSubHeading => Emphasis::Bold,
            _ => Emphasis::Plain,
        }
    }

    /// The text that this token is shown as.
    pub fn display_text(&self) -> (text: String)
        ensures
            text@ == display_text(self@),
    {
        match self.kind {
            TokenKind::Link => {
                let mut text = String::new();
                text.push('\u{2192}');
                text.push(' ');
                text.append(self.label());
                text
            },
            TokenKind::Heading => to_uppercase(self.data.as_str()),
            _ => self.data.clone(),
        }
    }

    /// This token as a styled string: its display text in its emphasis.
    pub fn styled_string(&self) -> (out: StyledString)
        ensures
            styled_source(out) == display_text(self@),
            styled_spans(out) == seq![span_of(display_text(self@), emphasis_of(self.kind))],
    {
        styled(self.display_text(), self.emphasis())
    }
}

/// The text of a page: the display texts of the tokens, one behind the
/// other.
pub open spec fn page_text(tokens: Seq<Token>) -> Seq<char>
    decreases tokens.len(),
{
    if tokens.len() == 0 {
        Seq::empty()
    } else {
        page_text(tokens.drop_last()) + display_text(tokens.last())
    }
}

/// The spans of a page: one for each token, its display text in its
/// emphasis.
pub open spec fn page_spans(tokens: Seq<Token>) -> Seq<(Seq<char>, bool, bool)> {
    tokens.map_values(|token: Token| span_of(display_text(token), emphasis_of(token.kind)))
}

/// Makes one styled string of a page: the styled strings of the tokens, one
/// behind the other, with nothing between them.
pub fn styled_string_from_token_chain(chain: &Vec<GemtextToken>) -> (page: StyledString)
    ensures
        styled_source(page) == page_text(token_views(chain@)),
        styled_spans(page) == page_spans(token_views(chain@)),
{
    let mut page = empty_styled();
    let mut i: usize = 0;
    assert(page_spans(token_views(chain@).take(0)) == Seq::<(Seq<char>, bool, bool)>::empty());
    while i < chain.len()
        invariant
            i <= chain@.len(),
            styled_source(page) == page_text(token_views(chain@).take(i as int)),
            styled_spans(page) == page_spans(token_views(chain@).take(i as int)),
        decreases chain@.len() - i,
    {
        let ghost seen = token_views(chain@).take(i + 1);
        assert(seen.drop_last() == token_views(chain@).take(i as int));
        assert(seen.last() == chain@[i as int]@);
        assert(page_spans(seen) == page_spans(seen.drop_last()) + seq![
            span_of(display_text(seen.last()), emphasis_of(seen.last().kind)),
        ]);
        append_styled(&mut page, chain[i].styled_string());
        i += 1;
    }
    assert(token_views(chain@).take(chain@.len() as int) == token_views(chain@));
    page
}

} // verus!
