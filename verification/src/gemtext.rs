//! The gemtext tokenizer: a line-oriented parser with two modes.
//!
//! A document is cut into physical lines behind each `'\n'`. A line keeps its
//! terminator, `"\n"` or `"\r\n"`; the last line may have none. Outside a
//! preformatted block each line is classified by the marker that its
//! content, the line without its terminator, begins with, and yields one
//! token. A fence line opens a preformatted block, whose lines are collected
//! verbatim, terminators included, until a line whose content is exactly the
//! fence closes it; the text of the block ends before the terminator of its
//! last line. A block that is still open at the end of the input is dropped.

use vstd::prelude::*;
use vstd::slice::slice_subrange;
use crate::text::{
    after_first_word, append_chars, chars_of, find, find_char, first_word, is_blank,
    is_white_space, lemma_find_char, lemma_find_char_at, lemma_find_char_behind, lemma_first_word,
    lemma_skip_blanks, lemma_trimmed, same_as_str, skip_blanks, skip_one_space, split_first_word,
    starts_with_str, string_of, trim, trim_blanks_start, trim_one_space, trimmed,
};

verus! {

#[derive(Copy, Clone, Debug, PartialEq, Eq, Structural)]
pub enum TokenKind {
    Text,
    Link,
    UnorderedList,
    Blockquote,
    Heading,
    SubHeading,
    SubSubHeading,
    PreFormattedText,
}

/// One block of a gemtext document.
///
/// `data` is the principal text: the target of a link, the body of a
/// preformatted block, the text of anything else. `extra` is the display name
/// of a link (empty when the link has none) or the alt text of a preformatted
/// block; it is empty for every other kind.
#[derive(Clone, Debug)]
pub struct GemtextToken {
    pub kind: TokenKind,
    pub data: String,
    pub extra: String,
}

/// The mathematical value of a [`GemtextToken`].
pub struct Token {
    pub kind: TokenKind,
    pub data: Seq<char>,
    pub extra: Seq<char>,
}

impl View for GemtextToken {
    type V = Token;

    open spec fn view(&self) -> Token {
        Token { kind: self.kind, data: self.data@, extra: self.extra@ }
    }
}

/// The values of a sequence of tokens, in order.
pub open spec fn token_views(tokens: Seq<GemtextToken>) -> Seq<Token> {
    tokens.map_values(|t: GemtextToken| t@)
}

/// The value of a token that may be absent.
pub open spec fn emitted_view(token: Option<GemtextToken>) -> Option<Token> {
    match token {
        Some(t) => Some(t@),
        None => None,
    }
}

/// The line markers, named.
#[derive(Copy, Clone, Debug, PartialEq, Eq, Structural)]
pub enum Marker {
    Fence,
    Link,
    ListItem,
    Quote,
    SubSubHeading,
    SubHeading,
    Heading,
}

/// The characters of a marker.
pub open spec fn marker_text(m: Marker) -> Seq<char> {
    match m {
        Marker::Fence => "```"@,
        Marker::Link => "=>"@,
        Marker::ListItem => "* "@,
        Marker::Quote => ">"@,
        Marker::SubSubHeading => "###"@,
        Marker::SubHeading => "##"@,
        Marker::Heading => "#"@,
    }
}

/// Spells the markers out: what each begins with and how long it is.
pub proof fn lemma_marker_texts()
    ensures
        marker_text(Marker::Fence) == seq!['`', '`', '`'],
        marker_text(Marker::Link) == seq!['=', '>'],
        marker_text(Marker::ListItem) == seq!['*', ' '],
        marker_text(Marker::Quote) == seq!['>'],
        marker_text(Marker::SubSubHeading) == seq!['#', '#', '#'],
        marker_text(Marker::SubHeading) == seq!['#', '#'],
        marker_text(Marker::Heading) == seq!['#'],
{
    reveal_strlit("```");
    reveal_strlit("=>");
    reveal_strlit("* ");
    reveal_strlit(">");
    reveal_strlit("###");
    reveal_strlit("##");
    reveal_strlit("#");
}

/// The order in which markers are tried: a marker that is a prefix of
/// another comes after it.
pub open spec fn precedence() -> Seq<Marker> {
    seq![
        Marker::Fence,
        Marker::Link,
        Marker::ListItem,
        Marker::Quote,
        Marker::SubSubHeading,
        Marker::SubHeading,
        Marker::Heading,
    ]
}

/// The first marker, at or after position `from` of the precedence order,
/// that `line` begins with.
pub open spec fn first_marker(line: Seq<char>, from: int) -> Option<Marker>
    decreases precedence().len() - from,
{
    if from < 0 || from >= precedence().len() {
        None
    } else if marker_text(precedence()[from]).is_prefix_of(line) {
        Some(precedence()[from])
    } else {
        first_marker(line, from + 1)
    }
}

/// The marker that classifies `line`, if it begins with one.
pub open spec fn leading_marker(line: Seq<char>) -> Option<Marker> {
    first_marker(line, 0)
}

/// The state of the tokenizer between two lines.
#[derive(Clone, Debug)]
pub enum ParserState {
    /// Outside a preformatted block.
    Normal,
    /// Inside a preformatted block: the alt text of the opening fence, and
    /// the lines collected so far, as they are, terminators included.
    Preformatted { alt: String, body: String },
}

/// The mathematical value of a [`ParserState`].
pub enum Mode {
    Normal,
    Preformatted { alt: Seq<char>, body: Seq<char> },
}

impl View for ParserState {
    type V = Mode;

    open spec fn view(&self) -> Mode {
        match self {
            ParserState::Normal => Mode::Normal,
            ParserState::Preformatted { alt, body } => Mode::Preformatted {
                alt: alt@,
                body: body@,
            },
        }
    }
}

/// A token of kind `kind` with no secondary text.
pub open spec fn plain(kind: TokenKind, data: Seq<char>) -> Token {
    Token { kind, data, extra: Seq::empty() }
}

/// The link that the rest of a link line makes: the target is its first
/// word, the display name what follows the blanks after it.
pub open spec fn link(rest: Seq<char>) -> Token {
    Token {
        kind: TokenKind::Link,
        data: first_word(rest),
        extra: skip_blanks(after_first_word(rest)),
    }
}

/// What a line outside a preformatted block does, given its content: the mode
/// after it and the token it yields.
///
/// - A line that begins with no marker is text: the whole line.
/// - A fence opens a block and yields nothing. What follows the fence,
///   without the white space around it, is the alt text of the block.
/// - `=>` makes a link of what follows it, without the white space around
///   it.
/// - `* ` makes a list item of what follows it.
/// - `>`, `###`, `##` and `#` make a quote or a heading of what follows,
///   without the one space that may separate it from the marker.
pub open spec fn classify(line: Seq<char>) -> (Mode, Option<Token>) {
    match leading_marker(line) {
        None => (Mode::Normal, Some(plain(TokenKind::Text, line))),
        Some(marker) => {
            let rest = line.skip(marker_text(marker).len() as int);
            match marker {
                Marker::Fence => (
                    Mode::Preformatted { alt: trimmed(rest), body: Seq::empty() },
                    None,
                ),
                Marker::Link => (Mode::Normal, Some(link(trimmed(rest)))),
                Marker::ListItem => (Mode::Normal, Some(plain(TokenKind::UnorderedList, rest))),
                Marker::Quote => (
                    Mode::Normal,
                    Some(plain(TokenKind::Blockquote, skip_one_space(rest))),
                ),
                Marker::SubSubHeading => (
                    Mode::Normal,
                    Some(plain(TokenKind::SubSubHeading, skip_one_space(rest))),
                ),
                Marker::SubHeading => (
                    Mode::Normal,
                    Some(plain(TokenKind::SubHeading, skip_one_space(rest))),
                ),
                Marker::Heading => (
                    Mode::Normal,
                    Some(plain(TokenKind::Heading, skip_one_space(rest))),
                ),
            }
        },
    }
}

/// The length of the terminator that `line` ends with: 2 for `"\r\n"`, 1
/// for `"\n"` alone, 0 for none.
pub open spec fn terminator_len(line: Seq<char>) -> int {
    if line.len() >= 2 && line[line.len() - 2] == '\r' && line.last() == '\n' {
        2
    } else if line.len() >= 1 && line.last() == '\n' {
        1
    } else {
        0
    }
}

/// The content of a line: the line without its terminator.
pub open spec fn content(line: Seq<char>) -> Seq<char> {
    line.take(line.len() - terminator_len(line))
}

/// The text of a finished block: the collected lines without the terminator
/// of the last one.
pub open spec fn block_text(body: Seq<char>) -> Seq<char> {
    content(body)
}

/// The transition of the tokenizer on one line, given with its terminator.
///
/// Outside a block the content of the line is classified. Inside a block a
/// line whose content is the fence closes the block and yields its token;
/// any other line is added to the block as it is.
pub open spec fn step(mode: Mode, line: Seq<char>) -> (Mode, Option<Token>) {
    match mode {
        Mode::Normal => classify(content(line)),
        Mode::Preformatted { alt, body } => if content(line) == marker_text(Marker::Fence) {
            (
                Mode::Normal,
                Some(
                    Token { kind: TokenKind::PreFormattedText, data: block_text(body), extra: alt },
                ),
            )
        } else {
            (Mode::Preformatted { alt, body: body + line }, None)
        },
    }
}

/// Where the line that begins at `from` ends: behind the first `'\n'` at or
/// after `from`, or at the end of `text` when there is none.
pub open spec fn line_end(text: Seq<char>, from: int) -> int {
    let at = find_char(text, '\n', from);
    if at < text.len() {
        at + 1
    } else {
        text.len() as int
    }
}

/// The physical line of `text` that begins at `from`, with its terminator.
pub open spec fn line_at(text: Seq<char>, from: int) -> Seq<char> {
    text.subrange(from, line_end(text, from))
}

/// The physical lines of `text` from position `from` on.
pub open spec fn lines_from(text: Seq<char>, from: int) -> Seq<Seq<char>>
    decreases text.len() - from,
    via lines_from_terminates
{
    if from < 0 || from >= text.len() {
        Seq::empty()
    } else {
        seq![line_at(text, from)] + lines_from(text, line_end(text, from))
    }
}

#[via_fn]
proof fn lines_from_terminates(text: Seq<char>, from: int) {
    if 0 <= from < text.len() {
        lemma_find_char(text, '\n', from);
    }
}

/// The physical lines of `text`, each with its terminator.
pub open spec fn lines(text: Seq<char>) -> Seq<Seq<char>> {
    lines_from(text, 0)
}

/// The tokens that `lines` yield when the tokenizer starts in `mode`.
pub open spec fn run(mode: Mode, lines: Seq<Seq<char>>) -> Seq<Token>
    decreases lines.len(),
{
    if lines.len() == 0 {
        Seq::empty()
    } else {
        let (next, emitted) = step(mode, lines[0]);
        let rest = run(next, lines.drop_first());
        match emitted {
            Some(token) => seq![token] + rest,
            None => rest,
        }
    }
}

/// The tokens of a gemtext document.
pub open spec fn tokenize(text: Seq<char>) -> Seq<Token> {
    run(Mode::Normal, lines(text))
}

/// The text of a marker and its length.
pub fn marker_str(m: Marker) -> (out: (&'static str, usize))
    ensures
        out.0@ == marker_text(m),
        out.1 == marker_text(m).len(),
{
    proof {
        lemma_marker_texts();
    }
    match m {
        Marker::Fence => ("```", 3),
        Marker::Link => ("=>", 2),
        Marker::ListItem => ("* ", 2),
        Marker::Quote => (">", 1),
        Marker::SubSubHeading => ("###", 3),
        Marker::SubHeading => ("##", 2),
        Marker::Heading => ("#", 1),
    }
}

/// Whether `line` begins with the marker `m`; if so, where the marker ends.
pub fn has_marker(line: &[char], m: Marker) -> (end: Option<usize>)
    ensures
        end.is_some() == marker_text(m).is_prefix_of(line@),
        end.is_some() ==> end.unwrap() == marker_text(m).len() <= line@.len(),
{
    let (text, len) = marker_str(m);
    if starts_with_str(line, text) {
        Some(len)
    } else {
        None
    }
}

/// Finds the marker that classifies `line`, trying the markers in their
/// order of precedence, and where it ends.
pub fn match_marker(line: &[char]) -> (found: Option<(Marker, usize)>)
    ensures
        match found {
            Some((marker, end)) => leading_marker(line@) == Some(marker) && end == marker_text(
                marker,
            ).len() <= line@.len(),
            None => leading_marker(line@).is_none(),
        },
{
    let order: [Marker; 7] = [
        Marker::Fence,
        Marker::Link,
        Marker::ListItem,
        Marker::Quote,
        Marker::SubSubHeading,
        Marker::SubHeading,
        Marker::Heading,
    ];
    assert(order@ == precedence());
    let mut i: usize = 0;
    while i < 7
        invariant
            i <= 7,
            order@ == precedence(),
            first_marker(line@, i as int) == leading_marker(line@),
        decreases 7 - i,
    {
        match has_marker(line, order[i]) {
            Some(end) => {
                return Some((order[i], end));
            },
            None => {},
        }
        i += 1;
    }
    None
}

/// A token of kind `kind` whose text is `data` and whose secondary text is
/// empty.
fn plain_token(kind: TokenKind, data: &[char]) -> (token: GemtextToken)
    ensures
        token@ == plain(kind, data@),
{
    GemtextToken { kind, data: string_of(data), extra: String::new() }
}

/// The link that the rest of a link line makes.
fn link_token(rest: &[char]) -> (token: GemtextToken)
    ensures
        token@ == link(rest@),
{
    let (target, tail) = split_first_word(rest);
    GemtextToken {
        kind: TokenKind::Link,
        data: string_of(target),
        extra: string_of(trim_blanks_start(tail)),
    }
}

/// Handles one line outside a preformatted block.
fn classify_line(line: &[char]) -> (out: (ParserState, Option<GemtextToken>))
    ensures
        out.0@ == classify(line@).0,
        emitted_view(out.1) == classify(line@).1,
{
    let (marker, end) = match match_marker(line) {
        Some(found) => found,
        None => {
            return (ParserState::Normal, Some(plain_token(TokenKind::Text, line)));
        },
    };
    let rest = slice_subrange(line, end, line.len());
    let token = match marker {
        Marker::Fence => {
            let alt = string_of(trim(rest));
            return (ParserState::Preformatted { alt, body: String::new() }, None);
        },
        Marker::Link => link_token(trim(rest)),
        Marker::ListItem => plain_token(TokenKind::UnorderedList, rest),
        Marker::Quote => plain_token(TokenKind::Blockquote, trim_one_space(rest)),
        Marker::SubSubHeading => plain_token(TokenKind::SubSubHeading, trim_one_space(rest)),
        Marker::SubHeading => plain_token(TokenKind::SubHeading, trim_one_space(rest)),
        Marker::Heading => plain_token(TokenKind::Heading, trim_one_space(rest)),
    };
    (ParserState::Normal, Some(token))
}

/// The values of a sequence of strings, in order.
pub open spec fn string_views(strings: Seq<String>) -> Seq<Seq<char>> {
    strings.map_values(|s: String| s@)
}

/// Cuts the terminator off a line.
pub fn strip_terminator(line: &[char]) -> (out: &[char])
    ensures
        out@ == content(line@),
{
    let n = line.len();
    let cut: usize = if n >= 2 && line[n - 2] == '\r' && line[n - 1] == '\n' {
        2
    } else if n >= 1 && line[n - 1] == '\n' {
        1
    } else {
        0
    };
    slice_subrange(line, 0, n - cut)
}

/// Cuts the terminator off the end of a collected block.
fn finish_block(body: String) -> (data: String)
    ensures
        data@ == block_text(body@),
{
    let mut data = body;
    match data.pop() {
        None => {},
        Some(last) => {
            if last != '\n' {
                data.push(last);
                assert(data@ == body@);
            } else {
                match data.pop() {
                    None => {},
                    Some(before) => {
                        if before != '\r' {
                            data.push(before);
                            assert(data@ == body@.drop_last());
                        } else {
                            assert(data@ == body@.take(body@.len() - 2));
                        }
                    },
                }
            }
        },
    }
    data
}

/// The transition of the tokenizer on one line, given with its terminator:
/// the state after the line and the token that the line yields.
pub fn advance(state: ParserState, line: &[char]) -> (out: (ParserState, Option<GemtextToken>))
    ensures
        out.0@ == step(state@, line@).0,
        emitted_view(out.1) == step(state@, line@).1,
{
    let text = strip_terminator(line);
    match state {
        ParserState::Normal => classify_line(text),
        ParserState::Preformatted { alt, body } => {
            if same_as_str(text, "```") {
                let token = GemtextToken {
                    kind: TokenKind::PreFormattedText,
                    data: finish_block(body),
                    extra: alt,
                };
                (ParserState::Normal, Some(token))
            } else {
                let mut body = body;
                append_chars(&mut body, line);
                (ParserState::Preformatted { alt, body }, None)
            }
        },
    }
}

/// The transition of the tokenizer on one line of text, given with its
/// terminator.
pub fn parse_line(state: ParserState, line: &str) -> (out: (ParserState, Option<GemtextToken>))
    ensures
        out.0@ == step(state@, line@).0,
        emitted_view(out.1) == step(state@, line@).1,
{
    let chars = chars_of(line);
    advance(state, chars.as_slice())
}

/// Cuts the physical line that begins at `from` out of `text`: the line with
/// its terminator, and the position at which it ends.
pub fn next_line(text: &[char], from: usize) -> (out: (&[char], usize))
    requires
        from < text@.len(),
    ensures
        out.0@ == line_at(text@, from as int),
        out.1 == line_end(text@, from as int),
        from < out.1 <= text@.len(),
{
    let at = find(text, '\n', from);
    let end = if at < text.len() {
        at + 1
    } else {
        at
    };
    (slice_subrange(text, from, end), end)
}

/// Cuts a text into its physical lines, each with its terminator.
pub fn split_keep_crlf(raw_text: &str) -> (lines: Vec<String>)
    ensures
        string_views(lines@) == self::lines(raw_text@),
{
    let text = chars_of(raw_text);
    let mut lines: Vec<String> = Vec::new();
    let mut at: usize = 0;
    assert(string_views(lines@) + lines_from(text@, 0) == self::lines(text@));
    while at < text.len()
        invariant
            at <= text@.len(),
            string_views(lines@) + lines_from(text@, at as int) == self::lines(text@),
        decreases text@.len() - at,
    {
        let (line, next) = next_line(text.as_slice(), at);
        let owned = string_of(line);
        proof {
            let done = string_views(lines@);
            assert(string_views(lines@.push(owned)) == done.push(owned@));
            assert(done.push(owned@) + lines_from(text@, next as int) == done + (seq![owned@]
                + lines_from(text@, next as int)));
        }
        lines.push(owned);
        at = next;
    }
    assert(string_views(lines@) + Seq::<Seq<char>>::empty() == string_views(lines@));
    lines
}

/// Tokenizes a gemtext document.
///
/// Never fails: a line that begins with no marker is a `Text` token.
pub fn parse_gemtext(raw_text: &str) -> (tokens: Vec<GemtextToken>)
    ensures
        token_views(tokens@) == tokenize(raw_text@),
{
    let text = chars_of(raw_text);
    let mut tokens: Vec<GemtextToken> = Vec::new();
    let mut state = ParserState::Normal;
    let mut at: usize = 0;
    assert(token_views(tokens@) + tokenize(text@) == tokenize(text@));
    while at < text.len()
        invariant
            at <= text@.len(),
            token_views(tokens@) + run(state@, lines_from(text@, at as int)) == tokenize(text@),
        decreases text@.len() - at,
    {
        let ghost before = token_views(tokens@);
        let ghost mode = state@;
        let ghost pending = lines_from(text@, at as int);
        let (line, next) = next_line(text.as_slice(), at);
        let (after, emitted) = advance(state, line);
        proof {
            let rest = lines_from(text@, next as int);
            assert(pending[0] == line@);
            assert(pending.drop_first() == rest);
            assert(run(mode, pending) == match emitted_view(emitted) {
                Some(token) => seq![token] + run(after@, rest),
                None => run(after@, rest),
            });
        }
        match emitted {
            Some(token) => {
                proof {
                    assert(token_views(tokens@.push(token)) == before.push(token@));
                    assert(before.push(token@) + run(after@, lines_from(text@, next as int))
                        == before + (seq![token@] + run(after@, lines_from(text@, next as int))));
                }
                tokens.push(token);
            },
            None => {},
        }
        state = after;
        at = next;
    }
    assert(token_views(tokens@) + Seq::<Token>::empty() == token_views(tokens@));
    tokens
}

/// The targets of the links among `tokens`, in order.
pub open spec fn targets(tokens: Seq<Token>) -> Seq<Seq<char>>
    decreases tokens.len(),
{
    if tokens.len() == 0 {
        Seq::empty()
    } else if tokens.last().kind == TokenKind::Link {
        targets(tokens.drop_last()).push(tokens.last().data)
    } else {
        targets(tokens.drop_last())
    }
}

/// Collects the targets of the links among `tokens`, in order.
pub fn link_targets(tokens: &Vec<GemtextToken>) -> (found: Vec<String>)
    ensures
        string_views(found@) == targets(token_views(tokens@)),
{
    let mut found: Vec<String> = Vec::new();
    let mut i: usize = 0;
    assert(string_views(found@) == Seq::<Seq<char>>::empty());
    while i < tokens.len()
        invariant
            i <= tokens@.len(),
            string_views(found@) == targets(token_views(tokens@).take(i as int)),
        decreases tokens@.len() - i,
    {
        let ghost seen = token_views(tokens@).take(i + 1);
        assert(seen.drop_last() == token_views(tokens@).take(i as int));
        assert(seen.last() == tokens@[i as int]@);
        if tokens[i].kind == TokenKind::Link {
            let target = tokens[i].data.clone();
            assert(string_views(found@.push(target)) == string_views(found@).push(target@));
            found.push(target);
        }
        i += 1;
    }
    assert(token_views(tokens@).take(tokens@.len() as int) == token_views(tokens@));
    found
}

/// Tokenizing is a function of the text alone: two results for the same text
/// hold the same tokens in the same order.
pub proof fn lemma_tokenize_deterministic(
    text: Seq<char>,
    first: Seq<GemtextToken>,
    second: Seq<GemtextToken>,
)
    requires
        token_views(first) == tokenize(text),
        token_views(second) == tokenize(text),
    ensures
        first.len() == second.len(),
        forall|i: int| 0 <= i < first.len() ==> first[i]@ == second[i]@,
{
    assert(token_views(first).len() == first.len());
    assert(token_views(second).len() == second.len());
    assert forall|i: int| 0 <= i < first.len() implies first[i]@ == second[i]@ by {
        assert(token_views(first)[i] == first[i]@);
        assert(token_views(second)[i] == second[i]@);
    }
}

/// The marker that classifies a line is the longest marker that the line
/// begins with.
pub proof fn lemma_leading_marker_is_longest(line: Seq<char>, m: Marker)
    requires
        marker_text(m).is_prefix_of(line),
    ensures
        leading_marker(line).is_some(),
        marker_text(leading_marker(line).unwrap()).is_prefix_of(line),
        marker_text(m).len() <= marker_text(leading_marker(line).unwrap()).len(),
{
    reveal_with_fuel(first_marker, 8);
    lemma_marker_texts();
    assert(line[0] == marker_text(m)[0]);
    assert(forall|k: Marker|
        marker_text(k).is_prefix_of(line) ==> line[0] == #[trigger] marker_text(k)[0]);
}

/// Whether the secondary text of a token goes with its kind: only links and
/// preformatted blocks have any.
pub open spec fn secondary_fits_kind(token: Token) -> bool {
    token.kind == TokenKind::Link || token.kind == TokenKind::PreFormattedText
        || token.extra.len() == 0
}

/// A line yields a preformatted token exactly when it closes a block, and the
/// secondary text of what it yields goes with the kind.
pub proof fn lemma_step_token(mode: Mode, line: Seq<char>)
    ensures
        match step(mode, line).1 {
            Some(token) => secondary_fits_kind(token) && (token.kind == TokenKind::PreFormattedText
                <==> mode is Preformatted),
            None => true,
        },
{
}

/// Every text is tokenized: into at most one token for each of its lines,
/// each with the secondary text that goes with its kind.
pub proof fn lemma_tokenize_total(text: Seq<char>)
    ensures
        tokenize(text).len() <= lines(text).len(),
        forall|i: int| 0 <= i < tokenize(text).len() ==> secondary_fits_kind(tokenize(text)[i]),
{
    lemma_run_tokens(Mode::Normal, lines(text));
}

/// The target of a link is one word, and its display name neither begins
/// with a blank nor ends with white space.
pub proof fn lemma_link_fields(line: Seq<char>)
    requires
        leading_marker(line) == Some(Marker::Link),
    ensures
        classify(line).1 matches Some(token) && token.kind == TokenKind::Link && (forall|k: int|
            0 <= k < token.data.len() ==> !is_blank(#[trigger] token.data[k])) && (token.extra.len()
            > 0 ==> !is_blank(token.extra[0]) && !is_white_space(token.extra.last())),
{
    let rest = trimmed(line.skip(marker_text(Marker::Link).len() as int));
    let tail = after_first_word(rest);
    let name = skip_blanks(tail);
    lemma_trimmed(line.skip(marker_text(Marker::Link).len() as int));
    lemma_first_word(rest);
    lemma_skip_blanks(tail);
    if name.len() > 0 {
        assert(name.last() == tail.last());
        assert(tail.last() == rest.last());
    }
}

/// Every line yields at most one token, and every token's secondary text
/// goes with its kind.
pub proof fn lemma_run_tokens(mode: Mode, lines: Seq<Seq<char>>)
    ensures
        run(mode, lines).len() <= lines.len(),
        forall|i: int| 0 <= i < run(mode, lines).len() ==> secondary_fits_kind(run(mode, lines)[i]),
    decreases lines.len(),
{
    if lines.len() > 0 {
        lemma_step_token(mode, lines[0]);
        lemma_run_tokens(step(mode, lines[0]).0, lines.drop_first());
    }
}

/// Lines that begin with no marker are text: outside a block, each of them
/// yields one `Text` token that holds the content of the line as it is.
pub proof fn lemma_unmarked_lines_are_text(lines: Seq<Seq<char>>)
    requires
        forall|i: int|
            0 <= i < lines.len() ==> leading_marker(content(#[trigger] lines[i])).is_none(),
    ensures
        run(Mode::Normal, lines) == lines.map_values(
            |line: Seq<char>| plain(TokenKind::Text, content(line)),
        ),
    decreases lines.len(),
{
    let texts = lines.map_values(|line: Seq<char>| plain(TokenKind::Text, content(line)));
    if lines.len() > 0 {
        let rest = lines.drop_first();
        assert(leading_marker(content(lines[0])).is_none());
        assert forall|i: int| 0 <= i < rest.len() implies leading_marker(
            content(#[trigger] rest[i]),
        ).is_none() by {
            assert(rest[i] == lines[i + 1]);
        }
        lemma_unmarked_lines_are_text(rest);
        assert(texts == seq![plain(TokenKind::Text, content(lines[0]))] + rest.map_values(
            |line: Seq<char>| plain(TokenKind::Text, content(line)),
        ));
    } else {
        assert(texts == Seq::<Token>::empty());
    }
}

/// The lines one behind the other.
pub open spec fn concat(lines: Seq<Seq<char>>) -> Seq<char>
    decreases lines.len(),
{
    if lines.len() == 0 {
        Seq::empty()
    } else {
        lines[0] + concat(lines.drop_first())
    }
}

/// The lines from a position on make up the text from that position on.
proof fn lemma_lines_from_keep_the_text(text: Seq<char>, from: int)
    requires
        0 <= from <= text.len(),
    ensures
        concat(lines_from(text, from)) == text.skip(from),
    decreases text.len() - from,
{
    if from < text.len() {
        lemma_find_char(text, '\n', from);
        let end = line_end(text, from);
        let rest = lines_from(text, end);
        let all = lines_from(text, from);
        lemma_lines_from_keep_the_text(text, end);
        assert(all[0] == line_at(text, from));
        assert(all.drop_first() == rest);
        assert(text.subrange(from, end) + text.skip(end) == text.skip(from));
    } else {
        assert(text.skip(from) == Seq::<char>::empty());
    }
}

/// Cutting a text into lines loses nothing: the lines, one behind the
/// other, are the text.
pub proof fn lemma_lines_keep_the_text(text: Seq<char>)
    ensures
        concat(lines(text)) == text,
{
    lemma_lines_from_keep_the_text(text, 0);
    assert(text.skip(0) == text);
}

/// Whether `line` is one physical line: it is not empty, and it holds no
/// `'\n'` but, possibly, as its last character.
pub open spec fn is_physical_line(line: Seq<char>) -> bool {
    &&& line.len() > 0
    &&& forall|k: int| 0 <= k < line.len() - 1 ==> line[k] != '\n'
}

/// The lines from a position on are physical lines, and each but the last
/// ends with `'\n'`.
proof fn lemma_lines_from_are_physical(text: Seq<char>, from: int)
    requires
        0 <= from <= text.len(),
    ensures
        forall|i: int|
            0 <= i < lines_from(text, from).len() ==> is_physical_line(
                #[trigger] lines_from(text, from)[i],
            ),
        forall|i: int|
            0 <= i < lines_from(text, from).len() - 1 ==> (#[trigger] lines_from(
                text,
                from,
            )[i]).last() == '\n',
    decreases text.len() - from,
{
    if from < text.len() {
        lemma_find_char(text, '\n', from);
        let end = line_end(text, from);
        let first = line_at(text, from);
        let rest = lines_from(text, end);
        let all = lines_from(text, from);
        lemma_lines_from_are_physical(text, end);
        assert(all == seq![first] + rest);
        assert(is_physical_line(first)) by {
            assert forall|k: int| 0 <= k < first.len() - 1 implies first[k] != '\n' by {
                assert(first[k] == text[from + k]);
            }
        }
        assert forall|i: int| 0 <= i < all.len() implies is_physical_line(#[trigger] all[i]) by {
            if i > 0 {
                assert(all[i] == rest[i - 1]);
            }
        }
        assert forall|i: int| 0 <= i < all.len() - 1 implies (#[trigger] all[i]).last()
            == '\n' by {
            if i > 0 {
                assert(all[i] == rest[i - 1]);
            } else {
                assert(rest.len() > 0);
                assert(end < text.len());
                assert(first.last() == text[end - 1]);
            }
        }
    }
}

/// The lines of a text are physical lines, and each but the last ends with
/// `'\n'`.
pub proof fn lemma_lines_are_physical(text: Seq<char>)
    ensures
        forall|i: int| 0 <= i < lines(text).len() ==> is_physical_line(#[trigger] lines(text)[i]),
        forall|i: int| 0 <= i < lines(text).len() - 1 ==> (#[trigger] lines(text)[i]).last() == '\n',
{
    lemma_lines_from_are_physical(text, 0);
}

/// A block that has collected `body` and goes on with `lines` and a closing
/// line yields one token: `body` and the lines, without the last terminator.
proof fn lemma_block_collects(
    alt: Seq<char>,
    body: Seq<char>,
    lines: Seq<Seq<char>>,
    closing: Seq<char>,
)
    requires
        content(closing) == marker_text(Marker::Fence),
        forall|i: int|
            0 <= i < lines.len() ==> content(#[trigger] lines[i]) != marker_text(Marker::Fence),
    ensures
        run(Mode::Preformatted { alt, body }, lines.push(closing)) == seq![
            Token {
                kind: TokenKind::PreFormattedText,
                data: block_text(body + concat(lines)),
                extra: alt,
            },
        ],
    decreases lines.len(),
{
    let all = lines.push(closing);
    let rest = all.drop_first();
    if lines.len() == 0 {
        assert(all[0] == closing);
        assert(rest == Seq::<Seq<char>>::empty());
        assert(run(Mode::Normal, rest) == Seq::<Token>::empty());
        assert(body + concat(lines) == body);
        assert(run(Mode::Preformatted { alt, body }, all) == seq![
            Token { kind: TokenKind::PreFormattedText, data: block_text(body), extra: alt },
        ] + Seq::<Token>::empty());
    } else {
        let tail = lines.drop_first();
        assert(all[0] == lines[0]);
        assert(rest == tail.push(closing));
        assert forall|i: int| 0 <= i < tail.len() implies content(#[trigger] tail[i])
            != marker_text(Marker::Fence) by {
            assert(tail[i] == lines[i + 1]);
        }
        lemma_block_collects(alt, body + lines[0], tail, closing);
        assert((body + lines[0]) + concat(tail) == body + concat(lines));
    }
}

/// A preformatted block is verbatim: a block that has just been opened,
/// then lines of which none is a fence line, then a fence line, yield one
/// token that holds the lines as they are, up to the terminator of the last
/// one, and the alt text.
pub proof fn lemma_block_is_verbatim(alt: Seq<char>, lines: Seq<Seq<char>>, closing: Seq<char>)
    requires
        content(closing) == marker_text(Marker::Fence),
        forall|i: int|
            0 <= i < lines.len() ==> content(#[trigger] lines[i]) != marker_text(Marker::Fence),
    ensures
        run(Mode::Preformatted { alt, body: Seq::empty() }, lines.push(closing)) == seq![
            Token { kind: TokenKind::PreFormattedText, data: block_text(concat(lines)), extra: alt },
        ],
{
    lemma_block_collects(alt, Seq::empty(), lines, closing);
    assert(Seq::<char>::empty() + concat(lines) == concat(lines));
}

/// Whether `text` can be the content of a line: it holds no `'\n'` and does
/// not end with `'\r'`.
pub open spec fn is_content(text: Seq<char>) -> bool {
    &&& forall|k: int| 0 <= k < text.len() ==> text[k] != '\n'
    &&& text.len() > 0 ==> text.last() != '\r'
}

/// The contents as lines: each followed by `'\n'`.
pub open spec fn terminated(contents: Seq<Seq<char>>) -> Seq<Seq<char>> {
    contents.map_values(|text: Seq<char>| text + seq!['\n'])
}

/// The contents joined by `'\n'`.
pub open spec fn joined(contents: Seq<Seq<char>>) -> Seq<char>
    decreases contents.len(),
{
    if contents.len() == 0 {
        Seq::empty()
    } else if contents.len() == 1 {
        contents[0]
    } else {
        contents[0] + seq!['\n'] + joined(contents.drop_first())
    }
}

/// The document that the contents make: each followed by `'\n'`.
pub open spec fn document(contents: Seq<Seq<char>>) -> Seq<char> {
    concat(terminated(contents))
}

/// The content of a terminated line is what was terminated.
pub proof fn lemma_content_of_terminated(text: Seq<char>)
    requires
        is_content(text),
    ensures
        content(text + seq!['\n']) == text,
{
    let line = text + seq!['\n'];
    if text.len() > 0 {
        assert(line[line.len() - 2] == text.last());
    }
    assert(line.take(line.len() - 1) == text);
}

/// A document is its contents joined, and one `'\n'` at its end.
proof fn lemma_document_is_joined(contents: Seq<Seq<char>>)
    requires
        contents.len() > 0,
    ensures
        document(contents) == joined(contents) + seq!['\n'],
    decreases contents.len(),
{
    let lines = terminated(contents);
    let rest = contents.drop_first();
    assert(lines[0] == contents[0] + seq!['\n']);
    assert(lines.drop_first() == terminated(rest));
    if contents.len() == 1 {
        assert(concat(terminated(rest)) == Seq::<char>::empty());
        assert(contents[0] + seq!['\n'] + Seq::<char>::empty() == contents[0] + seq!['\n']);
    } else {
        lemma_document_is_joined(rest);
        assert(contents[0] + seq!['\n'] + (joined(rest) + seq!['\n']) == contents[0] + seq![
            '\n',
        ] + joined(rest) + seq!['\n']);
    }
}

/// What the contents joined end with: the last of the contents.
proof fn lemma_joined_ends(contents: Seq<Seq<char>>)
    requires
        contents.len() > 0,
        forall|i: int| 0 <= i < contents.len() ==> is_content(#[trigger] contents[i]),
    ensures
        joined(contents).len() > 0 ==> joined(contents).last() != '\r',
    decreases contents.len(),
{
    if contents.len() > 1 {
        let rest = contents.drop_first();
        assert forall|i: int| 0 <= i < rest.len() implies is_content(#[trigger] rest[i]) by {
            assert(rest[i] == contents[i + 1]);
        }
        lemma_joined_ends(rest);
        let all = joined(contents);
        if joined(rest).len() > 0 {
            assert(all.last() == joined(rest).last());
        } else {
            assert(all.last() == '\n');
        }
    } else {
        assert(is_content(contents[0]));
    }
}

/// A preformatted block is its lines joined by `'\n'`: a block that has just
/// been opened, then contents of which none is the fence, each followed by
/// `'\n'`, then a fence line, yield one token that holds the contents
/// joined, and the alt text.
pub proof fn lemma_block_is_joined_lines(
    alt: Seq<char>,
    contents: Seq<Seq<char>>,
    closing: Seq<char>,
)
    requires
        content(closing) == marker_text(Marker::Fence),
        forall|i: int| 0 <= i < contents.len() ==> is_content(#[trigger] contents[i]),
        forall|i: int| 0 <= i < contents.len() ==> #[trigger] contents[i] != marker_text(Marker::Fence),
    ensures
        run(Mode::Preformatted { alt, body: Seq::empty() }, terminated(contents).push(closing))
            == seq![Token { kind: TokenKind::PreFormattedText, data: joined(contents), extra: alt }],
{
    let lines = terminated(contents);
    assert forall|i: int| 0 <= i < lines.len() implies content(#[trigger] lines[i]) != marker_text(
        Marker::Fence,
    ) by {
        assert(is_content(contents[i]));
        lemma_content_of_terminated(contents[i]);
    }
    lemma_block_is_verbatim(alt, lines, closing);
    if contents.len() > 0 {
        lemma_document_is_joined(contents);
        lemma_joined_ends(contents);
        let body = joined(contents) + seq!['\n'];
        if joined(contents).len() > 0 {
            assert(body[body.len() - 2] == joined(contents).last());
        }
        assert(body.take(body.len() - 1) == joined(contents));
    } else {
        assert(concat(lines) == Seq::<char>::empty());
        assert(Seq::<char>::empty().take(0) == Seq::<char>::empty());
    }
}

/// The lines behind a prefix are the lines of what follows it.
proof fn lemma_lines_behind(prefix: Seq<char>, text: Seq<char>, from: int)
    requires
        0 <= from <= text.len(),
    ensures
        lines_from(prefix + text, prefix.len() + from) == lines_from(text, from),
    decreases text.len() - from,
{
    if from < text.len() {
        let whole = prefix + text;
        let p = prefix.len() as int;
        let end = line_end(text, from);
        lemma_find_char(text, '\n', from);
        lemma_find_char_behind(prefix, text, '\n', from);
        assert(line_end(whole, p + from) == p + end);
        assert(whole.subrange(p + from, p + end) == text.subrange(from, end));
        lemma_lines_behind(prefix, text, end);
    }
}

/// The lines of a document are its contents, each followed by `'\n'`.
pub proof fn lemma_lines_of_document(contents: Seq<Seq<char>>)
    requires
        forall|i: int| 0 <= i < contents.len() ==> is_content(#[trigger] contents[i]),
    ensures
        lines(document(contents)) == terminated(contents),
    decreases contents.len(),
{
    let all = terminated(contents);
    if contents.len() > 0 {
        let first = contents[0];
        let rest = contents.drop_first();
        let prefix = first + seq!['\n'];
        let text = document(contents);
        assert(is_content(first));
        assert(all[0] == prefix);
        assert(all.drop_first() == terminated(rest));
        assert(text == prefix + document(rest));
        assert(text[first.len() as int] == '\n');
        assert forall|k: int| 0 <= k < first.len() implies text[k] != '\n' by {
            assert(text[k] == first[k]);
        }
        lemma_find_char_at(text, '\n', 0, first.len() as int);
        assert(line_end(text, 0) == prefix.len());
        assert(text.subrange(0, prefix.len() as int) == prefix);
        lemma_lines_behind(prefix, document(rest), 0);
        assert forall|i: int| 0 <= i < rest.len() implies is_content(#[trigger] rest[i]) by {
            assert(rest[i] == contents[i + 1]);
        }
        lemma_lines_of_document(rest);
        assert(seq![prefix] + terminated(rest) == all);
    } else {
        assert(all == Seq::<Seq<char>>::empty());
    }
}

/// Tokenizing goes line by line: the tokens of the document that the
/// contents make are the tokens that its lines yield, one after the other,
/// from outside a block.
pub proof fn lemma_tokenize_document(contents: Seq<Seq<char>>)
    requires
        forall|i: int| 0 <= i < contents.len() ==> is_content(#[trigger] contents[i]),
    ensures
        tokenize(document(contents)) == run(Mode::Normal, terminated(contents)),
{
    lemma_lines_of_document(contents);
}

} // verus!
