//! From text to tokens, and from tokens to statements.

use crate::primitive::{is_primitive_symbol, primitive_of, Primitive};
use crate::result::{JSLError, JSLResult};
use crate::text::{alphabetic, chars_of, is_alphabetic, is_whitespace, whitespace};
use crate::value::{ast_view, lemma_ast_view_push, Statement, StatementView, Value, ValueView, AST};
use vstd::prelude::*;

verus! {

/// A character of the source text, with the two Unicode properties that the
/// lexer asks about.
#[derive(Clone, Copy, Debug, PartialEq, Eq, Structural)]
pub struct Glyph {
    pub c: char,
    pub alphabetic: bool,
    pub whitespace: bool,
}

/// A source text and how far it has been read.
#[derive(Debug)]
pub struct Reader {
    pub glyphs: Vec<Glyph>,
    pub position: usize,
}

#[derive(Clone, Copy, Debug, PartialEq, Eq, Structural)]
pub enum TokenCategory {
    Identifier,
    Number,
    String,
    Symbol,
}

/// A piece of the source text. The content of a string token starts with
/// the opening quote and ends before the closing one, escapes left as they
/// were written.
#[derive(Debug)]
pub struct Token {
    pub category: TokenCategory,
    pub content: String,
}

/// What a [`Token`] stands for.
pub struct TokenView {
    pub category: TokenCategory,
    pub content: Seq<char>,
}

impl View for Token {
    type V = TokenView;

    open spec fn view(&self) -> TokenView {
        TokenView { category: self.category, content: self.content@ }
    }
}

/// The views of a sequence of tokens, in order.
pub open spec fn tokens_view(s: Seq<Token>) -> Seq<TokenView> {
    s.map_values(|t: Token| t@)
}

/// The glyph of a character.
pub open spec fn glyph_of(c: char) -> Glyph {
    Glyph { c, alphabetic: alphabetic(c), whitespace: whitespace(c) }
}

/// The glyphs of a text.
pub open spec fn glyphs_of(s: Seq<char>) -> Seq<Glyph> {
    s.map_values(|c: char| glyph_of(c))
}

/// Whether `c` is a token on its own: a brace, the null sign, the empty
/// list, the binding arrow, or the symbol of a built-in operation.
pub open spec fn is_symbol(c: char) -> bool {
    c == '{' || c == '}' || c == '∅' || c == '□' || c == '→' || is_primitive_symbol(c)
}

/// Whether `c` is one of the ten digits.
pub open spec fn is_digit(c: char) -> bool {
    '0' <= c <= '9'
}

/// The characters of the glyphs from `from` up to `to`.
pub open spec fn text_of(g: Seq<Glyph>, from: int, to: int) -> Seq<char> {
    Seq::new((to - from) as nat, |k: int| g[from + k].c)
}

/// Where the number ends that is being read at `i`: at the first glyph that
/// is neither a digit nor the first dot of the number. `dot` says whether
/// the number has a dot already.
pub open spec fn number_end(g: Seq<Glyph>, i: int, dot: bool) -> int
    decreases g.len() - i,
{
    if i < 0 || i >= g.len() {
        i
    } else if is_digit(g[i].c) {
        number_end(g, i + 1, dot)
    } else if g[i].c == '.' && !dot {
        number_end(g, i + 1, true)
    } else {
        i
    }
}

/// Where the word ends that is being read at `i`: at the first glyph that
/// is not alphabetic.
pub open spec fn word_end(g: Seq<Glyph>, i: int) -> int
    decreases g.len() - i,
{
    if 0 <= i < g.len() && g[i].alphabetic {
        word_end(g, i + 1)
    } else {
        i
    }
}

/// Where the comment ends that is being read at `i`: behind the next
/// newline, or at the end of the text.
pub open spec fn comment_end(g: Seq<Glyph>, i: int) -> int
    decreases g.len() - i,
{
    if i < 0 || i >= g.len() {
        i
    } else if g[i].c == '\n' {
        i + 1
    } else {
        comment_end(g, i + 1)
    }
}

/// The place of the quote that closes the string being read at `i`, if the
/// string is closed. A backslash takes the glyph behind it along, whatever
/// it is.
pub open spec fn string_end(g: Seq<Glyph>, i: int) -> Option<int>
    decreases g.len() - i,
{
    if i < 0 || i >= g.len() {
        None
    } else if g[i].c == '\\' {
        if i + 1 >= g.len() {
            None
        } else {
            string_end(g, i + 2)
        }
    } else if g[i].c == '"' {
        Some(i)
    } else {
        string_end(g, i + 1)
    }
}

/// What one reading gives: a token, nothing, or an error, and the place
/// where the next reading starts.
pub struct Read {
    pub outcome: Result<Option<TokenView>, JSLError>,
    pub next: int,
}

/// What reading at `i` gives.
///
/// A symbol is a token on its own. A digit starts a number, a quote a
/// string, an alphabetic glyph a word. Whitespace gives nothing, nor does a
/// comment, which starts with `#`. Any other glyph is an identifier on its
/// own. A string that is not closed is an error, and takes the rest of the
/// text.
pub open spec fn read_of(g: Seq<Glyph>, i: int) -> Read {
    if i < 0 || i >= g.len() {
        Read { outcome: Ok(None), next: i }
    } else if is_symbol(g[i].c) {
        Read {
            outcome: Ok(Some(TokenView { category: TokenCategory::Symbol, content: seq![g[i].c] })),
            next: i + 1,
        }
    } else if is_digit(g[i].c) {
        let end = number_end(g, i + 1, false);
        Read {
            outcome: Ok(
                Some(TokenView { category: TokenCategory::Number, content: text_of(g, i, end) }),
            ),
            next: end,
        }
    } else if g[i].c == '"' {
        match string_end(g, i + 1) {
            Some(close) => Read {
                outcome: Ok(
                    Some(
                        TokenView { category: TokenCategory::String, content: text_of(g, i, close) },
                    ),
                ),
                next: close + 1,
            },
            None => Read { outcome: Err(JSLError::UnterminatedString), next: g.len() as int },
        }
    } else if g[i].alphabetic {
        let end = word_end(g, i + 1);
        Read {
            outcome: Ok(
                Some(TokenView { category: TokenCategory::Identifier, content: text_of(g, i, end) }),
            ),
            next: end,
        }
    } else if g[i].whitespace {
        Read { outcome: Ok(None), next: i + 1 }
    } else if g[i].c == '#' {
        Read { outcome: Ok(None), next: comment_end(g, i + 1) }
    } else {
        Read {
            outcome: Ok(
                Some(TokenView { category: TokenCategory::Identifier, content: seq![g[i].c] }),
            ),
            next: i + 1,
        }
    }
}

/// A reading inside the text ends behind the place where it started, and
/// not behind the end of the text.
pub proof fn lemma_read_advances(g: Seq<Glyph>, i: int)
    requires
        0 <= i < g.len(),
    ensures
        i < read_of(g, i).next <= g.len(),
{
    lemma_ends(g, i + 1, false);
}

proof fn lemma_ends(g: Seq<Glyph>, i: int, dot: bool)
    requires
        0 <= i <= g.len(),
    ensures
        i <= number_end(g, i, dot) <= g.len(),
        i <= word_end(g, i) <= g.len(),
        i <= comment_end(g, i) <= g.len(),
        string_end(g, i) is Some ==> i <= string_end(g, i)->0 < g.len(),
    decreases g.len() - i,
{
    if i < g.len() {
        lemma_ends(g, i + 1, dot);
        lemma_ends(g, i + 1, true);
        if i + 1 < g.len() {
            lemma_ends(g, i + 2, dot);
        }
    }
}

/// The tokens of the text from `i` on, or the error that ends the reading.
pub open spec fn tokens_of(g: Seq<Glyph>, i: int) -> Result<Seq<TokenView>, JSLError>
    decreases g.len() - i,
{
    if i < 0 || i >= g.len() {
        Ok(Seq::empty())
    } else {
        let read = read_of(g, i);
        proof {
            lemma_read_advances(g, i);
        }
        match read.outcome {
            Err(error) => Err(error),
            Ok(token) => match tokens_of(g, read.next) {
                Err(error) => Err(error),
                Ok(rest) => Ok(
                    match token {
                        Some(t) => seq![t] + rest,
                        None => rest,
                    },
                ),
            },
        }
    }
}

fn symbol(c: char) -> (r: bool)
    ensures
        r == is_symbol(c),
{
    c == '{' || c == '}' || c == '∅' || c == '□' || c == '→' || c == '.' || c == ':' || c == '⭥'
        || c == '!' || c == '”' || c == ',' || c == '⤉' || c == '↗' || c == '+' || c == '-' || c
        == '×' || c == '÷' || c == '='
}

fn digit(c: char) -> (r: bool)
    ensures
        r == is_digit(c),
{
    '0' <= c && c <= '9'
}

/// A reader at the start of `s`.
pub fn reader_from_string(s: &str) -> (reader: Reader)
    ensures
        reader.glyphs@ == glyphs_of(s@),
        reader.position == 0,
{
    let mut glyphs: Vec<Glyph> = Vec::new();
    for c in it: s.chars()
        invariant
            it.seq() == s@,
            glyphs@ == glyphs_of(s@.take(it.index() as int)),
    {
        glyphs.push(Glyph { c, alphabetic: is_alphabetic(c), whitespace: is_whitespace(c) });
        proof {
            let n = it.index() as int;
            assert(s@.take(n + 1) =~= s@.take(n).push(c));
            assert(glyphs_of(s@.take(n).push(c)) =~= glyphs_of(s@.take(n)).push(glyph_of(c)));
        }
    }
    assert(s@.take(s@.len() as int) =~= s@);
    Reader { glyphs, position: 0 }
}

fn single(category: TokenCategory, c: char) -> (t: Token)
    ensures
        t@ == (TokenView { category, content: seq![c] }),
{
    let mut content = String::new();
    content.push(c);
    assert(content@ =~= seq![c]);
    Token { category, content }
}

/// Reads the next token, if the text has one where the reader stands.
#[verifier::loop_isolation(false)]
pub fn read_a_token(reader: &mut Reader) -> (r: JSLResult<Option<Token>>)
    ensures
        final(reader).glyphs == old(reader).glyphs,
        final(reader).position == read_of(old(reader).glyphs@, old(reader).position as int).next,
        match r {
            Ok(Some(t)) => read_of(old(reader).glyphs@, old(reader).position as int).outcome == Ok::<
                Option<TokenView>,
                JSLError,
            >(Some(t@)),
            Ok(None) => read_of(old(reader).glyphs@, old(reader).position as int).outcome == Ok::<
                Option<TokenView>,
                JSLError,
            >(None),
            Err(e) => read_of(old(reader).glyphs@, old(reader).position as int).outcome == Err::<
                Option<TokenView>,
                JSLError,
            >(e),
        },
{
    let len = reader.glyphs.len();
    let start = reader.position;
    if start >= len {
        return Ok(None);
    }
    let ghost g = reader.glyphs@;
    let ch = reader.glyphs[start];
    if symbol(ch.c) {
        reader.position = start + 1;
        Ok(Some(single(TokenCategory::Symbol, ch.c)))
    } else if digit(ch.c) {
        let mut content = String::new();
        content.push(ch.c);
        let mut pos: usize = start + 1;
        let mut dot = false;
        assert(content@ =~= text_of(g, start as int, pos as int));
        while pos < len && (digit(reader.glyphs[pos].c) || (reader.glyphs[pos].c == '.' && !dot))
            invariant
                start < pos <= len,
                reader.glyphs == old(reader).glyphs,
                content@ == text_of(g, start as int, pos as int),
                number_end(g, start + 1, false) == number_end(g, pos as int, dot),
            decreases len - pos,
        {
            let d = reader.glyphs[pos].c;
            if d == '.' {
                dot = true;
            }
            content.push(d);
            pos += 1;
            assert(content@ =~= text_of(g, start as int, pos as int));
        }
        reader.position = pos;
        Ok(Some(Token { category: TokenCategory::Number, content }))
    } else if ch.c == '"' {
        let mut content = String::new();
        content.push(ch.c);
        let mut pos: usize = start + 1;
        assert(content@ =~= text_of(g, start as int, pos as int));
        while pos < len
            invariant
                start < pos <= len,
                reader.glyphs == old(reader).glyphs,
                content@ == text_of(g, start as int, pos as int),
                string_end(g, start + 1) == string_end(g, pos as int),
            decreases len - pos,
        {
            let c = reader.glyphs[pos].c;
            if c == '\\' {
                if pos + 1 >= len {
                    reader.position = len;
                    return Err(JSLError::UnterminatedString);
                }
                content.push(c);
                content.push(reader.glyphs[pos + 1].c);
                pos += 2;
                assert(content@ =~= text_of(g, start as int, pos as int));
            } else if c == '"' {
                reader.position = pos + 1;
                return Ok(Some(Token { category: TokenCategory::String, content }));
            } else {
                content.push(c);
                pos += 1;
                assert(content@ =~= text_of(g, start as int, pos as int));
            }
        }
        reader.position = len;
        Err(JSLError::UnterminatedString)
    } else if ch.alphabetic {
        let mut content = String::new();
        content.push(ch.c);
        let mut pos: usize = start + 1;
        assert(content@ =~= text_of(g, start as int, pos as int));
        while pos < len && reader.glyphs[pos].alphabetic
            invariant
                start < pos <= len,
                reader.glyphs == old(reader).glyphs,
                content@ == text_of(g, start as int, pos as int),
                word_end(g, start + 1) == word_end(g, pos as int),
            decreases len - pos,
        {
            content.push(reader.glyphs[pos].c);
            pos += 1;
            assert(content@ =~= text_of(g, start as int, pos as int));
        }
        reader.position = pos;
        Ok(Some(Token { category: TokenCategory::Identifier, content }))
    } else if ch.whitespace {
        reader.position = start + 1;
        Ok(None)
    } else if ch.c == '#' {
        let mut pos: usize = start + 1;
        while pos < len && reader.glyphs[pos].c != '\n'
            invariant
                start < pos <= len,
                comment_end(g, start + 1) == comment_end(g, pos as int),
            decreases len - pos,
        {
            pos += 1;
        }
        if pos < len {
            pos += 1;
        }
        reader.position = pos;
        Ok(None)
    } else {
        reader.position = start + 1;
        Ok(Some(single(TokenCategory::Identifier, ch.c)))
    }
}

/// What a string literal stands for, once its escapes are resolved.
pub enum Unescaped {
    /// This text.
    Text(Seq<char>),
    /// Nothing: a backslash is followed by this character, which is not one
    /// of `r`, `n`, `t` and the quote.
    Invalid(char),
    /// Nothing: the content ends with a backslash that escapes nothing.
    Dangling,
}

/// The character that a backslash and `c` stand for.
pub open spec fn escape_of(c: char) -> Option<char> {
    if c == 'r' {
        Some('\r')
    } else if c == 'n' {
        Some('\n')
    } else if c == 't' {
        Some('\t')
    } else if c == '"' {
        Some('"')
    } else {
        None
    }
}

/// `text` in front of what `u` stands for.
pub open spec fn glue(text: Seq<char>, u: Unescaped) -> Unescaped {
    match u {
        Unescaped::Text(rest) => Unescaped::Text(text + rest),
        _ => u,
    }
}

/// What the content of a string token stands for from `i` on: a quote
/// that is not escaped stands for nothing, a backslash and the character
/// behind it for one character, any other character for itself.
pub open spec fn unescape_from(s: Seq<char>, i: int) -> Unescaped
    decreases s.len() - i,
{
    if i < 0 || i >= s.len() {
        Unescaped::Text(Seq::empty())
    } else if s[i] == '"' {
        unescape_from(s, i + 1)
    } else if s[i] == '\\' {
        if i + 1 >= s.len() {
            Unescaped::Dangling
        } else {
            match escape_of(s[i + 1]) {
                Some(c) => glue(seq![c], unescape_from(s, i + 2)),
                None => Unescaped::Invalid(s[i + 1]),
            }
        }
    } else {
        glue(seq![s[i]], unescape_from(s, i + 1))
    }
}

/// What the content of a string token stands for.
pub open spec fn unescape_of(s: Seq<char>) -> Unescaped {
    unescape_from(s, 0)
}

/// Whether a token is one that the lexer can give: a symbol is one
/// character of the symbol set, and a string does not end in the middle of
/// an escape.
pub open spec fn well_formed(t: TokenView) -> bool {
    &&& t.category == TokenCategory::Symbol ==> t.content.len() == 1 && is_symbol(t.content[0])
    &&& t.category == TokenCategory::String ==> !(unescape_of(t.content) is Dangling)
}

/// Whether all of the tokens are ones that the lexer can give.
pub open spec fn all_well_formed(t: Seq<TokenView>) -> bool {
    forall|i: int| 0 <= i < t.len() ==> well_formed(#[trigger] t[i])
}

proof fn lemma_string_content(g: Seq<Glyph>, start: int, j: int, close: int)
    requires
        0 <= start < j <= close < g.len(),
        string_end(g, j) == Some(close),
    ensures
        !(unescape_from(text_of(g, start, close), j - start) is Dangling),
    decreases close - j,
{
    let s = text_of(g, start, close);
    if j < close {
        assert(s[j - start] == g[j].c);
        if g[j].c == '\\' {
            lemma_ends(g, j + 2, false);
            assert(s[j - start + 1] == g[j + 1].c);
            lemma_string_content(g, start, j + 2, close);
        } else {
            lemma_string_content(g, start, j + 1, close);
        }
    }
}

/// Every token that a reading gives is well formed.
pub proof fn lemma_read_well_formed(g: Seq<Glyph>, i: int)
    requires
        0 <= i < g.len(),
    ensures
        match read_of(g, i).outcome {
            Ok(Some(t)) => well_formed(t),
            _ => true,
        },
{
    if !is_symbol(g[i].c) && !is_digit(g[i].c) && g[i].c == '"' {
        match string_end(g, i + 1) {
            Some(close) => {
                lemma_ends(g, i + 1, false);
                let s = text_of(g, i, close);
                assert(s[0] == '"');
                if i + 1 <= close {
                    lemma_string_content(g, i, i + 1, close);
                }
            },
            None => {},
        }
    }
}

/// Whether `s` is written as a number is: a digit first, then digits, with
/// at most one dot among them.
pub open spec fn is_decimal(s: Seq<char>) -> bool {
    &&& s.len() > 0
    &&& is_digit(s[0])
    &&& forall|i: int| 0 <= i < s.len() ==> is_digit(#[trigger] s[i]) || s[i] == '.'
    &&& forall|i: int, j: int|
        0 <= i < j < s.len() ==> !(#[trigger] s[i] == '.' && #[trigger] s[j] == '.')
}

proof fn lemma_number_span(g: Seq<Glyph>, j: int, dot: bool)
    requires
        0 <= j <= g.len(),
    ensures
        j <= number_end(g, j, dot) <= g.len(),
        forall|k: int|
            j <= k < number_end(g, j, dot) ==> is_digit(#[trigger] g[k].c) || g[k].c == '.',
        dot ==> forall|k: int| j <= k < number_end(g, j, dot) ==> (#[trigger] g[k]).c != '.',
        forall|k: int, l: int|
            j <= k < l < number_end(g, j, dot) ==> !((#[trigger] g[k]).c == '.' && (
            #[trigger] g[l]).c == '.'),
    decreases g.len() - j,
{
    if j < g.len() {
        if is_digit(g[j].c) {
            lemma_number_span(g, j + 1, dot);
        } else if g[j].c == '.' && !dot {
            lemma_number_span(g, j + 1, true);
        }
    }
}

/// Every number token that a reading gives is written as a number is.
pub proof fn lemma_read_number_is_decimal(g: Seq<Glyph>, i: int)
    requires
        0 <= i < g.len(),
    ensures
        match read_of(g, i).outcome {
            Ok(Some(t)) => t.category == TokenCategory::Number ==> is_decimal(t.content),
            _ => true,
        },
{
    if !is_symbol(g[i].c) && is_digit(g[i].c) {
        lemma_number_span(g, i + 1, false);
        let end = number_end(g, i + 1, false);
        let s = text_of(g, i, end);
        assert forall|k: int| 0 <= k < s.len() implies is_digit(#[trigger] s[k]) || s[k]
            == '.' by {
            assert(s[k] == g[i + k].c);
        }
        assert forall|k: int, l: int| 0 <= k < l < s.len() implies !(#[trigger] s[k] == '.'
            && #[trigger] s[l] == '.') by {
            assert(s[k] == g[i + k].c);
            assert(s[l] == g[i + l].c);
        }
    } else if !is_symbol(g[i].c) && g[i].c == '"' {
        lemma_ends(g, i + 1, false);
    }
}

/// Every number token of a text is written as a number is.
pub proof fn lemma_numbers_are_decimal(g: Seq<Glyph>, i: int)
    requires
        0 <= i,
    ensures
        match tokens_of(g, i) {
            Ok(tokens) => forall|k: int|
                0 <= k < tokens.len() && (#[trigger] tokens[k]).category == TokenCategory::Number
                    ==> is_decimal(tokens[k].content),
            Err(_) => true,
        },
    decreases g.len() - i,
{
    if i < g.len() {
        lemma_read_advances(g, i);
        lemma_read_number_is_decimal(g, i);
        lemma_numbers_are_decimal(g, read_of(g, i).next);
    }
}

/// Every token of a text is well formed.
pub proof fn lemma_tokens_well_formed(g: Seq<Glyph>, i: int)
    requires
        0 <= i,
    ensures
        match tokens_of(g, i) {
            Ok(tokens) => all_well_formed(tokens),
            Err(_) => true,
        },
    decreases g.len() - i,
{
    if i < g.len() {
        lemma_read_advances(g, i);
        lemma_read_well_formed(g, i);
        lemma_tokens_well_formed(g, read_of(g, i).next);
    }
}

impl Token {
    /// Whether this token is one that the lexer can give.
    pub fn is_well_formed(&self) -> (r: bool)
        ensures
            r == well_formed(self@),
    {
        match self.category {
            TokenCategory::Symbol => {
                let content = self.content.as_str();
                content.unicode_len() == 1 && symbol(content.get_char(0))
            },
            TokenCategory::String => {
                let chars = chars_of(self.content.as_str());
                let mut i: usize = 0;
                while i < chars.len()
                    invariant
                        i <= chars.len(),
                        chars@ == self.content@,
                        self.category == TokenCategory::String,
                        unescape_of(self.content@) is Dangling <==> unescape_from(
                            self.content@,
                            i as int,
                        ) is Dangling,
                    decreases chars.len() - i,
                {
                    if chars[i] == '\\' {
                        if i + 1 >= chars.len() {
                            return false;
                        }
                        if escape(chars[i + 1]).is_none() {
                            return true;
                        }
                        i += 2;
                    } else {
                        i += 1;
                    }
                }
                true
            },
            _ => true,
        }
    }
}

/// The tokens of `code`, in the order of the text.
pub fn tokenize(code: &str) -> (r: JSLResult<Vec<Token>>)
    ensures
        match r {
            Ok(tokens) => {
                &&& tokens_of(glyphs_of(code@), 0) == Ok::<Seq<TokenView>, JSLError>(
                    tokens_view(tokens@),
                )
                &&& all_well_formed(tokens_view(tokens@))
            },
            Err(e) => tokens_of(glyphs_of(code@), 0) == Err::<Seq<TokenView>, JSLError>(e),
        },
{
    let mut reader = reader_from_string(code);
    let mut result: Vec<Token> = Vec::new();
    let ghost g = reader.glyphs@;
    while reader.position < reader.glyphs.len()
        invariant
            reader.glyphs@ == g,
            g == glyphs_of(code@),
            reader.position <= g.len(),
            tokens_of(g, 0) == match tokens_of(g, reader.position as int) {
                Ok(rest) => Ok::<Seq<TokenView>, JSLError>(tokens_view(result@) + rest),
                Err(e) => Err(e),
            },
        decreases g.len() - reader.position,
    {
        proof {
            lemma_read_advances(g, reader.position as int);
        }
        let ghost before = tokens_view(result@);
        match read_a_token(&mut reader) {
            Err(e) => {
                return Err(e);
            },
            Ok(Some(token)) => {
                result.push(token);
                proof {
                    let rest = tokens_of(g, reader.position as int);
                    assert(tokens_view(result@) =~= before.push(token@));
                    if rest is Ok {
                        assert(before + (seq![token@] + rest->Ok_0) =~= before.push(token@)
                            + rest->Ok_0);
                    }
                }
            },
            Ok(None) => {},
        }
    }
    proof {
        assert(tokens_view(result@) + Seq::<TokenView>::empty() =~= tokens_view(result@));
        lemma_tokens_well_formed(g, 0);
    }
    Ok(result)
}

fn escape(c: char) -> (r: Option<char>)
    ensures
        r == escape_of(c),
{
    if c == 'r' {
        Some('\r')
    } else if c == 'n' {
        Some('\n')
    } else if c == 't' {
        Some('\t')
    } else if c == '"' {
        Some('"')
    } else {
        None
    }
}

/// The text that the content of a string token stands for.
pub fn handle_escapes(string: &str) -> (r: JSLResult<String>)
    requires
        !(unescape_of(string@) is Dangling),
    ensures
        match r {
            Ok(text) => unescape_of(string@) == Unescaped::Text(text@),
            Err(e) => unescape_of(string@) is Invalid && e == JSLError::InvalidEscape(
                unescape_of(string@)->Invalid_0,
            ),
        },
{
    let chars = chars_of(string);
    let mut result = String::new();
    let mut i: usize = 0;
    assert(Seq::<char>::empty() + Seq::<char>::empty() =~= Seq::<char>::empty());
    while i < chars.len()
        invariant
            i <= chars.len(),
            chars@ == string@,
            !(unescape_of(string@) is Dangling),
            unescape_of(string@) == glue(result@, unescape_from(string@, i as int)),
        decreases chars.len() - i,
    {
        let c = chars[i];
        let ghost before = result@;
        let ghost rest = unescape_from(string@, i as int);
        if c == '"' {
            i += 1;
        } else if c == '\\' {
            match escape(chars[i + 1]) {
                Some(e) => {
                    result.push(e);
                    i += 2;
                    proof {
                        let then = unescape_from(string@, i as int);
                        if then is Text {
                            assert(before + (seq![e] + then->Text_0) =~= before.push(e)
                                + then->Text_0);
                        }
                    }
                },
                None => {
                    return Err(JSLError::InvalidEscape(chars[i + 1]));
                },
            }
        } else {
            result.push(c);
            i += 1;
            proof {
                let then = unescape_from(string@, i as int);
                if then is Text {
                    assert(before + (seq![c] + then->Text_0) =~= before.push(c) + then->Text_0);
                }
            }
        }
    }
    assert(result@ + Seq::<char>::empty() =~= result@);
    Ok(result)
}

/// Where the parser stands: in the program itself, or in a function body.
#[derive(Clone, Copy, Debug, PartialEq, Eq, Structural)]
pub enum ParserContext {
    Global,
    Function,
}

/// Tokens, the values of those that are numbers, and how far the tokens
/// have been read. `numbers` is as long as `tokens`; where a token is a
/// number, it holds the bits of that number at the token's place.
#[derive(Debug)]
pub struct TokenReader<'a> {
    pub tokens: &'a Vec<Token>,
    pub numbers: &'a Vec<u64>,
    pub position: usize,
}

/// What parsing a body gives: its statements or an error, and the place of
/// the first token that was not read.
pub struct Parsed {
    pub outcome: Result<Seq<StatementView>, JSLError>,
    pub next: int,
}

/// `p`, with `first` in front of its statements.
pub open spec fn after(first: Seq<StatementView>, p: Parsed) -> Parsed {
    Parsed {
        outcome: match p.outcome {
            Ok(rest) => Ok(first + rest),
            Err(e) => Err(e),
        },
        next: p.next,
    }
}

/// The body that starts at token `i`.
///
/// In a function, the body ends behind the closing brace, and the end of
/// the tokens is an error; in the program, it ends with the tokens, and a
/// closing brace is an error. An opening brace starts the body of a
/// function literal. The binding arrow takes the identifier behind it, and
/// is an error without one. A string whose escapes are invalid is an error.
///
/// This is meant for well-formed tokens, with a number for each. What it
/// says of a string that ends in the middle of an escape, nothing relies on.
pub open spec fn body_of(t: Seq<TokenView>, n: Seq<u64>, i: int, context: ParserContext) -> Parsed
    recommends
        all_well_formed(t),
        n.len() == t.len(),
    decreases t.len() - i,
{
    if i < 0 || i >= t.len() {
        Parsed {
            outcome: if context == ParserContext::Function {
                Err(JSLError::UnclosedFunction)
            } else {
                Ok(Seq::empty())
            },
            next: i,
        }
    } else {
        let rest = body_of(t, n, i + 1, context);
        match t[i].category {
            TokenCategory::Number => after(
                seq![StatementView::Literal(ValueView::Number(n[i]))],
                rest,
            ),
            TokenCategory::Identifier => after(seq![StatementView::Identifier(t[i].content)], rest),
            TokenCategory::String => match unescape_of(t[i].content) {
                Unescaped::Text(text) => after(
                    seq![StatementView::Literal(ValueView::String(text))],
                    rest,
                ),
                Unescaped::Invalid(c) => Parsed {
                    outcome: Err(JSLError::InvalidEscape(c)),
                    next: i + 1,
                },
                Unescaped::Dangling => Parsed {
                    outcome: Err(JSLError::UnterminatedString),
                    next: i + 1,
                },
            },
            TokenCategory::Symbol => {
                let c = t[i].content[0];
                if c == '∅' {
                    after(seq![StatementView::Literal(ValueView::Null)], rest)
                } else if c == '□' {
                    after(seq![StatementView::Literal(ValueView::List(Seq::empty()))], rest)
                } else if c == '→' {
                    if i + 1 < t.len() && t[i + 1].category == TokenCategory::Identifier {
                        after(
                            seq![StatementView::Binding(t[i + 1].content)],
                            body_of(t, n, i + 2, context),
                        )
                    } else {
                        Parsed {
                            outcome: Err(JSLError::ExpectedIdentifier),
                            next: if i + 1 < t.len() {
                                i + 2
                            } else {
                                i + 1
                            },
                        }
                    }
                } else if c == '{' {
                    let inner = body_of(t, n, i + 1, ParserContext::Function);
                    if inner.outcome is Ok && i < inner.next <= t.len() {
                        after(
                            seq![StatementView::Literal(ValueView::Function(inner.outcome->Ok_0))],
                            body_of(t, n, inner.next, context),
                        )
                    } else {
                        inner
                    }
                } else if c == '}' {
                    Parsed {
                        outcome: if context == ParserContext::Function {
                            Ok(Seq::empty())
                        } else {
                            Err(JSLError::UnexpectedClose)
                        },
                        next: i + 1,
                    }
                } else {
                    after(seq![StatementView::Primitive(primitive_of(c))], rest)
                }
            },
        }
    }
}

/// The statements of a whole program, or the error that ends the parsing.
pub open spec fn parse_of(t: Seq<TokenView>, n: Seq<u64>) -> Result<Seq<StatementView>, JSLError> {
    body_of(t, n, 0, ParserContext::Global).outcome
}

/// Parsing a body moves forward and stays within the tokens.
pub proof fn lemma_body_advances(t: Seq<TokenView>, n: Seq<u64>, i: int, context: ParserContext)
    requires
        0 <= i <= t.len(),
    ensures
        i <= body_of(t, n, i, context).next <= t.len(),
        context == ParserContext::Function && body_of(t, n, i, context).outcome is Ok ==> i
            < body_of(t, n, i, context).next,
    decreases t.len() - i,
{
    if i < t.len() {
        lemma_body_advances(t, n, i + 1, context);
        if i + 2 <= t.len() {
            lemma_body_advances(t, n, i + 2, context);
        }
        lemma_body_advances(t, n, i + 1, ParserContext::Function);
        let inner = body_of(t, n, i + 1, ParserContext::Function);
        if inner.outcome is Ok {
            lemma_body_advances(t, n, inner.next, context);
        }
    }
}

/// A reader at the first of `tokens`.
pub fn token_reader<'a>(tokens: &'a Vec<Token>, numbers: &'a Vec<u64>) -> (reader: TokenReader<'a>)
    ensures
        reader.tokens == tokens,
        reader.numbers == numbers,
        reader.position == 0,
{
    TokenReader { tokens, numbers, position: 0 }
}

/// Parses the body at which the reader stands, to its end.
#[verifier::loop_isolation(false)]
pub fn parse_helper(reader: &mut TokenReader, context: ParserContext) -> (r: JSLResult<AST>)
    requires
        all_well_formed(tokens_view(old(reader).tokens@)),
        old(reader).numbers.len() == old(reader).tokens.len(),
        old(reader).position <= old(reader).tokens.len(),
    ensures
        final(reader).tokens == old(reader).tokens,
        final(reader).numbers == old(reader).numbers,
        final(reader).position == body_of(
            tokens_view(old(reader).tokens@),
            old(reader).numbers@,
            old(reader).position as int,
            context,
        ).next,
        match r {
            Ok(tree) => body_of(
                tokens_view(old(reader).tokens@),
                old(reader).numbers@,
                old(reader).position as int,
                context,
            ).outcome == Ok::<Seq<StatementView>, JSLError>(ast_view(tree@)),
            Err(e) => body_of(
                tokens_view(old(reader).tokens@),
                old(reader).numbers@,
                old(reader).position as int,
                context,
            ).outcome == Err::<Seq<StatementView>, JSLError>(e),
        },
    decreases old(reader).tokens.len() - old(reader).position,
{
    let tokens = reader.tokens;
    let numbers = reader.numbers;
    let len = tokens.len();
    let ghost t = tokens_view(tokens@);
    let ghost n = numbers@;
    let ghost start = reader.position as int;
    let mut tree: Vec<Statement> = Vec::new();
    proof {
        let whole = body_of(t, n, start, context);
        if whole.outcome is Ok {
            assert(Seq::<StatementView>::empty() + whole.outcome->Ok_0 =~= whole.outcome->Ok_0);
        }
    }
    while reader.position < len
        invariant
            reader.tokens == tokens,
            reader.numbers == numbers,
            start <= reader.position <= len,
            body_of(t, n, start, context) == after(
                ast_view(tree@),
                body_of(t, n, reader.position as int, context),
            ),
        decreases len - reader.position,
    {
        let i = reader.position;
        let token = &tokens[i];
        let ghost before = ast_view(tree@);
        let ghost here = body_of(t, n, i as int, context);
        assert(t[i as int] == token@);
        assert(well_formed(t[i as int]));
        proof {
            lemma_body_advances(t, n, i + 1, context);
        }
        let statement = match token.category {
            TokenCategory::Number => {
                reader.position = i + 1;
                Statement::Literal(Value::Number(numbers[i]))
            },
            TokenCategory::Identifier => {
                reader.position = i + 1;
                Statement::Identifier(token.content.clone())
            },
            TokenCategory::String => {
                reader.position = i + 1;
                match handle_escapes(token.content.as_str()) {
                    Ok(text) => Statement::Literal(Value::String(text)),
                    Err(e) => {
                        return Err(e);
                    },
                }
            },
            TokenCategory::Symbol => {
                let c = token.content.as_str().get_char(0);
                if c == '∅' {
                    reader.position = i + 1;
                    Statement::Literal(Value::Null)
                } else if c == '□' {
                    reader.position = i + 1;
                    Statement::Literal(Value::List(Vec::new()))
                } else if c == '→' {
                    if i + 1 < len && tokens[i + 1].category == TokenCategory::Identifier {
                        assert(t[i + 1] == tokens[i + 1]@);
                        proof {
                            lemma_body_advances(t, n, i + 2, context);
                        }
                        reader.position = i + 2;
                        Statement::Binding(tokens[i + 1].content.clone())
                    } else {
                        if i + 1 < len {
                            assert(t[i + 1] == tokens[i + 1]@);
                        }
                        reader.position = if i + 1 < len {
                            i + 2
                        } else {
                            i + 1
                        };
                        return Err(JSLError::ExpectedIdentifier);
                    }
                } else if c == '{' {
                    reader.position = i + 1;
                    proof {
                        lemma_body_advances(t, n, i + 1, ParserContext::Function);
                    }
                    match parse_helper(reader, ParserContext::Function) {
                        Ok(body) => {
                            proof {
                                lemma_body_advances(t, n, reader.position as int, context);
                            }
                            Statement::Literal(Value::Function(body))
                        },
                        Err(e) => {
                            return Err(e);
                        },
                    }
                } else if c == '}' {
                    reader.position = i + 1;
                    match context {
                        ParserContext::Function => {
                            assert(before + Seq::<StatementView>::empty() =~= before);
                            return Ok(tree);
                        },
                        ParserContext::Global => {
                            return Err(JSLError::UnexpectedClose);
                        },
                    }
                } else {
                    reader.position = i + 1;
                    Statement::Primitive(Primitive::from_char(c))
                }
            },
        };
        proof {
            let then = body_of(t, n, reader.position as int, context);
            assert(here == after(seq![statement@], then));
            lemma_ast_view_push(tree@, statement);
            if then.outcome is Ok {
                assert(before + (seq![statement@] + then.outcome->Ok_0) =~= before.push(statement@)
                    + then.outcome->Ok_0);
            }
        }
        tree.push(statement);
    }
    proof {
        assert(ast_view(tree@) + Seq::<StatementView>::empty() =~= ast_view(tree@));
    }
    match context {
        ParserContext::Global => Ok(tree),
        ParserContext::Function => Err(JSLError::UnclosedFunction),
    }
}

/// Parses a whole program. `numbers` is as long as `tokens`; where a token
/// is a number, it holds the bits of that number at the token's place.
pub fn parse(tokens: Vec<Token>, numbers: Vec<u64>) -> (r: JSLResult<AST>)
    requires
        all_well_formed(tokens_view(tokens@)),
        numbers.len() == tokens.len(),
    ensures
        match r {
            Ok(ast) => parse_of(tokens_view(tokens@), numbers@) == Ok::<
                Seq<StatementView>,
                JSLError,
            >(ast_view(ast@)),
            Err(e) => parse_of(tokens_view(tokens@), numbers@) == Err::<
                Seq<StatementView>,
                JSLError,
            >(e),
        },
{
    let mut reader = token_reader(&tokens, &numbers);
    parse_helper(&mut reader, ParserContext::Global)
}

} // verus!
