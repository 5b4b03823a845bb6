//! The tokenizer: splits the source into lines and, within each line, applies
//! the recognizers in a fixed order until the line is used up.
use vstd::prelude::*;
use crate::lexing::{
    comment_match, ident_len, identifier_match, is_ascii_alpha, keyword_match_from,
    line_end, number_len, number_match, quote_index, recognize, space_run, string_match,
    symbol_match_from, tokenize_from, tokenize_line, tokenize_source, whitespace_match, Placed,
    SpecLexError,
};
use crate::number::{digit_run, is_number_literal, Number};
use crate::text::occurs_at;
use crate::token::{
    keyword_texts, strs_view, symbol_texts, Keyword, SpecToken, Token, TokenSpan, TokenWrapper,
};

verus! {

/// The pattern of a comment: `#` to the end of the text.
pub open spec fn comment_pattern() -> Seq<char> {
    "^(#.*$)"@
}

/// The pattern of an identifier.
pub open spec fn identifier_pattern() -> Seq<char> {
    "^([a-zA-Z][a-zA-Z0-9_$]*)"@
}

/// The pattern of a number literal.
pub open spec fn number_pattern() -> Seq<char> {
    "^([0-9]+\\.?[0-9]*)"@
}

/// The pattern of white space.
pub open spec fn whitespace_pattern() -> Seq<char> {
    "^(\\s+)"@
}

/// The text of the first group of `pattern` where it matches at the start of
/// `text`.
///
/// Relies on `regex::Regex::new` and `regex::Regex::captures` (regex 1.x):
/// the four patterns of this tokenizer compile, are anchored at the start by
/// `^`, and their greedy repetitions take the longest run; `.` matches every
/// character but a newline and `$` matches at the end of the text; `\s` is
/// the Unicode White_Space property.
#[verifier::external_body]
fn regex_prefix(pattern: &str, text: &str) -> (r: Option<String>)
    ensures
        pattern@ == comment_pattern() && !text@.contains('\n') ==> (r is Some <==> (text@.len()
            > 0 && text@[0] == '#')) && (r matches Some(t) ==> t@ == text@),
        pattern@ == identifier_pattern() ==> (r is Some <==> (text@.len() > 0 && is_ascii_alpha(
            text@[0],
        ))) && (r matches Some(t) ==> t@ == text@.take(ident_len(text@) as int)),
        pattern@ == number_pattern() ==> (r is Some <==> digit_run(text@) > 0) && (r matches Some(
            t,
        ) ==> t@ == text@.take(number_len(text@) as int)),
        pattern@ == whitespace_pattern() ==> (r is Some <==> space_run(text@) > 0) && (r matches Some(
            t,
        ) ==> t@ == text@.take(space_run(text@) as int)),
{
    let re = regex::Regex::new(pattern).ok()?;
    let caps = re.captures(text)?;
    Some(caps.get(1)?.as_str().to_string())
}

/// A place in the source: a line and a character offset within it.
pub struct Position {
    pub line: usize,
    pub offset: usize,
}

impl Position {
    pub fn advance(&mut self, amount: usize)
        requires
            old(self).offset + amount <= usize::MAX,
        ensures
            final(self).offset == old(self).offset + amount,
            final(self).line == old(self).line,
    {
        self.offset = self.offset + amount;
    }
}

/// A token with its place.
pub open spec fn placed(w: TokenWrapper) -> Placed {
    (w.token@, w.span.line as int, w.span.start as int, w.span.len as int)
}

pub open spec fn placed_view(s: Seq<TokenWrapper>) -> Seq<Placed> {
    s.map_values(|w: TokenWrapper| placed(w))
}

/// Whether a recognizer's answer `r` at `p` is the match `m`.
pub open spec fn recognized(r: Option<TokenWrapper>, m: Option<(SpecToken, nat)>, p: Position) -> bool {
    match r {
        Some(w) => m == Some((w.token@, w.span.len as nat)) && w.span.line == p.line
            && w.span.start == p.offset,
        None => m is None,
    }
}

/// The rest of `contents` from `offset` on, as a string.
fn rest_of(contents: &str, offset: usize) -> (r: &str)
    requires
        offset <= contents@.len(),
    ensures
        r@ == contents@.skip(offset as int),
{
    let n = contents.unicode_len();
    let r = contents.substring_char(offset, n);
    assert(r@ =~= contents@.skip(offset as int));
    r
}

pub struct CommentTokenizer;

impl CommentTokenizer {
    pub fn new() -> Self {
        CommentTokenizer
    }

    pub fn tokenize(&self, contents: &str, position: &Position) -> (r: Option<TokenWrapper>)
        requires
            position.offset < contents@.len(),
            !contents@.contains('\n'),
        ensures
            recognized(r, comment_match(contents@.skip(position.offset as int)), *position),
    {
        let view = rest_of(contents, position.offset);
        assert(!view@.contains('\n')) by {
            if view@.contains('\n') {
                let k = choose|k: int| 0 <= k < view@.len() && view@[k] == '\n';
                assert(contents@[position.offset + k] == '\n');
            }
        }
        match regex_prefix("^(#.*$)", view) {
            Some(text) => {
                let len = text.as_str().unicode_len();
                Some(TokenWrapper {
                    token: Token::Comment(text),
                    span: TokenSpan::new(position.line, position.offset, len),
                })
            },
            None => None,
        }
    }
}

pub struct KeywordTokenizer {
    keywords: Vec<&'static str>,
}

impl KeywordTokenizer {
    pub closed spec fn wf(&self) -> bool {
        strs_view(self.keywords@) == keyword_texts()
    }

    pub fn new() -> (r: Self)
        ensures
            r.wf(),
    {
        KeywordTokenizer { keywords: Keyword::all() }
    }

    pub fn tokenize(&self, contents: &str, position: &Position) -> (r: Option<TokenWrapper>)
        requires
            self.wf(),
            position.offset < contents@.len(),
        ensures
            recognized(r, keyword_match_from(contents@.skip(position.offset as int), 0), *position),
    {
        let ghost v = contents@.skip(position.offset as int);
        let mut i: usize = 0;
        while i < self.keywords.len()
            invariant
                self.wf(),
                i <= self.keywords@.len(),
                self.keywords@.len() == keyword_texts().len(),
                position.offset < contents@.len(),
                v == contents@.skip(position.offset as int),
                keyword_match_from(v, 0) == keyword_match_from(v, i as int),
            decreases self.keywords.len() - i,
        {
            let keyword = self.keywords[i];
            assert(keyword@ == keyword_texts()[i as int]) by {
                assert(strs_view(self.keywords@)[i as int] == keyword@);
            }
            if occurs_at(contents, position.offset, keyword) {
                let k = Keyword::from_string(keyword);
                let token = match k {
                    Keyword::True => Token::BooleanLiteral(true),
                    Keyword::False => Token::BooleanLiteral(false),
                    _ => Token::Keyword(k),
                };
                let len = keyword.unicode_len();
                return Some(TokenWrapper {
                    token,
                    span: TokenSpan::new(position.line, position.offset, len),
                });
            }
            i = i + 1;
        }
        None
    }
}

pub struct CharTokenizer {
    symbols: Vec<&'static str>,
}

impl CharTokenizer {
    pub closed spec fn wf(&self) -> bool {
        strs_view(self.symbols@) == symbol_texts()
    }

    pub fn new() -> (r: Self)
        ensures
            r.wf(),
    {
        CharTokenizer { symbols: Token::symbols() }
    }

    /// The first symbol of the table that the rest of the line starts with:
    /// the table lists each symbol before the shorter ones that begin it.
    pub fn tokenize(&self, contents: &str, position: &Position) -> (r: Option<TokenWrapper>)
        requires
            self.wf(),
            position.offset < contents@.len(),
        ensures
            recognized(r, symbol_match_from(contents@.skip(position.offset as int), 0), *position),
    {
        let ghost v = contents@.skip(position.offset as int);
        let mut i: usize = 0;
        while i < self.symbols.len()
            invariant
                self.wf(),
                i <= self.symbols@.len(),
                self.symbols@.len() == symbol_texts().len(),
                position.offset < contents@.len(),
                v == contents@.skip(position.offset as int),
                symbol_match_from(v, 0) == symbol_match_from(v, i as int),
            decreases self.symbols.len() - i,
        {
            let symbol = self.symbols[i];
            assert(symbol@ == symbol_texts()[i as int]) by {
                assert(strs_view(self.symbols@)[i as int] == symbol@);
            }
            if occurs_at(contents, position.offset, symbol) {
                let len = symbol.unicode_len();
                return Some(TokenWrapper {
                    token: Token::from_symbol(symbol),
                    span: TokenSpan::new(position.line, position.offset, len),
                });
            }
            i = i + 1;
        }
        None
    }
}

pub struct StringTokenizer;

impl StringTokenizer {
    pub fn new() -> Self {
        StringTokenizer
    }

    pub fn tokenize(&self, contents: &str, position: &Position) -> (r: Option<TokenWrapper>)
        requires
            position.offset < contents@.len(),
        ensures
            recognized(r, string_match(contents@.skip(position.offset as int)), *position),
    {
        let ghost v = contents@.skip(position.offset as int);
        let n = contents.unicode_len();
        let start = position.offset;
        if contents.get_char(start) != '"' {
            return None;
        }
        let mut j: usize = start + 1;
        while j < n && contents.get_char(j) != '"'
            invariant
                n == contents@.len(),
                start < j <= n,
                v == contents@.skip(start as int),
                quote_index(v, 1) == quote_index(v, j - start),
            decreases n - j,
        {
            j = j + 1;
        }
        if j >= n {
            return None;
        }
        let literal = contents.substring_char(start + 1, j).to_owned();
        assert(literal@ =~= v.subrange(1, j - start));
        Some(TokenWrapper {
            token: Token::StringLiteral(literal),
            span: TokenSpan::new(position.line, start, j - start + 1),
        })
    }
}

pub struct IdentifierTokenizer;

impl IdentifierTokenizer {
    pub fn new() -> Self {
        IdentifierTokenizer
    }

    pub fn tokenize(&self, contents: &str, position: &Position) -> (r: Option<TokenWrapper>)
        requires
            position.offset < contents@.len(),
        ensures
            recognized(r, identifier_match(contents@.skip(position.offset as int)), *position),
    {
        let view = rest_of(contents, position.offset);
        proof {
            crate::lexing::lemma_ident_run_bound(view@.drop_first());
        }
        match regex_prefix("^([a-zA-Z][a-zA-Z0-9_$]*)", view) {
            Some(text) => {
                let len = text.as_str().unicode_len();
                Some(TokenWrapper {
                    token: Token::Identifier(text),
                    span: TokenSpan::new(position.line, position.offset, len),
                })
            },
            None => None,
        }
    }
}

pub struct WhitespaceTokenizer;

impl WhitespaceTokenizer {
    pub fn new() -> Self {
        WhitespaceTokenizer
    }

    pub fn tokenize(&self, contents: &str, position: &Position) -> (r: Option<TokenWrapper>)
        requires
            position.offset < contents@.len(),
        ensures
            recognized(r, whitespace_match(contents@.skip(position.offset as int)), *position),
    {
        let view = rest_of(contents, position.offset);
        proof {
            crate::lexing::lemma_space_run_bound(view@);
        }
        match regex_prefix("^(\\s+)", view) {
            Some(text) => {
                let len = text.as_str().unicode_len();
                Some(TokenWrapper {
                    token: Token::Whitespace,
                    span: TokenSpan::new(position.line, position.offset, len),
                })
            },
            None => None,
        }
    }
}

pub struct NumberTokenizer;

impl NumberTokenizer {
    pub fn new() -> Self {
        NumberTokenizer
    }

    /// A number literal; one too large for the range is infinite.
    pub fn tokenize(&self, contents: &str, position: &Position) -> (r: Option<TokenWrapper>)
        requires
            position.offset < contents@.len(),
        ensures
            recognized(r, number_match(contents@.skip(position.offset as int)), *position),
    {
        let view = rest_of(contents, position.offset);
        proof {
            crate::lexing::lemma_number_len_bound(view@);
        }
        match regex_prefix("^([0-9]+\\.?[0-9]*)", view) {
            Some(text) => {
                let len = text.as_str().unicode_len();
                proof {
                    lemma_number_literal(view@);
                }
                Some(TokenWrapper {
                    token: Token::NumberLiteral(Number::from_literal(text.as_str())),
                    span: TokenSpan::new(position.line, position.offset, len),
                })
            },
            None => None,
        }
    }
}

/// The text of a number match is a number literal.
proof fn lemma_number_literal(v: Seq<char>)
    requires
        digit_run(v) > 0,
    ensures
        is_number_literal(v.take(number_len(v) as int)),
{
    let d = digit_run(v) as int;
    let n = number_len(v) as int;
    let t = v.take(n);
    crate::number::lemma_digit_run_bound(v);
    crate::lexing::lemma_number_len_bound(v);
    if d < v.len() && v[d] == '.' {
        let rest = v.skip(d + 1);
        crate::number::lemma_digit_run_bound(rest);
        crate::number::lemma_digit_run_of(t, d);
        assert forall|i: int| d < i < t.len() implies crate::text::is_digit(t[i]) by {
            assert(t[i] == rest[i - d - 1]);
        }
    } else {
        crate::number::lemma_digit_run_of(t, d);
    }
}

#[derive(Debug)]
pub enum LexError {
    /// No recognizer matches the rest of the line.
    UnrecognizedInput { line: usize, offset: usize, remaining_text: String },
}

impl View for LexError {
    type V = SpecLexError;

    open spec fn view(&self) -> SpecLexError {
        match self {
            LexError::UnrecognizedInput { line, offset, remaining_text } => SpecLexError::UnrecognizedInput(
                *line as int,
                *offset as int,
                remaining_text@,
            ),
        }
    }
}

pub struct Lexer;

impl Lexer {
    /// Tokenizes one line, appending its tokens but white space to `tokens`.
    fn tokenize_line(line: &str, ln: usize, tokens: &mut Vec<TokenWrapper>) -> (r: Result<(), LexError>)
        requires
            !line@.contains('\n'),
        ensures
            match tokenize_line(line@, ln as int, 0, placed_view(old(tokens)@)) {
                Ok(acc) => r is Ok && placed_view(final(tokens)@) == acc,
                Err(e) => r matches Err(x) && x@ == e,
            },
    {
        let comments = CommentTokenizer::new();
        let keywords = KeywordTokenizer::new();
        let chars = CharTokenizer::new();
        let strings = StringTokenizer::new();
        let identifiers = IdentifierTokenizer::new();
        let numbers = NumberTokenizer::new();
        let whitespace = WhitespaceTokenizer::new();
        let n = line.unicode_len();
        let mut position = Position { line: ln, offset: 0 };
        while position.offset < n
            invariant
                n == line@.len(),
                !line@.contains('\n'),
                keywords.wf(),
                chars.wf(),
                position.line == ln,
                position.offset <= n,
                tokenize_line(line@, ln as int, 0, placed_view(old(tokens)@)) == tokenize_line(
                    line@,
                    ln as int,
                    position.offset as int,
                    placed_view(tokens@),
                ),
            decreases n - position.offset,
        {
            let ghost v = line@.skip(position.offset as int);
            let ghost m = recognize(v);
            let w = if let Some(w) = comments.tokenize(line, &position) {
                w
            } else if let Some(w) = keywords.tokenize(line, &position) {
                w
            } else if let Some(w) = chars.tokenize(line, &position) {
                w
            } else if let Some(w) = strings.tokenize(line, &position) {
                w
            } else if let Some(w) = identifiers.tokenize(line, &position) {
                w
            } else {
                proof {
                    crate::lexing::lemma_number_len_bound(v);
                }
                match numbers.tokenize(line, &position) {
                    Some(w) => w,
                    None => match whitespace.tokenize(line, &position) {
                        Some(w) => w,
                        None => {
                            let rest = rest_of(line, position.offset).to_owned();
                            return Err(
                                LexError::UnrecognizedInput {
                                    line: ln,
                                    offset: position.offset,
                                    remaining_text: rest,
                                },
                            );
                        },
                    },
                }
            };
            assert(m == Some((w.token@, w.span.len as nat)));
            let len = w.len();
            if len == 0 || len > n - position.offset {
                let rest = rest_of(line, position.offset).to_owned();
                return Err(
                    LexError::UnrecognizedInput { line: ln, offset: position.offset, remaining_text: rest },
                );
            }
            let blank = match w.token {
                Token::Whitespace => true,
                _ => false,
            };
            if !blank {
                let ghost before = tokens@;
                tokens.push(w);
                assert(placed_view(tokens@) =~= placed_view(before).push(placed(w)));
            }
            position.advance(len);
        }
        Ok(())
    }

    /// Tokenizes a source text: line by line, each line split at newlines;
    /// white space is left out and every other token keeps its line, start
    /// and length. A place where no recognizer matches ends tokenizing with
    /// an error.
    pub fn tokenize(source_code: String) -> (r: Result<Vec<TokenWrapper>, LexError>)
        ensures
            match tokenize_source(source_code@) {
                Ok(acc) => r matches Ok(ts) && placed_view(ts@) == acc,
                Err(e) => r matches Err(x) && x@ == e,
            },
    {
        let src = source_code.as_str();
        let n = src.unicode_len();
        let mut tokens: Vec<TokenWrapper> = Vec::new();
        let mut start: usize = 0;
        let mut ln: usize = 0;
        assert(placed_view(tokens@) =~= Seq::<Placed>::empty());
        loop
            invariant
                n == src@.len(),
                src@ == source_code@,
                start <= n,
                ln <= start,
                tokenize_source(src@) == tokenize_from(src@, start as int, ln as int, placed_view(tokens@)),
            decreases n - start,
        {
            let mut e = start;
            while e < n && src.get_char(e) != '\n'
                invariant
                    n == src@.len(),
                    start <= e <= n,
                    line_end(src@, start as int) == line_end(src@, e as int),
                    forall|k: int| start <= k < e ==> src@[k] != '\n',
                decreases n - e,
            {
                e = e + 1;
            }
            assert(line_end(src@, e as int) == e);
            let line = src.substring_char(start, e);
            assert(!line@.contains('\n')) by {
                if line@.contains('\n') {
                    let k = choose|k: int| 0 <= k < line@.len() && line@[k] == '\n';
                    assert(src@[start + k] == '\n');
                }
            }
            match Self::tokenize_line(line, ln, &mut tokens) {
                Ok(()) => {},
                Err(x) => {
                    return Err(x);
                },
            }
            if e < n {
                start = e + 1;
                ln = ln + 1;
            } else {
                return Ok(tokens);
            }
        }
    }
}

} // verus!
