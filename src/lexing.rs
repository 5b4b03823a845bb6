//! What tokenizing means: how each recognizer matches the rest of a line, and
//! how a source text becomes a sequence of tokens with their places.
use vstd::prelude::*;
use crate::number::{digit_run, literal_number};
use crate::text::is_prefix;
use crate::token::{keyword_of, keyword_texts, symbol_texts, symbol_token, Keyword, SpecToken};

verus! {

/// Whether `c` is an ASCII letter.
pub open spec fn is_ascii_alpha(c: char) -> bool {
    ('a' <= c && c <= 'z') || ('A' <= c && c <= 'Z')
}

/// Whether `c` may follow the first letter of an identifier.
pub open spec fn is_ident_char(c: char) -> bool {
    is_ascii_alpha(c) || ('0' <= c && c <= '9') || c == '_' || c == '$'
}

/// Whether `c` has the Unicode property White_Space.
pub open spec fn is_space(c: char) -> bool {
    ('\t' <= c && c <= '\r') || c == ' ' || c == '\u{85}' || c == '\u{a0}' || c == '\u{1680}' || (
    '\u{2000}' <= c && c <= '\u{200a}') || c == '\u{2028}' || c == '\u{2029}' || c == '\u{202f}'
        || c == '\u{205f}' || c == '\u{3000}'
}

/// The length of the run of identifier characters at the start of `s`.
pub open spec fn ident_run(s: Seq<char>) -> nat
    decreases s.len(),
{
    if s.len() > 0 && is_ident_char(s[0]) {
        1 + ident_run(s.drop_first())
    } else {
        0
    }
}

/// The length of the run of white space at the start of `s`.
pub open spec fn space_run(s: Seq<char>) -> nat
    decreases s.len(),
{
    if s.len() > 0 && is_space(s[0]) {
        1 + space_run(s.drop_first())
    } else {
        0
    }
}

pub proof fn lemma_ident_run_bound(s: Seq<char>)
    ensures
        ident_run(s) <= s.len(),
        forall|i: int| 0 <= i < ident_run(s) ==> is_ident_char(#[trigger] s[i]),
    decreases s.len(),
{
    if s.len() > 0 && is_ident_char(s[0]) {
        lemma_ident_run_bound(s.drop_first());
        assert forall|i: int| 0 <= i < ident_run(s) implies is_ident_char(#[trigger] s[i]) by {
            if i > 0 {
                assert(s[i] == s.drop_first()[i - 1]);
            }
        }
    }
}

pub proof fn lemma_space_run_bound(s: Seq<char>)
    ensures
        space_run(s) <= s.len(),
        forall|i: int| 0 <= i < space_run(s) ==> is_space(#[trigger] s[i]),
    decreases s.len(),
{
    if s.len() > 0 && is_space(s[0]) {
        lemma_space_run_bound(s.drop_first());
        assert forall|i: int| 0 <= i < space_run(s) implies is_space(#[trigger] s[i]) by {
            if i > 0 {
                assert(s[i] == s.drop_first()[i - 1]);
            }
        }
    }
}

pub proof fn lemma_number_len_bound(s: Seq<char>)
    ensures
        number_len(s) <= s.len(),
        digit_run(s) <= number_len(s),
{
    crate::number::lemma_digit_run_bound(s);
    let d = digit_run(s);
    if d < s.len() && s[d as int] == '.' {
        crate::number::lemma_digit_run_bound(s.skip(d + 1 as int));
    }
}

/// The length of the identifier at the start of `s`, which starts with a letter.
pub open spec fn ident_len(s: Seq<char>) -> nat {
    1 + ident_run(s.drop_first())
}

/// The length of the number literal at the start of `s`: digits, then, if a
/// point follows, the point and the digits after it.
pub open spec fn number_len(s: Seq<char>) -> nat {
    let d = digit_run(s);
    if d < s.len() && s[d as int] == '.' {
        d + 1 + digit_run(s.skip(d + 1 as int))
    } else {
        d
    }
}

/// A comment runs from `#` to the end of the line.
pub open spec fn comment_match(v: Seq<char>) -> Option<(SpecToken, nat)> {
    if v.len() > 0 && v[0] == '#' {
        Some((SpecToken::Comment(v), v.len()))
    } else {
        None
    }
}

/// The token that a keyword stands for: `true` and `false` are literals.
pub open spec fn keyword_token(k: Keyword) -> SpecToken {
    if k == Keyword::True {
        SpecToken::BooleanLiteral(true)
    } else if k == Keyword::False {
        SpecToken::BooleanLiteral(false)
    } else {
        SpecToken::Keyword(k)
    }
}

/// The first keyword from the `i`-th on that `v` starts with.
pub open spec fn keyword_match_from(v: Seq<char>, i: int) -> Option<(SpecToken, nat)>
    decreases keyword_texts().len() - i,
{
    if i < 0 || i >= keyword_texts().len() {
        None
    } else if is_prefix(keyword_texts()[i], v) {
        Some((keyword_token(keyword_of(keyword_texts()[i])), keyword_texts()[i].len()))
    } else {
        keyword_match_from(v, i + 1)
    }
}

/// The first symbol from the `i`-th on that `v` starts with.
pub open spec fn symbol_match_from(v: Seq<char>, i: int) -> Option<(SpecToken, nat)>
    decreases symbol_texts().len() - i,
{
    if i < 0 || i >= symbol_texts().len() {
        None
    } else if is_prefix(symbol_texts()[i], v) {
        Some((symbol_token(symbol_texts()[i]), symbol_texts()[i].len()))
    } else {
        symbol_match_from(v, i + 1)
    }
}

/// The first double quote in `v` at or after `k`.
pub open spec fn quote_index(v: Seq<char>, k: int) -> Option<int>
    decreases v.len() - k,
{
    if k < 0 || k >= v.len() {
        None
    } else if v[k] == '"' {
        Some(k)
    } else {
        quote_index(v, k + 1)
    }
}

/// A string literal: a double quote, any characters, and the next double
/// quote; there are no escapes.
pub open spec fn string_match(v: Seq<char>) -> Option<(SpecToken, nat)> {
    if v.len() > 0 && v[0] == '"' {
        match quote_index(v, 1) {
            Some(j) => Some((SpecToken::StringLiteral(v.subrange(1, j)), (j + 1) as nat)),
            None => None,
        }
    } else {
        None
    }
}

pub open spec fn identifier_match(v: Seq<char>) -> Option<(SpecToken, nat)> {
    if v.len() > 0 && is_ascii_alpha(v[0]) {
        Some((SpecToken::Identifier(v.take(ident_len(v) as int)), ident_len(v)))
    } else {
        None
    }
}

pub open spec fn number_match(v: Seq<char>) -> Option<(SpecToken, nat)> {
    if digit_run(v) > 0 {
        Some((SpecToken::NumberLiteral(literal_number(v.take(number_len(v) as int))), number_len(v)))
    } else {
        None
    }
}

pub open spec fn whitespace_match(v: Seq<char>) -> Option<(SpecToken, nat)> {
    if space_run(v) > 0 {
        Some((SpecToken::Whitespace, space_run(v)))
    } else {
        None
    }
}

/// The token at the start of `v`: the first recognizer that matches wins, in
/// the order comment, keyword, symbol, string, identifier, number, white space.
pub open spec fn recognize(v: Seq<char>) -> Option<(SpecToken, nat)> {
    if comment_match(v) is Some {
        comment_match(v)
    } else if keyword_match_from(v, 0) is Some {
        keyword_match_from(v, 0)
    } else if symbol_match_from(v, 0) is Some {
        symbol_match_from(v, 0)
    } else if string_match(v) is Some {
        string_match(v)
    } else if identifier_match(v) is Some {
        identifier_match(v)
    } else if number_match(v) is Some {
        number_match(v)
    } else {
        whitespace_match(v)
    }
}

pub enum SpecLexError {
    UnrecognizedInput(int, int, Seq<char>),
}

/// A token with its line, start and length.
pub type Placed = (SpecToken, int, int, int);

/// Tokenizes `line[off..]`, the line numbered `ln`, after the tokens `acc`;
/// white space is left out.
pub open spec fn tokenize_line(line: Seq<char>, ln: int, off: int, acc: Seq<Placed>) -> Result<Seq<Placed>, SpecLexError>
    decreases line.len() - off,
{
    if off < 0 || off >= line.len() {
        Ok(acc)
    } else {
        match recognize(line.skip(off)) {
            None => Err(SpecLexError::UnrecognizedInput(ln, off, line.skip(off))),
            Some((tok, n)) => if n == 0 || off + n > line.len() {
                Err(SpecLexError::UnrecognizedInput(ln, off, line.skip(off)))
            } else if tok is Whitespace {
                tokenize_line(line, ln, off + n, acc)
            } else {
                tokenize_line(line, ln, off + n, acc.push((tok, ln, off, n as int)))
            },
        }
    }
}

/// The end of the line that starts at `start`: the next newline, or the end.
pub open spec fn line_end(src: Seq<char>, start: int) -> int
    decreases src.len() - start,
{
    if start < 0 || start >= src.len() || src[start] == '\n' {
        if start < 0 {
            0
        } else if start > src.len() {
            src.len() as int
        } else {
            start
        }
    } else {
        line_end(src, start + 1)
    }
}

/// Tokenizes the lines from the one at `start`, numbered `ln`, after `acc`.
pub open spec fn tokenize_from(src: Seq<char>, start: int, ln: int, acc: Seq<Placed>) -> Result<Seq<Placed>, SpecLexError>
    decreases src.len() - start,
{
    let e = line_end(src, start);
    match tokenize_line(src.subrange(start, e), ln, 0, acc) {
        Err(err) => Err(err),
        Ok(acc2) => if start <= e < src.len() {
            tokenize_from(src, e + 1, ln + 1, acc2)
        } else {
            Ok(acc2)
        },
    }
}

/// The tokens of a source text, line by line, each line split at newlines.
pub open spec fn tokenize_source(src: Seq<char>) -> Result<Seq<Placed>, SpecLexError> {
    tokenize_from(src, 0, 0, Seq::empty())
}

/// Text that starts with `==` is one equality token of two characters, never
/// two assignment tokens: the symbol table lists `==` before `=`.
pub proof fn lemma_double_equals(v: Seq<char>)
    requires
        v.len() >= 2,
        v[0] == '=',
        v[1] == '=',
    ensures
        recognize(v) == Some((SpecToken::Eq, 2nat)),
{
    reveal_strlit("==");
    reveal_strlit("let");
    reveal_strlit("if");
    reveal_strlit("fun");
    reveal_strlit("end");
    reveal_strlit("while");
    reveal_strlit("true");
    reveal_strlit("false");
    reveal_strlit("return");
    assert(v.take(2) =~= "=="@);
    assert(is_prefix(symbol_texts()[0], v));
    let kws = keyword_texts();
    assert forall|i: int| 0 <= i < kws.len() implies !is_prefix(#[trigger] kws[i], v) by {
        assert(kws[i][0] != '=');
        if is_prefix(kws[i], v) {
            assert(v.take(kws[i].len() as int)[0] == v[0]);
        }
    }
    assert(keyword_match_from(v, 0) is None) by {
        reveal_with_fuel(keyword_match_from, 9);
    }
}

/// The characters of `s` that are not white space (a newline is white space).
pub open spec fn non_space(s: Seq<char>) -> Seq<char>
    decreases s.len(),
{
    if s.len() == 0 {
        s
    } else if is_space(s.last()) {
        non_space(s.drop_last())
    } else {
        non_space(s.drop_last()).push(s.last())
    }
}

/// The text of `line` that a token's span covers.
pub open spec fn span_text(line: Seq<char>, t: Placed) -> Seq<char> {
    line.subrange(t.2, t.2 + t.3)
}

/// The texts of the spans of `toks` within `line`, one after another.
pub open spec fn line_texts(line: Seq<char>, toks: Seq<Placed>) -> Seq<char>
    decreases toks.len(),
{
    if toks.len() == 0 {
        Seq::empty()
    } else {
        span_text(line, toks[0]) + line_texts(line, toks.drop_first())
    }
}

/// Where the line numbered `k` starts.
pub open spec fn line_start(src: Seq<char>, k: nat) -> int
    decreases k,
{
    if k == 0 {
        0
    } else {
        line_end(src, line_start(src, (k - 1) as nat)) + 1
    }
}

/// The line numbered `k`, without its newline.
pub open spec fn nth_line(src: Seq<char>, k: nat) -> Seq<char> {
    src.subrange(line_start(src, k), line_end(src, line_start(src, k)))
}

/// The texts of the spans of `toks` within the source, one after another.
pub open spec fn source_texts(src: Seq<char>, toks: Seq<Placed>) -> Seq<char>
    decreases toks.len(),
{
    if toks.len() == 0 {
        Seq::empty()
    } else {
        span_text(nth_line(src, toks[0].1 as nat), toks[0]) + source_texts(src, toks.drop_first())
    }
}

proof fn lemma_non_space_concat(a: Seq<char>, b: Seq<char>)
    ensures
        non_space(a + b) == non_space(a) + non_space(b),
    decreases b.len(),
{
    if b.len() == 0 {
        assert(a + b =~= a);
        assert(non_space(a) + non_space(b) =~= non_space(a));
    } else {
        lemma_non_space_concat(a, b.drop_last());
        assert((a + b).drop_last() =~= a + b.drop_last());
        if is_space(b.last()) {
        } else {
            assert(non_space(a) + non_space(b.drop_last()).push(b.last()) =~= (non_space(a)
                + non_space(b.drop_last())).push(b.last()));
        }
    }
}

proof fn lemma_non_space_of_spaces(s: Seq<char>)
    requires
        forall|i: int| 0 <= i < s.len() ==> is_space(#[trigger] s[i]),
    ensures
        non_space(s) == Seq::<char>::empty(),
    decreases s.len(),
{
    if s.len() > 0 {
        lemma_non_space_of_spaces(s.drop_last());
    }
}

proof fn lemma_keyword_not_space(v: Seq<char>, i: int)
    ensures
        keyword_match_from(v, i) matches Some((t, _)) ==> !(t is Whitespace),
    decreases keyword_texts().len() - i,
{
    if 0 <= i < keyword_texts().len() && !is_prefix(keyword_texts()[i], v) {
        lemma_keyword_not_space(v, i + 1);
    }
}

proof fn lemma_symbol_not_space(v: Seq<char>, i: int)
    ensures
        symbol_match_from(v, i) matches Some((t, _)) ==> !(t is Whitespace),
    decreases symbol_texts().len() - i,
{
    if 0 <= i < symbol_texts().len() && !is_prefix(symbol_texts()[i], v) {
        lemma_symbol_not_space(v, i + 1);
    }
}

/// Only the white-space recognizer gives a white-space token, and it covers
/// white space only.
proof fn lemma_space_token(v: Seq<char>)
    ensures
        (recognize(v) is Some && recognize(v)->Some_0.0 is Whitespace) ==> ({
            let n = recognize(v)->Some_0.1;
            n == space_run(v) && n <= v.len() && forall|i: int| 0 <= i < n ==> is_space(#[trigger] v[i])
        }),
{
    lemma_keyword_not_space(v, 0);
    lemma_symbol_not_space(v, 0);
    lemma_space_run_bound(v);
}

proof fn lemma_line_tokens(line: Seq<char>, ln: int, off: int, acc: Seq<Placed>)
    requires
        0 <= off <= line.len(),
        tokenize_line(line, ln, off, acc) is Ok,
    ensures
        ({
            let res = tokenize_line(line, ln, off, acc)->Ok_0;
            &&& acc.len() <= res.len()
            &&& res.take(acc.len() as int) == acc
            &&& forall|j: int| acc.len() <= j < res.len() ==> (#[trigger] res[j]).1 == ln
            &&& non_space(line.skip(off)) == non_space(line_texts(line, res.skip(acc.len() as int)))
        }),
    decreases line.len() - off,
{
    let res = tokenize_line(line, ln, off, acc)->Ok_0;
    if off >= line.len() {
        assert(res.skip(acc.len() as int) =~= Seq::<Placed>::empty());
        assert(line.skip(off) =~= Seq::<char>::empty());
        assert(res.take(acc.len() as int) =~= acc);
    } else {
        let v = line.skip(off);
        let (tok, n) = recognize(v)->Some_0;
        assert(line.skip(off) =~= line.subrange(off, off + n) + line.skip(off + n));
        lemma_non_space_concat(line.subrange(off, off + n), line.skip(off + n));
        if tok is Whitespace {
            lemma_space_token(v);
            assert forall|i: int| 0 <= i < n implies is_space(#[trigger] line.subrange(off, off + n)[i]) by {
                assert(line.subrange(off, off + n)[i] == v[i]);
            }
            lemma_non_space_of_spaces(line.subrange(off, off + n));
            lemma_line_tokens(line, ln, off + n, acc);
            assert(non_space(line.subrange(off, off + n)) + non_space(line.skip(off + n))
                =~= non_space(line.skip(off + n)));
        } else {
            let t = (tok, ln, off, n as int);
            let acc2 = acc.push(t);
            lemma_line_tokens(line, ln, off + n, acc2);
            assert(res.take(acc2.len() as int) == acc2);
            assert(res[acc.len() as int] == acc2[acc.len() as int]);
            assert(res.take(acc.len() as int) =~= acc) by {
                assert forall|j: int| 0 <= j < acc.len() implies res.take(acc.len() as int)[j] == acc[j] by {
                    assert(res[j] == res.take(acc2.len() as int)[j]);
                    assert(acc2[j] == acc[j]);
                }
            }
            let tail = res.skip(acc.len() as int);
            assert(tail[0] == t);
            assert(tail.drop_first() =~= res.skip(acc2.len() as int));
            assert(span_text(line, t) =~= line.subrange(off, off + n));
            assert(line_texts(line, tail) == span_text(line, t) + line_texts(line, tail.drop_first()));
            lemma_non_space_concat(span_text(line, t), line_texts(line, tail.drop_first()));
            assert forall|j: int| acc.len() <= j < res.len() implies (#[trigger] res[j]).1 == ln by {
                if j == acc.len() {
                } else {
                }
            }
        }
    }
}

proof fn lemma_line_end(src: Seq<char>, start: int)
    requires
        0 <= start <= src.len(),
    ensures
        start <= line_end(src, start) <= src.len(),
        line_end(src, start) < src.len() ==> src[line_end(src, start)] == '\n',
        forall|k: int| start <= k < line_end(src, start) ==> src[k] != '\n',
    decreases src.len() - start,
{
    if start < src.len() && src[start] != '\n' {
        lemma_line_end(src, start + 1);
    }
}

proof fn lemma_texts_of_line(src: Seq<char>, line: Seq<char>, ln: nat, toks: Seq<Placed>)
    requires
        nth_line(src, ln) == line,
        forall|j: int| 0 <= j < toks.len() ==> (#[trigger] toks[j]).1 == ln,
    ensures
        source_texts(src, toks) == line_texts(line, toks),
    decreases toks.len(),
{
    if toks.len() > 0 {
        assert(toks[0].1 == ln);
        lemma_texts_of_line(src, line, ln, toks.drop_first());
    }
}

proof fn lemma_source_texts_concat(src: Seq<char>, a: Seq<Placed>, b: Seq<Placed>)
    ensures
        source_texts(src, a + b) == source_texts(src, a) + source_texts(src, b),
    decreases a.len(),
{
    if a.len() == 0 {
        assert(a + b =~= b);
        assert(source_texts(src, a) + source_texts(src, b) =~= source_texts(src, b));
    } else {
        lemma_source_texts_concat(src, a.drop_first(), b);
        assert((a + b).drop_first() =~= a.drop_first() + b);
        assert((a + b)[0] == a[0]);
        assert(source_texts(src, a + b) =~= source_texts(src, a) + source_texts(src, b));
    }
}

proof fn lemma_source_tokens(src: Seq<char>, start: int, ln: nat, acc: Seq<Placed>)
    requires
        0 <= start <= src.len(),
        start == line_start(src, ln),
        tokenize_from(src, start, ln as int, acc) is Ok,
    ensures
        ({
            let res = tokenize_from(src, start, ln as int, acc)->Ok_0;
            &&& acc.len() <= res.len()
            &&& res.take(acc.len() as int) == acc
            &&& non_space(src.skip(start)) == non_space(source_texts(src, res.skip(acc.len() as int)))
        }),
    decreases src.len() - start,
{
    let res = tokenize_from(src, start, ln as int, acc)->Ok_0;
    let e = line_end(src, start);
    lemma_line_end(src, start);
    let line = src.subrange(start, e);
    lemma_line_tokens(line, ln as int, 0, acc);
    let acc2 = tokenize_line(line, ln as int, 0, acc)->Ok_0;
    let mine = acc2.skip(acc.len() as int);
    assert(line.skip(0) =~= line);
    assert forall|j: int| 0 <= j < mine.len() implies (#[trigger] mine[j]).1 == ln by {
        assert(mine[j] == acc2[acc.len() + j]);
    }
    lemma_texts_of_line(src, line, ln, mine);
    if e < src.len() {
        lemma_source_tokens(src, e + 1, ln + 1, acc2);
        let rest = res.skip(acc2.len() as int);
        assert(res.take(acc.len() as int) =~= acc) by {
            assert forall|j: int| 0 <= j < acc.len() implies res.take(acc.len() as int)[j] == acc[j] by {
                assert(res[j] == res.take(acc2.len() as int)[j]);
                assert(acc2[j] == acc2.take(acc.len() as int)[j]);
            }
        }
        assert(res.skip(acc.len() as int) =~= mine + rest) by {
            assert forall|j: int| 0 <= j < mine.len() implies res.skip(acc.len() as int)[j] == (mine
                + rest)[j] by {
                assert(res[acc.len() + j] == res.take(acc2.len() as int)[acc.len() + j]);
            }
        }
        lemma_source_texts_concat(src, mine, rest);
        assert(src.skip(start) =~= line + seq!['\n'] + src.skip(e + 1));
        lemma_non_space_concat(line + seq!['\n'], src.skip(e + 1));
        lemma_non_space_concat(line, seq!['\n']);
        assert(non_space(seq!['\n']) =~= Seq::<char>::empty()) by {
            assert(seq!['\n'].drop_last() =~= Seq::<char>::empty());
            assert(is_space('\n'));
            assert(seq!['\n'].last() == '\n');
            assert(non_space(Seq::<char>::empty()) == Seq::<char>::empty());
        }
        lemma_non_space_concat(source_texts(src, mine), source_texts(src, rest));
        assert(non_space(line) + Seq::<char>::empty() =~= non_space(line));
    } else {
        assert(src.skip(start) =~= line);
    }
}

/// A token lies within `line`, is not empty, and is the token that
/// recognizing at its start gives, over exactly its length.
pub open spec fn placed_in(line: Seq<char>, t: Placed) -> bool {
    0 <= t.2 && 0 < t.3 && t.2 + t.3 <= line.len() && recognize(line.skip(t.2)) == Some(
        (t.0, t.3 as nat),
    )
}

/// `a` ends before `b` starts: on an earlier line, or earlier on the same line.
pub open spec fn precedes(a: Placed, b: Placed) -> bool {
    a.1 < b.1 || (a.1 == b.1 && a.2 + a.3 <= b.2)
}

/// The span of `t` covers the character at `p` of line `k`.
pub open spec fn covers(t: Placed, k: int, p: int) -> bool {
    t.1 == k && t.2 <= p < t.2 + t.3
}

proof fn lemma_line_places(line: Seq<char>, ln: int, off: int, acc: Seq<Placed>)
    requires
        0 <= off <= line.len(),
        tokenize_line(line, ln, off, acc) is Ok,
    ensures
        ({
            let res = tokenize_line(line, ln, off, acc)->Ok_0;
            &&& acc.len() <= res.len()
            &&& res.take(acc.len() as int) == acc
            &&& forall|j: int|
                acc.len() <= j < res.len() ==> (#[trigger] res[j]).1 == ln && off <= res[j].2
                    && placed_in(line, res[j])
            &&& forall|j: int|
                acc.len() <= j && j + 1 < res.len() ==> #[trigger] precedes(res[j], res[j + 1])
            &&& forall|p: int|
                off <= p < line.len() ==> is_space(#[trigger] line[p]) || exists|j: int|
                    acc.len() <= j < res.len() && #[trigger] covers(res[j], ln, p)
        }),
    decreases line.len() - off,
{
    lemma_line_tokens(line, ln, off, acc);
    let res = tokenize_line(line, ln, off, acc)->Ok_0;
    if off < line.len() {
        let v = line.skip(off);
        let (tok, n) = recognize(v)->Some_0;
        if tok is Whitespace {
            lemma_space_token(v);
            lemma_line_places(line, ln, off + n, acc);
            assert forall|p: int| off <= p < line.len() implies is_space(#[trigger] line[p])
                || exists|j: int| acc.len() <= j < res.len() && #[trigger] covers(res[j], ln, p) by {
                if p < off + n {
                    assert(line[p] == v[p - off]);
                }
            }
        } else {
            let t = (tok, ln, off, n as int);
            let acc2 = acc.push(t);
            lemma_line_places(line, ln, off + n, acc2);
            assert(res[acc.len() as int] == acc2[acc.len() as int]);
            assert(res[acc.len() as int] == t);
            assert(placed_in(line, t));
            assert forall|j: int| acc.len() <= j < res.len() implies (#[trigger] res[j]).1 == ln
                && off <= res[j].2 && placed_in(line, res[j]) by {
                if j == acc.len() {
                }
            }
            assert forall|j: int| acc.len() <= j && j + 1 < res.len() implies #[trigger] precedes(
                res[j],
                res[j + 1],
            ) by {
                if j == acc.len() {
                    assert(res[j + 1].2 >= off + n);
                }
            }
            assert forall|p: int| off <= p < line.len() implies is_space(#[trigger] line[p])
                || exists|j: int| acc.len() <= j < res.len() && #[trigger] covers(res[j], ln, p) by {
                if p < off + n {
                    assert(covers(res[acc.len() as int], ln, p));
                } else if !is_space(line[p]) {
                    let j = choose|j: int| acc2.len() <= j < res.len() && #[trigger] covers(res[j], ln, p);
                    assert(covers(res[j], ln, p));
                }
            }
        }
    }
}

proof fn lemma_line_start_past(src: Seq<char>, ln: nat, k: nat)
    requires
        0 <= line_start(src, ln) <= src.len(),
        line_end(src, line_start(src, ln)) == src.len(),
        k > ln,
    ensures
        line_start(src, k) == src.len() + 1,
    decreases k,
{
    if k > ln + 1 {
        lemma_line_start_past(src, ln, (k - 1) as nat);
    }
}

proof fn lemma_source_places(src: Seq<char>, start: int, ln: nat, acc: Seq<Placed>)
    requires
        0 <= start <= src.len(),
        start == line_start(src, ln),
        tokenize_from(src, start, ln as int, acc) is Ok,
        forall|j: int|
            0 <= j < acc.len() ==> 0 <= (#[trigger] acc[j]).1 < ln && placed_in(
                nth_line(src, acc[j].1 as nat),
                acc[j],
            ),
        forall|j: int| 0 <= j && j + 1 < acc.len() ==> #[trigger] precedes(acc[j], acc[j + 1]),
        forall|k: nat, p: int|
            k < ln && 0 <= p < nth_line(src, k).len() ==> is_space(#[trigger] nth_line(src, k)[p])
                || exists|j: int| 0 <= j < acc.len() && #[trigger] covers(acc[j], k as int, p),
    ensures
        ({
            let res = tokenize_from(src, start, ln as int, acc)->Ok_0;
            &&& forall|j: int|
                0 <= j < res.len() ==> 0 <= (#[trigger] res[j]).1 && placed_in(
                    nth_line(src, res[j].1 as nat),
                    res[j],
                )
            &&& forall|j: int| 0 <= j && j + 1 < res.len() ==> #[trigger] precedes(res[j], res[j + 1])
            &&& forall|k: nat, p: int|
                line_start(src, k) <= src.len() && 0 <= p < nth_line(src, k).len() ==> is_space(
                    #[trigger] nth_line(src, k)[p],
                ) || exists|j: int| 0 <= j < res.len() && #[trigger] covers(res[j], k as int, p)
        }),
    decreases src.len() - start,
{
    let res = tokenize_from(src, start, ln as int, acc)->Ok_0;
    let e = line_end(src, start);
    lemma_line_end(src, start);
    let line = src.subrange(start, e);
    assert(line == nth_line(src, ln));
    lemma_line_places(line, ln as int, 0, acc);
    let acc2 = tokenize_line(line, ln as int, 0, acc)->Ok_0;
    assert forall|j: int| 0 <= j < acc.len() implies acc2[j] == acc[j] by {
        assert(acc2[j] == acc2.take(acc.len() as int)[j]);
    }
    assert forall|j: int| 0 <= j < acc2.len() implies 0 <= (#[trigger] acc2[j]).1 <= ln && placed_in(
        nth_line(src, acc2[j].1 as nat),
        acc2[j],
    ) by {
        if j < acc.len() {
            assert(acc2[j] == acc[j]);
        }
    }
    assert forall|j: int| 0 <= j && j + 1 < acc2.len() implies #[trigger] precedes(acc2[j], acc2[j + 1]) by {
        if j + 1 < acc.len() {
            assert(acc2[j] == acc[j] && acc2[j + 1] == acc[j + 1]);
        } else if j + 1 == acc.len() {
            assert(acc2[j] == acc[j]);
            assert(acc2[j + 1].1 == ln);
        }
    }
    assert forall|k: nat, p: int|
        k <= ln && 0 <= p < nth_line(src, k).len() implies is_space(#[trigger] nth_line(src, k)[p])
            || exists|j: int| 0 <= j < acc2.len() && #[trigger] covers(acc2[j], k as int, p) by {
        if !is_space(nth_line(src, k)[p]) {
            if k < ln {
                let j = choose|j: int| 0 <= j < acc.len() && #[trigger] covers(acc[j], k as int, p);
                assert(acc2[j] == acc[j]);
                assert(covers(acc2[j], k as int, p));
            } else {
                assert(line[p] == nth_line(src, k)[p]);
                let j = choose|j: int| acc.len() <= j < acc2.len() && #[trigger] covers(acc2[j], ln as int, p);
                assert(covers(acc2[j], k as int, p));
            }
        }
    }
    if e < src.len() {
        assert(line_start(src, ln + 1) == e + 1);
        assert forall|j: int| 0 <= j < acc2.len() implies 0 <= (#[trigger] acc2[j]).1 < ln + 1 && placed_in(
            nth_line(src, acc2[j].1 as nat),
            acc2[j],
        ) by {
        }
        assert forall|k: nat, p: int|
            k < ln + 1 && 0 <= p < nth_line(src, k).len() implies is_space(#[trigger] nth_line(src, k)[p])
                || exists|j: int| 0 <= j < acc2.len() && #[trigger] covers(acc2[j], k as int, p) by {
        }
        lemma_source_places(src, e + 1, ln + 1, acc2);
    } else {
        assert forall|k: nat, p: int|
            line_start(src, k) <= src.len() && 0 <= p < nth_line(src, k).len() implies is_space(
                #[trigger] nth_line(src, k)[p],
            ) || exists|j: int| 0 <= j < res.len() && #[trigger] covers(res[j], k as int, p) by {
            if k > ln {
                lemma_line_start_past(src, ln, k);
            }
        }
    }
}

/// Each token of a tokenized source lies within its line, is not empty, and
/// is the token that recognizing at its start gives over exactly its span;
/// the spans come in order, without overlap; and every character of a line
/// that no span covers is white space.
pub proof fn lemma_token_places(src: Seq<char>)
    requires
        tokenize_source(src) is Ok,
    ensures
        ({
            let toks = tokenize_source(src)->Ok_0;
            &&& forall|j: int|
                0 <= j < toks.len() ==> 0 <= (#[trigger] toks[j]).1 && placed_in(
                    nth_line(src, toks[j].1 as nat),
                    toks[j],
                )
            &&& forall|j: int| 0 <= j && j + 1 < toks.len() ==> #[trigger] precedes(toks[j], toks[j + 1])
            &&& forall|k: nat, p: int|
                line_start(src, k) <= src.len() && 0 <= p < nth_line(src, k).len() ==> is_space(
                    #[trigger] nth_line(src, k)[p],
                ) || exists|j: int| 0 <= j < toks.len() && #[trigger] covers(toks[j], k as int, p)
        }),
{
    lemma_source_places(src, 0, 0, Seq::empty());
}

/// Tokenizing loses nothing but white space: the characters of the source
/// that are not white space are, in order, those of the texts that the spans
/// of the tokens cover, each span read within its line.
pub proof fn lemma_tokens_cover_source(src: Seq<char>)
    requires
        tokenize_source(src) is Ok,
    ensures
        non_space(src) == non_space(source_texts(src, tokenize_source(src)->Ok_0)),
{
    lemma_source_tokens(src, 0, 0, Seq::empty());
    assert(src.skip(0) =~= src);
    assert(tokenize_source(src)->Ok_0.skip(0) =~= tokenize_source(src)->Ok_0);
}

} // verus!
