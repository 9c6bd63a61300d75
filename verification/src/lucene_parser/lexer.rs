//! Lexical analysis of the query language.
//!
//! Whitespace separates tokens. `(` and `)` delimit groups, `AND`, `OR` and
//! `NOT` (exact case) are reserved operator words, and a `-` at the start of
//! a token is shorthand for `NOT`. A quoted string is delimited by `"`;
//! inside it `\\` and `\"` are the only recognized escapes and everything
//! else is literal. A bare word is a maximal run excluding whitespace, `:`,
//! parentheses and quote characters. A key:value pair is a quoted string or
//! word, followed immediately by `:`, followed immediately by a quoted string
//! or word; an unquoted value captures only that single token.
//!
//! Lexical errors: an unterminated quoted string, a `:` with no key before
//! it, and a `:` with no value after it.

use vstd::prelude::*;

use crate::lucene_parser::text::push_char;
use crate::lucene_parser::text::str_eq;
use crate::lucene_parser::text::string_of_range;

verus! {

/// Mathematical model of a token, over sequences of characters. Quoted text
/// is stored unescaped.
pub enum TokView {
    OpenParen,
    CloseParen,
    AndOp,
    OrOp,
    NotOp,
    Word(Seq<char>),
    Quoted(Seq<char>),
    Pair(Seq<char>, Seq<char>),
}

/// A lexical token. `Word` and `Quoted` hold atom text, `Pair` holds the key
/// and value of a key:value pair; quoted text is stored unescaped.
pub enum Token {
    OpenParen,
    CloseParen,
    AndOp,
    OrOp,
    NotOp,
    Word(String),
    Quoted(String),
    Pair(String, String),
}

impl View for Token {
    type V = TokView;

    open spec fn view(&self) -> TokView {
        match self {
            Token::OpenParen => TokView::OpenParen,
            Token::CloseParen => TokView::CloseParen,
            Token::AndOp => TokView::AndOp,
            Token::OrOp => TokView::OrOp,
            Token::NotOp => TokView::NotOp,
            Token::Word(w) => TokView::Word(w@),
            Token::Quoted(t) => TokView::Quoted(t@),
            Token::Pair(k, v) => TokView::Pair(k@, v@),
        }
    }
}

/// The models of a token sequence, in order.
pub open spec fn token_views(ts: Seq<Token>) -> Seq<TokView>
    decreases ts,
{
    if ts.len() == 0 {
        Seq::empty()
    } else {
        seq![ts[0]@] + token_views(ts.drop_first())
    }
}

/// Facts about `token_views`: the model list is as long as the token list and
/// holds the tokens' models.
pub broadcast proof fn lemma_token_views(ts: Seq<Token>)
    ensures
        (#[trigger] token_views(ts)).len() == ts.len(),
        forall|i: int| 0 <= i < ts.len() ==> #[trigger] token_views(ts)[i] == ts[i]@,
    decreases ts,
{
    if ts.len() > 0 {
        lemma_token_views(ts.drop_first());
        assert(token_views(ts) == seq![ts[0]@] + token_views(ts.drop_first()));
        assert forall|i: int| 0 <= i < ts.len() implies token_views(ts)[i] == ts[i]@ by {
            if i > 0 {
                assert(token_views(ts)[i] == token_views(ts.drop_first())[i - 1]);
                assert(ts.drop_first()[i - 1] == ts[i]);
            }
        }
    } else {
        assert(token_views(ts) == Seq::<TokView>::empty());
    }
}

/// Appending a token appends its model.
pub proof fn lemma_token_views_push(ts: Seq<Token>, t: Token)
    ensures
        token_views(ts.push(t)) =~= token_views(ts) + seq![t@],
{
    lemma_token_views(ts);
    lemma_token_views(ts.push(t));
}

// ---------- character classes ----------
/// Whitespace separates tokens and, absent an explicit operator, implies AND.
pub open spec fn is_ws_char(c: char) -> bool {
    c == ' ' || c == '\t' || c == '\n' || c == '\r'
}

/// Characters that can never stand inside a bare word.
pub open spec fn is_reserved_char(c: char) -> bool {
    c == ':' || c == '(' || c == ')' || c == '"'
}

/// A bare word is a maximal run of these characters.
pub open spec fn is_word_char(c: char) -> bool {
    !is_ws_char(c) && !is_reserved_char(c)
}

// ---------- scanning helpers ----------
/// End of the maximal word run starting at `i`.
pub open spec fn word_end(s: Seq<char>, i: int) -> int
    decreases s.len() - i,
    when 0 <= i <= s.len()
{
    if i < s.len() && is_word_char(s[i]) {
        word_end(s, i + 1)
    } else {
        i
    }
}

/// The word run stays within the string, moves past its start exactly when a
/// word character stands there, and consists of word characters.
pub broadcast proof fn lemma_word_end(s: Seq<char>, i: int)
    requires
        0 <= i <= s.len(),
    ensures
        i <= #[trigger] word_end(s, i) <= s.len(),
        forall|j: int| i <= j < word_end(s, i) ==> is_word_char(s[j]),
        word_end(s, i) < s.len() ==> !is_word_char(s[word_end(s, i)]),
        i < s.len() && is_word_char(s[i]) ==> word_end(s, i) > i,
    decreases s.len() - i,
{
    if i < s.len() && is_word_char(s[i]) {
        lemma_word_end(s, i + 1);
    }
}

/// Index of the closing quote of a quoted string whose content starts at `i`,
/// skipping `\\` and `\"` escapes; `None` when the quote is unterminated.
pub open spec fn quote_end(s: Seq<char>, i: int) -> Option<int>
    decreases s.len() - i,
    when 0 <= i <= s.len()
{
    if i >= s.len() {
        None
    } else if s[i] == '"' {
        Some(i)
    } else if s[i] == '\\' && i + 1 < s.len() && (s[i + 1] == '\\' || s[i + 1] == '"') {
        quote_end(s, i + 2)
    } else {
        quote_end(s, i + 1)
    }
}

/// A found closing quote lies within the string, at or past the content
/// start, and is a quote character.
pub broadcast proof fn lemma_quote_end(s: Seq<char>, i: int)
    requires
        0 <= i <= s.len(),
    ensures
        (#[trigger] quote_end(s, i)) matches Some(q) ==> i <= q < s.len() && s[q] == '"',
    decreases s.len() - i,
{
    if i < s.len() && s[i] != '"' {
        if s[i] == '\\' && i + 1 < s.len() && (s[i + 1] == '\\' || s[i + 1] == '"') {
            lemma_quote_end(s, i + 2);
        } else {
            lemma_quote_end(s, i + 1);
        }
    }
}

/// Removal of the two recognized escape sequences: `\\` becomes `\` and `\"`
/// becomes `"`; any other character, a lone backslash included, is literal.
pub open spec fn unescape(s: Seq<char>) -> Seq<char>
    decreases s.len(),
{
    if s.len() == 0 {
        Seq::empty()
    } else if s.len() >= 2 && s[0] == '\\' && (s[1] == '\\' || s[1] == '"') {
        seq![s[1]] + unescape(s.skip(2))
    } else {
        seq![s[0]] + unescape(s.skip(1))
    }
}

// ---------- the lexer, one atom at a time ----------
/// The value part of a key:value pair, starting right after the colon:
/// a quoted string or a single word; anything else is an empty value.
pub open spec fn lex_value(s: Seq<char>, i: int, key: Seq<char>) -> Option<(TokView, int)>
    recommends
        0 <= i <= s.len(),
{
    if i < s.len() && s[i] == '"' {
        match quote_end(s, i + 1) {
            None => None,
            Some(q) => Some((TokView::Pair(key, unescape(s.subrange(i + 1, q))), q + 1)),
        }
    } else if i < s.len() && is_word_char(s[i]) {
        Some((TokView::Pair(key, s.subrange(i, word_end(s, i))), word_end(s, i)))
    } else {
        None
    }
}

/// A lexed value always consumes at least one character and never runs past
/// the end of the input.
pub broadcast proof fn lemma_lex_value_progress(s: Seq<char>, i: int, key: Seq<char>)
    requires
        0 <= i <= s.len(),
    ensures
        (#[trigger] lex_value(s, i, key)) matches Some(r) ==> i < r.1 <= s.len(),
{
    broadcast use lemma_word_end, lemma_quote_end;

}

/// The token starting at the non-whitespace position `i`, with the position
/// just past it; `None` on a lexical error.
pub open spec fn lex_atom(s: Seq<char>, i: int) -> Option<(TokView, int)>
    recommends
        0 <= i < s.len(),
        !is_ws_char(s[i]),
{
    if s[i] == '(' {
        Some((TokView::OpenParen, i + 1))
    } else if s[i] == ')' {
        Some((TokView::CloseParen, i + 1))
    } else if s[i] == ':' {
        None
    } else if s[i] == '-' {
        Some((TokView::NotOp, i + 1))
    } else if s[i] == '"' {
        match quote_end(s, i + 1) {
            None => None,
            Some(q) => {
                let content = unescape(s.subrange(i + 1, q));
                if q + 1 < s.len() && s[q + 1] == ':' {
                    lex_value(s, q + 2, content)
                } else {
                    Some((TokView::Quoted(content), q + 1))
                }
            },
        }
    } else {
        let e = word_end(s, i);
        let w = s.subrange(i, e);
        if e < s.len() && s[e] == ':' {
            lex_value(s, e + 1, w)
        } else if w == "AND"@ {
            Some((TokView::AndOp, e))
        } else if w == "OR"@ {
            Some((TokView::OrOp, e))
        } else if w == "NOT"@ {
            Some((TokView::NotOp, e))
        } else {
            Some((TokView::Word(w), e))
        }
    }
}

/// A lexed token always consumes at least one character and never runs past
/// the end of the input.
pub broadcast proof fn lemma_lex_atom_progress(s: Seq<char>, i: int)
    requires
        0 <= i < s.len(),
        !is_ws_char(s[i]),
    ensures
        (#[trigger] lex_atom(s, i)) matches Some(r) ==> i < r.1 <= s.len(),
{
    broadcast use lemma_word_end, lemma_quote_end, lemma_lex_value_progress;

}

/// The token stream from position `i` on, whitespace skipped; `None` on a
/// lexical error.
pub open spec fn lex_from(s: Seq<char>, i: int) -> Option<Seq<TokView>>
    decreases s.len() - i,
    when 0 <= i <= s.len() via lex_from_decreases
{
    if i >= s.len() {
        Some(Seq::empty())
    } else if is_ws_char(s[i]) {
        lex_from(s, i + 1)
    } else {
        match lex_atom(s, i) {
            None => None,
            Some(r) => match lex_from(s, r.1) {
                None => None,
                Some(rest) => Some(seq![r.0] + rest),
            },
        }
    }
}

/// Termination of [`lex_from`]: each lexed token makes progress.
#[via_fn]
proof fn lex_from_decreases(s: Seq<char>, i: int) {
    if 0 <= i < s.len() && !is_ws_char(s[i]) {
        lemma_lex_atom_progress(s, i);
    }
}

/// The token stream of a whole input.
pub open spec fn lex(s: Seq<char>) -> Option<Seq<TokView>> {
    lex_from(s, 0)
}

// ---------- executable lexer ----------
/// A lexical error: the offending input position and what was expected
/// there.
pub struct LexError {
    pub position: usize,
    pub expected: &'static str,
}

/// End of the maximal word run starting at `i`, executably.
fn scan_word_end(chars: &Vec<char>, i: usize) -> (e: usize)
    requires
        i <= chars@.len(),
    ensures
        e == word_end(chars@, i as int),
{
    let n = chars.len();
    let mut j: usize = i;
    while j < n
        invariant
            i <= j <= n,
            n == chars@.len(),
            word_end(chars@, i as int) == word_end(chars@, j as int),
        decreases n - j,
    {
        let c = chars[j];
        if (c == ' ' || c == '\t' || c == '\n' || c == '\r') || (c == ':' || c == '(' || c == ')'
            || c == '"') {
            return j;
        }
        j = j + 1;
    }
    j
}

/// Index of the closing quote for content starting at `i`, executably.
fn scan_quote_end(chars: &Vec<char>, i: usize) -> (r: Option<usize>)
    requires
        i <= chars@.len(),
    ensures
        match r {
            Some(q) => quote_end(chars@, i as int) == Some(q as int) && i <= q < chars@.len(),
            None => quote_end(chars@, i as int) is None,
        },
{
    broadcast use lemma_quote_end;

    let n = chars.len();
    let mut j: usize = i;
    while j < n
        invariant
            i <= j <= n,
            n == chars@.len(),
            quote_end(chars@, i as int) == quote_end(chars@, j as int),
        decreases n - j,
    {
        let c = chars[j];
        if c == '"' {
            return Some(j);
        } else if c == '\\' && j + 1 < n && (chars[j + 1] == '\\' || chars[j + 1] == '"') {
            j = j + 2;
        } else {
            j = j + 1;
        }
    }
    None
}

/// The unescaped text of `chars[a..b]`, as an owned string.
fn unescape_range(chars: &Vec<char>, a: usize, b: usize) -> (r: String)
    requires
        a <= b <= chars@.len(),
    ensures
        r@ == unescape(chars@.subrange(a as int, b as int)),
{
    let ghost whole = chars@.subrange(a as int, b as int);
    let mut out = String::new();
    let mut k: usize = a;
    while k < b
        invariant
            a <= k <= b <= chars@.len(),
            whole == chars@.subrange(a as int, b as int),
            unescape(whole) == out@ + unescape(chars@.subrange(k as int, b as int)),
        decreases b - k,
    {
        let ghost prev = out@;
        let ghost tail = chars@.subrange(k as int, b as int);
        let c = chars[k];
        if c == '\\' && k + 1 < b && (chars[k + 1] == '\\' || chars[k + 1] == '"') {
            push_char(&mut out, chars[k + 1]);
            proof {
                assert(tail.len() >= 2 && tail[0] == '\\' && (tail[1] == '\\' || tail[1] == '"'));
                assert(tail.skip(2) =~= chars@.subrange(k + 2, b as int));
                assert(unescape(tail) == seq![tail[1]] + unescape(tail.skip(2)));
                assert(prev + (seq![tail[1]] + unescape(tail.skip(2))) =~= out@ + unescape(
                    chars@.subrange(k + 2, b as int),
                ));
            }
            k = k + 2;
        } else {
            push_char(&mut out, c);
            proof {
                assert(tail[0] == c);
                assert(!(tail.len() >= 2 && tail[0] == '\\' && (tail[1] == '\\' || tail[1]
                    == '"')));
                assert(tail.skip(1) =~= chars@.subrange(k + 1, b as int));
                assert(unescape(tail) == seq![tail[0]] + unescape(tail.skip(1)));
                assert(prev + (seq![tail[0]] + unescape(tail.skip(1))) =~= out@ + unescape(
                    chars@.subrange(k + 1, b as int),
                ));
            }
            k = k + 1;
        }
    }
    proof {
        assert(chars@.subrange(b as int, b as int) =~= Seq::<char>::empty());
        assert(out@ + Seq::<char>::empty() =~= out@);
    }
    out
}

/// The value part of a key:value pair, executably. `key_pos` is where the
/// whole pair started, for error reporting.
fn lex_value_at(chars: &Vec<char>, i: usize, key: String, key_pos: usize) -> (r: Result<
    (Token, usize),
    LexError,
>)
    requires
        i <= chars@.len(),
        key_pos < chars@.len(),
    ensures
        match r {
            Ok(p) => lex_value(chars@, i as int, key@) == Some((p.0@, p.1 as int)) && i < p.1
                <= chars@.len(),
            Err(e) => lex_value(chars@, i as int, key@) is None && e.position < chars@.len(),
        },
{
    let n = chars.len();
    if i < n && chars[i] == '"' {
        match scan_quote_end(chars, i + 1) {
            None => Err(LexError { position: i, expected: "a closing '\"'" }),
            Some(q) => {
                let content = unescape_range(chars, i + 1, q);
                Ok((Token::Pair(key, content), q + 1))
            },
        }
    } else if i < n && {
        let c = chars[i];
        !(c == ' ' || c == '\t' || c == '\n' || c == '\r') && !(c == ':' || c == '(' || c == ')'
            || c == '"')
    } {
        proof {
            lemma_word_end(chars@, i as int);
        }
        let e = scan_word_end(chars, i);
        let w = string_of_range(chars, i, e);
        Ok((Token::Pair(key, w), e))
    } else {
        Err(LexError { position: key_pos, expected: "a value after ':'" })
    }
}

/// The token starting at the non-whitespace position `i`, executably.
fn lex_atom_at(chars: &Vec<char>, i: usize) -> (r: Result<(Token, usize), LexError>)
    requires
        i < chars@.len(),
        !is_ws_char(chars@[i as int]),
    ensures
        match r {
            Ok(p) => lex_atom(chars@, i as int) == Some((p.0@, p.1 as int)) && i < p.1
                <= chars@.len(),
            Err(e) => lex_atom(chars@, i as int) is None && e.position < chars@.len(),
        },
{
    let n = chars.len();
    let c = chars[i];
    if c == '(' {
        Ok((Token::OpenParen, i + 1))
    } else if c == ')' {
        Ok((Token::CloseParen, i + 1))
    } else if c == ':' {
        Err(LexError { position: i, expected: "a key before ':'" })
    } else if c == '-' {
        Ok((Token::NotOp, i + 1))
    } else if c == '"' {
        match scan_quote_end(chars, i + 1) {
            None => Err(LexError { position: i, expected: "a closing '\"'" }),
            Some(q) => {
                let content = unescape_range(chars, i + 1, q);
                if q + 1 < n && chars[q + 1] == ':' {
                    lex_value_at(chars, q + 2, content, i)
                } else {
                    Ok((Token::Quoted(content), q + 1))
                }
            },
        }
    } else {
        proof {
            lemma_word_end(chars@, i as int);
        }
        let e = scan_word_end(chars, i);
        let w = string_of_range(chars, i, e);
        if e < n && chars[e] == ':' {
            lex_value_at(chars, e + 1, w, i)
        } else if str_eq(w.as_str(), "AND") {
            Ok((Token::AndOp, e))
        } else if str_eq(w.as_str(), "OR") {
            Ok((Token::OrOp, e))
        } else if str_eq(w.as_str(), "NOT") {
            Ok((Token::NotOp, e))
        } else {
            Ok((Token::Word(w), e))
        }
    }
}

/// Joins the tokens already produced with what the rest of the input lexes
/// to.
spec fn join_lexed(done: Seq<Token>, rest: Option<Seq<TokView>>) -> Option<Seq<TokView>> {
    match rest {
        Some(r) => Some(token_views(done) + r),
        None => None,
    }
}

/// Splits the input into its token stream, exactly as [`lex`] states, along
/// with each token's starting position (for error reporting). Errors exactly
/// when [`lex`] has no token stream for the input.
pub fn tokenize(chars: &Vec<char>) -> (r: Result<(Vec<Token>, Vec<usize>), LexError>)
    ensures
        match r {
            Ok(p) => lex(chars@) == Some(token_views(p.0@)) && p.1@.len() == p.0@.len() && (forall|
                k: int,
            |
                0 <= k < p.1@.len() ==> p.1@[k] < chars@.len()),
            Err(e) => lex(chars@) is None && e.position < chars@.len(),
        },
{
    broadcast use lemma_lex_atom_progress;

    let n = chars.len();
    let mut toks: Vec<Token> = Vec::new();
    let mut positions: Vec<usize> = Vec::new();
    let mut i: usize = 0;
    while i < n
        invariant
            0 <= i <= n,
            n == chars@.len(),
            positions@.len() == toks@.len(),
            forall|k: int| 0 <= k < positions@.len() ==> positions@[k] < chars@.len(),
            lex(chars@) == join_lexed(toks@, lex_from(chars@, i as int)),
        decreases n - i,
    {
        let c = chars[i];
        if c == ' ' || c == '\t' || c == '\n' || c == '\r' {
            proof {
                assert(lex_from(chars@, i as int) == lex_from(chars@, i + 1));
            }
            i = i + 1;
        } else {
            match lex_atom_at(chars, i) {
                Err(e) => {
                    proof {
                        assert(lex_from(chars@, i as int) is None);
                    }
                    return Err(e);
                },
                Ok((t, j)) => {
                    let ghost old_toks = toks@;
                    proof {
                        lemma_token_views_push(old_toks, t);
                        assert(lex_from(chars@, i as int) == (match lex_from(chars@, j as int) {
                            Some(rest) => Some(seq![t@] + rest),
                            None => None,
                        }));
                        if let Some(rest) = lex_from(chars@, j as int) {
                            assert(token_views(old_toks) + (seq![t@] + rest) =~= token_views(
                                old_toks.push(t),
                            ) + rest);
                        }
                    }
                    toks.push(t);
                    positions.push(i);
                    i = j;
                },
            }
        }
    }
    proof {
        assert(lex_from(chars@, n as int) == Some(Seq::<TokView>::empty()));
        assert(token_views(toks@) + Seq::<TokView>::empty() =~= token_views(toks@));
    }
    Ok((toks, positions))
}

} // verus!
