use vstd::prelude::*;
use crate::lexicon::{keyword_in, keyword_of, symbol_of, Keyword, Symbol};
use crate::text::chars_of;

verus! {

/// The largest value an integer constant may have.
pub const MAX_INTEGER: u16 = 32767;

/// A lexical token.
#[derive(Debug, PartialEq, Eq)]
pub enum Token {
    Keyword(Keyword),
    Identifier(String),
    Symbol(Symbol),
    String(String),
    Integer(u16),
}

/// A token with its texts as character sequences.
pub enum TokenView {
    Keyword(Keyword),
    Identifier(Seq<char>),
    Symbol(Symbol),
    String(Seq<char>),
    Integer(u16),
}

impl View for Token {
    type V = TokenView;

    open spec fn view(&self) -> TokenView {
        match self {
            Token::Keyword(k) => TokenView::Keyword(*k),
            Token::Identifier(s) => TokenView::Identifier(s@),
            Token::Symbol(s) => TokenView::Symbol(*s),
            Token::String(s) => TokenView::String(s@),
            Token::Integer(n) => TokenView::Integer(*n),
        }
    }
}

/// Why tokenizing stopped.
#[derive(Clone, Copy, Debug, PartialEq, Eq, Structural)]
pub enum LexErrorKind {
    /// A `"` with no closing `"` before the end of its line.
    UnterminatedString,
    /// A run of digits whose value exceeds the largest integer constant.
    IntegerOverflow,
    /// A character that starts no token.
    UnrecognizedCharacter,
}

/// A tokenizing failure: its kind and the character offset where it was found.
#[derive(Clone, Copy, Debug, PartialEq, Eq, Structural)]
pub struct LexError {
    pub kind: LexErrorKind,
    pub offset: usize,
}

/// A separator skipped between tokens.
pub open spec fn is_separator(c: char) -> bool {
    c == ' ' || c == '\n'
}

/// A character that may start an identifier or keyword.
pub open spec fn is_word_start(c: char) -> bool {
    ('a' <= c && c <= 'z') || ('A' <= c && c <= 'Z') || c == '_'
}

/// An ASCII decimal digit.
pub open spec fn is_digit(c: char) -> bool {
    '0' <= c && c <= '9'
}

/// A character that may continue an identifier or keyword.
pub open spec fn is_word_char(c: char) -> bool {
    is_word_start(c) || is_digit(c)
}

/// Where the run of word characters that starts at `i` ends.
pub open spec fn word_end(s: Seq<char>, i: int) -> int
    decreases s.len() - i,
{
    if 0 <= i < s.len() && is_word_char(s[i]) {
        word_end(s, i + 1)
    } else {
        i
    }
}

/// Where the run of digits that starts at `i` ends.
pub open spec fn digit_end(s: Seq<char>, i: int) -> int
    decreases s.len() - i,
{
    if 0 <= i < s.len() && is_digit(s[i]) {
        digit_end(s, i + 1)
    } else {
        i
    }
}

/// The first index at or after `i` that holds a `"` or a newline, or the
/// length of `s` if there is none.
pub open spec fn quote_end(s: Seq<char>, i: int) -> int
    decreases s.len() - i,
{
    if 0 <= i < s.len() && s[i] != '"' && s[i] != '\n' {
        quote_end(s, i + 1)
    } else {
        i
    }
}

/// The value of the decimal digits `d`.
pub open spec fn digits_value(d: Seq<char>) -> nat
    decreases d.len(),
{
    if d.len() == 0 {
        0
    } else {
        10 * digits_value(d.drop_last()) + (d.last() as nat - '0' as nat) as nat
    }
}

/// The token for a word: a keyword when it spells one, else an identifier.
pub open spec fn word_token(w: Seq<char>) -> TokenView {
    match keyword_of(w) {
        Some(k) => TokenView::Keyword(k),
        None => TokenView::Identifier(w),
    }
}

/// `t` put before the tokens of `r`, if `r` succeeded.
pub open spec fn cons(t: TokenView, r: Result<Seq<TokenView>, LexError>) -> Result<
    Seq<TokenView>,
    LexError,
> {
    match r {
        Ok(ts) => Ok(seq![t] + ts),
        Err(e) => Err(e),
    }
}

/// `p` put before the tokens of `r`, if `r` succeeded.
pub open spec fn prefix(p: Seq<TokenView>, r: Result<Seq<TokenView>, LexError>) -> Result<
    Seq<TokenView>,
    LexError,
> {
    match r {
        Ok(ts) => Ok(p + ts),
        Err(e) => Err(e),
    }
}

/// The failure of kind `kind` found at offset `i`.
pub open spec fn lex_error(kind: LexErrorKind, i: int) -> LexError {
    LexError { kind, offset: i as usize }
}

/// The tokens of `s` from offset `i` on, or the first failure there.
pub open spec fn tokens_from(s: Seq<char>, i: int) -> Result<Seq<TokenView>, LexError>
    decreases s.len() - i,
    via tokens_from_decreases
{
    if i < 0 || i >= s.len() {
        Ok(seq![])
    } else if is_separator(s[i]) {
        tokens_from(s, i + 1)
    } else if symbol_of(s[i]) is Some {
        cons(TokenView::Symbol(symbol_of(s[i])->0), tokens_from(s, i + 1))
    } else if is_word_start(s[i]) {
        let e = word_end(s, i + 1);
        cons(word_token(s.subrange(i, e)), tokens_from(s, e))
    } else if s[i] == '"' {
        let e = quote_end(s, i + 1);
        if e < s.len() && s[e] == '"' {
            cons(TokenView::String(s.subrange(i + 1, e)), tokens_from(s, e + 1))
        } else {
            Err(lex_error(LexErrorKind::UnterminatedString, i))
        }
    } else if is_digit(s[i]) {
        let e = digit_end(s, i);
        let v = digits_value(s.subrange(i, e));
        if v <= MAX_INTEGER {
            cons(TokenView::Integer(v as u16), tokens_from(s, e))
        } else {
            Err(lex_error(LexErrorKind::IntegerOverflow, i))
        }
    } else {
        Err(lex_error(LexErrorKind::UnrecognizedCharacter, i))
    }
}

pub proof fn lemma_word_end_bounds(s: Seq<char>, i: int)
    requires
        0 <= i <= s.len(),
    ensures
        i <= word_end(s, i) <= s.len(),
        forall|j: int| i <= j < word_end(s, i) ==> is_word_char(s[j]),
        word_end(s, i) < s.len() ==> !is_word_char(s[word_end(s, i)]),
    decreases s.len() - i,
{
    if i < s.len() && is_word_char(s[i]) {
        lemma_word_end_bounds(s, i + 1);
    }
}

pub proof fn lemma_digit_end_bounds(s: Seq<char>, i: int)
    requires
        0 <= i <= s.len(),
    ensures
        i <= digit_end(s, i) <= s.len(),
        forall|j: int| i <= j < digit_end(s, i) ==> is_digit(s[j]),
        digit_end(s, i) < s.len() ==> !is_digit(s[digit_end(s, i)]),
    decreases s.len() - i,
{
    if i < s.len() && is_digit(s[i]) {
        lemma_digit_end_bounds(s, i + 1);
    }
}

pub proof fn lemma_quote_end_bounds(s: Seq<char>, i: int)
    requires
        0 <= i <= s.len(),
    ensures
        i <= quote_end(s, i) <= s.len(),
        forall|j: int| i <= j < quote_end(s, i) ==> s[j] != '"' && s[j] != '\n',
        quote_end(s, i) < s.len() ==> (s[quote_end(s, i)] == '"' || s[quote_end(s, i)] == '\n'),
    decreases s.len() - i,
{
    if i < s.len() && s[i] != '"' && s[i] != '\n' {
        lemma_quote_end_bounds(s, i + 1);
    }
}

#[via_fn]
proof fn tokens_from_decreases(s: Seq<char>, i: int) {
    if 0 <= i < s.len() {
        lemma_word_end_bounds(s, i + 1);
        lemma_digit_end_bounds(s, i);
        lemma_quote_end_bounds(s, i + 1);
    }
}

/// The tokens of `s`, or the first failure.
pub open spec fn tokenize_spec(s: Seq<char>) -> Result<Seq<TokenView>, LexError> {
    tokens_from(s, 0)
}

/// What holds of each token: an identifier is a letter or `_` followed by
/// letters, digits and `_`, and spells no keyword; a string constant holds
/// no `"` and no newline; an integer constant is at most 32767.
pub open spec fn well_formed(t: TokenView) -> bool {
    match t {
        TokenView::Identifier(w) => {
            &&& w.len() > 0
            &&& is_word_start(w[0])
            &&& forall|j: int| 0 <= j < w.len() ==> is_word_char(#[trigger] w[j])
            &&& keyword_of(w) is None
        },
        TokenView::String(text) => forall|j: int|
            0 <= j < text.len() ==> #[trigger] text[j] != '"' && text[j] != '\n',
        TokenView::Integer(v) => v <= MAX_INTEGER,
        _ => true,
    }
}

/// Each token of `r` is well formed, if `r` succeeded.
pub open spec fn all_well_formed(r: Result<Seq<TokenView>, LexError>) -> bool {
    match r {
        Ok(ts) => forall|j: int| 0 <= j < ts.len() ==> well_formed(#[trigger] ts[j]),
        Err(_) => true,
    }
}

proof fn lemma_tokens_from_well_formed(s: Seq<char>, i: int)
    requires
        0 <= i <= s.len(),
    ensures
        all_well_formed(tokens_from(s, i)),
    decreases s.len() - i,
{
    if i < s.len() {
        let c = s[i];
        if is_separator(c) {
            lemma_tokens_from_well_formed(s, i + 1);
        } else if symbol_of(c) is Some {
            lemma_tokens_from_well_formed(s, i + 1);
        } else if is_word_start(c) {
            let e = word_end(s, i + 1);
            lemma_word_end_bounds(s, i + 1);
            lemma_tokens_from_well_formed(s, e);
            let w = s.subrange(i, e);
            assert forall|j: int| 0 <= j < w.len() implies is_word_char(#[trigger] w[j]) by {
                assert(w[j] == s[i + j]);
            }
        } else if c == '"' {
            let e = quote_end(s, i + 1);
            lemma_quote_end_bounds(s, i + 1);
            if e < s.len() && s[e] == '"' {
                lemma_tokens_from_well_formed(s, e + 1);
                let text = s.subrange(i + 1, e);
                assert forall|j: int| 0 <= j < text.len() implies #[trigger] text[j] != '"'
                    && text[j] != '\n' by {
                    assert(text[j] == s[i + 1 + j]);
                }
            }
        } else if is_digit(c) {
            lemma_digit_end_bounds(s, i);
            lemma_tokens_from_well_formed(s, digit_end(s, i));
        }
    }
}

/// Every token that tokenizing yields is well formed: in particular an
/// identifier never spells a keyword.
pub proof fn lemma_tokens_well_formed(s: Seq<char>)
    ensures
        all_well_formed(tokenize_spec(s)),
{
    lemma_tokens_from_well_formed(s, 0);
}

/// The views of the tokens `ts`.
pub open spec fn views(ts: Seq<Token>) -> Seq<TokenView> {
    ts.map_values(|t: Token| t@)
}

/// What a tokenizing result says, with its tokens as views.
pub open spec fn result_view(r: Result<Vec<Token>, LexError>) -> Result<Seq<TokenView>, LexError> {
    match r {
        Ok(ts) => Ok(views(ts@)),
        Err(e) => Err(e),
    }
}

proof fn lemma_prefix_cons(p: Seq<TokenView>, t: TokenView, r: Result<Seq<TokenView>, LexError>)
    ensures
        prefix(p, cons(t, r)) == prefix(p.push(t), r),
{
    if let Ok(ts) = r {
        assert(p + (seq![t] + ts) =~= p.push(t) + ts);
    }
}

proof fn lemma_views_push(ts: Seq<Token>, t: Token)
    ensures
        views(ts.push(t)) == views(ts).push(t@),
{
    assert(views(ts.push(t)) =~= views(ts).push(t@));
}

fn word_start(c: char) -> (r: bool)
    ensures
        r == is_word_start(c),
{
    ('a' <= c && c <= 'z') || ('A' <= c && c <= 'Z') || c == '_'
}

fn digit(c: char) -> (r: bool)
    ensures
        r == is_digit(c),
{
    '0' <= c && c <= '9'
}

/// Appends `t` to `toks`, keeping what the tokens of the rest of the input
/// will complete to.
fn emit(toks: &mut Vec<Token>, t: Token, rest: Ghost<Result<Seq<TokenView>, LexError>>)
    ensures
        final(toks)@ == old(toks)@.push(t),
        prefix(views(old(toks)@), cons(t@, rest@)) == prefix(views(final(toks)@), rest@),
{
    proof {
        lemma_prefix_cons(views(toks@), t@, rest@);
        lemma_views_push(toks@, t);
    }
    toks.push(t);
}

/// Splits `source` into tokens, left to right: a space or newline is
/// skipped; a symbol or operator character is one token; a maximal run of
/// letters, digits and `_` that starts with a letter or `_` is a keyword if
/// it spells one and an identifier otherwise; a `"` starts a string constant
/// that ends at the next `"` on the same line; a maximal run of digits is an
/// integer constant of at most 32767. The first character that can start no
/// token, string left open, or integer too large ends the scan with an error
/// at its offset (in characters).
pub fn tokenize(source: &str) -> (r: Result<Vec<Token>, LexError>)
    ensures
        result_view(r) == tokenize_spec(source@),
{
    let v = chars_of(source);
    let n = v.len();
    let mut toks: Vec<Token> = Vec::new();
    let mut i: usize = 0;
    while i < n
        invariant
            v@ == source@,
            n == v@.len(),
            i <= n,
            tokenize_spec(v@) == prefix(views(toks@), tokens_from(v@, i as int)),
        decreases n - i,
    {
        let c = v[i];
        if c == ' ' || c == '\n' {
            i = i + 1;
            continue;
        }
        match Symbol::from_char(c) {
            Some(sym) => {
                emit(&mut toks, Token::Symbol(sym), Ghost(tokens_from(v@, i + 1)));
                i = i + 1;
                continue;
            },
            None => {},
        }
        if word_start(c) {
            let mut word = String::new();
            word.push(c);
            let mut j: usize = i + 1;
            proof {
                assert(word@ =~= v@.subrange(i as int, j as int));
            }
            while j < n && (word_start(v[j]) || digit(v[j]))
                invariant
                    n == v@.len(),
                    i < j <= n,
                    word_end(v@, i + 1) == word_end(v@, j as int),
                    word@ == v@.subrange(i as int, j as int),
                decreases n - j,
            {
                word.push(v[j]);
                j = j + 1;
                proof {
                    assert(word@ =~= v@.subrange(i as int, j as int));
                }
            }
            let t = match keyword_in(&v, i, j) {
                Some(k) => Token::Keyword(k),
                None => Token::Identifier(word),
            };
            emit(&mut toks, t, Ghost(tokens_from(v@, j as int)));
            i = j;
        } else if c == '"' {
            let mut text = String::new();
            let mut j: usize = i + 1;
            proof {
                assert(text@ =~= v@.subrange(i + 1, j as int));
            }
            while j < n && v[j] != '"' && v[j] != '\n'
                invariant
                    n == v@.len(),
                    i < j <= n,
                    quote_end(v@, i + 1) == quote_end(v@, j as int),
                    text@ == v@.subrange(i + 1, j as int),
                decreases n - j,
            {
                text.push(v[j]);
                j = j + 1;
                proof {
                    assert(text@ =~= v@.subrange(i + 1, j as int));
                }
            }
            if j < n && v[j] == '"' {
                emit(&mut toks, Token::String(text), Ghost(tokens_from(v@, j + 1)));
                i = j + 1;
            } else {
                return Err(LexError { kind: LexErrorKind::UnterminatedString, offset: i });
            }
        } else if digit(c) {
            let mut value: u32 = 0;
            let mut j: usize = i;
            proof {
                assert(v@.subrange(i as int, j as int) =~= Seq::<char>::empty());
            }
            while j < n && digit(v[j])
                invariant
                    n == v@.len(),
                    i <= j <= n,
                    digit_end(v@, i as int) == digit_end(v@, j as int),
                    value <= 10 * MAX_INTEGER + 9,
                    value == digits_value(v@.subrange(i as int, j as int)) || (value
                        > MAX_INTEGER && digits_value(v@.subrange(i as int, j as int))
                        > MAX_INTEGER),
                decreases n - j,
            {
                let d = v[j] as u32 - '0' as u32;
                proof {
                    let p = v@.subrange(i as int, j as int);
                    let q = v@.subrange(i as int, j + 1);
                    assert(q.drop_last() =~= p);
                    assert(q.last() == v@[j as int]);
                }
                if value <= MAX_INTEGER as u32 {
                    value = value * 10 + d;
                }
                j = j + 1;
            }
            if value > MAX_INTEGER as u32 {
                return Err(LexError { kind: LexErrorKind::IntegerOverflow, offset: i });
            }
            emit(&mut toks, Token::Integer(value as u16), Ghost(tokens_from(v@, j as int)));
            i = j;
        } else {
            return Err(LexError { kind: LexErrorKind::UnrecognizedCharacter, offset: i });
        }
    }
    Ok(toks)
}

} // verus!
