use vstd::prelude::*;
use crate::cleaner::{clean_from, clean_spec, gap_text, is_blank, pair_at, widen, Context, Gap};
use crate::lexicon::symbol_of;
use crate::tokenizer::{
    digit_end, digits_value, is_digit, is_separator, is_word_char, is_word_start,
    lemma_digit_end_bounds, lemma_word_end_bounds, tokenize_spec, tokens_from, word_end, word_token,
    LexError, LexErrorKind, TokenView,
};

verus! {

/// Inside a string literal that is closed at `k`, cleaning copies the
/// characters up to and including the closing quote.
proof fn lemma_string_copied(t: Seq<char>, i: int, k: int)
    requires
        0 <= i <= k < t.len(),
        t[k] == '"',
        forall|j: int| i <= j < k ==> t[j] != '"',
    ensures
        clean_from(t, i, Context::StringLiteral, Gap::Empty) == t.subrange(i, k + 1) + clean_from(
            t,
            k + 1,
            Context::Code,
            Gap::Empty,
        ),
    decreases k - i,
{
    if i < k {
        lemma_string_copied(t, i + 1, k);
    }
    assert(t.subrange(i, k + 1) =~= seq![t[i]] + t.subrange(i + 1, k + 1));
    assert(seq![t[i]] + t.subrange(i + 1, k + 1) + clean_from(t, k + 1, Context::Code, Gap::Empty)
        =~= seq![t[i]] + (t.subrange(i + 1, k + 1) + clean_from(
        t,
        k + 1,
        Context::Code,
        Gap::Empty,
    )));
}

/// A string literal comes out of cleaning exactly as it went in, even when
/// it holds comment openers, runs of spaces or newlines.
pub proof fn lemma_clean_keeps_string_literal(s: Seq<char>)
    requires
        forall|j: int| 0 <= j < s.len() ==> s[j] != '"',
    ensures
        clean_spec(seq!['"'] + s + seq!['"']) == seq!['"'] + s + seq!['"'],
{
    let t = seq!['"'] + s + seq!['"'];
    let k = t.len() - 1;
    assert forall|j: int| 1 <= j < k implies t[j] != '"' by {
        assert(t[j] == s[j - 1]);
    }
    lemma_string_copied(t, 1, k);
    assert(t.subrange(1, k + 1) =~= s + seq!['"']);
    assert(seq!['"'] + (s + seq!['"']) =~= t);
    assert(gap_text(Gap::Empty).push('"') =~= seq!['"']);
}

/// No comment starts in `t` from offset `i` on, reading it in code, or in a
/// string literal when `in_string`.
pub open spec fn comment_free_from(t: Seq<char>, i: int, in_string: bool) -> bool
    decreases t.len() - i,
{
    if i < 0 || i >= t.len() {
        true
    } else if in_string {
        comment_free_from(t, i + 1, t[i] != '"')
    } else {
        !pair_at(t, i, '/', '/') && !pair_at(t, i, '/', '*') && comment_free_from(
            t,
            i + 1,
            t[i] == '"',
        )
    }
}

/// `t` holds no comment.
pub open spec fn comment_free(t: Seq<char>) -> bool {
    comment_free_from(t, 0, false)
}

/// Every whitespace character of `t` is a single space or newline.
pub open spec fn single_spaced(t: Seq<char>) -> bool {
    &&& forall|j: int| 0 <= j < t.len() ==> t[j] != '\t'
    &&& forall|j: int| 0 <= j < t.len() - 1 ==> !(#[trigger] is_blank(t[j]) && is_blank(t[j + 1]))
}

/// The cleaner's context inside a string literal or in code.
pub open spec fn context_of(in_string: bool) -> Context {
    if in_string {
        Context::StringLiteral
    } else {
        Context::Code
    }
}

/// Cleaning single-spaced text without comments copies it, but for a last
/// whitespace character, which it may drop.
proof fn lemma_tidy_clean(t: Seq<char>, i: int, in_string: bool)
    requires
        single_spaced(t),
        comment_free_from(t, i, in_string),
        0 <= i <= t.len(),
    ensures
        ({
            let r = clean_from(t, i, context_of(in_string), Gap::Empty);
            r == t.subrange(i, t.len() as int) || (i < t.len() && is_blank(t.last()) && r
                == t.subrange(i, t.len() - 1))
        }),
    decreases t.len() - i,
{
    let n = t.len() as int;
    if i < n {
        let c = t[i];
        if is_blank(c) && !in_string {
            assert(gap_text(widen(Gap::Empty, c)) =~= seq![c]);
            if i + 1 < n {
                let d = t[i + 1];
                assert(!is_blank(d));
                assert(comment_free_from(t, i + 1, false));
                assert(comment_free_from(t, i + 2, d == '"'));
                lemma_tidy_clean(t, i + 2, d == '"');
                let r2 = clean_from(t, i + 2, context_of(d == '"'), Gap::Empty);
                assert(clean_from(t, i, Context::Code, Gap::Empty) == clean_from(
                    t,
                    i + 1,
                    Context::Code,
                    widen(Gap::Empty, c),
                ));
                assert(!pair_at(t, i + 1, '/', '/') && !pair_at(t, i + 1, '/', '*'));
                assert(clean_from(t, i + 1, Context::Code, widen(Gap::Empty, c)) == gap_text(
                    widen(Gap::Empty, c),
                ).push(d) + r2);
                if r2 == t.subrange(i + 2, n) {
                    assert(seq![c].push(d) + r2 =~= t.subrange(i, n));
                } else {
                    assert(seq![c].push(d) + r2 =~= t.subrange(i, n - 1));
                }
            } else {
                assert(t.subrange(i, n - 1) =~= Seq::<char>::empty());
                assert(t.last() == c);
                assert(clean_from(t, i, Context::Code, Gap::Empty) == clean_from(
                    t,
                    i + 1,
                    Context::Code,
                    widen(Gap::Empty, c),
                ));
            }
        } else {
            let next = if in_string {
                c != '"'
            } else {
                c == '"'
            };
            if !in_string {
                assert(!pair_at(t, i, '/', '/') && !pair_at(t, i, '/', '*'));
            }
            lemma_tidy_clean(t, i + 1, next);
            let r2 = clean_from(t, i + 1, context_of(next), Gap::Empty);
            assert(gap_text(Gap::Empty).push(c) =~= seq![c]);
            assert(clean_from(t, i, context_of(in_string), Gap::Empty) == seq![c] + r2);
            if r2 == t.subrange(i + 1, n) {
                assert(seq![c] + r2 =~= t.subrange(i, n));
            } else {
                assert(seq![c] + r2 =~= t.subrange(i, n - 1));
            }
        }
    } else {
        assert(t.subrange(i, n) =~= Seq::<char>::empty());
        assert(clean_from(t, i, context_of(in_string), Gap::Empty) == Seq::<char>::empty());
    }
}

proof fn lemma_comment_free_drop_last(t: Seq<char>, i: int, in_string: bool)
    requires
        t.len() > 0,
        comment_free_from(t, i, in_string),
    ensures
        comment_free_from(t.drop_last(), i, in_string),
    decreases t.len() - i,
{
    let u = t.drop_last();
    if 0 <= i < u.len() {
        if in_string {
            lemma_comment_free_drop_last(t, i + 1, t[i] != '"');
        } else {
            lemma_comment_free_drop_last(t, i + 1, t[i] == '"');
        }
    }
}

/// Cleaning text that is already single-spaced and free of comments a
/// second time changes nothing.
pub proof fn lemma_clean_idempotent_on_tidy_text(t: Seq<char>)
    requires
        comment_free(t),
        single_spaced(t),
    ensures
        clean_spec(clean_spec(t)) == clean_spec(t),
{
    lemma_tidy_clean(t, 0, false);
    let u = clean_spec(t);
    assert(t.subrange(0, t.len() as int) =~= t);
    if u != t {
        assert(u =~= t.drop_last());
        lemma_comment_free_drop_last(t, 0, false);
        assert(single_spaced(u));
        lemma_tidy_clean(u, 0, false);
        assert(u.subrange(0, u.len() as int) =~= u);
        if u.len() > 0 {
            assert(u.last() == t[t.len() - 2]);
        }
    }
}

/// `s` with each tab written as a space: the whitespace the tokenizer skips.
pub open spec fn spaced(s: Seq<char>) -> Seq<char> {
    s.map_values(|c: char| if c == '\t' { ' ' } else { c })
}

/// What a tokenizing result says, leaving out where a failure was found.
pub open spec fn outcome(r: Result<Seq<TokenView>, LexError>) -> Result<
    Seq<TokenView>,
    LexErrorKind,
> {
    match r {
        Ok(ts) => Ok(ts),
        Err(e) => Err(e.kind),
    }
}

/// `s` holds no `"` and no comment opener: neither strings nor comments.
pub open spec fn plain_code(s: Seq<char>) -> bool {
    &&& forall|j: int| 0 <= j < s.len() ==> s[j] != '"'
    &&& forall|j: int| !#[trigger] pair_at(s, j, '/', '/')
    &&& forall|j: int| !#[trigger] pair_at(s, j, '/', '*')
}

proof fn lemma_outcome_cons(
    t: TokenView,
    r1: Result<Seq<TokenView>, LexError>,
    r2: Result<Seq<TokenView>, LexError>,
)
    requires
        outcome(r1) == outcome(r2),
    ensures
        outcome(crate::tokenizer::cons(t, r1)) == outcome(crate::tokenizer::cons(t, r2)),
{
    match r1 {
        Ok(_) => {
            assert(r2 is Ok);
        },
        Err(_) => {
            assert(r2 is Err);
        },
    }
}

/// A run of non-blank characters of plain code is copied by cleaning.
proof fn lemma_run_verbatim(s: Seq<char>, a: int, b: int)
    requires
        plain_code(s),
        0 <= a <= b <= s.len(),
        forall|j: int| a <= j < b ==> !is_blank(s[j]),
    ensures
        clean_from(s, a, Context::Code, Gap::Empty) == s.subrange(a, b) + clean_from(
            s,
            b,
            Context::Code,
            Gap::Empty,
        ),
    decreases b - a,
{
    if a < b {
        lemma_run_verbatim(s, a + 1, b);
        assert(!pair_at(s, a, '/', '/') && !pair_at(s, a, '/', '*'));
        assert(gap_text(Gap::Empty).push(s[a]) =~= seq![s[a]]);
        assert(s.subrange(a, b) =~= seq![s[a]] + s.subrange(a + 1, b));
        assert(seq![s[a]] + (s.subrange(a + 1, b) + clean_from(s, b, Context::Code, Gap::Empty))
            =~= seq![s[a]] + s.subrange(a + 1, b) + clean_from(s, b, Context::Code, Gap::Empty));
    } else {
        assert(s.subrange(a, b) =~= Seq::<char>::empty());
        assert(s.subrange(a, b) + clean_from(s, b, Context::Code, Gap::Empty) =~= clean_from(
            s,
            b,
            Context::Code,
            Gap::Empty,
        ));
    }
}

/// With whitespace pending, cleaned plain code starts with a separator.
proof fn lemma_gap_first(s: Seq<char>, j: int, g: Gap)
    requires
        plain_code(s),
        g != Gap::Empty,
        0 <= j <= s.len(),
    ensures
        ({
            let r = clean_from(s, j, Context::Code, g);
            r.len() == 0 || is_separator(r[0])
        }),
    decreases s.len() - j,
{
    if j < s.len() {
        assert(!pair_at(s, j, '/', '/') && !pair_at(s, j, '/', '*'));
        if is_blank(s[j]) {
            lemma_gap_first(s, j + 1, widen(g, s[j]));
        }
    }
}

/// What follows a token in cleaned plain code: nothing, a separator, or the
/// character that ended the token.
proof fn lemma_boundary(s: Seq<char>, e: int)
    requires
        plain_code(s),
        0 <= e <= s.len(),
    ensures
        ({
            let r = clean_from(s, e, Context::Code, Gap::Empty);
            r.len() == 0 || is_separator(r[0]) || (e < s.len() && !is_blank(s[e]) && r[0]
                == s[e])
        }),
{
    if e < s.len() {
        assert(!pair_at(s, e, '/', '/') && !pair_at(s, e, '/', '*'));
        if is_blank(s[e]) {
            lemma_gap_first(s, e + 1, widen(Gap::Empty, s[e]));
        }
    }
}

proof fn lemma_word_end_at(u: Seq<char>, a: int, b: int)
    requires
        0 <= a <= b <= u.len(),
        forall|j: int| a <= j < b ==> is_word_char(u[j]),
        b == u.len() || !is_word_char(u[b]),
    ensures
        word_end(u, a) == b,
    decreases b - a,
{
    if a < b {
        lemma_word_end_at(u, a + 1, b);
    }
}

proof fn lemma_digit_end_at(u: Seq<char>, a: int, b: int)
    requires
        0 <= a <= b <= u.len(),
        forall|j: int| a <= j < b ==> is_digit(u[j]),
        b == u.len() || !is_digit(u[b]),
    ensures
        digit_end(u, a) == b,
    decreases b - a,
{
    if a < b {
        lemma_digit_end_at(u, a + 1, b);
    }
}

proof fn lemma_spaced_at(s: Seq<char>, j: int)
    requires
        0 <= j < s.len(),
    ensures
        spaced(s).len() == s.len(),
        spaced(s)[j] == (if s[j] == '\t' { ' ' } else { s[j] }),
        !is_separator(spaced(s)[j]) ==> spaced(s)[j] == s[j] && !is_blank(s[j]),
{
}

/// Where `u` continues as the cleaned text of plain code `s` from `i`, a run
/// `s[i..e]` without whitespace comes first in `u`, as it stands, and is
/// followed by the end, a separator, or the character that ended the run.
proof fn lemma_copied_run(s: Seq<char>, u: Seq<char>, i: int, k: int, e: int)
    requires
        plain_code(s),
        0 <= i <= e <= s.len(),
        0 <= k <= u.len(),
        forall|j: int| i <= j < e ==> !is_blank(s[j]),
        u.subrange(k, u.len() as int) == clean_from(s, i, Context::Code, Gap::Empty),
    ensures
        k + (e - i) <= u.len(),
        u.subrange(k, k + (e - i)) == spaced(s).subrange(i, e),
        u.subrange(k + (e - i), u.len() as int) == clean_from(s, e, Context::Code, Gap::Empty),
        k + (e - i) == u.len() || is_separator(u[k + (e - i)]) || (e < s.len() && !is_blank(s[e])
            && u[k + (e - i)] == spaced(s)[e]),
{
    let w = spaced(s);
    let x = u.subrange(k, u.len() as int);
    let m = k + (e - i);
    lemma_run_verbatim(s, i, e);
    lemma_boundary(s, e);
    let rest = clean_from(s, e, Context::Code, Gap::Empty);
    assert(u.len() - k == x.len());
    assert forall|j: int| k <= j < m implies u[j] == w[i + (j - k)] by {
        assert(u[j] == x[j - k]);
        lemma_spaced_at(s, i + (j - k));
    }
    assert(u.subrange(k, m) =~= w.subrange(i, e));
    assert forall|t: int| 0 <= t < rest.len() implies u[m + t] == rest[t] by {
        assert(u[m + t] == x[(e - i) + t]);
    }
    assert(u.subrange(m, u.len() as int) =~= rest);
    if m < u.len() {
        assert(u[m] == rest[0]);
        if e < s.len() {
            lemma_spaced_at(s, e);
        }
    }
}

/// Tokenizing from `k` in `u`, where `u` continues as the cleaned text of
/// plain code `s` from `i` with gap `g` pending, says what tokenizing
/// `spaced(s)` from `i` says.
#[verifier::rlimit(50)]
proof fn lemma_clean_tokens(s: Seq<char>, u: Seq<char>, i: int, k: int, g: Gap)
    requires
        plain_code(s),
        0 <= i <= s.len(),
        0 <= k <= u.len(),
        u.subrange(k, u.len() as int) == clean_from(s, i, Context::Code, g),
    ensures
        outcome(tokens_from(u, k)) == outcome(tokens_from(spaced(s), i)),
    decreases s.len() - i, if g == Gap::Empty { 0int } else { 1int },
{
    let w = spaced(s);
    let n = s.len() as int;
    let x = u.subrange(k, u.len() as int);
    if i == n {
        assert(x.len() == 0);
        return;
    }
    let c = s[i];
    lemma_spaced_at(s, i);
    assert(!pair_at(s, i, '/', '/') && !pair_at(s, i, '/', '*'));
    assert(c != '"');
    if is_blank(c) {
        lemma_clean_tokens(s, u, i + 1, k, widen(g, c));
        return;
    }
    let rest1 = clean_from(s, i + 1, Context::Code, Gap::Empty);
    assert(gap_text(Gap::Empty).push(c) =~= seq![c]);
    assert(clean_from(s, i, Context::Code, Gap::Empty) == seq![c] + rest1);
    if g != Gap::Empty {
        assert(x == gap_text(g).push(c) + rest1);
        assert(x[0] == u[k]);
        assert(u.subrange(k + 1, u.len() as int) =~= x.subrange(1, x.len() as int));
        assert(x.subrange(1, x.len() as int) =~= seq![c] + rest1);
        lemma_clean_tokens(s, u, i, k + 1, Gap::Empty);
        return;
    }
    assert(u[k] == x[0]);
    if symbol_of(c) is Some {
        assert(u.subrange(k + 1, u.len() as int) =~= x.subrange(1, x.len() as int));
        assert(x.subrange(1, x.len() as int) =~= rest1);
        lemma_clean_tokens(s, u, i + 1, k + 1, Gap::Empty);
        lemma_outcome_cons(
            TokenView::Symbol(symbol_of(c)->0),
            tokens_from(u, k + 1),
            tokens_from(w, i + 1),
        );
    } else if is_word_start(c) {
        let e = word_end(w, i + 1);
        lemma_word_end_bounds(w, i + 1);
        assert forall|j: int| i <= j < e implies !is_blank(s[j]) by {
            lemma_spaced_at(s, j);
        }
        lemma_copied_run(s, u, i, k, e);
        let m = k + (e - i);
        assert forall|j: int| k + 1 <= j < m implies is_word_char(u[j]) by {
            assert(u[j] == u.subrange(k, m)[j - k]);
        }
        if e < n {
            lemma_spaced_at(s, e);
        }
        lemma_word_end_at(u, k + 1, m);
        lemma_clean_tokens(s, u, e, m, Gap::Empty);
        lemma_outcome_cons(word_token(w.subrange(i, e)), tokens_from(u, m), tokens_from(w, e));
    } else if is_digit(c) {
        let e = digit_end(w, i);
        lemma_digit_end_bounds(w, i);
        assert forall|j: int| i <= j < e implies !is_blank(s[j]) by {
            lemma_spaced_at(s, j);
        }
        lemma_copied_run(s, u, i, k, e);
        let m = k + (e - i);
        assert forall|j: int| k <= j < m implies is_digit(u[j]) by {
            assert(u[j] == u.subrange(k, m)[j - k]);
        }
        if e < n {
            lemma_spaced_at(s, e);
        }
        lemma_digit_end_at(u, k, m);
        lemma_clean_tokens(s, u, e, m, Gap::Empty);
        let v = digits_value(w.subrange(i, e));
        if v <= crate::tokenizer::MAX_INTEGER {
            lemma_outcome_cons(TokenView::Integer(v as u16), tokens_from(u, m), tokens_from(w, e));
        }
    }
}

/// Cleaning plain code, text with no strings and no comments, leaves its
/// token stream as it was: tokenizing the cleaned text succeeds with the
/// same tokens, or fails with the same kind of error, as tokenizing the text
/// itself with each tab written as a space.
pub proof fn lemma_clean_keeps_tokens(s: Seq<char>)
    requires
        plain_code(s),
    ensures
        outcome(tokenize_spec(clean_spec(s))) == outcome(tokenize_spec(spaced(s))),
{
    let u = clean_spec(s);
    assert(u.subrange(0, u.len() as int) =~= u);
    lemma_clean_tokens(s, u, 0, 0, Gap::Empty);
}

} // verus!
