use vstd::prelude::*;
use crate::text::chars_of;

verus! {

/// The lexical context the cleaner is in.
#[derive(Clone, Copy, Debug, PartialEq, Eq, Structural)]
pub enum Context {
    Code,
    LineComment,
    BlockComment,
    StringLiteral,
}

/// The whitespace seen in code since the last emitted character.
#[derive(Clone, Copy, Debug, PartialEq, Eq, Structural)]
pub enum Gap {
    Empty,
    Space,
    Newline,
}

/// Whitespace that the cleaner collapses.
pub open spec fn is_blank(c: char) -> bool {
    c == ' ' || c == '\t' || c == '\n'
}

/// The gap after whitespace character `c` joins gap `g`: a newline wins.
pub open spec fn widen(g: Gap, c: char) -> Gap {
    if c == '\n' || g == Gap::Newline {
        Gap::Newline
    } else {
        Gap::Space
    }
}

/// The text that gap `g` leaves when a character follows it.
pub open spec fn gap_text(g: Gap) -> Seq<char> {
    match g {
        Gap::Empty => seq![],
        Gap::Space => seq![' '],
        Gap::Newline => seq!['\n'],
    }
}

/// Whether `s` holds `a` at `i` and `b` at `i + 1`.
pub open spec fn pair_at(s: Seq<char>, i: int, a: char, b: char) -> bool {
    0 <= i && i + 1 < s.len() && s[i] == a && s[i + 1] == b
}

/// The cleaned text of `s` from offset `i` on, in context `ctx`, with gap
/// `g` pending. A gap still pending at the end of the input is dropped.
pub open spec fn clean_from(s: Seq<char>, i: int, ctx: Context, g: Gap) -> Seq<char>
    decreases s.len() - i,
{
    if i < 0 || i >= s.len() {
        seq![]
    } else {
        let c = s[i];
        match ctx {
            Context::Code => {
                if pair_at(s, i, '/', '/') {
                    clean_from(s, i + 2, Context::LineComment, g)
                } else if pair_at(s, i, '/', '*') {
                    clean_from(s, i + 2, Context::BlockComment, g)
                } else if is_blank(c) {
                    clean_from(s, i + 1, Context::Code, widen(g, c))
                } else if c == '"' {
                    gap_text(g).push(c) + clean_from(s, i + 1, Context::StringLiteral, Gap::Empty)
                } else {
                    gap_text(g).push(c) + clean_from(s, i + 1, Context::Code, Gap::Empty)
                }
            },
            Context::LineComment => {
                if c == '\n' {
                    clean_from(s, i + 1, Context::Code, widen(g, c))
                } else {
                    clean_from(s, i + 1, Context::LineComment, g)
                }
            },
            Context::BlockComment => {
                if pair_at(s, i, '*', '/') {
                    clean_from(s, i + 2, Context::Code, g)
                } else {
                    clean_from(s, i + 1, Context::BlockComment, g)
                }
            },
            Context::StringLiteral => {
                if c == '"' {
                    seq![c] + clean_from(s, i + 1, Context::Code, Gap::Empty)
                } else {
                    seq![c] + clean_from(s, i + 1, Context::StringLiteral, Gap::Empty)
                }
            },
        }
    }
}

/// The cleaned text of `s`.
pub open spec fn clean_spec(s: Seq<char>) -> Seq<char> {
    clean_from(s, 0, Context::Code, Gap::Empty)
}

fn push_gap(out: &mut String, g: Gap)
    ensures
        final(out)@ == old(out)@ + gap_text(g),
{
    match g {
        Gap::Empty => {},
        Gap::Space => out.push(' '),
        Gap::Newline => out.push('\n'),
    }
    assert(final(out)@ =~= old(out)@ + gap_text(g));
}

/// Removes comments and collapses whitespace. Outside string literals, `//`
/// drops the rest of its line but not the newline that ends it, `/*` drops
/// everything up to and including the next `*/` (or to the end), and each
/// run of spaces, tabs and newlines becomes one newline if it held one and
/// one space otherwise, with comments inside the run adding nothing; a run at
/// the end is dropped. A `"` in code starts a string literal, copied as it
/// stands up to and including the next `"`.
pub fn clean(source: &str) -> (r: String)
    ensures
        r@ == clean_spec(source@),
{
    let v = chars_of(source);
    let n = v.len();
    let mut out = String::new();
    let mut i: usize = 0;
    let mut ctx = Context::Code;
    let mut g = Gap::Empty;
    while i < n
        invariant
            v@ == source@,
            n == v@.len(),
            i <= n,
            ctx == Context::StringLiteral ==> g == Gap::Empty,
            clean_spec(v@) == out@ + clean_from(v@, i as int, ctx, g),
        decreases n - i,
    {
        let c = v[i];
        let next_is = |d: char| -> (b: bool)
            ensures
                b == (i + 1 < n && v@[i + 1] == d),
            { i + 1 < n && v[i + 1] == d };
        let ghost out0 = out@;
        let ghost rest = clean_from(v@, i as int, ctx, g);
        match ctx {
            Context::Code => {
                if c == '/' && next_is('/') {
                    ctx = Context::LineComment;
                    i = i + 2;
                } else if c == '/' && next_is('*') {
                    ctx = Context::BlockComment;
                    i = i + 2;
                } else if c == ' ' || c == '\t' || c == '\n' {
                    if c == '\n' {
                        g = Gap::Newline;
                    } else if g != Gap::Newline {
                        g = Gap::Space;
                    }
                    i = i + 1;
                } else {
                    push_gap(&mut out, g);
                    out.push(c);
                    g = Gap::Empty;
                    if c == '"' {
                        ctx = Context::StringLiteral;
                    }
                    i = i + 1;
                    assert(out@ + clean_from(v@, i as int, ctx, g) =~= out0 + rest);
                }
            },
            Context::LineComment => {
                if c == '\n' {
                    ctx = Context::Code;
                    g = Gap::Newline;
                }
                i = i + 1;
            },
            Context::BlockComment => {
                if c == '*' && next_is('/') {
                    ctx = Context::Code;
                    i = i + 2;
                } else {
                    i = i + 1;
                }
            },
            Context::StringLiteral => {
                out.push(c);
                if c == '"' {
                    ctx = Context::Code;
                }
                i = i + 1;
                assert(out@ + clean_from(v@, i as int, ctx, g) =~= out0 + rest);
            },
        }
    }
    assert(out@ =~= out@ + clean_from(v@, i as int, ctx, g));
    out
}

} // verus!
