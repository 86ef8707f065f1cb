use vstd::prelude::*;
use vstd::string::StrSliceExecFns;

verus! {

/// The reserved words of the language.
#[derive(Clone, Copy, Debug, PartialEq, Eq, Structural)]
pub enum Keyword {
    Class,
    Method,
    Function,
    Constructor,
    Int,
    Bool,
    Char,
    Void,
    Var,
    Static,
    Field,
    Let,
    Do,
    If,
    Else,
    While,
    Return,
    True,
    False,
    Null,
    This,
}

/// Which side of a pair of parentheses, brackets or braces.
#[derive(Clone, Copy, Debug, PartialEq, Eq, Structural)]
pub enum Sided {
    Left,
    Right,
}

/// The single-character operators.
#[derive(Clone, Copy, Debug, PartialEq, Eq, Structural)]
pub enum Operator {
    Add,
    Subtract,
    Multiply,
    Divide,
    And,
    Or,
    Not,
    Lesser,
    Greater,
}

/// The single-character symbols, operators included.
#[derive(Clone, Copy, Debug, PartialEq, Eq, Structural)]
pub enum Symbol {
    Parenthese(Sided),
    Bracket(Sided),
    Brace(Sided),
    Comma,
    Semicolon,
    Equals,
    Period,
    Operator(Operator),
}

/// The keyword spelled exactly `w`, if any.
pub open spec fn keyword_of(w: Seq<char>) -> Option<Keyword> {
    if w == "class"@ { Some(Keyword::Class) }
    else if w == "method"@ { Some(Keyword::Method) }
    else if w == "function"@ { Some(Keyword::Function) }
    else if w == "constructor"@ { Some(Keyword::Constructor) }
    else if w == "int"@ { Some(Keyword::Int) }
    else if w == "bool"@ { Some(Keyword::Bool) }
    else if w == "char"@ { Some(Keyword::Char) }
    else if w == "void"@ { Some(Keyword::Void) }
    else if w == "var"@ { Some(Keyword::Var) }
    else if w == "static"@ { Some(Keyword::Static) }
    else if w == "field"@ { Some(Keyword::Field) }
    else if w == "let"@ { Some(Keyword::Let) }
    else if w == "do"@ { Some(Keyword::Do) }
    else if w == "if"@ { Some(Keyword::If) }
    else if w == "else"@ { Some(Keyword::Else) }
    else if w == "while"@ { Some(Keyword::While) }
    else if w == "return"@ { Some(Keyword::Return) }
    else if w == "true"@ { Some(Keyword::True) }
    else if w == "false"@ { Some(Keyword::False) }
    else if w == "null"@ { Some(Keyword::Null) }
    else if w == "this"@ { Some(Keyword::This) }
    else { None }
}

/// The operator written as the character `c`, if any.
pub open spec fn operator_of(c: char) -> Option<Operator> {
    if c == '+' { Some(Operator::Add) }
    else if c == '-' { Some(Operator::Subtract) }
    else if c == '*' { Some(Operator::Multiply) }
    else if c == '/' { Some(Operator::Divide) }
    else if c == '&' { Some(Operator::And) }
    else if c == '|' { Some(Operator::Or) }
    else if c == '~' { Some(Operator::Not) }
    else if c == '<' { Some(Operator::Lesser) }
    else if c == '>' { Some(Operator::Greater) }
    else { None }
}

/// The symbol written as the character `c`, if any.
pub open spec fn symbol_of(c: char) -> Option<Symbol> {
    if c == '(' { Some(Symbol::Parenthese(Sided::Left)) }
    else if c == ')' { Some(Symbol::Parenthese(Sided::Right)) }
    else if c == '[' { Some(Symbol::Bracket(Sided::Left)) }
    else if c == ']' { Some(Symbol::Bracket(Sided::Right)) }
    else if c == '{' { Some(Symbol::Brace(Sided::Left)) }
    else if c == '}' { Some(Symbol::Brace(Sided::Right)) }
    else if c == ',' { Some(Symbol::Comma) }
    else if c == ';' { Some(Symbol::Semicolon) }
    else if c == '=' { Some(Symbol::Equals) }
    else if c == '.' { Some(Symbol::Period) }
    else {
        match operator_of(c) {
            Some(o) => Some(Symbol::Operator(o)),
            None => None,
        }
    }
}

/// Whether `v[lo..hi]` spells exactly `k`.
fn spells(v: &Vec<char>, lo: usize, hi: usize, k: &str) -> (r: bool)
    requires
        lo <= hi <= v@.len(),
    ensures
        r == (v@.subrange(lo as int, hi as int) == k@),
{
    let n = k.unicode_len();
    if hi - lo != n {
        return false;
    }
    let mut j: usize = 0;
    while j < n
        invariant
            lo <= hi <= v@.len(),
            n == k@.len(),
            hi - lo == n,
            j <= n,
            forall|t: int| 0 <= t < j ==> v@[lo + t] == k@[t],
        decreases n - j,
    {
        if v[lo + j] != k.get_char(j) {
            assert(v@.subrange(lo as int, hi as int)[j as int] != k@[j as int]);
            return false;
        }
        j = j + 1;
    }
    assert(v@.subrange(lo as int, hi as int) =~= k@);
    true
}

/// The keyword spelled exactly `v[lo..hi]`, if any.
pub(crate) fn keyword_in(v: &Vec<char>, lo: usize, hi: usize) -> (r: Option<Keyword>)
    requires
        lo <= hi <= v@.len(),
    ensures
        r == keyword_of(v@.subrange(lo as int, hi as int)),
{
    if spells(v, lo, hi, "class") { Some(Keyword::Class) }
    else if spells(v, lo, hi, "method") { Some(Keyword::Method) }
    else if spells(v, lo, hi, "function") { Some(Keyword::Function) }
    else if spells(v, lo, hi, "constructor") { Some(Keyword::Constructor) }
    else if spells(v, lo, hi, "int") { Some(Keyword::Int) }
    else if spells(v, lo, hi, "bool") { Some(Keyword::Bool) }
    else if spells(v, lo, hi, "char") { Some(Keyword::Char) }
    else if spells(v, lo, hi, "void") { Some(Keyword::Void) }
    else if spells(v, lo, hi, "var") { Some(Keyword::Var) }
    else if spells(v, lo, hi, "static") { Some(Keyword::Static) }
    else if spells(v, lo, hi, "field") { Some(Keyword::Field) }
    else if spells(v, lo, hi, "let") { Some(Keyword::Let) }
    else if spells(v, lo, hi, "do") { Some(Keyword::Do) }
    else if spells(v, lo, hi, "if") { Some(Keyword::If) }
    else if spells(v, lo, hi, "else") { Some(Keyword::Else) }
    else if spells(v, lo, hi, "while") { Some(Keyword::While) }
    else if spells(v, lo, hi, "return") { Some(Keyword::Return) }
    else if spells(v, lo, hi, "true") { Some(Keyword::True) }
    else if spells(v, lo, hi, "false") { Some(Keyword::False) }
    else if spells(v, lo, hi, "null") { Some(Keyword::Null) }
    else if spells(v, lo, hi, "this") { Some(Keyword::This) }
    else { None }
}

impl Keyword {
    /// The keyword spelled exactly `word`, if any.
    pub fn from_word(word: &str) -> (r: Option<Keyword>)
        ensures
            r == keyword_of(word@),
    {
        let v = crate::text::chars_of(word);
        assert(v@.subrange(0, v@.len() as int) =~= word@);
        keyword_in(&v, 0, v.len())
    }
}

impl Operator {
    /// The operator written as `c`, if any.
    pub fn from_char(c: char) -> (r: Option<Operator>)
        ensures
            r == operator_of(c),
    {
        match c {
            '+' => Some(Operator::Add),
            '-' => Some(Operator::Subtract),
            '*' => Some(Operator::Multiply),
            '/' => Some(Operator::Divide),
            '&' => Some(Operator::And),
            '|' => Some(Operator::Or),
            '~' => Some(Operator::Not),
            '<' => Some(Operator::Lesser),
            '>' => Some(Operator::Greater),
            _ => None,
        }
    }
}

impl Symbol {
    /// The symbol written as `c`, if any; an operator character gives
    /// `Symbol::Operator`.
    pub fn from_char(c: char) -> (r: Option<Symbol>)
        ensures
            r == symbol_of(c),
    {
        match c {
            '(' => Some(Symbol::Parenthese(Sided::Left)),
            ')' => Some(Symbol::Parenthese(Sided::Right)),
            '[' => Some(Symbol::Bracket(Sided::Left)),
            ']' => Some(Symbol::Bracket(Sided::Right)),
            '{' => Some(Symbol::Brace(Sided::Left)),
            '}' => Some(Symbol::Brace(Sided::Right)),
            ',' => Some(Symbol::Comma),
            ';' => Some(Symbol::Semicolon),
            '=' => Some(Symbol::Equals),
            '.' => Some(Symbol::Period),
            _ => match Operator::from_char(c) {
                Some(o) => Some(Symbol::Operator(o)),
                None => None,
            },
        }
    }
}

/// `Ok` of what `o` holds, or `Err(())` when it holds nothing.
pub open spec fn found<T>(o: Option<T>) -> Result<T, ()> {
    match o {
        Some(v) => Ok(v),
        None => Err(()),
    }
}

impl<'a> TryFrom<&'a str> for Keyword {
    type Error = ();

    fn try_from(value: &'a str) -> (r: Result<Keyword, ()>)
        ensures
            r == found(keyword_of(value@)),
    {
        match Keyword::from_word(value) {
            Some(k) => Ok(k),
            None => Err(()),
        }
    }
}

impl<'a> vstd::std_specs::convert::TryFromSpecImpl<&'a str> for Keyword {
    open spec fn obeys_try_from_spec() -> bool {
        true
    }

    open spec fn try_from_spec(v: &'a str) -> Result<Keyword, ()> {
        found(keyword_of(v@))
    }
}

impl TryFrom<char> for Operator {
    type Error = ();

    fn try_from(value: char) -> (r: Result<Operator, ()>)
        ensures
            r == found(operator_of(value)),
    {
        match Operator::from_char(value) {
            Some(o) => Ok(o),
            None => Err(()),
        }
    }
}

impl vstd::std_specs::convert::TryFromSpecImpl<char> for Operator {
    open spec fn obeys_try_from_spec() -> bool {
        true
    }

    open spec fn try_from_spec(v: char) -> Result<Operator, ()> {
        found(operator_of(v))
    }
}

impl TryFrom<char> for Symbol {
    type Error = ();

    fn try_from(value: char) -> (r: Result<Symbol, ()>)
        ensures
            r == found(symbol_of(value)),
    {
        match Symbol::from_char(value) {
            Some(s) => Ok(s),
            None => Err(()),
        }
    }
}

impl vstd::std_specs::convert::TryFromSpecImpl<char> for Symbol {
    open spec fn obeys_try_from_spec() -> bool {
        true
    }

    open spec fn try_from_spec(v: char) -> Result<Symbol, ()> {
        found(symbol_of(v))
    }
}

} // verus!
