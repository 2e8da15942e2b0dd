use vstd::prelude::*;
use vstd::std_specs::iter::IteratorSpec;

verus! {

#[derive(Debug, Clone, Copy, PartialEq, Eq, Structural)]
pub enum TokenType {
    Ident,
    Number,
    String,
    Let,
    Return,
    True,
    False,
    If,
    Else,
    Fn,
    Assign,
    Add,
    Sub,
    Mul,
    Div,
    Bang,
    Lt,
    Gt,
    Eq,
    NotEq,
    Comma,
    Semicolon,
    Colon,
    Period,
    LParen,
    RParen,
    LBrace,
    RBrace,
    LBracket,
    RBracket,
    Illegal,
    Eof,
}

#[derive(Debug)]
pub struct Token {
    pub ttype: TokenType,
    pub literal: Vec<char>,
}

/// The characters of `s`, in order.
pub fn chars_of(s: &str) -> (r: Vec<char>)
    ensures
        r@ == s@,
{
    broadcast use vstd::string::axiom_spec_iter, vstd::string::next_postcondition;

    let mut it = s.chars();
    let mut out: Vec<char> = Vec::new();
    loop
        invariant
            it.obeys_prophetic_iter_laws(),
            it.decrease() is Some,
            out@ + it.remaining() == s@,
        ensures
            out@ == s@,
        decreases it.decrease()->0,
    {
        match it.next() {
            Some(c) => {
                out.push(c);
            },
            None => {
                assert(out@ + it.remaining() =~= out@);
                break ;
            },
        }
    }
    out
}

pub open spec fn is_letter(c: char) -> bool {
    ('a' <= c && c <= 'z') || ('A' <= c && c <= 'Z') || c == '_'
}

pub open spec fn is_digit(c: char) -> bool {
    '0' <= c && c <= '9'
}

pub open spec fn is_space(c: char) -> bool {
    c == ' ' || c == '\t' || c == '\n' || c == '\r'
}

/// Where the run of letters and digits that starts at `i` ends.
pub open spec fn word_end(cs: Seq<char>, i: int) -> int
    decreases cs.len() - i,
{
    if 0 <= i < cs.len() && (is_letter(cs[i]) || is_digit(cs[i])) {
        word_end(cs, i + 1)
    } else {
        i
    }
}

/// Where the run of digits that starts at `i` ends.
pub open spec fn digits_end(cs: Seq<char>, i: int) -> int
    decreases cs.len() - i,
{
    if 0 <= i < cs.len() && is_digit(cs[i]) {
        digits_end(cs, i + 1)
    } else {
        i
    }
}

/// The position of the first `"` from `i` on, or the end of input.
pub open spec fn quote_end(cs: Seq<char>, i: int) -> int
    decreases cs.len() - i,
{
    if 0 <= i < cs.len() && cs[i] != '"' {
        quote_end(cs, i + 1)
    } else {
        i
    }
}

/// The kind of a word: a keyword, or else an identifier.
pub open spec fn keyword(w: Seq<char>) -> TokenType {
    if w == seq!['l', 'e', 't'] {
        TokenType::Let
    } else if w == seq!['r', 'e', 't', 'u', 'r', 'n'] {
        TokenType::Return
    } else if w == seq!['t', 'r', 'u', 'e'] {
        TokenType::True
    } else if w == seq!['f', 'a', 'l', 's', 'e'] {
        TokenType::False
    } else if w == seq!['i', 'f'] {
        TokenType::If
    } else if w == seq!['e', 'l', 's', 'e'] {
        TokenType::Else
    } else if w == seq!['f', 'n'] {
        TokenType::Fn
    } else {
        TokenType::Ident
    }
}

/// The kind of a one-character token.
pub open spec fn symbol(c: char) -> TokenType {
    if c == '=' {
        TokenType::Assign
    } else if c == '+' {
        TokenType::Add
    } else if c == '-' {
        TokenType::Sub
    } else if c == '*' {
        TokenType::Mul
    } else if c == '/' {
        TokenType::Div
    } else if c == '!' {
        TokenType::Bang
    } else if c == '<' {
        TokenType::Lt
    } else if c == '>' {
        TokenType::Gt
    } else if c == ',' {
        TokenType::Comma
    } else if c == ';' {
        TokenType::Semicolon
    } else if c == ':' {
        TokenType::Colon
    } else if c == '.' {
        TokenType::Period
    } else if c == '(' {
        TokenType::LParen
    } else if c == ')' {
        TokenType::RParen
    } else if c == '{' {
        TokenType::LBrace
    } else if c == '}' {
        TokenType::RBrace
    } else if c == '[' {
        TokenType::LBracket
    } else if c == ']' {
        TokenType::RBracket
    } else {
        TokenType::Illegal
    }
}

/// The tokens of `cs` from position `i` on, as kind and text. Words are
/// identifiers or keywords, digit runs are numbers, text between double
/// quotes is a string (without the quotes; an unclosed one runs to the end),
/// `==` and `!=` are single tokens, white space separates tokens, and any
/// other character stands for itself or is `Illegal`.
#[verifier::opaque]
pub open spec fn lex_from(cs: Seq<char>, i: int) -> Seq<(TokenType, Seq<char>)>
    decreases cs.len() - i,
{
    if 0 <= i < cs.len() {
        let c = cs[i];
        if is_space(c) {
            lex_from(cs, i + 1)
        } else if is_letter(c) {
            let j = word_end(cs, i + 1);
            if i < j <= cs.len() {
                seq![(keyword(cs.subrange(i, j)), cs.subrange(i, j))] + lex_from(cs, j)
            } else {
                Seq::empty()
            }
        } else if is_digit(c) {
            let j = digits_end(cs, i + 1);
            if i < j <= cs.len() {
                seq![(TokenType::Number, cs.subrange(i, j))] + lex_from(cs, j)
            } else {
                Seq::empty()
            }
        } else if c == '"' {
            let j = quote_end(cs, i + 1);
            if i < j <= cs.len() {
                seq![(TokenType::String, cs.subrange(i + 1, j))] + lex_from(
                    cs,
                    if j < cs.len() {
                        j + 1
                    } else {
                        j
                    },
                )
            } else {
                Seq::empty()
            }
        } else if (c == '=' || c == '!') && i + 1 < cs.len() && cs[i + 1] == '=' {
            seq![
                (
                    if c == '=' {
                        TokenType::Eq
                    } else {
                        TokenType::NotEq
                    },
                    cs.subrange(i, i + 2),
                ),
            ] + lex_from(cs, i + 2)
        } else {
            seq![(symbol(c), cs.subrange(i, i + 1))] + lex_from(cs, i + 1)
        }
    } else {
        Seq::empty()
    }
}

/// The tokens of a source text, ended by `Eof`.
pub open spec fn lex(cs: Seq<char>) -> Seq<(TokenType, Seq<char>)> {
    lex_from(cs, 0).push((TokenType::Eof, Seq::empty()))
}

pub open spec fn token_m(t: Token) -> (TokenType, Seq<char>) {
    (t.ttype, t.literal@)
}

/// The scanner: turns source text into tokens, ended by a single `Eof`.
pub struct Lexer {
    pub input: Vec<char>,
}

/// True when the token sequence ends in `Eof` and holds no other `Eof`.
pub open spec fn terminated(ts: Seq<Token>) -> bool {
    &&& ts.len() >= 1
    &&& ts.last().ttype == TokenType::Eof
    &&& forall|i: int| 0 <= i < ts.len() - 1 ==> ts[i].ttype != TokenType::Eof
}

fn slice(v: &Vec<char>, from: usize, to: usize) -> (r: Vec<char>)
    requires
        from <= to <= v.len(),
    ensures
        r@ == v@.subrange(from as int, to as int),
{
    let mut out: Vec<char> = Vec::new();
    let mut k: usize = from;
    while k < to
        invariant
            from <= k <= to <= v.len(),
            out@ == v@.subrange(from as int, k as int),
        decreases to - k,
    {
        out.push(v[k]);
        k += 1;
        assert(out@ =~= v@.subrange(from as int, k as int));
    }
    out
}

/// A copy of a character vector.
pub fn copy_chars(v: &Vec<char>) -> (r: Vec<char>)
    ensures
        r@ == v@,
{
    let r = slice(v, 0, v.len());
    assert(r@ =~= v@);
    r
}

fn word_kind(w: &Vec<char>) -> (r: TokenType)
    ensures
        r == keyword(w@),
{
    let n = w.len();
    if n == 3 && w[0] == 'l' && w[1] == 'e' && w[2] == 't' {
        assert(w@ =~= seq!['l', 'e', 't']);
        TokenType::Let
    } else if n == 6 && w[0] == 'r' && w[1] == 'e' && w[2] == 't' && w[3] == 'u' && w[4] == 'r'
        && w[5] == 'n' {
        assert(w@ =~= seq!['r', 'e', 't', 'u', 'r', 'n']);
        TokenType::Return
    } else if n == 4 && w[0] == 't' && w[1] == 'r' && w[2] == 'u' && w[3] == 'e' {
        assert(w@ =~= seq!['t', 'r', 'u', 'e']);
        TokenType::True
    } else if n == 5 && w[0] == 'f' && w[1] == 'a' && w[2] == 'l' && w[3] == 's' && w[4] == 'e' {
        assert(w@ =~= seq!['f', 'a', 'l', 's', 'e']);
        TokenType::False
    } else if n == 2 && w[0] == 'i' && w[1] == 'f' {
        assert(w@ =~= seq!['i', 'f']);
        TokenType::If
    } else if n == 4 && w[0] == 'e' && w[1] == 'l' && w[2] == 's' && w[3] == 'e' {
        assert(w@ =~= seq!['e', 'l', 's', 'e']);
        TokenType::Else
    } else if n == 2 && w[0] == 'f' && w[1] == 'n' {
        assert(w@ =~= seq!['f', 'n']);
        TokenType::Fn
    } else {
        TokenType::Ident
    }
}

fn word_char(c: char) -> (r: bool)
    ensures
        r == (is_letter(c) || is_digit(c)),
{
    ('a' <= c && c <= 'z') || ('A' <= c && c <= 'Z') || c == '_' || ('0' <= c && c <= '9')
}

fn symbol_kind(c: char) -> (r: TokenType)
    ensures
        r == symbol(c),
{
    match c {
        '=' => TokenType::Assign,
        '+' => TokenType::Add,
        '-' => TokenType::Sub,
        '*' => TokenType::Mul,
        '/' => TokenType::Div,
        '!' => TokenType::Bang,
        '<' => TokenType::Lt,
        '>' => TokenType::Gt,
        ',' => TokenType::Comma,
        ';' => TokenType::Semicolon,
        ':' => TokenType::Colon,
        '.' => TokenType::Period,
        '(' => TokenType::LParen,
        ')' => TokenType::RParen,
        '{' => TokenType::LBrace,
        '}' => TokenType::RBrace,
        '[' => TokenType::LBracket,
        ']' => TokenType::RBracket,
        _ => TokenType::Illegal,
    }
}

impl Lexer {
    pub fn new(input: String) -> (r: Lexer)
        ensures
            r.input@ == input@,
    {
        Lexer { input: chars_of(input.as_str()) }
    }

    /// Scans the whole input into tokens, as `lex` says.
    pub fn gen_tokens(&mut self) -> (r: Vec<Token>)
        ensures
            r@.map_values(|t: Token| token_m(t)) == lex(old(self).input@),
            terminated(r@),
            final(self).input@ == old(self).input@,
    {
        let ghost cs = self.input@;
        proof {
            reveal(lex_from);
        }
        let n = self.input.len();
        let mut tokens: Vec<Token> = Vec::new();
        let mut i: usize = 0;
        while i < n
            invariant
                i <= n == self.input.len(),
                cs == self.input@,
                tokens@.map_values(|t: Token| token_m(t)) + lex_from(cs, i as int) == lex_from(cs, 0),
                forall|k: int| 0 <= k < tokens.len() ==> tokens@[k].ttype != TokenType::Eof,
            decreases n - i,
        {
            let ghost before = tokens@.map_values(|t: Token| token_m(t));
            proof {
                reveal(lex_from);
            }
            let c = self.input[i];
            if c == ' ' || c == '\t' || c == '\n' || c == '\r' {
                i += 1;
            } else if ('a' <= c && c <= 'z') || ('A' <= c && c <= 'Z') || c == '_' {
                let mut j: usize = i + 1;
                while j < n && word_char(self.input[j])
                    invariant
                        i < j <= n == self.input.len(),
                        cs == self.input@,
                        word_end(cs, i + 1) == word_end(cs, j as int),
                    decreases n - j,
                {
                    j += 1;
                }
                let word = slice(&self.input, i, j);
                let kind = word_kind(&word);
                let t = Token { ttype: kind, literal: word };
                tokens.push(t);
                assert(tokens@.map_values(|t: Token| token_m(t)) =~= before.push(token_m(t)));
                assert(before.push(token_m(t)) + lex_from(cs, j as int) =~= before + (seq![
                    token_m(t),
                ] + lex_from(cs, j as int)));
                i = j;
            } else if '0' <= c && c <= '9' {
                let mut j: usize = i + 1;
                while j < n && '0' <= self.input[j] && self.input[j] <= '9'
                    invariant
                        i < j <= n == self.input.len(),
                        cs == self.input@,
                        digits_end(cs, i + 1) == digits_end(cs, j as int),
                    decreases n - j,
                {
                    j += 1;
                }
                let t = Token { ttype: TokenType::Number, literal: slice(&self.input, i, j) };
                tokens.push(t);
                assert(tokens@.map_values(|t: Token| token_m(t)) =~= before.push(token_m(t)));
                assert(before.push(token_m(t)) + lex_from(cs, j as int) =~= before + (seq![
                    token_m(t),
                ] + lex_from(cs, j as int)));
                i = j;
            } else if c == '"' {
                let mut j: usize = i + 1;
                while j < n && self.input[j] != '"'
                    invariant
                        i < j <= n == self.input.len(),
                        cs == self.input@,
                        quote_end(cs, i + 1) == quote_end(cs, j as int),
                    decreases n - j,
                {
                    j += 1;
                }
                let t = Token { ttype: TokenType::String, literal: slice(&self.input, i + 1, j) };
                tokens.push(t);
                let next = if j < n {
                    j + 1
                } else {
                    j
                };
                assert(tokens@.map_values(|t: Token| token_m(t)) =~= before.push(token_m(t)));
                assert(before.push(token_m(t)) + lex_from(cs, next as int) =~= before + (seq![
                    token_m(t),
                ] + lex_from(cs, next as int)));
                i = next;
            } else if (c == '=' || c == '!') && i + 1 < n && self.input[i + 1] == '=' {
                let kind = if c == '=' {
                    TokenType::Eq
                } else {
                    TokenType::NotEq
                };
                let t = Token { ttype: kind, literal: slice(&self.input, i, i + 2) };
                tokens.push(t);
                assert(tokens@.map_values(|t: Token| token_m(t)) =~= before.push(token_m(t)));
                assert(before.push(token_m(t)) + lex_from(cs, i + 2) =~= before + (seq![
                    token_m(t),
                ] + lex_from(cs, i + 2)));
                i += 2;
            } else {
                let t = Token { ttype: symbol_kind(c), literal: slice(&self.input, i, i + 1) };
                tokens.push(t);
                assert(tokens@.map_values(|t: Token| token_m(t)) =~= before.push(token_m(t)));
                assert(before.push(token_m(t)) + lex_from(cs, i + 1) =~= before + (seq![
                    token_m(t),
                ] + lex_from(cs, i + 1)));
                i += 1;
            }
        }
        let ghost body = tokens@.map_values(|t: Token| token_m(t));
        assert(body + lex_from(cs, n as int) =~= body);
        tokens.push(Token { ttype: TokenType::Eof, literal: Vec::new() });
        assert(tokens@.map_values(|t: Token| token_m(t)) =~= lex(cs));
        tokens
    }
}

} // verus!
