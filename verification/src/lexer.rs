use vstd::prelude::*;

use crate::error::{ErrM, Error, ErrorType, LineInfo};
use crate::token::{toks_vm, TokM, Token, TokenM, TokenType};

verus! {

// ---------------------------------------------------------------------------
// Character classes and scanning, at the mathematical level.
// ---------------------------------------------------------------------------

pub open spec fn is_digit(c: char) -> bool {
    '0' <= c && c <= '9'
}

pub open spec fn is_alpha(c: char) -> bool {
    ('a' <= c && c <= 'z') || ('A' <= c && c <= 'Z') || c == '_'
}

pub open spec fn is_alnum(c: char) -> bool {
    is_digit(c) || is_alpha(c)
}

/// First index at or after `i` that does not hold a digit.
pub open spec fn digits_end(s: Seq<char>, i: nat) -> nat
    decreases s.len() - i,
{
    if i < s.len() && is_digit(s[i as int]) {
        digits_end(s, i + 1)
    } else {
        i
    }
}

/// First index at or after `i` that does not hold an identifier character.
pub open spec fn ident_end(s: Seq<char>, i: nat) -> nat
    decreases s.len() - i,
{
    if i < s.len() && is_alnum(s[i as int]) {
        ident_end(s, i + 1)
    } else {
        i
    }
}

/// First index at or after `i` holding a closing quote or a newline, or the end.
pub open spec fn string_end(s: Seq<char>, i: nat) -> nat
    decreases s.len() - i,
{
    if i < s.len() && s[i as int] != '"' && s[i as int] != '\n' {
        string_end(s, i + 1)
    } else {
        i
    }
}

/// First index at or after `i` holding a newline, or the end.
pub open spec fn line_end(s: Seq<char>, i: nat) -> nat
    decreases s.len() - i,
{
    if i < s.len() && s[i as int] != '\n' {
        line_end(s, i + 1)
    } else {
        i
    }
}

pub open spec fn digit_val(c: char) -> int {
    c as u32 - '0' as u32
}

/// The numeric value of the digit run `s[i..j]`, most significant digit first.
pub open spec fn digits_val(s: Seq<char>, i: nat, j: nat) -> int
    decreases j - i,
{
    if i < j {
        digits_val(s, i, (j - 1) as nat) * 10 + digit_val(s[j - 1])
    } else {
        0
    }
}

pub open spec fn pow10(n: nat) -> int
    decreases n,
{
    if n == 0 {
        1
    } else {
        10 * pow10((n - 1) as nat)
    }
}

/// Longest digit run accepted as a single numeric literal; keeps every
/// literal's value well inside `i64`.
pub const MAX_NUMBER_DIGITS: usize = 18;

/// Keyword table: a maximal identifier lexeme is matched against the fixed
/// keywords, and is an identifier otherwise.
pub open spec fn keyword_of(s: Seq<char>) -> TokM {
    if s == "var"@ {
        TokM::Var
    } else if s == "true"@ {
        TokM::True
    } else if s == "false"@ {
        TokM::False
    } else if s == "nil"@ {
        TokM::Nil
    } else if s == "if"@ {
        TokM::If
    } else if s == "else"@ {
        TokM::Else
    } else if s == "while"@ {
        TokM::While
    } else if s == "fn"@ {
        TokM::Fn
    } else if s == "return"@ {
        TokM::Return
    } else {
        TokM::Identifier(s)
    }
}

// ---------------------------------------------------------------------------
// Facts about the scanners.
// ---------------------------------------------------------------------------

pub proof fn lemma_digits_end(s: Seq<char>, i: nat)
    requires
        i <= s.len(),
    ensures
        i <= digits_end(s, i) <= s.len(),
        forall|k: int| i <= k < digits_end(s, i) ==> is_digit(s[k]),
    decreases s.len() - i,
{
    if i < s.len() && is_digit(s[i as int]) {
        lemma_digits_end(s, i + 1);
    }
}

pub proof fn lemma_ident_end(s: Seq<char>, i: nat)
    requires
        i <= s.len(),
    ensures
        i <= ident_end(s, i) <= s.len(),
    decreases s.len() - i,
{
    if i < s.len() && is_alnum(s[i as int]) {
        lemma_ident_end(s, i + 1);
    }
}

pub proof fn lemma_string_end(s: Seq<char>, i: nat)
    requires
        i <= s.len(),
    ensures
        i <= string_end(s, i) <= s.len(),
    decreases s.len() - i,
{
    if i < s.len() && s[i as int] != '"' && s[i as int] != '\n' {
        lemma_string_end(s, i + 1);
    }
}

pub proof fn lemma_line_end(s: Seq<char>, i: nat)
    requires
        i <= s.len(),
    ensures
        i <= line_end(s, i) <= s.len(),
    decreases s.len() - i,
{
    if i < s.len() && s[i as int] != '\n' {
        lemma_line_end(s, i + 1);
    }
}

pub proof fn lemma_digits_val_bound(s: Seq<char>, i: nat, j: nat)
    requires
        i <= j <= s.len(),
        forall|k: int| i <= k < j ==> is_digit(s[k]),
    ensures
        0 <= digits_val(s, i, j) < pow10((j - i) as nat),
    decreases j - i,
{
    if i < j {
        lemma_digits_val_bound(s, i, (j - 1) as nat);
        assert(0 <= digit_val(s[j - 1]) <= 9);
        assert(digits_val(s, i, (j - 1) as nat) * 10 + 9 < pow10((j - i) as nat)) by (
        nonlinear_arith)
            requires
                0 <= digits_val(s, i, (j - 1) as nat) < pow10((j - i - 1) as nat),
                pow10((j - i) as nat) == 10 * pow10((j - i - 1) as nat),
        {}
    }
}

pub proof fn lemma_pow10_vals()
    ensures
        pow10(17) == 0x16345785D8A0000,
        pow10(18) == 0xDE0B6B3A7640000,
{
    reveal_with_fuel(pow10, 20);
}

// ---------------------------------------------------------------------------
// The lexer, at the mathematical level: `lex_from(src, i, line, col)` is the
// token stream of `src[i..]` scanned starting at position `line:col`, or the
// first lexical error. The error's position is that of the offending
// character (for an unterminated string: of the opening delimiter).
// ---------------------------------------------------------------------------

pub open spec fn tm(k: TokM, line: nat, col: nat) -> TokenM {
    TokenM { kind: k, info: LineInfo { line: line as i32, col: col as i32 } }
}

pub open spec fn em(line: nat, col: nat, msg: Seq<char>) -> ErrM {
    ErrM { line: line as int, col: col as int, ty: ErrorType::SyntaxError, msg }
}

pub open spec fn cons_tok(t: TokenM, rest: Result<Seq<TokenM>, ErrM>) -> Result<
    Seq<TokenM>,
    ErrM,
> {
    match rest {
        Ok(ts) => Ok(seq![t] + ts),
        Err(e) => Err(e),
    }
}

pub open spec fn lex_from(src: Seq<char>, i: nat, line: nat, col: nat) -> Result<
    Seq<TokenM>,
    ErrM,
>
    decreases src.len() - i,
    via lex_from_dec
{
    if i >= src.len() {
        Ok(seq![tm(TokM::Eof, line, col)])
    } else {
        let c = src[i as int];
        if c == ' ' || c == '\t' || c == '\r' {
            lex_from(src, i + 1, line, col + 1)
        } else if c == '\n' {
            lex_from(src, i + 1, line + 1, 1)
        } else if c == '(' {
            cons_tok(tm(TokM::LeftParen, line, col), lex_from(src, i + 1, line, col + 1))
        } else if c == ')' {
            cons_tok(tm(TokM::RightParen, line, col), lex_from(src, i + 1, line, col + 1))
        } else if c == '{' {
            cons_tok(tm(TokM::LeftBrace, line, col), lex_from(src, i + 1, line, col + 1))
        } else if c == '}' {
            cons_tok(tm(TokM::RightBrace, line, col), lex_from(src, i + 1, line, col + 1))
        } else if c == ',' {
            cons_tok(tm(TokM::Comma, line, col), lex_from(src, i + 1, line, col + 1))
        } else if c == ';' {
            cons_tok(tm(TokM::Semicolon, line, col), lex_from(src, i + 1, line, col + 1))
        } else if c == '+' {
            cons_tok(tm(TokM::Plus, line, col), lex_from(src, i + 1, line, col + 1))
        } else if c == '-' {
            cons_tok(tm(TokM::Minus, line, col), lex_from(src, i + 1, line, col + 1))
        } else if c == '*' {
            cons_tok(tm(TokM::Star, line, col), lex_from(src, i + 1, line, col + 1))
        } else if c == '/' {
            if i + 1 < src.len() && src[i as int + 1] == '/' {
                // line comment: skipped up to the next newline
                let j = line_end(src, i + 2);
                lex_from(src, j, line, (col + j - i) as nat)
            } else {
                cons_tok(tm(TokM::Slash, line, col), lex_from(src, i + 1, line, col + 1))
            }
        } else if c == '=' {
            if i + 1 < src.len() && src[i as int + 1] == '=' {
                cons_tok(tm(TokM::EqualEqual, line, col), lex_from(src, i + 2, line, col + 2))
            } else {
                cons_tok(tm(TokM::Equal, line, col), lex_from(src, i + 1, line, col + 1))
            }
        } else if c == '!' {
            if i + 1 < src.len() && src[i as int + 1] == '=' {
                cons_tok(tm(TokM::BangEqual, line, col), lex_from(src, i + 2, line, col + 2))
            } else {
                cons_tok(tm(TokM::Bang, line, col), lex_from(src, i + 1, line, col + 1))
            }
        } else if c == '<' {
            if i + 1 < src.len() && src[i as int + 1] == '=' {
                cons_tok(tm(TokM::LessEqual, line, col), lex_from(src, i + 2, line, col + 2))
            } else {
                cons_tok(tm(TokM::Less, line, col), lex_from(src, i + 1, line, col + 1))
            }
        } else if c == '>' {
            if i + 1 < src.len() && src[i as int + 1] == '=' {
                cons_tok(tm(TokM::GreaterEqual, line, col), lex_from(src, i + 2, line, col + 2))
            } else {
                cons_tok(tm(TokM::Greater, line, col), lex_from(src, i + 1, line, col + 1))
            }
        } else if c == '&' {
            if i + 1 < src.len() && src[i as int + 1] == '&' {
                cons_tok(tm(TokM::AndAnd, line, col), lex_from(src, i + 2, line, col + 2))
            } else {
                Err(em(line, col, "unexpected character"@))
            }
        } else if c == '|' {
            if i + 1 < src.len() && src[i as int + 1] == '|' {
                cons_tok(tm(TokM::OrOr, line, col), lex_from(src, i + 2, line, col + 2))
            } else {
                Err(em(line, col, "unexpected character"@))
            }
        } else if c == '"' {
            let j = string_end(src, i + 1);
            if j >= src.len() || src[j as int] == '\n' {
                // the error points at the opening delimiter
                Err(em(line, col, "unterminated string"@))
            } else {
                cons_tok(
                    tm(TokM::Str(src.subrange(i as int + 1, j as int)), line, col),
                    lex_from(src, j + 1, line, (col + j + 1 - i) as nat),
                )
            }
        } else if is_digit(c) {
            let j = digits_end(src, i);
            if j - i > MAX_NUMBER_DIGITS {
                Err(em(line, col, "number literal too long"@))
            } else {
                cons_tok(
                    tm(TokM::Number(digits_val(src, i, j) as i64), line, col),
                    lex_from(src, j, line, (col + j - i) as nat),
                )
            }
        } else if is_alpha(c) {
            let j = ident_end(src, i);
            cons_tok(
                tm(keyword_of(src.subrange(i as int, j as int)), line, col),
                lex_from(src, j, line, (col + j - i) as nat),
            )
        } else {
            Err(em(line, col, "unexpected character"@))
        }
    }
}

#[via_fn]
proof fn lex_from_dec(src: Seq<char>, i: nat, line: nat, col: nat) {
    if i < src.len() {
        if i + 2 <= src.len() {
            lemma_line_end(src, i + 2);
        }
        lemma_string_end(src, i + 1);
        lemma_digits_end(src, i);
        lemma_digits_end(src, i + 1);
        lemma_ident_end(src, i);
        lemma_ident_end(src, i + 1);
    }
}

// ---------------------------------------------------------------------------
// The executable lexer.
// ---------------------------------------------------------------------------

/// The loop invariant of the executable lexer: the tokens emitted so far,
/// followed by whatever scanning the rest yields, is exactly what scanning
/// the whole input yields.
pub open spec fn lex_inv(src: Seq<char>, i: nat, line: nat, col: nat, out: Seq<Token>) -> bool {
    match lex_from(src, i, line, col) {
        Ok(rest) => lex_from(src, 0, 1, 1) == Ok::<Seq<TokenM>, ErrM>(toks_vm(out) + rest),
        Err(e) => lex_from(src, 0, 1, 1) == Err::<Seq<TokenM>, ErrM>(e),
    }
}

proof fn lemma_toks_vm_push(out: Seq<Token>, t: Token)
    ensures
        toks_vm(out.push(t)) == toks_vm(out).push(t@),
{
    assert(toks_vm(out.push(t)) =~= toks_vm(out).push(t@));
}

/// One lexeme was emitted: the invariant moves one token forward.
proof fn lemma_inv_step(
    src: Seq<char>,
    i: nat,
    line: nat,
    col: nat,
    out: Seq<Token>,
    t: Token,
    ni: nat,
    nline: nat,
    ncol: nat,
)
    requires
        lex_inv(src, i, line, col, out),
        lex_from(src, i, line, col) == cons_tok(t@, lex_from(src, ni, nline, ncol)),
    ensures
        lex_inv(src, ni, nline, ncol, out.push(t)),
{
    lemma_toks_vm_push(out, t);
    match lex_from(src, ni, nline, ncol) {
        Ok(rest) => {
            assert(toks_vm(out.push(t)) + rest =~= toks_vm(out) + (seq![t@] + rest));
        },
        Err(e) => {},
    }
}

/// Largest accepted source length; keeps every line and column below `i32::MAX`.
pub const MAX_SOURCE_LEN: usize = 0x1000_0000;

/// The lexer: scans source text into an ordered token sequence terminated by
/// an end-of-input token, or fails with the first lexical error.
pub struct Lexer {
    pub src: Vec<char>,
}

impl Lexer {
    pub fn new(src: Vec<char>) -> (r: Self)
        ensures
            r.src@ == src@,
    {
        Lexer { src }
    }

    /// Scans the whole source. The result is exactly the token stream of the
    /// mathematical lexer `lex_from`, starting at line 1, column 1.
    #[verifier::rlimit(100)]
    pub fn init(&self) -> (r: Result<Vec<Token>, Error>)
        requires
            self.src@.len() <= MAX_SOURCE_LEN,
        ensures
            match r {
                Ok(toks) => lex_from(self.src@, 0, 1, 1) == Ok::<Seq<TokenM>, ErrM>(
                    toks_vm(toks@),
                ),
                Err(e) => lex_from(self.src@, 0, 1, 1) == Err::<Seq<TokenM>, ErrM>(e@),
            },
    {
        let src = &self.src;
        let n = src.len();
        let mut i: usize = 0;
        let mut line: usize = 1;
        let mut col: usize = 1;
        let mut out: Vec<Token> = Vec::new();
        while i < n
            invariant
                src@ == self.src@,
                n == src@.len(),
                n <= MAX_SOURCE_LEN,
                i <= n,
                1 <= line <= i + 1,
                1 <= col <= i + 1,
                lex_inv(src@, i as nat, line as nat, col as nat, out@),
            decreases n - i,
        {
            let ghost gi = i as nat;
            let ghost gline = line as nat;
            let ghost gcol = col as nat;
            let ghost out0 = out@;
            let c = src[i];
            if c == ' ' || c == '\t' || c == '\r' {
                i = i + 1;
                col = col + 1;
                assert(lex_from(src@, gi, gline, gcol) == lex_from(
                    src@,
                    i as nat,
                    line as nat,
                    col as nat,
                ));
            } else if c == '\n' {
                i = i + 1;
                line = line + 1;
                col = 1;
                assert(lex_from(src@, gi, gline, gcol) == lex_from(
                    src@,
                    i as nat,
                    line as nat,
                    col as nat,
                ));
            } else if c == '(' || c == ')' || c == '{' || c == '}' || c == ',' || c == ';' || c
                == '+' || c == '-' || c == '*' {
                let tt = if c == '(' {
                    TokenType::LeftParen
                } else if c == ')' {
                    TokenType::RightParen
                } else if c == '{' {
                    TokenType::LeftBrace
                } else if c == '}' {
                    TokenType::RightBrace
                } else if c == ',' {
                    TokenType::Comma
                } else if c == ';' {
                    TokenType::Semicolon
                } else if c == '+' {
                    TokenType::Plus
                } else if c == '-' {
                    TokenType::Minus
                } else {
                    TokenType::Star
                };
                let t = Token::new(tt, LineInfo::new(line as i32, col as i32));
                out.push(t);
                i = i + 1;
                col = col + 1;
                proof {
                    assert(lex_from(src@, gi, gline, gcol) == cons_tok(
                        t@,
                        lex_from(src@, i as nat, line as nat, col as nat),
                    ));
                    lemma_inv_step(
                        src@,
                        gi,
                        gline,
                        gcol,
                        out0,
                        t,
                        i as nat,
                        line as nat,
                        col as nat,
                    );
                }
            } else if c == '/' {
                if i + 1 < n && src[i + 1] == '/' {
                    // line comment: skip to the end of the line
                    let mut j: usize = i + 2;
                    while j < n && src[j] != '\n'
                        invariant
                            src@ == self.src@,
                            n == src@.len(),
                            i + 2 <= j <= n,
                            line_end(src@, (i + 2) as nat) == line_end(src@, j as nat),
                        decreases n - j,
                    {
                        j = j + 1;
                    }
                    assert(line_end(src@, (i + 2) as nat) == j);
                    col = col + (j - i);
                    i = j;
                    assert(lex_from(src@, gi, gline, gcol) == lex_from(
                        src@,
                        i as nat,
                        line as nat,
                        col as nat,
                    ));
                } else {
                    let t = Token::new(TokenType::Slash, LineInfo::new(line as i32, col as i32));
                    out.push(t);
                    i = i + 1;
                    col = col + 1;
                    proof {
                        assert(lex_from(src@, gi, gline, gcol) == cons_tok(
                            t@,
                            lex_from(src@, i as nat, line as nat, col as nat),
                        ));
                        lemma_inv_step(
                            src@,
                            gi,
                            gline,
                            gcol,
                            out0,
                            t,
                            i as nat,
                            line as nat,
                            col as nat,
                        );
                    }
                }
            } else if c == '=' || c == '!' || c == '<' || c == '>' {
                let two = i + 1 < n && src[i + 1] == '=';
                let tt = if c == '=' {
                    if two {
                        TokenType::EqualEqual
                    } else {
                        TokenType::Equal
                    }
                } else if c == '!' {
                    if two {
                        TokenType::BangEqual
                    } else {
                        TokenType::Bang
                    }
                } else if c == '<' {
                    if two {
                        TokenType::LessEqual
                    } else {
                        TokenType::Less
                    }
                } else {
                    if two {
                        TokenType::GreaterEqual
                    } else {
                        TokenType::Greater
                    }
                };
                let t = Token::new(tt, LineInfo::new(line as i32, col as i32));
                out.push(t);
                if two {
                    i = i + 2;
                    col = col + 2;
                } else {
                    i = i + 1;
                    col = col + 1;
                }
                proof {
                    assert(lex_from(src@, gi, gline, gcol) == cons_tok(
                        t@,
                        lex_from(src@, i as nat, line as nat, col as nat),
                    ));
                    lemma_inv_step(
                        src@,
                        gi,
                        gline,
                        gcol,
                        out0,
                        t,
                        i as nat,
                        line as nat,
                        col as nat,
                    );
                }
            } else if c == '&' || c == '|' {
                let two = i + 1 < n && src[i + 1] == c;
                if two {
                    let tt = if c == '&' {
                        TokenType::AndAnd
                    } else {
                        TokenType::OrOr
                    };
                    let t = Token::new(tt, LineInfo::new(line as i32, col as i32));
                    out.push(t);
                    i = i + 2;
                    col = col + 2;
                    proof {
                        assert(lex_from(src@, gi, gline, gcol) == cons_tok(
                            t@,
                            lex_from(src@, i as nat, line as nat, col as nat),
                        ));
                        lemma_inv_step(
                            src@,
                            gi,
                            gline,
                            gcol,
                            out0,
                            t,
                            i as nat,
                            line as nat,
                            col as nat,
                        );
                    }
                } else {
                    let e = Error::new(
                        LineInfo::new(line as i32, col as i32),
                        "unexpected character".to_owned(),
                        ErrorType::SyntaxError,
                    );
                    assert(lex_from(src@, gi, gline, gcol) == Err::<Seq<TokenM>, ErrM>(e@));
                    return Err(e);
                }
            } else if c == '"' {
                let mut j: usize = i + 1;
                while j < n && src[j] != '"' && src[j] != '\n'
                    invariant
                        src@ == self.src@,
                        n == src@.len(),
                        i + 1 <= j <= n,
                        string_end(src@, (i + 1) as nat) == string_end(src@, j as nat),
                    decreases n - j,
                {
                    j = j + 1;
                }
                assert(string_end(src@, (i + 1) as nat) == j);
                if j >= n || src[j] == '\n' {
                    let e = Error::new(
                        LineInfo::new(line as i32, col as i32),
                        "unterminated string".to_owned(),
                        ErrorType::SyntaxError,
                    );
                    assert(lex_from(src@, gi, gline, gcol) == Err::<Seq<TokenM>, ErrM>(e@));
                    return Err(e);
                }
                let mut content: Vec<char> = Vec::new();
                let mut k: usize = i + 1;
                while k < j
                    invariant
                        src@ == self.src@,
                        n == src@.len(),
                        i + 1 <= k <= j <= n,
                        content@ == src@.subrange(i as int + 1, k as int),
                    decreases j - k,
                {
                    content.push(src[k]);
                    k = k + 1;
                    assert(content@ =~= src@.subrange(i as int + 1, k as int));
                }
                let t = Token::new(TokenType::Str(content), LineInfo::new(line as i32, col as i32));
                out.push(t);
                col = col + (j + 1 - i);
                i = j + 1;
                proof {
                    assert(lex_from(src@, gi, gline, gcol) == cons_tok(
                        t@,
                        lex_from(src@, i as nat, line as nat, col as nat),
                    ));
                    lemma_inv_step(
                        src@,
                        gi,
                        gline,
                        gcol,
                        out0,
                        t,
                        i as nat,
                        line as nat,
                        col as nat,
                    );
                }
            } else if '0' <= c && c <= '9' {
                let mut j: usize = i;
                while j < n && '0' <= src[j] && src[j] <= '9'
                    invariant
                        src@ == self.src@,
                        n == src@.len(),
                        i <= j <= n,
                        digits_end(src@, i as nat) == digits_end(src@, j as nat),
                    decreases n - j,
                {
                    j = j + 1;
                }
                assert(digits_end(src@, i as nat) == j);
                if j - i > MAX_NUMBER_DIGITS {
                    let e = Error::new(
                        LineInfo::new(line as i32, col as i32),
                        "number literal too long".to_owned(),
                        ErrorType::SyntaxError,
                    );
                    assert(lex_from(src@, gi, gline, gcol) == Err::<Seq<TokenM>, ErrM>(e@));
                    return Err(e);
                }
                proof {
                    lemma_digits_end(src@, i as nat);
                    lemma_pow10_vals();
                }
                let mut acc: i64 = 0;
                let mut k: usize = i;
                while k < j
                    invariant
                        src@ == self.src@,
                        n == src@.len(),
                        i <= k <= j <= n,
                        j - i <= MAX_NUMBER_DIGITS,
                        forall|m: int| i <= m < j ==> is_digit(src@[m]),
                        acc == digits_val(src@, i as nat, k as nat),
                        pow10(17) == 0x16345785D8A0000,
                    decreases j - k,
                {
                    proof {
                        lemma_digits_val_bound(src@, i as nat, k as nat);
                        lemma_pow10_mono((k - i) as nat, 17);
                    }
                    let d = (src[k] as u32) - 48;
                    acc = acc * 10 + (d as i64);
                    k = k + 1;
                }
                let t = Token::new(TokenType::Number(acc), LineInfo::new(line as i32, col as i32));
                out.push(t);
                col = col + (j - i);
                i = j;
                proof {
                    assert(lex_from(src@, gi, gline, gcol) == cons_tok(
                        t@,
                        lex_from(src@, i as nat, line as nat, col as nat),
                    ));
                    lemma_inv_step(
                        src@,
                        gi,
                        gline,
                        gcol,
                        out0,
                        t,
                        i as nat,
                        line as nat,
                        col as nat,
                    );
                }
            } else if (('a' <= c && c <= 'z') || ('A' <= c && c <= 'Z') || c == '_') {
                let mut j: usize = i;
                while j < n && (('0' <= src[j] && src[j] <= '9') || ('a' <= src[j] && src[j] <= 'z')
                    || ('A' <= src[j] && src[j] <= 'Z') || src[j] == '_')
                    invariant
                        src@ == self.src@,
                        n == src@.len(),
                        i <= j <= n,
                        ident_end(src@, i as nat) == ident_end(src@, j as nat),
                    decreases n - j,
                {
                    j = j + 1;
                }
                assert(ident_end(src@, i as nat) == j);
                let mut name: Vec<char> = Vec::new();
                let mut k: usize = i;
                while k < j
                    invariant
                        src@ == self.src@,
                        n == src@.len(),
                        i <= k <= j <= n,
                        name@ == src@.subrange(i as int, k as int),
                    decreases j - k,
                {
                    name.push(src[k]);
                    k = k + 1;
                    assert(name@ =~= src@.subrange(i as int, k as int));
                }
                let tt = keyword_token(name);
                let t = Token::new(tt, LineInfo::new(line as i32, col as i32));
                out.push(t);
                col = col + (j - i);
                i = j;
                proof {
                    assert(lex_from(src@, gi, gline, gcol) == cons_tok(
                        t@,
                        lex_from(src@, i as nat, line as nat, col as nat),
                    ));
                    lemma_inv_step(
                        src@,
                        gi,
                        gline,
                        gcol,
                        out0,
                        t,
                        i as nat,
                        line as nat,
                        col as nat,
                    );
                }
            } else {
                let e = Error::new(
                    LineInfo::new(line as i32, col as i32),
                    "unexpected character".to_owned(),
                    ErrorType::SyntaxError,
                );
                assert(lex_from(src@, gi, gline, gcol) == Err::<Seq<TokenM>, ErrM>(e@));
                return Err(e);
            }
        }
        let ghost ob = out@;
        let t = Token::new(TokenType::Eof, LineInfo::new(line as i32, col as i32));
        out.push(t);
        proof {
            lemma_toks_vm_push(ob, t);
            assert(lex_from(src@, i as nat, line as nat, col as nat) == Ok::<Seq<TokenM>, ErrM>(
                seq![tm(TokM::Eof, line as nat, col as nat)],
            ));
            assert(toks_vm(ob) + seq![t@] =~= toks_vm(out@));
        }
        Ok(out)
    }
}

pub proof fn lemma_pow10_pos(n: nat)
    ensures
        1 <= pow10(n),
    decreases n,
{
    if n > 0 {
        lemma_pow10_pos((n - 1) as nat);
    }
}

pub proof fn lemma_pow10_mono(a: nat, b: nat)
    requires
        a <= b,
    ensures
        pow10(a) <= pow10(b),
    decreases b,
{
    lemma_pow10_pos(a);
    if a < b {
        lemma_pow10_mono(a, (b - 1) as nat);
        lemma_pow10_pos((b - 1) as nat);
        assert(pow10(b) == 10 * pow10((b - 1) as nat));
    }
}

/// Matches a maximal identifier lexeme against the keyword table.
fn keyword_token(name: Vec<char>) -> (r: TokenType)
    ensures
        r@ == keyword_of(name@),
{
    proof {
        reveal_strlit("var");
        reveal_strlit("true");
        reveal_strlit("false");
        reveal_strlit("nil");
        reveal_strlit("if");
        reveal_strlit("else");
        reveal_strlit("while");
        reveal_strlit("fn");
        reveal_strlit("return");
    }
    let n = name.len();
    if n == 3 && name[0] == 'v' && name[1] == 'a' && name[2] == 'r' {
        assert(name@ =~= "var"@);
        TokenType::Var
    } else if n == 4 && name[0] == 't' && name[1] == 'r' && name[2] == 'u' && name[3] == 'e' {
        assert(name@ =~= "true"@);
        TokenType::True
    } else if n == 5 && name[0] == 'f' && name[1] == 'a' && name[2] == 'l' && name[3] == 's'
        && name[4] == 'e' {
        assert(name@ =~= "false"@);
        TokenType::False
    } else if n == 3 && name[0] == 'n' && name[1] == 'i' && name[2] == 'l' {
        assert(name@ =~= "nil"@);
        TokenType::Nil
    } else if n == 2 && name[0] == 'i' && name[1] == 'f' {
        assert(name@ =~= "if"@);
        TokenType::If
    } else if n == 4 && name[0] == 'e' && name[1] == 'l' && name[2] == 's' && name[3] == 'e' {
        assert(name@ =~= "else"@);
        TokenType::Else
    } else if n == 5 && name[0] == 'w' && name[1] == 'h' && name[2] == 'i' && name[3] == 'l'
        && name[4] == 'e' {
        assert(name@ =~= "while"@);
        TokenType::While
    } else if n == 2 && name[0] == 'f' && name[1] == 'n' {
        assert(name@ =~= "fn"@);
        TokenType::Fn
    } else if n == 6 && name[0] == 'r' && name[1] == 'e' && name[2] == 't' && name[3] == 'u'
        && name[4] == 'r' && name[5] == 'n' {
        assert(name@ =~= "return"@);
        TokenType::Return
    } else {
        assert(name@ != "var"@ && name@ != "true"@ && name@ != "false"@ && name@ != "nil"@ && name@
            != "if"@ && name@ != "else"@ && name@ != "while"@ && name@ != "fn"@ && name@
            != "return"@);
        TokenType::Identifier(name)
    }
}

} // verus!
