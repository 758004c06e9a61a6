//! Splitting a node program's source into tokens, and source locations.

use vstd::prelude::*;

use crate::ast::{mk_loc, Loc};
use crate::text::string_push;

verus! {

/// The punctuation and operator symbols of the language.
#[derive(Clone, Copy, Debug, PartialEq, Eq, Structural)]
pub enum Sym {
    LBrace,
    RBrace,
    LParen,
    RParen,
    LBracket,
    RBracket,
    Colon,
    Comma,
    Plus,
    Minus,
    Star,
    Slash,
    Percent,
    Less,
    Greater,
    Assign,
    Bang,
    EqEq,
    NotEq,
    LessEq,
    GreaterEq,
    AndAnd,
    OrOr,
}

/// The kind of a token.
pub enum TokenKind {
    Ident(String),
    Str(String),
    Int(i64),
    Symbol(Sym),
}

/// A token with its location.
pub struct Token {
    pub kind: TokenKind,
    pub loc: Loc,
}

/// The view of a token kind; integer literals are unbounded here.
pub enum STokKind {
    Ident(Seq<char>),
    Str(Seq<char>),
    Int(int),
    Symbol(Sym),
}

/// The view of a token.
pub struct SToken {
    pub kind: STokKind,
    pub loc: Loc,
}

pub open spec fn view_kind(k: TokenKind) -> STokKind {
    match k {
        TokenKind::Ident(s) => STokKind::Ident(s@),
        TokenKind::Str(s) => STokKind::Str(s@),
        TokenKind::Int(i) => STokKind::Int(i as int),
        TokenKind::Symbol(s) => STokKind::Symbol(s),
    }
}

pub open spec fn view_token(t: Token) -> SToken {
    SToken { kind: view_kind(t.kind), loc: t.loc }
}

pub open spec fn view_tokens(ts: Seq<Token>) -> Seq<SToken> {
    ts.map_values(|t: Token| view_token(t))
}

impl Token {
    /// A copy of this token.
    pub fn duplicate(&self) -> (r: Token)
        ensures
            view_token(r) == view_token(*self),
    {
        let kind = match &self.kind {
            TokenKind::Ident(s) => TokenKind::Ident(s.clone()),
            TokenKind::Str(s) => TokenKind::Str(s.clone()),
            TokenKind::Int(i) => TokenKind::Int(*i),
            TokenKind::Symbol(s) => TokenKind::Symbol(*s),
        };
        Token { kind, loc: self.loc.duplicate() }
    }
}

// ---------------------------------------------------------------------------
// Lines and locations.
// ---------------------------------------------------------------------------

/// The number of newline bytes among the first `n` bytes.
pub open spec fn count_newlines(b: Seq<u8>, n: int) -> nat
    decreases n,
{
    if n <= 0 {
        0
    } else {
        count_newlines(b, n - 1) + if b[n - 1] == 10u8 {
            1nat
        } else {
            0nat
        }
    }
}

pub proof fn lemma_count_newlines_bound(b: Seq<u8>, n: int)
    ensures
        count_newlines(b, n) <= if n < 0 {
            0
        } else {
            n
        },
    decreases n,
{
    if n > 0 {
        lemma_count_newlines_bound(b, n - 1);
    }
}

/// The 1-based line of the byte at `offset` (clamped to the last byte).
pub open spec fn line_of(b: Seq<u8>, offset: int) -> int {
    if b.len() == 0 {
        1
    } else {
        let capped = if offset < b.len() - 1 {
            offset
        } else {
            b.len() - 1
        };
        (count_newlines(b, capped + 1) + 1) as int
    }
}

pub open spec fn sat_add1(x: int) -> int {
    if x < usize::MAX {
        x + 1
    } else {
        usize::MAX as int
    }
}

pub open spec fn sat_sub1(x: int) -> int {
    if x > 0 {
        x - 1
    } else {
        0
    }
}

/// The location of the bytes `start..end`.
pub open spec fn loc_of(b: Seq<u8>, start: int, end: int) -> Loc {
    mk_loc(
        start as usize,
        end as usize,
        line_of(b, start) as usize,
        sat_add1(line_of(b, sat_sub1(end))) as usize,
    )
}

/// The location that spans from the start of `a` to the end of `b`.
pub open spec fn spec_merge_loc(a: Loc, b: Loc) -> Loc {
    mk_loc(a.range.start, b.range.end, a.line_range.start, b.line_range.end)
}

pub fn merge_loc(start: &Loc, end: &Loc) -> (r: Loc)
    ensures
        r == spec_merge_loc(*start, *end),
{
    Loc {
        range: start.range.start..end.range.end,
        line_range: start.line_range.start..end.line_range.end,
    }
}

/// The 1-based line of the byte at `offset`.
pub fn line_for(bytes: &[u8], offset: usize) -> (r: usize)
    requires
        bytes@.len() < usize::MAX,
    ensures
        r == line_of(bytes@, offset as int),
{
    let len = bytes.len();
    if len == 0 {
        return 1;
    }
    let capped = if offset < len - 1 {
        offset
    } else {
        len - 1
    };
    let mut count: usize = 0;
    let mut i: usize = 0;
    while i <= capped
        invariant
            capped < len,
            len == bytes@.len(),
            len < usize::MAX,
            i <= capped + 1,
            count == count_newlines(bytes@, i as int),
        decreases capped + 1 - i,
    {
        proof {
            lemma_count_newlines_bound(bytes@, i as int);
        }
        if bytes[i] == 10u8 {
            count = count + 1;
        }
        i = i + 1;
    }
    proof {
        lemma_count_newlines_bound(bytes@, capped + 1);
    }
    count + 1
}

/// The location of the bytes `start..end` of the source.
pub fn loc_for(bytes: &[u8], start: usize, end: usize) -> (r: Loc)
    requires
        bytes@.len() < usize::MAX,
    ensures
        r == loc_of(bytes@, start as int, end as int),
{
    let first = line_for(bytes, start);
    let last = line_for(bytes, end.saturating_sub(1));
    Loc { range: start..end, line_range: first..last.saturating_add(1) }
}

// ---------------------------------------------------------------------------
// The token grammar.
// ---------------------------------------------------------------------------

pub open spec fn is_space(c: u8) -> bool {
    c == 32u8 || c == 9u8 || c == 13u8 || c == 10u8
}

pub open spec fn is_digit(c: u8) -> bool {
    48u8 <= c <= 57u8
}

pub open spec fn is_ident_start(c: u8) -> bool {
    (97u8 <= c <= 122u8) || (65u8 <= c <= 90u8) || c == 95u8
}

pub open spec fn is_ident_char(c: u8) -> bool {
    is_ident_start(c) || is_digit(c)
}

/// The end of a line comment whose text starts at `i`: the next newline, or the end.
pub open spec fn comment_end(b: Seq<u8>, i: int) -> int
    decreases b.len() - i,
{
    if 0 <= i < b.len() && b[i] != 10u8 {
        comment_end(b, i + 1)
    } else {
        i
    }
}

/// The end of the run of digits starting at `i`.
pub open spec fn digits_end(b: Seq<u8>, i: int) -> int
    decreases b.len() - i,
{
    if 0 <= i < b.len() && is_digit(b[i]) {
        digits_end(b, i + 1)
    } else {
        i
    }
}

/// The end of the run of identifier characters starting at `i`.
pub open spec fn ident_end(b: Seq<u8>, i: int) -> int
    decreases b.len() - i,
{
    if 0 <= i < b.len() && is_ident_char(b[i]) {
        ident_end(b, i + 1)
    } else {
        i
    }
}

/// The decimal value of the digits `start..end`.
pub open spec fn decimal_value(b: Seq<u8>, start: int, end: int) -> int
    decreases end - start,
{
    if end <= start {
        0
    } else {
        decimal_value(b, start, end - 1) * 10 + (b[end - 1] - 48)
    }
}

/// The bytes `start..end`, each read as the character with that code.
pub open spec fn bytes_as_chars(b: Seq<u8>, start: int, end: int) -> Seq<char> {
    b.subrange(start, end).map_values(|c: u8| c as char)
}

/// The character that an escape sequence `\c` stands for.
pub open spec fn escaped(c: u8) -> char {
    if c == 110u8 {
        '\n'
    } else if c == 114u8 {
        '\r'
    } else if c == 116u8 {
        '\t'
    } else {
        c as char
    }
}

/// The contents of a string literal whose body starts at `i`, and where it ends.
/// A literal ends after its closing quote, or at the end of the source.
pub open spec fn scan_string(b: Seq<u8>, i: int) -> (Seq<char>, int)
    decreases b.len() - i,
{
    if i < 0 || i >= b.len() {
        (seq![], i)
    } else if b[i] == 92u8 {
        if i + 1 >= b.len() {
            (seq![], i + 1)
        } else {
            let rest = scan_string(b, i + 2);
            (seq![escaped(b[i + 1])] + rest.0, rest.1)
        }
    } else if b[i] == 34u8 {
        (seq![], i + 1)
    } else {
        let rest = scan_string(b, i + 1);
        (seq![b[i] as char] + rest.0, rest.1)
    }
}

/// The two-byte operator at `i`, if any.
pub open spec fn two_byte_sym(b: Seq<u8>, i: int) -> Option<Sym> {
    if 0 <= i && i + 1 < b.len() {
        let x = b[i];
        let y = b[i + 1];
        if x == 61u8 && y == 61u8 {
            Some(Sym::EqEq)
        } else if x == 33u8 && y == 61u8 {
            Some(Sym::NotEq)
        } else if x == 60u8 && y == 61u8 {
            Some(Sym::LessEq)
        } else if x == 62u8 && y == 61u8 {
            Some(Sym::GreaterEq)
        } else if x == 38u8 && y == 38u8 {
            Some(Sym::AndAnd)
        } else if x == 124u8 && y == 124u8 {
            Some(Sym::OrOr)
        } else {
            None
        }
    } else {
        None
    }
}

/// The one-byte symbol `c`, if it is one.
pub open spec fn one_byte_sym(c: u8) -> Option<Sym> {
    if c == 123u8 {
        Some(Sym::LBrace)
    } else if c == 125u8 {
        Some(Sym::RBrace)
    } else if c == 40u8 {
        Some(Sym::LParen)
    } else if c == 41u8 {
        Some(Sym::RParen)
    } else if c == 91u8 {
        Some(Sym::LBracket)
    } else if c == 93u8 {
        Some(Sym::RBracket)
    } else if c == 58u8 {
        Some(Sym::Colon)
    } else if c == 44u8 {
        Some(Sym::Comma)
    } else if c == 43u8 {
        Some(Sym::Plus)
    } else if c == 45u8 {
        Some(Sym::Minus)
    } else if c == 42u8 {
        Some(Sym::Star)
    } else if c == 47u8 {
        Some(Sym::Slash)
    } else if c == 37u8 {
        Some(Sym::Percent)
    } else if c == 60u8 {
        Some(Sym::Less)
    } else if c == 62u8 {
        Some(Sym::Greater)
    } else if c == 61u8 {
        Some(Sym::Assign)
    } else if c == 33u8 {
        Some(Sym::Bang)
    } else {
        None
    }
}

/// One lexing step at `i < b.len()`: the token found there (if any) and where lexing goes on.
pub open spec fn lex_step(b: Seq<u8>, i: int) -> (Option<SToken>, int) {
    let c = b[i];
    if is_space(c) {
        (None, i + 1)
    } else if c == 47u8 && i + 1 < b.len() && b[i + 1] == 47u8 {
        (None, comment_end(b, i + 2))
    } else if is_digit(c) {
        let e = digits_end(b, i);
        (Some(SToken { kind: STokKind::Int(decimal_value(b, i, e)), loc: loc_of(b, i, e) }), e)
    } else if is_ident_start(c) {
        let e = ident_end(b, i);
        (Some(SToken { kind: STokKind::Ident(bytes_as_chars(b, i, e)), loc: loc_of(b, i, e) }), e)
    } else if c == 34u8 {
        let r = scan_string(b, i + 1);
        (Some(SToken { kind: STokKind::Str(r.0), loc: loc_of(b, i, r.1) }), r.1)
    } else if let Some(s) = two_byte_sym(b, i) {
        (Some(SToken { kind: STokKind::Symbol(s), loc: loc_of(b, i, i + 2) }), i + 2)
    } else if let Some(s) = one_byte_sym(c) {
        (Some(SToken { kind: STokKind::Symbol(s), loc: loc_of(b, i, i + 1) }), i + 1)
    } else {
        (None, i + 1)
    }
}

/// The tokens of the bytes from `i` on.
pub open spec fn lex_from(b: Seq<u8>, i: int) -> Seq<SToken>
    decreases b.len() - i,
{
    if i < 0 || i >= b.len() {
        seq![]
    } else {
        let (t, next) = lex_step(b, i);
        if next <= i || next > b.len() {
            seq![]
        } else {
            match t {
                Some(tok) => seq![tok] + lex_from(b, next),
                None => lex_from(b, next),
            }
        }
    }
}

/// The tokens of a whole source.
pub open spec fn lex(b: Seq<u8>) -> Seq<SToken> {
    lex_from(b, 0)
}

/// Every integer literal among the tokens fits in an `i64`.
pub open spec fn ints_fit(ts: Seq<SToken>) -> bool {
    forall|i: int|
        0 <= i < ts.len() ==> (#[trigger] ts[i].kind matches STokKind::Int(v) ==> v <= i64::MAX)
}

// ---------------------------------------------------------------------------
// Lemmas about the scanners.
// ---------------------------------------------------------------------------

pub proof fn lemma_comment_end(b: Seq<u8>, i: int)
    requires
        0 <= i,
    ensures
        i <= comment_end(b, i),
        comment_end(b, i) <= if i < b.len() {
            b.len() as int
        } else {
            i
        },
    decreases b.len() - i,
{
    if 0 <= i < b.len() && b[i] != 10u8 {
        lemma_comment_end(b, i + 1);
    }
}

pub proof fn lemma_digits_end(b: Seq<u8>, i: int)
    requires
        0 <= i,
    ensures
        i <= digits_end(b, i),
        digits_end(b, i) <= if i < b.len() {
            b.len() as int
        } else {
            i
        },
        forall|k: int| i <= k < digits_end(b, i) ==> is_digit(#[trigger] b[k]),
    decreases b.len() - i,
{
    if 0 <= i < b.len() && is_digit(b[i]) {
        lemma_digits_end(b, i + 1);
    }
}

pub proof fn lemma_ident_end(b: Seq<u8>, i: int)
    requires
        0 <= i,
    ensures
        i <= ident_end(b, i),
        ident_end(b, i) <= if i < b.len() {
            b.len() as int
        } else {
            i
        },
    decreases b.len() - i,
{
    if 0 <= i < b.len() && is_ident_char(b[i]) {
        lemma_ident_end(b, i + 1);
    }
}

pub proof fn lemma_scan_string(b: Seq<u8>, i: int)
    requires
        0 <= i,
    ensures
        i <= scan_string(b, i).1,
        scan_string(b, i).1 <= if i < b.len() {
            b.len() as int
        } else {
            i
        },
    decreases b.len() - i,
{
    if 0 <= i < b.len() {
        if b[i] == 92u8 {
            if i + 1 < b.len() {
                lemma_scan_string(b, i + 2);
            }
        } else if b[i] != 34u8 {
            lemma_scan_string(b, i + 1);
        }
    }
}

/// A lexing step always moves forward and stays within the source.
pub proof fn lemma_lex_step(b: Seq<u8>, i: int)
    requires
        0 <= i < b.len(),
    ensures
        i < lex_step(b, i).1 <= b.len(),
{
    lemma_comment_end(b, i + 2);
    lemma_digits_end(b, i);
    lemma_digits_end(b, i + 1);
    lemma_ident_end(b, i);
    lemma_ident_end(b, i + 1);
    lemma_scan_string(b, i + 1);
}

pub proof fn lemma_decimal_monotone(b: Seq<u8>, start: int, k: int, end: int)
    requires
        start <= k <= end,
        forall|j: int| start <= j < end ==> is_digit(#[trigger] b[j]),
    ensures
        0 <= decimal_value(b, start, k) <= decimal_value(b, start, end),
    decreases end - k,
{
    if k < end {
        lemma_decimal_monotone(b, start, k, end - 1);
        lemma_decimal_nonneg(b, start, end - 1);
    } else {
        lemma_decimal_nonneg(b, start, end);
    }
}

pub proof fn lemma_decimal_nonneg(b: Seq<u8>, start: int, end: int)
    requires
        start <= end,
        forall|j: int| start <= j < end ==> is_digit(#[trigger] b[j]),
    ensures
        0 <= decimal_value(b, start, end),
    decreases end - start,
{
    if start < end {
        lemma_decimal_nonneg(b, start, end - 1);
    }
}

// ---------------------------------------------------------------------------
// The executable lexer.
// ---------------------------------------------------------------------------

fn two_byte_symbol(bytes: &[u8], i: usize) -> (r: Option<Sym>)
    ensures
        r == two_byte_sym(bytes@, i as int),
{
    if i < bytes.len() && bytes.len() - i >= 2 {
        let x = bytes[i];
        let y = bytes[i + 1];
        if x == 61u8 && y == 61u8 {
            Some(Sym::EqEq)
        } else if x == 33u8 && y == 61u8 {
            Some(Sym::NotEq)
        } else if x == 60u8 && y == 61u8 {
            Some(Sym::LessEq)
        } else if x == 62u8 && y == 61u8 {
            Some(Sym::GreaterEq)
        } else if x == 38u8 && y == 38u8 {
            Some(Sym::AndAnd)
        } else if x == 124u8 && y == 124u8 {
            Some(Sym::OrOr)
        } else {
            None
        }
    } else {
        None
    }
}

fn one_byte_symbol(c: u8) -> (r: Option<Sym>)
    ensures
        r == one_byte_sym(c),
{
    if c == 123u8 {
        Some(Sym::LBrace)
    } else if c == 125u8 {
        Some(Sym::RBrace)
    } else if c == 40u8 {
        Some(Sym::LParen)
    } else if c == 41u8 {
        Some(Sym::RParen)
    } else if c == 91u8 {
        Some(Sym::LBracket)
    } else if c == 93u8 {
        Some(Sym::RBracket)
    } else if c == 58u8 {
        Some(Sym::Colon)
    } else if c == 44u8 {
        Some(Sym::Comma)
    } else if c == 43u8 {
        Some(Sym::Plus)
    } else if c == 45u8 {
        Some(Sym::Minus)
    } else if c == 42u8 {
        Some(Sym::Star)
    } else if c == 47u8 {
        Some(Sym::Slash)
    } else if c == 37u8 {
        Some(Sym::Percent)
    } else if c == 60u8 {
        Some(Sym::Less)
    } else if c == 62u8 {
        Some(Sym::Greater)
    } else if c == 61u8 {
        Some(Sym::Assign)
    } else if c == 33u8 {
        Some(Sym::Bang)
    } else {
        None
    }
}

fn escape_char(c: u8) -> (r: char)
    ensures
        r == escaped(c),
{
    if c == 110u8 {
        '\n'
    } else if c == 114u8 {
        '\r'
    } else if c == 116u8 {
        '\t'
    } else {
        c as char
    }
}

/// Scans a string literal whose body starts at `start`; returns its contents and its end.
fn lex_string(bytes: &[u8], start: usize) -> (r: (String, usize))
    requires
        start <= bytes@.len(),
    ensures
        r.0@ == scan_string(bytes@, start as int).0,
        r.1 == scan_string(bytes@, start as int).1,
{
    let len = bytes.len();
    let mut index = start;
    let mut value = String::new();
    loop
        invariant_except_break
            start <= index <= len,
            len == bytes@.len(),
            value@ + scan_string(bytes@, index as int).0 == scan_string(bytes@, start as int).0,
            scan_string(bytes@, index as int).1 == scan_string(bytes@, start as int).1,
        ensures
            value@ == scan_string(bytes@, start as int).0,
            index == scan_string(bytes@, start as int).1,
        decreases len - index,
    {
        if index >= len {
            break;
        }
        let c = bytes[index];
        if c == 92u8 {
            index = index + 1;
            if index >= len {
                break;
            }
            let e = escape_char(bytes[index]);
            let ghost before = value@;
            string_push(&mut value, e);
            assert(value@ + scan_string(bytes@, (index + 1) as int).0 == before + scan_string(
                bytes@,
                (index - 1) as int,
            ).0);
            index = index + 1;
        } else if c == 34u8 {
            index = index + 1;
            break;
        } else {
            let ghost before = value@;
            string_push(&mut value, c as char);
            assert(value@ + scan_string(bytes@, (index + 1) as int).0 == before + scan_string(
                bytes@,
                index as int,
            ).0);
            index = index + 1;
        }
    }
    (value, index)
}

/// The tokens of a source, or `None` when an integer literal does not fit in an `i64`.
pub fn tokenize(bytes: &[u8]) -> (r: Option<Vec<Token>>)
    requires
        bytes@.len() < usize::MAX,
    ensures
        match r {
            Some(ts) => view_tokens(ts@) == lex(bytes@) && ints_fit(lex(bytes@)),
            None => !ints_fit(lex(bytes@)),
        },
{
    let len = bytes.len();
    let mut tokens: Vec<Token> = Vec::new();
    let mut index: usize = 0;
    while index < len
        invariant
            index <= len,
            len == bytes@.len(),
            len < usize::MAX,
            view_tokens(tokens@) + lex_from(bytes@, index as int) == lex(bytes@),
            ints_fit(view_tokens(tokens@)),
        decreases len - index,
    {
        proof {
            lemma_lex_step(bytes@, index as int);
        }
        let ghost step = lex_step(bytes@, index as int);
        let ghost prev = tokens@;
        let c = bytes[index];
        let mut next: Option<Token> = None;
        let mut new_index = index + 1;
        if c == 32u8 || c == 9u8 || c == 13u8 || c == 10u8 {
        } else if c == 47u8 && index + 1 < len && bytes[index + 1] == 47u8 {
            let mut j = index + 2;
            while j < len && bytes[j] != 10u8
                invariant
                    index + 2 <= j <= len,
                    len == bytes@.len(),
                    comment_end(bytes@, j as int) == comment_end(bytes@, index + 2),
                decreases len - j,
            {
                j = j + 1;
            }
            new_index = j;
        } else if 48u8 <= c && c <= 57u8 {
            let start = index;
            let mut j = index;
            let mut value: i64 = 0;
            proof {
                lemma_digits_end(bytes@, start as int);
            }
            while j < len && 48u8 <= bytes[j] && bytes[j] <= 57u8
                invariant
                    start <= j <= len,
                    len == bytes@.len(),
                    digits_end(bytes@, j as int) == digits_end(bytes@, start as int),
                    j <= digits_end(bytes@, start as int),
                    forall|k: int|
                        start <= k < digits_end(bytes@, start as int) ==> is_digit(
                            #[trigger] bytes@[k],
                        ),
                    value == decimal_value(bytes@, start as int, j as int),
                    0 <= value,
                    start == index,
                    index < len,
                    is_digit(bytes@[index as int]),
                    step == lex_step(bytes@, index as int),
                    index < step.1 <= len,
                    view_tokens(prev) + lex_from(bytes@, index as int) == lex(bytes@),
                decreases len - j,
            {
                proof {
                    lemma_digits_end(bytes@, j + 1);
                }
                let d = (bytes[j] - 48u8) as i64;
                if value > 922337203685477580i64 || (value == 922337203685477580i64 && d > 7) {
                    proof {
                        let e = digits_end(bytes@, start as int);
                        lemma_decimal_monotone(bytes@, start as int, j + 1, e);
                        assert(decimal_value(bytes@, start as int, j + 1) > i64::MAX);
                        assert(lex_from(bytes@, index as int)[0] == step.0.unwrap());
                        assert(lex(bytes@)[view_tokens(prev).len() as int] == step.0.unwrap());
                        let k = view_tokens(prev).len() as int;
                        assert(step.0.unwrap().kind == STokKind::Int(decimal_value(bytes@, start as int, e)));
                        assert(decimal_value(bytes@, start as int, e) > i64::MAX);
                        assert(lex(bytes@)[k].kind matches STokKind::Int(v) && v > i64::MAX);
                        assert(!ints_fit(lex(bytes@)));
                    }
                    return None;
                }
                value = value * 10 + d;
                j = j + 1;
            }
            let loc = loc_for(bytes, start, j);
            next = Some(Token { kind: TokenKind::Int(value), loc });
            new_index = j;
        } else if (97u8 <= c && c <= 122u8) || (65u8 <= c && c <= 90u8) || c == 95u8 {
            let start = index;
            let mut j = index;
            let mut name = String::new();
            while j < len && ((97u8 <= bytes[j] && bytes[j] <= 122u8) || (65u8 <= bytes[j]
                && bytes[j] <= 90u8) || bytes[j] == 95u8 || (48u8 <= bytes[j] && bytes[j] <= 57u8))
                invariant
                    start <= j <= len,
                    len == bytes@.len(),
                    ident_end(bytes@, j as int) == ident_end(bytes@, start as int),
                    name@ == bytes_as_chars(bytes@, start as int, j as int),
                decreases len - j,
            {
                string_push(&mut name, bytes[j] as char);
                assert(bytes@.subrange(start as int, j + 1) == bytes@.subrange(
                    start as int,
                    j as int,
                ).push(bytes@[j as int]));
                j = j + 1;
                assert(name@ =~= bytes_as_chars(bytes@, start as int, j as int));
            }
            let loc = loc_for(bytes, start, j);
            next = Some(Token { kind: TokenKind::Ident(name), loc });
            new_index = j;
        } else if c == 34u8 {
            let (value, end) = lex_string(bytes, index + 1);
            let loc = loc_for(bytes, index, end);
            next = Some(Token { kind: TokenKind::Str(value), loc });
            new_index = end;
        } else {
            match two_byte_symbol(bytes, index) {
                Some(s) => {
                    let loc = loc_for(bytes, index, index + 2);
                    next = Some(Token { kind: TokenKind::Symbol(s), loc });
                    new_index = index + 2;
                },
                None => {
                    match one_byte_symbol(c) {
                        Some(s) => {
                            let loc = loc_for(bytes, index, index + 1);
                            next = Some(Token { kind: TokenKind::Symbol(s), loc });
                        },
                        None => {},
                    }
                },
            }
        }
        proof {
            assert(new_index == step.1);
            assert(next matches Some(t) ==> view_token(t) == step.0.unwrap());
            assert(next is None <==> step.0 is None);
        }
        match next {
            Some(t) => {
                tokens.push(t);
                proof {
                    assert(view_tokens(tokens@) =~= view_tokens(prev).push(step.0.unwrap()));
                }
            },
            None => {},
        }
        index = new_index;
        proof {
            assert(view_tokens(tokens@) + lex_from(bytes@, index as int) =~= lex(bytes@));
        }
    }
    proof {
        assert(view_tokens(tokens@) =~= lex(bytes@));
    }
    Some(tokens)
}

} // verus!
