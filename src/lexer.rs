use crate::token::{KindView, Token, TokenKind, TokenView};
use crate::types::{PrimitiveType, TypeView};
use vstd::prelude::*;

verus! {

/// The first malformed token of a source text, at the line and column where it starts.
#[derive(Debug, Clone, Copy, PartialEq, Eq, Structural)]
pub enum LexFault {
    /// An integer literal too large for 64 bits.
    BadNumber(u32, u32),
    UnterminatedString(u32, u32),
    /// A backslash in a string literal followed by something other than `n`, `\` or `"`.
    BadEscape(u32, u32),
}

pub open spec fn is_digit(c: char) -> bool {
    '0' <= c && c <= '9'
}

pub open spec fn is_ident_start(c: char) -> bool {
    ('a' <= c && c <= 'z') || ('A' <= c && c <= 'Z') || c == '_'
}

pub open spec fn is_ident_char(c: char) -> bool {
    is_ident_start(c) || is_digit(c)
}

/// The end of the run of digits that starts at `i`.
pub open spec fn digits_end(src: Seq<char>, i: int) -> int
    decreases src.len() - i,
{
    if 0 <= i < src.len() && is_digit(src[i]) {
        digits_end(src, i + 1)
    } else {
        i
    }
}

/// The end of the run of identifier characters that starts at `i`.
pub open spec fn ident_end(src: Seq<char>, i: int) -> int
    decreases src.len() - i,
{
    if 0 <= i < src.len() && is_ident_char(src[i]) {
        ident_end(src, i + 1)
    } else {
        i
    }
}

/// The position of the first newline at or after `i`, or the end.
pub open spec fn line_end(src: Seq<char>, i: int) -> int
    decreases src.len() - i,
{
    if 0 <= i < src.len() && src[i] != '\n' {
        line_end(src, i + 1)
    } else {
        i
    }
}

pub open spec fn digit_value(c: char) -> int {
    (c as u32) as int - ('0' as u32) as int
}

/// The number that a run of decimal digits denotes.
pub open spec fn digits_value(s: Seq<char>) -> int
    decreases s.len(),
{
    if s.len() == 0 {
        0
    } else {
        digits_value(s.drop_last()) * 10 + digit_value(s.last())
    }
}

pub open spec fn escaped(c: char) -> Option<char> {
    if c == 'n' {
        Some('\n')
    } else if c == '\\' {
        Some('\\')
    } else if c == '"' {
        Some('"')
    } else {
        None
    }
}

/// The contents of a string literal whose text starts at `i` (after the
/// opening quote, which stands at `line`, `col`), and the position after the
/// closing quote.
pub open spec fn scan_string(src: Seq<char>, i: int, line: nat, col: nat) -> Result<(Seq<char>, int), LexFault>
    decreases src.len() - i,
{
    if i < 0 || i >= src.len() {
        Err(LexFault::UnterminatedString(line as u32, col as u32))
    } else if src[i] == '"' {
        Ok((seq![], i + 1))
    } else if src[i] == '\\' {
        if i + 1 >= src.len() {
            Err(LexFault::UnterminatedString(line as u32, col as u32))
        } else {
            match escaped(src[i + 1]) {
                Some(c) => match scan_string(src, i + 2, line, col) {
                    Ok((s, j)) => Ok((seq![c] + s, j)),
                    Err(f) => Err(f),
                },
                None => Err(LexFault::BadEscape(line as u32, col as u32)),
            }
        }
    } else {
        match scan_string(src, i + 1, line, col) {
            Ok((s, j)) => Ok((seq![src[i]] + s, j)),
            Err(f) => Err(f),
        }
    }
}

/// The kind of a keyword or a primitive type name.
pub open spec fn keyword_kind(w: Seq<char>) -> Option<KindView> {
    if w == seq!['l', 'e', 't'] {
        Some(KindView::Let)
    } else if w == seq!['f', 'n'] {
        Some(KindView::FunctionDec)
    } else if w == seq!['i', 'f'] {
        Some(KindView::If)
    } else if w == seq!['e', 'l', 's', 'e'] {
        Some(KindView::Else)
    } else if w == seq!['w', 'h', 'i', 'l', 'e'] {
        Some(KindView::While)
    } else if w == seq!['r', 'e', 't', 'u', 'r', 'n'] {
        Some(KindView::Return)
    } else if w == seq!['e', 'x', 't', 'e', 'r', 'n'] {
        Some(KindView::Extern)
    } else if w == seq!['t', 'r', 'u', 'e'] {
        Some(KindView::True)
    } else if w == seq!['f', 'a', 'l', 's', 'e'] {
        Some(KindView::False)
    } else if w == seq!['I', 'n', 't'] {
        Some(KindView::Type(TypeView::Int))
    } else if w == seq!['F', 'l', 'o', 'a', 't'] {
        Some(KindView::Type(TypeView::Float))
    } else if w == seq!['B', 'o', 'o', 'l'] {
        Some(KindView::Type(TypeView::Bool))
    } else if w == seq!['S', 't', 'r', 'i', 'n', 'g'] {
        Some(KindView::Type(TypeView::String))
    } else {
        None
    }
}


/// The kind `k1` when the character at `i` is `c` (taking two characters), else `k2`.
pub open spec fn two_char(src: Seq<char>, i: int, c: char, k1: KindView, k2: KindView) -> Result<Option<(KindView, int)>, LexFault> {
    if i + 1 < src.len() && src[i + 1] == c {
        Ok(Some((k1, i + 2)))
    } else {
        Ok(Some((k2, i + 1)))
    }
}

/// The token that starts at `i` and the position after it; `None` for a
/// character that starts no token (white space and anything unknown).
pub open spec fn lex_step(src: Seq<char>, i: int, line: nat, col: nat) -> Result<Option<(KindView, int)>, LexFault> {
    let c = src[i];
    if c == '{' {
        Ok(Some((KindView::BraceOpen, i + 1)))
    } else if c == '}' {
        Ok(Some((KindView::BraceClose, i + 1)))
    } else if c == '(' {
        Ok(Some((KindView::ParenOpen, i + 1)))
    } else if c == ')' {
        Ok(Some((KindView::ParenClose, i + 1)))
    } else if c == ';' {
        Ok(Some((KindView::Semicolon, i + 1)))
    } else if c == ',' {
        Ok(Some((KindView::Comma, i + 1)))
    } else if c == ':' {
        Ok(Some((KindView::Colon, i + 1)))
    } else if c == '+' {
        Ok(Some((KindView::Plus, i + 1)))
    } else if c == '*' {
        Ok(Some((KindView::Asterisk, i + 1)))
    } else if c == '/' {
        Ok(Some((KindView::FSlash, i + 1)))
    } else if c == '-' {
        two_char(src, i, '>', KindView::MapsTo, KindView::Minus)
    } else if c == '=' {
        two_char(src, i, '=', KindView::EqualTo, KindView::Assign)
    } else if c == '!' {
        two_char(src, i, '=', KindView::NotEqualTo, KindView::Bang)
    } else if c == '<' {
        two_char(src, i, '=', KindView::LessThanEqualTo, KindView::LessThan)
    } else if c == '>' {
        two_char(src, i, '=', KindView::GreaterThanEqualTo, KindView::GreaterThan)
    } else if c == '"' {
        match scan_string(src, i + 1, line, col) {
            Ok((s, j)) => Ok(Some((KindView::StringLiteral(s), j))),
            Err(f) => Err(f),
        }
    } else if is_digit(c) {
        let j = digits_end(src, i);
        if j < src.len() && src[j] == '.' {
            let k = digits_end(src, j + 1);
            Ok(Some((KindView::FloatLiteral(src.subrange(i, k)), k)))
        } else if digits_value(src.subrange(i, j)) <= i64::MAX {
            Ok(Some((KindView::IntLiteral(digits_value(src.subrange(i, j)) as i64), j)))
        } else {
            Err(LexFault::BadNumber(line as u32, col as u32))
        }
    } else if is_ident_start(c) {
        let j = ident_end(src, i);
        match keyword_kind(src.subrange(i, j)) {
            Some(k) => Ok(Some((k, j))),
            None => Ok(Some((KindView::Identifier(src.subrange(i, j)), j))),
        }
    } else {
        Ok(None)
    }
}

/// The tokens of `src` from position `i`, which stands at `line`, `col`.
/// A newline between tokens moves to the next line; `//` skips the rest of its
/// line. Every other character, inside a string literal too, moves one column.
pub open spec fn lex_from(src: Seq<char>, i: int, line: nat, col: nat) -> Result<Seq<TokenView>, LexFault>
    decreases src.len() - i,
{
    if i < 0 || i >= src.len() {
        Ok(seq![])
    } else if src[i] == '\n' {
        lex_from(src, i + 1, line + 1, 1)
    } else if src[i] == '/' && i + 1 < src.len() && src[i + 1] == '/' {
        let e = line_end(src, i);
        if e < src.len() && e > i {
            lex_from(src, e + 1, line + 1, 1)
        } else {
            Ok(seq![])
        }
    } else {
        match lex_step(src, i, line, col) {
            Ok(Some((k, j))) => if i < j <= src.len() {
                match lex_from(src, j, line, col + (j - i) as nat) {
                    Ok(rest) => Ok(seq![TokenView { kind: k, line, col }] + rest),
                    Err(f) => Err(f),
                }
            } else {
                Ok(seq![])
            },
            Ok(None) => lex_from(src, i + 1, line, col + 1),
            Err(f) => Err(f),
        }
    }
}

/// The tokens of a whole source text.
pub open spec fn lex_spec(src: Seq<char>) -> Result<Seq<TokenView>, LexFault> {
    lex_from(src, 0, 1, 1)
}

pub open spec fn tokens_view(v: Seq<Token>) -> Seq<TokenView> {
    v.map_values(|t: Token| t@)
}

proof fn lemma_digits_end(src: Seq<char>, i: int)
    requires
        0 <= i <= src.len(),
    ensures
        i <= digits_end(src, i) <= src.len(),
        forall|k: int| i <= k < digits_end(src, i) ==> is_digit(#[trigger] src[k]),
    decreases src.len() - i,
{
    if i < src.len() && is_digit(src[i]) {
        lemma_digits_end(src, i + 1);
    }
}

proof fn lemma_ident_end(src: Seq<char>, i: int)
    requires
        0 <= i <= src.len(),
    ensures
        i <= ident_end(src, i) <= src.len(),
    decreases src.len() - i,
{
    if i < src.len() && is_ident_char(src[i]) {
        lemma_ident_end(src, i + 1);
    }
}

proof fn lemma_digits_mono(s: Seq<char>, k: int)
    requires
        0 <= k <= s.len(),
        forall|m: int| 0 <= m < s.len() ==> is_digit(#[trigger] s[m]),
    ensures
        0 <= digits_value(s.subrange(0, k)) <= digits_value(s),
    decreases s.len(),
{
    if s.len() == 0 {
        assert(s.subrange(0, k) =~= s);
    } else {
        let d = s.drop_last();
        lemma_digits_mono(d, d.len() as int);
        assert(d.subrange(0, d.len() as int) =~= d);
        assert(is_digit(s[s.len() - 1]));
        let v = digits_value(d);
        assert(v * 10 >= v) by (nonlinear_arith)
            requires
                v >= 0,
        ;
        if k == s.len() {
            assert(s.subrange(0, k) =~= s);
        } else {
            lemma_digits_mono(d, k);
            assert(d.subrange(0, k) =~= s.subrange(0, k));
        }
    }
}

/// Relies on std's `str::chars`: the characters of the text in order.
#[verifier::external_body]
fn chars_of(s: &String) -> (r: Vec<char>)
    ensures
        r@ == s@,
{
    s.chars().collect()
}

/// Relies on std's `FromIterator<char>` for `String`: the string holds these
/// characters in order.
#[verifier::external_body]
fn string_from_chars(cs: &[char]) -> (r: String)
    ensures
        r@ == cs@,
{
    cs.iter().collect()
}

fn chars_between(src: &Vec<char>, i: usize, j: usize) -> (r: Vec<char>)
    requires
        i <= j <= src.len(),
    ensures
        r@ == src@.subrange(i as int, j as int),
{
    let mut out: Vec<char> = Vec::new();
    let mut k: usize = i;
    while k < j
        invariant
            i <= k <= j <= src.len(),
            out@ == src@.subrange(i as int, k as int),
        decreases j - k,
    {
        out.push(src[k]);
        assert(out@ =~= src@.subrange(i as int, k + 1));
        k = k + 1;
    }
    out
}

fn is_digit_char(c: char) -> (r: bool)
    ensures
        r == is_digit(c),
{
    '0' <= c && c <= '9'
}

fn is_ident_start_char(c: char) -> (r: bool)
    ensures
        r == is_ident_start(c),
{
    ('a' <= c && c <= 'z') || ('A' <= c && c <= 'Z') || c == '_'
}

fn scan_digits(src: &Vec<char>, i: usize) -> (j: usize)
    requires
        i <= src.len(),
    ensures
        j as int == digits_end(src@, i as int),
        i <= j <= src.len(),
{
    let mut j: usize = i;
    while j < src.len() && is_digit_char(src[j])
        invariant
            i <= j <= src.len(),
            digits_end(src@, i as int) == digits_end(src@, j as int),
        decreases src.len() - j,
    {
        j = j + 1;
    }
    j
}

fn scan_ident(src: &Vec<char>, i: usize) -> (j: usize)
    requires
        i <= src.len(),
    ensures
        j as int == ident_end(src@, i as int),
        i <= j <= src.len(),
{
    let mut j: usize = i;
    while j < src.len() && (is_ident_start_char(src[j]) || is_digit_char(src[j]))
        invariant
            i <= j <= src.len(),
            ident_end(src@, i as int) == ident_end(src@, j as int),
        decreases src.len() - j,
    {
        j = j + 1;
    }
    j
}

fn scan_line(src: &Vec<char>, i: usize) -> (j: usize)
    requires
        i <= src.len(),
    ensures
        j as int == line_end(src@, i as int),
        i <= j <= src.len(),
{
    let mut j: usize = i;
    while j < src.len() && src[j] != '\n'
        invariant
            i <= j <= src.len(),
            line_end(src@, i as int) == line_end(src@, j as int),
        decreases src.len() - j,
    {
        j = j + 1;
    }
    j
}

/// The value of the digits in `i..j`, unless it exceeds `i64::MAX`.
fn int_value(src: &Vec<char>, i: usize, j: usize) -> (r: Option<i64>)
    requires
        i <= j <= src.len(),
        forall|k: int| i <= k < j ==> is_digit(#[trigger] src@[k]),
    ensures
        digits_value(src@.subrange(i as int, j as int)) <= i64::MAX ==> r == Some(
            digits_value(src@.subrange(i as int, j as int)) as i64,
        ),
        digits_value(src@.subrange(i as int, j as int)) > i64::MAX ==> r is None,
{
    let ghost s = src@.subrange(i as int, j as int);
    let mut v: i64 = 0;
    let mut k: usize = i;
    assert(s.subrange(0, 0) =~= seq![]);
    while k < j
        invariant
            i <= k <= j <= src.len(),
            s == src@.subrange(i as int, j as int),
            forall|m: int| i <= m < j ==> is_digit(#[trigger] src@[m]),
            v as int == digits_value(s.subrange(0, k - i)),
        decreases j - k,
    {
        let c = src[k];
        assert(is_digit(src@[k as int]));
        let d = (c as u32 - '0' as u32) as i64;
        assert(s.subrange(0, k + 1 - i).drop_last() =~= s.subrange(0, k - i));
        assert(s.subrange(0, k + 1 - i).last() == c);
        let next = match v.checked_mul(10) {
            Some(a) => a.checked_add(d),
            None => None,
        };
        match next {
            Some(n) => {
                v = n;
            },
            None => {
                proof {
                    lemma_digits_mono(s, k + 1 - i);
                }
                return None;
            },
        }
        k = k + 1;
    }
    assert(s.subrange(0, j - i) =~= s);
    Some(v)
}

/// The contents and end of a string literal, as `scan_string` gives them.
fn scan_str(src: &Vec<char>, start: usize, line: u32, col: u32) -> (r: Result<(Vec<char>, usize), LexFault>)
    requires
        start <= src.len(),
    ensures
        match scan_string(src@, start as int, line as nat, col as nat) {
            Ok((s, j)) => r is Ok && r->Ok_0.0@ == s && r->Ok_0.1 as int == j && start < r->Ok_0.1 <= src.len(),
            Err(f) => r == Err::<(Vec<char>, usize), LexFault>(f),
        },
{
    let mut out: Vec<char> = Vec::new();
    let mut i: usize = start;
    while i < src.len() && src[i] != '"'
        invariant
            start <= i <= src.len(),
            scan_string(src@, start as int, line as nat, col as nat) == match scan_string(src@, i as int, line as nat, col as nat) {
                Ok((s, j)) => Ok::<(Seq<char>, int), LexFault>((out@ + s, j)),
                Err(f) => Err(f),
            },
        decreases src.len() - i,
    {
        if src[i] == '\\' {
            if i + 1 >= src.len() {
                return Err(LexFault::UnterminatedString(line, col));
            }
            let c = src[i + 1];
            let e = if c == 'n' {
                '\n'
            } else if c == '\\' {
                '\\'
            } else if c == '"' {
                '"'
            } else {
                return Err(LexFault::BadEscape(line, col));
            };
            let ghost prev = out@;
            out.push(e);
            proof {
                match scan_string(src@, i + 2, line as nat, col as nat) {
                    Ok((s, j)) => { assert(prev + (seq![e] + s) =~= out@ + s); },
                    Err(_) => {},
                }
            }
            i = i + 2;
        } else {
            let ghost prev = out@;
            out.push(src[i]);
            proof {
                match scan_string(src@, i + 1, line as nat, col as nat) {
                    Ok((s, j)) => { assert(prev + (seq![src@[i as int]] + s) =~= out@ + s); },
                    Err(_) => {},
                }
            }
            i = i + 1;
        }
    }
    if i >= src.len() {
        return Err(LexFault::UnterminatedString(line, col));
    }
    assert(out@ + seq![] =~= out@);
    Ok((out, i + 1))
}

fn keyword(w: &Vec<char>) -> (r: Option<TokenKind>)
    ensures
        match r {
            Some(k) => keyword_kind(w@) == Some(k@),
            None => keyword_kind(w@) is None,
        },
{
    if w.len() == 3 && w[0] == 'l' && w[1] == 'e' && w[2] == 't' {
        assert(w@ =~= seq!['l', 'e', 't']);
        return Some(TokenKind::Let);
    }
    if w.len() == 2 && w[0] == 'f' && w[1] == 'n' {
        assert(w@ =~= seq!['f', 'n']);
        return Some(TokenKind::FunctionDec);
    }
    if w.len() == 2 && w[0] == 'i' && w[1] == 'f' {
        assert(w@ =~= seq!['i', 'f']);
        return Some(TokenKind::If);
    }
    if w.len() == 4 && w[0] == 'e' && w[1] == 'l' && w[2] == 's' && w[3] == 'e' {
        assert(w@ =~= seq!['e', 'l', 's', 'e']);
        return Some(TokenKind::Else);
    }
    if w.len() == 5 && w[0] == 'w' && w[1] == 'h' && w[2] == 'i' && w[3] == 'l' && w[4] == 'e' {
        assert(w@ =~= seq!['w', 'h', 'i', 'l', 'e']);
        return Some(TokenKind::While);
    }
    if w.len() == 6 && w[0] == 'r' && w[1] == 'e' && w[2] == 't' && w[3] == 'u' && w[4] == 'r' && w[5] == 'n' {
        assert(w@ =~= seq!['r', 'e', 't', 'u', 'r', 'n']);
        return Some(TokenKind::Return);
    }
    if w.len() == 6 && w[0] == 'e' && w[1] == 'x' && w[2] == 't' && w[3] == 'e' && w[4] == 'r' && w[5] == 'n' {
        assert(w@ =~= seq!['e', 'x', 't', 'e', 'r', 'n']);
        return Some(TokenKind::Extern);
    }
    if w.len() == 4 && w[0] == 't' && w[1] == 'r' && w[2] == 'u' && w[3] == 'e' {
        assert(w@ =~= seq!['t', 'r', 'u', 'e']);
        return Some(TokenKind::True);
    }
    if w.len() == 5 && w[0] == 'f' && w[1] == 'a' && w[2] == 'l' && w[3] == 's' && w[4] == 'e' {
        assert(w@ =~= seq!['f', 'a', 'l', 's', 'e']);
        return Some(TokenKind::False);
    }
    if w.len() == 3 && w[0] == 'I' && w[1] == 'n' && w[2] == 't' {
        assert(w@ =~= seq!['I', 'n', 't']);
        return Some(TokenKind::Type(PrimitiveType::Int));
    }
    if w.len() == 5 && w[0] == 'F' && w[1] == 'l' && w[2] == 'o' && w[3] == 'a' && w[4] == 't' {
        assert(w@ =~= seq!['F', 'l', 'o', 'a', 't']);
        return Some(TokenKind::Type(PrimitiveType::Float));
    }
    if w.len() == 4 && w[0] == 'B' && w[1] == 'o' && w[2] == 'o' && w[3] == 'l' {
        assert(w@ =~= seq!['B', 'o', 'o', 'l']);
        return Some(TokenKind::Type(PrimitiveType::Bool));
    }
    if w.len() == 6 && w[0] == 'S' && w[1] == 't' && w[2] == 'r' && w[3] == 'i' && w[4] == 'n' && w[5] == 'g' {
        assert(w@ =~= seq!['S', 't', 'r', 'i', 'n', 'g']);
        return Some(TokenKind::Type(PrimitiveType::String));
    }
    proof {
        if w@ == seq!['l', 'e', 't'] {
            assert(w@.len() == 3 && w@[0] == 'l' && w@[1] == 'e' && w@[2] == 't');
        }
        if w@ == seq!['f', 'n'] {
            assert(w@.len() == 2 && w@[0] == 'f' && w@[1] == 'n');
        }
        if w@ == seq!['i', 'f'] {
            assert(w@.len() == 2 && w@[0] == 'i' && w@[1] == 'f');
        }
        if w@ == seq!['e', 'l', 's', 'e'] {
            assert(w@.len() == 4 && w@[0] == 'e' && w@[1] == 'l' && w@[2] == 's' && w@[3] == 'e');
        }
        if w@ == seq!['w', 'h', 'i', 'l', 'e'] {
            assert(w@.len() == 5 && w@[0] == 'w' && w@[1] == 'h' && w@[2] == 'i' && w@[3] == 'l' && w@[4] == 'e');
        }
        if w@ == seq!['r', 'e', 't', 'u', 'r', 'n'] {
            assert(w@.len() == 6 && w@[0] == 'r' && w@[1] == 'e' && w@[2] == 't' && w@[3] == 'u' && w@[4] == 'r' && w@[5] == 'n');
        }
        if w@ == seq!['e', 'x', 't', 'e', 'r', 'n'] {
            assert(w@.len() == 6 && w@[0] == 'e' && w@[1] == 'x' && w@[2] == 't' && w@[3] == 'e' && w@[4] == 'r' && w@[5] == 'n');
        }
        if w@ == seq!['t', 'r', 'u', 'e'] {
            assert(w@.len() == 4 && w@[0] == 't' && w@[1] == 'r' && w@[2] == 'u' && w@[3] == 'e');
        }
        if w@ == seq!['f', 'a', 'l', 's', 'e'] {
            assert(w@.len() == 5 && w@[0] == 'f' && w@[1] == 'a' && w@[2] == 'l' && w@[3] == 's' && w@[4] == 'e');
        }
        if w@ == seq!['I', 'n', 't'] {
            assert(w@.len() == 3 && w@[0] == 'I' && w@[1] == 'n' && w@[2] == 't');
        }
        if w@ == seq!['F', 'l', 'o', 'a', 't'] {
            assert(w@.len() == 5 && w@[0] == 'F' && w@[1] == 'l' && w@[2] == 'o' && w@[3] == 'a' && w@[4] == 't');
        }
        if w@ == seq!['B', 'o', 'o', 'l'] {
            assert(w@.len() == 4 && w@[0] == 'B' && w@[1] == 'o' && w@[2] == 'o' && w@[3] == 'l');
        }
        if w@ == seq!['S', 't', 'r', 'i', 'n', 'g'] {
            assert(w@.len() == 6 && w@[0] == 'S' && w@[1] == 't' && w@[2] == 'r' && w@[3] == 'i' && w@[4] == 'n' && w@[5] == 'g');
        }
    }
    None
}


/// Turns source text into tokens, left to right.
pub struct Lexer {
    pub source: Vec<char>,
    pub tokens: Vec<Token>,
    pub line: u32,
    pub col: u32,
    pub current: usize,
}

impl Lexer {
    pub fn new(source: String) -> (r: Lexer)
        ensures
            r.source@ == source@,
            r.tokens@.len() == 0,
            r.line == 1,
            r.col == 1,
            r.current == 0,
    {
        Lexer { source: chars_of(&source), tokens: Vec::new(), line: 1, col: 1, current: 0 }
    }

    /// The tokens of the rest of the source, after those already found; the
    /// first malformed token stops it.
    pub fn lex(self) -> (r: Result<Vec<Token>, LexFault>)
        requires
            self.current <= self.source.len(),
            self.line + self.source.len() < u32::MAX,
            self.col + self.source.len() < u32::MAX,
        ensures
            match lex_from(self.source@, self.current as int, self.line as nat, self.col as nat) {
                Ok(rest) => r is Ok && tokens_view(r->Ok_0@) == tokens_view(self.tokens@) + rest,
                Err(f) => r == Err::<Vec<Token>, LexFault>(f),
            },
    {
        let ghost src = self.source@;
        let ghost entry = lex_from(src, self.current as int, self.line as nat, self.col as nat);
        let ghost t0 = tokens_view(self.tokens@);
        let mut lx = self;
        while !lx.is_at_end()
            invariant
                lx.source@ == src,
                entry == lex_from(self.source@, self.current as int, self.line as nat, self.col as nat),
                t0 == tokens_view(self.tokens@),
                lx.current <= lx.source.len(),
                lx.line + (src.len() - lx.current) < u32::MAX,
                lx.col + (src.len() - lx.current) < u32::MAX,
                match entry {
                    Ok(rest) => Ok::<Seq<TokenView>, LexFault>(t0 + rest),
                    Err(f) => Err(f),
                } == match lex_from(src, lx.current as int, lx.line as nat, lx.col as nat) {
                    Ok(rest) => Ok::<Seq<TokenView>, LexFault>(tokens_view(lx.tokens@) + rest),
                    Err(f) => Err(f),
                },
            decreases lx.source.len() - lx.current,
        {
            let ghost before = lex_from(src, lx.current as int, lx.line as nat, lx.col as nat);
            match lx.tokenize() {
                Ok(_) => {},
                Err(f) => {
                    assert(before == Err::<Seq<TokenView>, LexFault>(f));
                    assert(entry == Err::<Seq<TokenView>, LexFault>(f));
                    return Err(f);
                },
            }
        }
        assert(tokens_view(lx.tokens@) + seq![] =~= tokens_view(lx.tokens@));
        Ok(lx.tokens)
    }

    /// Consumes one token, a newline, a comment or an ignored character, and
    /// records the token.
    fn tokenize(&mut self) -> (r: Result<(), LexFault>)
        requires
            old(self).current < old(self).source.len(),
            old(self).line + (old(self).source.len() - old(self).current) < u32::MAX,
            old(self).col + (old(self).source.len() - old(self).current) < u32::MAX,
        ensures
            final(self).source == old(self).source,
            r is Ok ==> {
                &&& old(self).current < final(self).current <= final(self).source.len()
                &&& final(self).line <= old(self).line + (final(self).current - old(self).current)
                &&& final(self).col <= old(self).col + (final(self).current - old(self).current)
                &&& match lex_from(old(self).source@, old(self).current as int, old(self).line as nat, old(self).col as nat) {
                    Ok(rest) => Ok::<Seq<TokenView>, LexFault>(tokens_view(old(self).tokens@) + rest),
                    Err(f) => Err(f),
                } == match lex_from(final(self).source@, final(self).current as int, final(self).line as nat, final(self).col as nat) {
                    Ok(rest) => Ok::<Seq<TokenView>, LexFault>(tokens_view(final(self).tokens@) + rest),
                    Err(f) => Err(f),
                }
            },
            r matches Err(f) ==> lex_from(old(self).source@, old(self).current as int, old(self).line as nat, old(self).col as nat) == Err::<Seq<TokenView>, LexFault>(f),
    {
        let ghost src = self.source@;
        let i = self.current;
        let c = self.source[i];
        if c == '\n' {
            self.current = i + 1;
            self.line = self.line + 1;
            self.col = 1;
            return Ok(());
        }
        if c == '/' && i + 1 < self.source.len() && self.source[i + 1] == '/' {
            let e = scan_line(&self.source, i + 1);
            if e < self.source.len() {
                self.current = e + 1;
                self.line = self.line + 1;
                self.col = 1;
            } else {
                self.current = self.source.len();
                assert(tokens_view(self.tokens@) + seq![] =~= tokens_view(self.tokens@));
            }
            return Ok(());
        }
        let line = self.line;
        let col = self.col;
        match self.scan_token(i, line, col) {
            Ok(Some((kind, j))) => {
                let ghost k = kind@;
                self.add_token(kind, line, col);
                self.current = j;
                self.col = col + (j - i) as u32;
                proof {
                    match lex_from(src, j as int, line as nat, (col + (j - i)) as nat) {
                        Ok(rest) => {
                            assert(tokens_view(old(self).tokens@) + (seq![TokenView { kind: k, line: line as nat, col: col as nat }] + rest)
                                =~= tokens_view(self.tokens@) + rest);
                        },
                        Err(_) => {},
                    }
                }
                Ok(())
            },
            Ok(None) => {
                self.current = i + 1;
                self.col = col + 1;
                Ok(())
            },
            Err(f) => Err(f),
        }
    }

    fn add_token(&mut self, kind: TokenKind, line: u32, col: u32)
        ensures
            final(self).source == old(self).source,
            final(self).current == old(self).current,
            final(self).line == old(self).line,
            final(self).col == old(self).col,
            tokens_view(final(self).tokens@) == tokens_view(old(self).tokens@).push(TokenView { kind: kind@, line: line as nat, col: col as nat }),
    {
        let ghost prev = self.tokens@;
        self.tokens.push(Token::new(kind, line, col));
        assert(tokens_view(self.tokens@) =~= tokens_view(prev).push(TokenView { kind: kind@, line: line as nat, col: col as nat }));
    }

    /// The token that starts at `i`, as `lex_step` gives it.
    fn scan_token(&self, i: usize, line: u32, col: u32) -> (r: Result<Option<(TokenKind, usize)>, LexFault>)
        requires
            i < self.source.len(),
        ensures
            match lex_step(self.source@, i as int, line as nat, col as nat) {
                Ok(Some((k, j))) => match r {
                    Ok(Some((k2, j2))) => k2@ == k && j2 as int == j && i < j2 <= self.source.len(),
                    _ => false,
                },
                Ok(None) => r matches Ok(None),
                Err(f) => r == Err::<Option<(TokenKind, usize)>, LexFault>(f),
            },
    {
        let c = self.source[i];
        let k = match c {
            '{' => TokenKind::BraceOpen,
            '}' => TokenKind::BraceClose,
            '(' => TokenKind::ParenOpen,
            ')' => TokenKind::ParenClose,
            ';' => TokenKind::Semicolon,
            ',' => TokenKind::Comma,
            ':' => TokenKind::Colon,
            '+' => TokenKind::Plus,
            '*' => TokenKind::Asterisk,
            '/' => TokenKind::FSlash,
            '-' => return Ok(Some(self.match_curr(i, '>', TokenKind::MapsTo, TokenKind::Minus))),
            '=' => return Ok(Some(self.match_curr(i, '=', TokenKind::EqualTo, TokenKind::Assign))),
            '!' => return Ok(Some(self.match_curr(i, '=', TokenKind::NotEqualTo, TokenKind::Bang))),
            '<' => return Ok(Some(self.match_curr(i, '=', TokenKind::LessThanEqualTo, TokenKind::LessThan))),
            '>' => return Ok(Some(self.match_curr(i, '=', TokenKind::GreaterThanEqualTo, TokenKind::GreaterThan))),
            '"' => {
                return match self.string(i, line, col) {
                    Ok(t) => Ok(Some(t)),
                    Err(f) => Err(f),
                };
            },
            _ => {
                if is_digit_char(c) {
                    return match self.number(i, line, col) {
                        Ok(t) => Ok(Some(t)),
                        Err(f) => Err(f),
                    };
                }
                if is_ident_start_char(c) {
                    return Ok(Some(self.identifier(i)));
                }
                return Ok(None);
            },
        };
        Ok(Some((k, i + 1)))
    }

    /// `k1` over two characters when the one after `i` is `c`, else `k2` over one.
    fn match_curr(&self, i: usize, c: char, k1: TokenKind, k2: TokenKind) -> (r: (TokenKind, usize))
        requires
            i < self.source.len(),
        ensures
            two_char(self.source@, i as int, c, k1@, k2@) == Ok::<Option<(KindView, int)>, LexFault>(Some((r.0@, r.1 as int))),
            i < r.1 <= self.source.len(),
    {
        if i + 1 < self.source.len() && self.source[i + 1] == c {
            (k1, i + 2)
        } else {
            (k2, i + 1)
        }
    }

    /// An integer or float literal starting at `i`.
    fn number(&self, i: usize, line: u32, col: u32) -> (r: Result<(TokenKind, usize), LexFault>)
        requires
            i < self.source.len(),
            is_digit(self.source@[i as int]),
        ensures
            match lex_step(self.source@, i as int, line as nat, col as nat) {
                Ok(Some((k, j))) => match r {
                    Ok((k2, j2)) => k2@ == k && j2 as int == j && i < j2 <= self.source.len(),
                    _ => false,
                },
                Ok(None) => false,
                Err(f) => r == Err::<(TokenKind, usize), LexFault>(f),
            },
    {
        let src = &self.source;
        let j = scan_digits(src, i);
        proof {
            lemma_digits_end(src@, i as int);
            lemma_digits_end(src@, i + 1);
        }
        if j < src.len() && src[j] == '.' {
            let k = scan_digits(src, j + 1);
            let text = chars_between(src, i, k);
            return Ok((TokenKind::FloatLiteral(string_from_chars(text.as_slice())), k));
        }
        match int_value(src, i, j) {
            Some(v) => Ok((TokenKind::IntLiteral(v), j)),
            None => Err(LexFault::BadNumber(line, col)),
        }
    }

    /// An identifier, keyword or type name starting at `i`.
    fn identifier(&self, i: usize) -> (r: (TokenKind, usize))
        requires
            i < self.source.len(),
            is_ident_start(self.source@[i as int]),
        ensures
            lex_step(self.source@, i as int, 0, 0) == Ok::<Option<(KindView, int)>, LexFault>(Some((r.0@, r.1 as int))),
            i < r.1 <= self.source.len(),
    {
        let j = scan_ident(&self.source, i);
        proof {
            lemma_ident_end(self.source@, i + 1);
        }
        let word = chars_between(&self.source, i, j);
        match keyword(&word) {
            Some(k) => (k, j),
            None => (TokenKind::Identifier(string_from_chars(word.as_slice())), j),
        }
    }

    /// A string literal whose opening quote is at `i`.
    fn string(&self, i: usize, line: u32, col: u32) -> (r: Result<(TokenKind, usize), LexFault>)
        requires
            i < self.source.len(),
            self.source@[i as int] == '"',
        ensures
            match lex_step(self.source@, i as int, line as nat, col as nat) {
                Ok(Some((k, j))) => match r {
                    Ok((k2, j2)) => k2@ == k && j2 as int == j && i < j2 <= self.source.len(),
                    _ => false,
                },
                Ok(None) => false,
                Err(f) => r == Err::<(TokenKind, usize), LexFault>(f),
            },
    {
        match scan_str(&self.source, i + 1, line, col) {
            Ok((s, j)) => Ok((TokenKind::StringLiteral(string_from_chars(s.as_slice())), j)),
            Err(f) => Err(f),
        }
    }

    fn is_at_end(&self) -> (r: bool)
        ensures
            r == (self.current >= self.source.len()),
    {
        self.current >= self.source.len()
    }
}


/// Lexing is a function of the text alone: two equal texts give the same
/// tokens, or the same fault (`Lexer::lex` returns exactly `lex_from` of its
/// text).
pub proof fn lemma_lex_deterministic(a: Seq<char>, b: Seq<char>)
    requires
        a == b,
    ensures
        lex_spec(a) == lex_spec(b),
        lex_spec(a) matches Ok(ta) ==> lex_spec(b) matches Ok(tb) && ta.len() == tb.len() && forall|k: int|
            0 <= k < ta.len() ==> #[trigger] ta[k].kind == tb[k].kind,
{
}

} // verus!
