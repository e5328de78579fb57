//! The lexer: a single forward pass over source bytes that produces tokens.
//!
//! The scanning rules are stated once, as spec functions over `Seq<u8>`, and
//! the executable scanner is proved to follow them exactly.

use vstd::prelude::*;
use crate::token::{Token, TokenKind, STok, kw_kind, kw_lookup};

verus! {

/// Whitespace: space, tab, newline, carriage return. Skipped, never emitted.
pub open spec fn is_ws(c: u8) -> bool {
    c == 32 || c == 9 || c == 10 || c == 13
}

/// Letters and underscore may start an identifier.
pub open spec fn is_letter(c: u8) -> bool {
    (65 <= c && c <= 90) || (97 <= c && c <= 122) || c == 95
}

/// Decimal digits.
pub open spec fn is_digit(c: u8) -> bool {
    48 <= c && c <= 57
}

/// Characters that may continue an identifier.
pub open spec fn is_ident_char(c: u8) -> bool {
    is_letter(c) || is_digit(c)
}

/// Characters of a digit run: digits, with underscores kept as visual separators.
pub open spec fn is_num_char(c: u8) -> bool {
    is_digit(c) || c == 95
}

fn is_ws_x(c: u8) -> (b: bool)
    ensures
        b == is_ws(c),
{
    c == 32 || c == 9 || c == 10 || c == 13
}

fn is_letter_x(c: u8) -> (b: bool)
    ensures
        b == is_letter(c),
{
    (65 <= c && c <= 90) || (97 <= c && c <= 122) || c == 95
}

fn is_digit_x(c: u8) -> (b: bool)
    ensures
        b == is_digit(c),
{
    48 <= c && c <= 57
}

fn is_ident_char_x(c: u8) -> (b: bool)
    ensures
        b == is_ident_char(c),
{
    is_letter_x(c) || is_digit_x(c)
}

fn is_num_char_x(c: u8) -> (b: bool)
    ensures
        b == is_num_char(c),
{
    is_digit_x(c) || c == 95
}

/// First position at or after `i` that does not hold whitespace.
pub open spec fn skip_ws_s(s: Seq<u8>, i: nat) -> nat
    decreases s.len() - i,
{
    if i < s.len() && is_ws(s[i as int]) {
        skip_ws_s(s, i + 1)
    } else {
        i
    }
}

/// End of the identifier run that starts at `i`.
pub open spec fn scan_ident_s(s: Seq<u8>, i: nat) -> nat
    decreases s.len() - i,
{
    if i < s.len() && is_ident_char(s[i as int]) {
        scan_ident_s(s, i + 1)
    } else {
        i
    }
}

/// End of the digit run (digits and underscores) that starts at `i`.
pub open spec fn scan_num_s(s: Seq<u8>, i: nat) -> nat
    decreases s.len() - i,
{
    if i < s.len() && is_num_char(s[i as int]) {
        scan_num_s(s, i + 1)
    } else {
        i
    }
}

/// Position of the closing quote of a string whose contents start at `i`,
/// or `s.len()` when the string is unterminated. A backslash keeps the
/// following byte in the literal and never closes the string.
pub open spec fn str_close_s(s: Seq<u8>, i: nat) -> nat
    decreases s.len() - i,
{
    if i >= s.len() {
        s.len()
    } else if s[i as int] == 34 {
        i
    } else if s[i as int] == 92 {
        if i + 1 < s.len() {
            str_close_s(s, i + 2)
        } else {
            s.len()
        }
    } else {
        str_close_s(s, i + 1)
    }
}

proof fn lemma_skip_ws_bounds(s: Seq<u8>, i: nat)
    requires
        i <= s.len(),
    ensures
        i <= skip_ws_s(s, i) <= s.len(),
    decreases s.len() - i,
{
    if i < s.len() && is_ws(s[i as int]) {
        lemma_skip_ws_bounds(s, i + 1);
    }
}

proof fn lemma_scan_ident_bounds(s: Seq<u8>, i: nat)
    requires
        i <= s.len(),
    ensures
        i <= scan_ident_s(s, i) <= s.len(),
        i < s.len() && is_ident_char(s[i as int]) ==> scan_ident_s(s, i) >= i + 1,
    decreases s.len() - i,
{
    if i < s.len() && is_ident_char(s[i as int]) {
        lemma_scan_ident_bounds(s, i + 1);
    }
}

proof fn lemma_scan_num_bounds(s: Seq<u8>, i: nat)
    requires
        i <= s.len(),
    ensures
        i <= scan_num_s(s, i) <= s.len(),
        i < s.len() && is_num_char(s[i as int]) ==> scan_num_s(s, i) >= i + 1,
    decreases s.len() - i,
{
    if i < s.len() && is_num_char(s[i as int]) {
        lemma_scan_num_bounds(s, i + 1);
    }
}

proof fn lemma_str_close_bounds(s: Seq<u8>, i: nat)
    requires
        i <= s.len(),
    ensures
        i <= str_close_s(s, i) <= s.len(),
    decreases s.len() - i,
{
    if i < s.len() && s[i as int] != 34 {
        if s[i as int] == 92 {
            if i + 1 < s.len() {
                lemma_str_close_bounds(s, i + 2);
            }
        } else {
            lemma_str_close_bounds(s, i + 1);
        }
    }
}

/// One scanned token: its kind, its literal bytes, and the position of the
/// first byte after it.
pub struct ScanTok {
    pub kind: TokenKind,
    pub lit: Seq<u8>,
    pub end: nat,
}

/// A single-byte operator or punctuation token at `i`.
pub open spec fn one_tok(s: Seq<u8>, i: nat, kind: TokenKind) -> ScanTok {
    ScanTok { kind, lit: s.subrange(i as int, i as int + 1), end: i + 1 }
}

/// A two-byte operator token at `i`.
pub open spec fn two_tok(s: Seq<u8>, i: nat, kind: TokenKind) -> ScanTok {
    ScanTok { kind, lit: s.subrange(i as int, i as int + 2), end: i + 2 }
}

/// A numeric literal whose text starts at `start` (possibly at a leading
/// minus sign) and whose first digit stands at `dstart`.
pub open spec fn scan_number_s(s: Seq<u8>, start: nat, dstart: nat) -> ScanTok {
    let e1 = scan_num_s(s, dstart);
    if e1 < s.len() && s[e1 as int] == 46 && e1 + 1 < s.len() && is_digit(s[e1 as int + 1]) {
        let e2 = scan_num_s(s, e1 + 1);
        ScanTok { kind: TokenKind::FloatNum, lit: s.subrange(start as int, e2 as int), end: e2 }
    } else {
        ScanTok { kind: TokenKind::IntegerNum, lit: s.subrange(start as int, e1 as int), end: e1 }
    }
}

/// The token that scanning finds at or after `pos`: whitespace is skipped,
/// identifiers are checked against the keyword table, numeric literals fold a
/// directly preceding minus sign in, two-byte operators are preferred over
/// their one-byte prefixes, and any unmatched byte yields an `Illegal` token.
pub open spec fn next_token_s(s: Seq<u8>, pos: nat) -> ScanTok {
    let i = skip_ws_s(s, pos);
    if i >= s.len() {
        ScanTok { kind: TokenKind::Eof, lit: Seq::empty(), end: i }
    } else {
        let c = s[i as int];
        if is_letter(c) {
            let e = scan_ident_s(s, i);
            let l = s.subrange(i as int, e as int);
            ScanTok { kind: kw_kind(l), lit: l, end: e }
        } else if is_digit(c) {
            scan_number_s(s, i, i)
        } else if c == 45 {
            if i + 1 < s.len() && s[i as int + 1] == 61 {
                two_tok(s, i, TokenKind::MinusAssign)
            } else if i + 1 < s.len() && is_digit(s[i as int + 1]) {
                scan_number_s(s, i, i + 1)
            } else {
                one_tok(s, i, TokenKind::Minus)
            }
        } else if c == 34 {
            let cl = str_close_s(s, i + 1);
            if cl < s.len() {
                ScanTok {
                    kind: TokenKind::Str,
                    lit: s.subrange(i as int + 1, cl as int),
                    end: cl + 1,
                }
            } else {
                ScanTok {
                    kind: TokenKind::Illegal,
                    lit: s.subrange(i as int, s.len() as int),
                    end: s.len(),
                }
            }
        } else if c == 61 {
            if i + 1 < s.len() && s[i as int + 1] == 61 {
                two_tok(s, i, TokenKind::EqualTo)
            } else {
                one_tok(s, i, TokenKind::Assignment)
            }
        } else if c == 33 {
            if i + 1 < s.len() && s[i as int + 1] == 61 {
                two_tok(s, i, TokenKind::NotEqualTo)
            } else {
                one_tok(s, i, TokenKind::Not)
            }
        } else if c == 60 {
            if i + 1 < s.len() && s[i as int + 1] == 61 {
                two_tok(s, i, TokenKind::LessEq)
            } else {
                one_tok(s, i, TokenKind::Less)
            }
        } else if c == 62 {
            if i + 1 < s.len() && s[i as int + 1] == 61 {
                two_tok(s, i, TokenKind::GreaterEq)
            } else {
                one_tok(s, i, TokenKind::Greater)
            }
        } else if c == 38 {
            if i + 1 < s.len() && s[i as int + 1] == 38 {
                two_tok(s, i, TokenKind::And)
            } else {
                one_tok(s, i, TokenKind::BitAnd)
            }
        } else if c == 124 {
            if i + 1 < s.len() && s[i as int + 1] == 124 {
                two_tok(s, i, TokenKind::Or)
            } else {
                one_tok(s, i, TokenKind::BitOr)
            }
        } else if c == 43 {
            if i + 1 < s.len() && s[i as int + 1] == 61 {
                two_tok(s, i, TokenKind::PlusAssign)
            } else {
                one_tok(s, i, TokenKind::Plus)
            }
        } else if c == 42 {
            if i + 1 < s.len() && s[i as int + 1] == 61 {
                two_tok(s, i, TokenKind::AsteriskAssign)
            } else {
                one_tok(s, i, TokenKind::Asterisk)
            }
        } else if c == 47 {
            if i + 1 < s.len() && s[i as int + 1] == 61 {
                two_tok(s, i, TokenKind::SlashAssign)
            } else {
                one_tok(s, i, TokenKind::Slash)
            }
        } else if c == 40 {
            one_tok(s, i, TokenKind::LeftParen)
        } else if c == 41 {
            one_tok(s, i, TokenKind::RightParen)
        } else if c == 123 {
            one_tok(s, i, TokenKind::LeftBrace)
        } else if c == 125 {
            one_tok(s, i, TokenKind::RightBrace)
        } else if c == 44 {
            one_tok(s, i, TokenKind::Comma)
        } else if c == 59 {
            one_tok(s, i, TokenKind::Semicolon)
        } else {
            one_tok(s, i, TokenKind::Illegal)
        }
    }
}

/// Every scanned token ends within the source, after its start; only the
/// end-of-input token stands still, exactly at the end.
pub proof fn lemma_next_token_bounds(s: Seq<u8>, pos: nat)
    requires
        pos <= s.len(),
    ensures
        pos <= next_token_s(s, pos).end <= s.len(),
        next_token_s(s, pos).kind != TokenKind::Eof ==> next_token_s(s, pos).end > pos,
        next_token_s(s, pos).kind == TokenKind::Eof ==> next_token_s(s, pos).end == s.len(),
{
    lemma_skip_ws_bounds(s, pos);
    let i = skip_ws_s(s, pos);
    if i < s.len() {
        let c = s[i as int];
        lemma_scan_ident_bounds(s, i);
        lemma_scan_num_bounds(s, i);
        if i + 1 <= s.len() {
            lemma_scan_num_bounds(s, i + 1);
            lemma_str_close_bounds(s, i + 1);
        }
        let e1a = scan_num_s(s, i);
        if e1a + 1 <= s.len() {
            lemma_scan_num_bounds(s, e1a + 1);
        }
        let e1b = scan_num_s(s, i + 1);
        if e1b + 1 <= s.len() {
            lemma_scan_num_bounds(s, e1b + 1);
        }
    }
}

/// The full token stream from `pos` on: the tokens the scanner finds, in
/// order, ending with exactly one end-of-input token.
pub open spec fn tokens_from(s: Seq<u8>, pos: nat) -> Seq<STok>
    decreases s.len() - pos,
        when pos <= s.len()
        via tokens_from_dec
{
    let t = next_token_s(s, pos);
    if t.kind == TokenKind::Eof {
        seq![STok { kind: TokenKind::Eof, lit: t.lit }]
    } else {
        seq![STok { kind: t.kind, lit: t.lit }] + tokens_from(s, t.end)
    }
}

#[via_fn]
proof fn tokens_from_dec(s: Seq<u8>, pos: nat) {
    lemma_next_token_bounds(s, pos);
}

/// The token stream is finite and terminates with exactly one end-of-input
/// token: the last token is end-of-input, and no earlier one is.
pub proof fn lemma_token_stream_shape(s: Seq<u8>, pos: nat)
    requires
        pos <= s.len(),
    ensures
        tokens_from(s, pos).len() >= 1,
        tokens_from(s, pos).last().kind == TokenKind::Eof,
        forall|i: int|
            0 <= i < tokens_from(s, pos).len() - 1 ==> tokens_from(s, pos)[i].kind
                != TokenKind::Eof,
    decreases s.len() - pos,
{
    lemma_next_token_bounds(s, pos);
    let t = next_token_s(s, pos);
    if t.kind != TokenKind::Eof {
        lemma_token_stream_shape(s, t.end);
        let rest = tokens_from(s, t.end);
        let ts = tokens_from(s, pos);
        assert(ts == seq![STok { kind: t.kind, lit: t.lit }] + rest);
        assert(ts.last() == rest.last());
        assert forall|i: int| 0 <= i < ts.len() - 1 implies ts[i].kind != TokenKind::Eof by {
            if i > 0 {
                assert(ts[i] == rest[i - 1]);
            }
        }
    }
}

proof fn lemma_scan_num_all(s: Seq<u8>, i: nat)
    requires
        i <= s.len(),
        forall|j: int| i <= j < s.len() ==> is_num_char(s[j]),
    ensures
        scan_num_s(s, i) == s.len(),
    decreases s.len() - i,
{
    if i < s.len() {
        lemma_scan_num_all(s, i + 1);
    }
}

proof fn lemma_scan_num_until(s: Seq<u8>, i: nat, k: nat)
    requires
        i <= k < s.len(),
        forall|j: int| i <= j < k ==> is_num_char(s[j]),
        !is_num_char(s[k as int]),
    ensures
        scan_num_s(s, i) == k,
    decreases k - i,
{
    if i < k {
        lemma_scan_num_until(s, i + 1, k);
    }
}

/// A digit run from `a` to `b`: it starts with a digit and continues with
/// digits and underscores.
pub open spec fn is_digit_run(s: Seq<u8>, a: int, b: int) -> bool {
    &&& 0 <= a < b <= s.len()
    &&& is_digit(s[a])
    &&& forall|j: int| a < j < b ==> is_num_char(s[j])
}

/// The numeric grammar: an optional leading minus sign, a digit run, and
/// optionally a dot followed by another digit run.
pub open spec fn is_numeric_literal(s: Seq<u8>) -> bool {
    let a: int = if s.len() > 0 && s[0] == 45 {
        1
    } else {
        0
    };
    ||| is_digit_run(s, a, s.len() as int)
    ||| exists|k: int|
        a < k && k + 1 < s.len() && is_digit_run(s, a, k) && s[k] == 46 && #[trigger] is_digit_run(
            s,
            k + 1,
            s.len() as int,
        )
}

/// Lexing any text that matches the numeric grammar yields exactly one
/// token before end-of-input, and its literal is the original text,
/// verbatim: the round trip preserves the text, not merely the value.
pub proof fn lemma_numeric_literal_round_trip(s: Seq<u8>)
    requires
        is_numeric_literal(s),
    ensures
        tokens_from(s, 0).len() == 2,
        tokens_from(s, 0)[0].kind == TokenKind::IntegerNum || tokens_from(s, 0)[0].kind
            == TokenKind::FloatNum,
        tokens_from(s, 0)[0].lit == s,
        tokens_from(s, 0)[1].kind == TokenKind::Eof,
{
    let a: int = if s.len() > 0 && s[0] == 45 {
        1
    } else {
        0
    };
    assert(s.len() > 0);
    assert(!is_ws(s[0]));
    assert(skip_ws_s(s, 0) == 0);
    if is_digit_run(s, a, s.len() as int) {
        lemma_scan_num_all(s, a as nat);
        assert(scan_num_s(s, a as nat) == s.len());
        assert(next_token_s(s, 0) == scan_number_s(s, 0, a as nat));
        assert(s.subrange(0, s.len() as int) =~= s);
    } else {
        let k = choose|k: int|
            a < k && k + 1 < s.len() && is_digit_run(s, a, k) && s[k] == 46
                && #[trigger] is_digit_run(s, k + 1, s.len() as int);
        assert(!is_num_char(s[k]));
        lemma_scan_num_until(s, a as nat, k as nat);
        lemma_scan_num_all(s, (k + 1) as nat);
        assert(next_token_s(s, 0) == scan_number_s(s, 0, a as nat));
        assert(scan_num_s(s, a as nat) == k);
        assert(is_digit(s[k + 1]));
        assert(scan_num_s(s, (k + 1) as nat) == s.len());
        assert(s.subrange(0, s.len() as int) =~= s);
    }
    let t = next_token_s(s, 0);
    assert(t.end == s.len());
    assert(next_token_s(s, t.end).kind == TokenKind::Eof);
    assert(tokens_from(s, t.end) =~= seq![
        STok { kind: TokenKind::Eof, lit: next_token_s(s, t.end).lit },
    ]);
}

/// Maximal munch: at any non-whitespace position, a two-byte operator is
/// preferred whenever its second byte follows; otherwise the one-byte
/// operator is emitted. This covers `&&`/`&`, `||`/`|`, and every
/// `=`-suffixed pair.
pub proof fn lemma_maximal_munch(s: Seq<u8>, pos: nat)
    requires
        pos < s.len(),
    ensures
        s[pos as int] == 38 ==> next_token_s(s, pos) == (if pos + 1 < s.len() && s[pos as int + 1]
            == 38 {
            two_tok(s, pos, TokenKind::And)
        } else {
            one_tok(s, pos, TokenKind::BitAnd)
        }),
        s[pos as int] == 124 ==> next_token_s(s, pos) == (if pos + 1 < s.len() && s[pos as int + 1]
            == 124 {
            two_tok(s, pos, TokenKind::Or)
        } else {
            one_tok(s, pos, TokenKind::BitOr)
        }),
        s[pos as int] == 61 ==> next_token_s(s, pos) == (if pos + 1 < s.len() && s[pos as int + 1]
            == 61 {
            two_tok(s, pos, TokenKind::EqualTo)
        } else {
            one_tok(s, pos, TokenKind::Assignment)
        }),
        s[pos as int] == 33 ==> next_token_s(s, pos) == (if pos + 1 < s.len() && s[pos as int + 1]
            == 61 {
            two_tok(s, pos, TokenKind::NotEqualTo)
        } else {
            one_tok(s, pos, TokenKind::Not)
        }),
        s[pos as int] == 60 ==> next_token_s(s, pos) == (if pos + 1 < s.len() && s[pos as int + 1]
            == 61 {
            two_tok(s, pos, TokenKind::LessEq)
        } else {
            one_tok(s, pos, TokenKind::Less)
        }),
        s[pos as int] == 62 ==> next_token_s(s, pos) == (if pos + 1 < s.len() && s[pos as int + 1]
            == 61 {
            two_tok(s, pos, TokenKind::GreaterEq)
        } else {
            one_tok(s, pos, TokenKind::Greater)
        }),
        s[pos as int] == 43 ==> next_token_s(s, pos) == (if pos + 1 < s.len() && s[pos as int + 1]
            == 61 {
            two_tok(s, pos, TokenKind::PlusAssign)
        } else {
            one_tok(s, pos, TokenKind::Plus)
        }),
        s[pos as int] == 42 ==> next_token_s(s, pos) == (if pos + 1 < s.len() && s[pos as int + 1]
            == 61 {
            two_tok(s, pos, TokenKind::AsteriskAssign)
        } else {
            one_tok(s, pos, TokenKind::Asterisk)
        }),
        s[pos as int] == 47 ==> next_token_s(s, pos) == (if pos + 1 < s.len() && s[pos as int + 1]
            == 61 {
            two_tok(s, pos, TokenKind::SlashAssign)
        } else {
            one_tok(s, pos, TokenKind::Slash)
        }),
        s[pos as int] == 45 && pos + 1 < s.len() && s[pos as int + 1] == 61 ==> next_token_s(
            s,
            pos,
        ) == two_tok(s, pos, TokenKind::MinusAssign),
{
    assert(!is_ws(s[pos as int]) ==> skip_ws_s(s, pos) == pos);
}

/// Copies the bytes of `src[a..b]`.
fn sub_bytes(src: &[u8], a: usize, b: usize) -> (r: Vec<u8>)
    requires
        a <= b <= src.len(),
    ensures
        r@ == src@.subrange(a as int, b as int),
{
    let mut r: Vec<u8> = Vec::new();
    let mut i: usize = a;
    while i < b
        invariant
            a <= i <= b <= src.len(),
            r@ == src@.subrange(a as int, i as int),
        decreases b - i,
    {
        r.push(src[i]);
        i += 1;
        proof {
            assert(r@ =~= src@.subrange(a as int, i as int));
        }
    }
    r
}

fn skip_ws_x(src: &[u8], i: usize) -> (r: usize)
    requires
        i <= src.len(),
    ensures
        r == skip_ws_s(src@, i as nat),
        i <= r <= src.len(),
    decreases src.len() - i,
{
    if i < src.len() && is_ws_x(src[i]) {
        skip_ws_x(src, i + 1)
    } else {
        i
    }
}

fn scan_ident_x(src: &[u8], i: usize) -> (r: usize)
    requires
        i <= src.len(),
    ensures
        r == scan_ident_s(src@, i as nat),
        i <= r <= src.len(),
    decreases src.len() - i,
{
    if i < src.len() && is_ident_char_x(src[i]) {
        scan_ident_x(src, i + 1)
    } else {
        i
    }
}

fn scan_num_x(src: &[u8], i: usize) -> (r: usize)
    requires
        i <= src.len(),
    ensures
        r == scan_num_s(src@, i as nat),
        i <= r <= src.len(),
    decreases src.len() - i,
{
    if i < src.len() && is_num_char_x(src[i]) {
        scan_num_x(src, i + 1)
    } else {
        i
    }
}

fn str_close_x(src: &[u8], i: usize) -> (r: usize)
    requires
        i <= src.len(),
    ensures
        r == str_close_s(src@, i as nat),
        i <= r <= src.len(),
    decreases src.len() - i,
{
    if i >= src.len() {
        src.len()
    } else if src[i] == 34 {
        i
    } else if src[i] == 92 {
        if i + 1 < src.len() {
            str_close_x(src, i + 2)
        } else {
            src.len()
        }
    } else {
        str_close_x(src, i + 1)
    }
}

fn scan_number_x(src: &[u8], start: usize, dstart: usize) -> (r: (Token, usize))
    requires
        start <= dstart < src.len(),
        is_digit(src@[dstart as int]),
    ensures
        ({
            let st = scan_number_s(src@, start as nat, dstart as nat);
            r.0@.kind == st.kind && r.0@.lit == st.lit && r.1 == st.end && r.1 <= src.len()
                && start < r.1
        }),
{
    proof {
        lemma_scan_num_bounds(src@, dstart as nat);
    }
    let e1 = scan_num_x(src, dstart);
    if e1 < src.len() && src[e1] == 46 && e1 + 1 < src.len() && is_digit_x(src[e1 + 1]) {
        proof {
            lemma_scan_num_bounds(src@, e1 as nat + 1);
        }
        let e2 = scan_num_x(src, e1 + 1);
        (Token::new(TokenKind::FloatNum, sub_bytes(src, start, e2)), e2)
    } else {
        (Token::new(TokenKind::IntegerNum, sub_bytes(src, start, e1)), e1)
    }
}

/// Scans the token at or after `pos`, returning it with its end position.
/// The result is exactly what the scanning rules state.
pub fn scan_token(src: &[u8], pos: usize) -> (r: (Token, usize))
    requires
        pos <= src.len(),
    ensures
        ({
            let st = next_token_s(src@, pos as nat);
            r.0@.kind == st.kind && r.0@.lit == st.lit && r.1 == st.end
        }),
        pos <= r.1 <= src.len(),
        r.0@.kind != TokenKind::Eof ==> r.1 > pos,
{
    proof {
        lemma_next_token_bounds(src@, pos as nat);
    }
    let i = skip_ws_x(src, pos);
    if i >= src.len() {
        return (Token::new(TokenKind::Eof, Vec::new()), i);
    }
    let c = src[i];
    if is_letter_x(c) {
        proof {
            lemma_scan_ident_bounds(src@, i as nat);
        }
        let e = scan_ident_x(src, i);
        let lit = sub_bytes(src, i, e);
        let k = kw_lookup(lit.as_slice());
        (Token::new(k, lit), e)
    } else if is_digit_x(c) {
        scan_number_x(src, i, i)
    } else if c == 45 {
        if i + 1 < src.len() && src[i + 1] == 61 {
            (Token::new(TokenKind::MinusAssign, sub_bytes(src, i, i + 2)), i + 2)
        } else if i + 1 < src.len() && is_digit_x(src[i + 1]) {
            scan_number_x(src, i, i + 1)
        } else {
            (Token::new(TokenKind::Minus, sub_bytes(src, i, i + 1)), i + 1)
        }
    } else if c == 34 {
        proof {
            lemma_str_close_bounds(src@, i as nat + 1);
        }
        let cl = str_close_x(src, i + 1);
        if cl < src.len() {
            (Token::new(TokenKind::Str, sub_bytes(src, i + 1, cl)), cl + 1)
        } else {
            (Token::new(TokenKind::Illegal, sub_bytes(src, i, src.len())), src.len())
        }
    } else {
        let two = i + 1 < src.len();
        let d = if two {
            src[i + 1]
        } else {
            0
        };
        let (k, w): (TokenKind, usize) = if c == 61 {
            if two && d == 61 {
                (TokenKind::EqualTo, 2)
            } else {
                (TokenKind::Assignment, 1)
            }
        } else if c == 33 {
            if two && d == 61 {
                (TokenKind::NotEqualTo, 2)
            } else {
                (TokenKind::Not, 1)
            }
        } else if c == 60 {
            if two && d == 61 {
                (TokenKind::LessEq, 2)
            } else {
                (TokenKind::Less, 1)
            }
        } else if c == 62 {
            if two && d == 61 {
                (TokenKind::GreaterEq, 2)
            } else {
                (TokenKind::Greater, 1)
            }
        } else if c == 38 {
            if two && d == 38 {
                (TokenKind::And, 2)
            } else {
                (TokenKind::BitAnd, 1)
            }
        } else if c == 124 {
            if two && d == 124 {
                (TokenKind::Or, 2)
            } else {
                (TokenKind::BitOr, 1)
            }
        } else if c == 43 {
            if two && d == 61 {
                (TokenKind::PlusAssign, 2)
            } else {
                (TokenKind::Plus, 1)
            }
        } else if c == 42 {
            if two && d == 61 {
                (TokenKind::AsteriskAssign, 2)
            } else {
                (TokenKind::Asterisk, 1)
            }
        } else if c == 47 {
            if two && d == 61 {
                (TokenKind::SlashAssign, 2)
            } else {
                (TokenKind::Slash, 1)
            }
        } else if c == 40 {
            (TokenKind::LeftParen, 1)
        } else if c == 41 {
            (TokenKind::RightParen, 1)
        } else if c == 123 {
            (TokenKind::LeftBrace, 1)
        } else if c == 125 {
            (TokenKind::RightBrace, 1)
        } else if c == 44 {
            (TokenKind::Comma, 1)
        } else if c == 59 {
            (TokenKind::Semicolon, 1)
        } else {
            (TokenKind::Illegal, 1)
        };
        (Token::new(k, sub_bytes(src, i, i + w)), i + w)
    }
}

/// The lexer holds the source bytes; scanning starts from the beginning.
pub struct Lexer {
    src: Vec<u8>,
}

impl View for Lexer {
    type V = Seq<u8>;

    closed spec fn view(&self) -> Seq<u8> {
        self.src@
    }
}

impl Lexer {
    pub fn new(source: &[u8]) -> (l: Lexer)
        ensures
            l@ == source@,
    {
        Lexer { src: sub_bytes(source, 0, source.len()) }
    }

    /// A fresh forward pass over the tokens, starting at the beginning.
    pub fn tokens_iter(&self) -> (it: TokenIter)
        ensures
            it.src_view() == self@,
            it.cursor() == 0,
            it.wf(),
    {
        TokenIter { src: sub_bytes(self.src.as_slice(), 0, self.src.len()), pos: 0 }
    }
}

/// A lazy, single-forward-pass token stream; it is not rewindable, and once
/// the end of input is reached it keeps yielding end-of-input tokens.
pub struct TokenIter {
    src: Vec<u8>,
    pos: usize,
}

impl TokenIter {
    pub closed spec fn src_view(&self) -> Seq<u8> {
        self.src@
    }

    pub closed spec fn cursor(&self) -> nat {
        self.pos as nat
    }

    pub open spec fn wf(&self) -> bool {
        self.cursor() <= self.src_view().len()
    }

    /// Yields the next token of the stream.
    pub fn next(&mut self) -> (t: Token)
        requires
            old(self).wf(),
        ensures
            final(self).wf(),
            final(self).src_view() == old(self).src_view(),
            ({
                let st = next_token_s(old(self).src_view(), old(self).cursor());
                t@.kind == st.kind && t@.lit == st.lit && final(self).cursor() == st.end
            }),
    {
        let (t, end) = scan_token(self.src.as_slice(), self.pos);
        self.pos = end;
        t
    }
}

/// Scans the whole source into a token vector that mirrors the token stream:
/// every token the scanner finds, in order, ending with end-of-input.
pub fn lex_all(src: &[u8]) -> (toks: Vec<Token>)
    ensures
        toks@.map_values(|t: Token| t@) == tokens_from(src@, 0),
        toks@.len() >= 1,
{
    let mut toks: Vec<Token> = Vec::new();
    let mut pos: usize = 0;
    loop
        invariant
            pos <= src.len(),
            tokens_from(src@, 0) == toks@.map_values(|t: Token| t@) + tokens_from(
                src@,
                pos as nat,
            ),
        decreases src.len() - pos,
    {
        let (t, end) = scan_token(src, pos);
        let ghost st = next_token_s(src@, pos as nat);
        let ghost pre = toks@;
        let eof = matches!(t.kind(), TokenKind::Eof);
        toks.push(t);
        proof {
            assert(toks@.map_values(|t: Token| t@) =~= pre.map_values(|t: Token| t@)
                + seq![STok { kind: st.kind, lit: st.lit }]);
        }
        if eof {
            proof {
                assert(tokens_from(src@, pos as nat) =~= seq![
                    STok { kind: st.kind, lit: st.lit },
                ]);
                assert(tokens_from(src@, 0) =~= toks@.map_values(|t: Token| t@));
            }
            return toks;
        }
        proof {
            assert(tokens_from(src@, pos as nat) =~= seq![STok { kind: st.kind, lit: st.lit }]
                + tokens_from(src@, st.end));
            assert(tokens_from(src@, 0) =~= toks@.map_values(|t: Token| t@) + tokens_from(
                src@,
                st.end,
            ));
        }
        pos = end;
    }
}

} // verus!
