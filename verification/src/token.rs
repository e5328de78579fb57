//! Lexical categories and the token type produced by the lexer.

use vstd::prelude::*;

verus! {

/// The closed set of lexical categories.
#[derive(Clone, Copy, PartialEq, Eq, Structural, Debug)]
pub enum TokenKind {
    /// End of input; the only token whose literal is empty.
    Eof,
    /// A byte that matches no scanning rule, or an unterminated string.
    Illegal,
    Ident,
    IntegerNum,
    FloatNum,
    /// A string literal; the literal holds the bytes between the quotes.
    Str,
    True,
    False,
    Let,
    Return,
    If,
    Else,
    For,
    Func,
    Assignment,
    Plus,
    Minus,
    Asterisk,
    Slash,
    Not,
    Greater,
    Less,
    GreaterEq,
    LessEq,
    EqualTo,
    NotEqualTo,
    And,
    Or,
    BitAnd,
    BitOr,
    PlusAssign,
    MinusAssign,
    AsteriskAssign,
    SlashAssign,
    LeftParen,
    RightParen,
    LeftBrace,
    RightBrace,
    Comma,
    Semicolon,
}

/// The smallest lexical unit: a category together with the literal text,
/// kept verbatim as the bytes that were scanned.
pub struct Token {
    pub kind: TokenKind,
    pub literal: Vec<u8>,
}

/// The mathematical image of a token: its kind and literal bytes.
pub struct STok {
    pub kind: TokenKind,
    pub lit: Seq<u8>,
}

impl View for Token {
    type V = STok;

    open spec fn view(&self) -> STok {
        STok { kind: self.kind, lit: self.literal@ }
    }
}

impl Token {
    pub fn new(kind: TokenKind, literal: Vec<u8>) -> (t: Token)
        ensures
            t@.kind == kind,
            t@.lit == literal@,
    {
        Token { kind, literal }
    }

    pub fn kind(&self) -> (k: TokenKind)
        ensures
            k == self@.kind,
    {
        self.kind
    }

    pub fn literal(&self) -> (l: &Vec<u8>)
        ensures
            l@ == self@.lit,
    {
        &self.literal
    }

    pub fn dup(&self) -> (t: Token)
        ensures
            t@ == self@,
    {
        Token { kind: self.kind, literal: dup_bytes(&self.literal) }
    }
}

/// Copies a byte vector; the copy views equal to the original.
pub fn dup_bytes(v: &Vec<u8>) -> (r: Vec<u8>)
    ensures
        r@ == v@,
{
    let mut r: Vec<u8> = Vec::new();
    let mut i: usize = 0;
    while i < v.len()
        invariant
            i <= v.len(),
            r@ == v@.subrange(0, i as int),
        decreases v.len() - i,
    {
        r.push(v[i]);
        i += 1;
        proof {
            assert(r@ =~= v@.subrange(0, i as int));
        }
    }
    proof {
        assert(r@ =~= v@);
    }
    r
}

/// What keyword table lookup yields for an identifier's literal: the keyword's
/// kind on an exact match, `Ident` otherwise.
pub open spec fn kw_kind(l: Seq<u8>) -> TokenKind {
    if l == seq![105u8, 102u8] {
        TokenKind::If
    } else if l == seq![108u8, 101u8, 116u8] {
        TokenKind::Let
    } else if l == seq![102u8, 111u8, 114u8] {
        TokenKind::For
    } else if l == seq![101u8, 108u8, 115u8, 101u8] {
        TokenKind::Else
    } else if l == seq![116u8, 114u8, 117u8, 101u8] {
        TokenKind::True
    } else if l == seq![102u8, 117u8, 110u8, 99u8] {
        TokenKind::Func
    } else if l == seq![102u8, 97u8, 108u8, 115u8, 101u8] {
        TokenKind::False
    } else if l == seq![114u8, 101u8, 116u8, 117u8, 114u8, 110u8] {
        TokenKind::Return
    } else {
        TokenKind::Ident
    }
}

/// Compares two byte slices for element-wise equality.
pub fn bytes_eq(a: &[u8], b: &[u8]) -> (r: bool)
    ensures
        r == (a@ == b@),
{
    if a.len() != b.len() {
        proof {
            assert(a@.len() != b@.len());
        }
        return false;
    }
    let mut i: usize = 0;
    while i < a.len()
        invariant
            i <= a.len(),
            a@.len() == b@.len(),
            forall|j: int| 0 <= j < i ==> a@[j] == b@[j],
        decreases a.len() - i,
    {
        if a[i] != b[i] {
            proof {
                assert(a@ != b@);
            }
            return false;
        }
        i += 1;
    }
    proof {
        assert(a@ =~= b@);
    }
    true
}

/// Looks a scanned identifier up in the keyword table.
pub fn kw_lookup(lit: &[u8]) -> (k: TokenKind)
    ensures
        k == kw_kind(lit@),
{
    proof {
        assert(seq![105u8, 102u8] =~= [105u8, 102u8]@);
        assert(seq![108u8, 101u8, 116u8] =~= [108u8, 101u8, 116u8]@);
        assert(seq![102u8, 111u8, 114u8] =~= [102u8, 111u8, 114u8]@);
        assert(seq![101u8, 108u8, 115u8, 101u8] =~= [101u8, 108u8, 115u8, 101u8]@);
        assert(seq![116u8, 114u8, 117u8, 101u8] =~= [116u8, 114u8, 117u8, 101u8]@);
        assert(seq![102u8, 117u8, 110u8, 99u8] =~= [102u8, 117u8, 110u8, 99u8]@);
        assert(seq![102u8, 97u8, 108u8, 115u8, 101u8] =~= [102u8, 97u8, 108u8, 115u8, 101u8]@);
        assert(seq![114u8, 101u8, 116u8, 117u8, 114u8, 110u8] =~= [114u8, 101u8, 116u8, 117u8, 114u8, 110u8]@);
    }
    if bytes_eq(lit, &[105u8, 102u8]) {
        TokenKind::If
    } else if bytes_eq(lit, &[108u8, 101u8, 116u8]) {
        TokenKind::Let
    } else if bytes_eq(lit, &[102u8, 111u8, 114u8]) {
        TokenKind::For
    } else if bytes_eq(lit, &[101u8, 108u8, 115u8, 101u8]) {
        TokenKind::Else
    } else if bytes_eq(lit, &[116u8, 114u8, 117u8, 101u8]) {
        TokenKind::True
    } else if bytes_eq(lit, &[102u8, 117u8, 110u8, 99u8]) {
        TokenKind::Func
    } else if bytes_eq(lit, &[102u8, 97u8, 108u8, 115u8, 101u8]) {
        TokenKind::False
    } else if bytes_eq(lit, &[114u8, 101u8, 116u8, 117u8, 114u8, 110u8]) {
        TokenKind::Return
    } else {
        TokenKind::Ident
    }
}

} // verus!
