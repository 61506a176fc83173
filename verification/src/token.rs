//! The token model: the closed set of lexical outputs and its
//! mathematical view.
//!
//! An executable [`Token`] carries its payload as plain bytes; its view
//! is a [`TokenModel`], the same variants over `Seq<u8>` / `Seq<char>`.
//! Contracts throughout the crate speak of `TokenModel` values.

use vstd::prelude::*;

verus! {

/// One classified unit of lexical output.
///
/// `String`, `Number` and `InvalidJSON` carry raw bytes exactly as they
/// were pulled from the source: string escapes are preserved undecoded,
/// number spans are not parsed, and a malformed token keeps whatever
/// partial bytes were consumed before the mismatch was detected.
/// `IOError` reports a failure of the underlying source and terminates
/// the token sequence.
#[derive(Debug)]
pub enum Token {
    String(Vec<u8>),
    Number(Vec<u8>),
    Bool(bool),
    Null,
    ObjectStart,
    ObjectEnd,
    ArrayStart,
    ArrayEnd,
    Colon,
    Comma,
    InvalidJSON(Vec<u8>),
    IOError(String),
}

/// The mathematical form of a token: the same variants with sequence
/// payloads.
pub enum TokenModel {
    Str(Seq<u8>),
    Num(Seq<u8>),
    Bool(bool),
    Null,
    ObjectStart,
    ObjectEnd,
    ArrayStart,
    ArrayEnd,
    Colon,
    Comma,
    Invalid(Seq<u8>),
    Fail(Seq<char>),
}

impl View for Token {
    type V = TokenModel;

    open spec fn view(&self) -> TokenModel {
        match self {
            Token::String(b) => TokenModel::Str(b@),
            Token::Number(b) => TokenModel::Num(b@),
            Token::Bool(v) => TokenModel::Bool(*v),
            Token::Null => TokenModel::Null,
            Token::ObjectStart => TokenModel::ObjectStart,
            Token::ObjectEnd => TokenModel::ObjectEnd,
            Token::ArrayStart => TokenModel::ArrayStart,
            Token::ArrayEnd => TokenModel::ArrayEnd,
            Token::Colon => TokenModel::Colon,
            Token::Comma => TokenModel::Comma,
            Token::InvalidJSON(b) => TokenModel::Invalid(b@),
            Token::IOError(m) => TokenModel::Fail(m@),
        }
    }
}

/// The view of an optional token, `None` meaning "sequence exhausted".
pub open spec fn opt_token_model(t: Option<Token>) -> Option<TokenModel> {
    match t {
        Some(tok) => Some(tok@),
        None => None,
    }
}

/// Byte-for-byte equality of two byte vectors.
fn bytes_eq(a: &Vec<u8>, b: &Vec<u8>) -> (r: bool)
    ensures
        r == (a@ == b@),
{
    if a.len() != b.len() {
        assert(a@ != b@) by {
            assert(a@.len() != b@.len());
        }
        return false;
    }
    let n = a.len();
    let mut i: usize = 0;
    while i < n
        invariant
            n == a@.len() == b@.len(),
            i <= n,
            forall|j: int| 0 <= j < i ==> a@[j] == b@[j],
        decreases n - i,
    {
        if a[i] != b[i] {
            return false;
        }
        i += 1;
    }
    proof {
        assert(a@ =~= b@);
    }
    true
}

/// Equality of two tokens: same variant, equal payloads.
fn token_eq(x: &Token, y: &Token) -> (r: bool)
    ensures
        r == (x@ == y@),
{
    match (x, y) {
        (Token::String(a), Token::String(b)) => bytes_eq(a, b),
        (Token::Number(a), Token::Number(b)) => bytes_eq(a, b),
        (Token::Bool(a), Token::Bool(b)) => *a == *b,
        (Token::Null, Token::Null) => true,
        (Token::ObjectStart, Token::ObjectStart) => true,
        (Token::ObjectEnd, Token::ObjectEnd) => true,
        (Token::ArrayStart, Token::ArrayStart) => true,
        (Token::ArrayEnd, Token::ArrayEnd) => true,
        (Token::Colon, Token::Colon) => true,
        (Token::Comma, Token::Comma) => true,
        (Token::InvalidJSON(a), Token::InvalidJSON(b)) => bytes_eq(a, b),
        (Token::IOError(a), Token::IOError(b)) => a.eq(b),
        _ => {
            assert(x@ != y@);
            false
        },
    }
}

impl PartialEq for Token {
    fn eq(&self, other: &Token) -> (r: bool) {
        token_eq(self, other)
    }
}

impl vstd::std_specs::cmp::PartialEqSpecImpl for Token {
    open spec fn obeys_eq_spec() -> bool {
        true
    }

    open spec fn eq_spec(&self, other: &Token) -> bool {
        self@ == other@
    }
}

} // verus!
