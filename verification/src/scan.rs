//! The mathematical model of the scanner.
//!
//! [`next_spec`] says, as a total function, what one "produce next
//! token" call yields and how it changes the scanner's state, for every
//! state; [`tokens_from`] iterates it to the full token sequence.  The
//! executable scanner in [`crate::document`] is proved to follow
//! [`next_spec`] exactly.
//!
//! One call works on a [`DocModel`]: the unread bytes, the stream's
//! terminal event, the one-slot pending token, and whether a read
//! failure has already been reported.  The call drains the pending slot
//! if it holds a token; otherwise it skips whitespace, classifies the
//! first significant byte, and runs the matching sub-scan:
//! [`string_step`], [`literal_step`] or [`number_step`], each a
//! function of the bytes after the dispatch byte and the terminal
//! event.

use vstd::prelude::*;

use crate::source::Term;
use crate::token::TokenModel;

verus! {

/// The bytes the scanner classifies, named for readability.
pub const LBRACE: u8 = 0x7b;

pub const RBRACE: u8 = 0x7d;

pub const LBRACKET: u8 = 0x5b;

pub const RBRACKET: u8 = 0x5d;

pub const COMMA: u8 = 0x2c;

pub const COLON: u8 = 0x3a;

pub const QUOTE: u8 = 0x22;

pub const BACKSLASH: u8 = 0x5c;

pub const LETTER_T: u8 = 0x74;

pub const LETTER_R: u8 = 0x72;

pub const LETTER_U: u8 = 0x75;

pub const LETTER_E: u8 = 0x65;

pub const LETTER_F: u8 = 0x66;

pub const LETTER_A: u8 = 0x61;

pub const LETTER_L: u8 = 0x6c;

pub const LETTER_S: u8 = 0x73;

pub const LETTER_N: u8 = 0x6e;

pub const DIGIT_0: u8 = 0x30;

pub const DIGIT_9: u8 = 0x39;

pub const MINUS: u8 = 0x2d;

pub const PLUS: u8 = 0x2b;

pub const DOT: u8 = 0x2e;

pub const UPPER_E: u8 = 0x45;


/// ASCII whitespace skipped between tokens: space, tab, newline,
/// carriage return.
pub open spec fn is_ws(b: u8) -> bool {
    b == 0x20 || b == 0x09 || b == 0x0a || b == 0x0d
}

/// The six structural punctuation bytes, each a one-byte token.
pub open spec fn is_structural(b: u8) -> bool {
    b == LBRACE || b == RBRACE || b == LBRACKET || b == RBRACKET || b == COMMA || b == COLON
}

/// The token a structural byte stands for.
pub open spec fn structural_token(b: u8) -> TokenModel
    recommends
        is_structural(b),
{
    if b == LBRACE {
        TokenModel::ObjectStart
    } else if b == RBRACE {
        TokenModel::ObjectEnd
    } else if b == LBRACKET {
        TokenModel::ArrayStart
    } else if b == RBRACKET {
        TokenModel::ArrayEnd
    } else if b == COMMA {
        TokenModel::Comma
    } else {
        TokenModel::Colon
    }
}

/// The structural bytes that validly end a literal or a number and are
/// replayed, through the pending slot, as the next token.
pub open spec fn is_buffered_terminator(b: u8) -> bool {
    b == LBRACE || b == RBRACE || b == RBRACKET || b == COMMA
}

/// The alphabet of a number span: ASCII digits, signs, decimal point
/// and exponent letters.  No grammar is checked at this layer.
pub open spec fn is_number_byte(b: u8) -> bool {
    (DIGIT_0 <= b && b <= DIGIT_9) || b == MINUS || b == PLUS || b == DOT || b == UPPER_E || b == LETTER_E
}

/// The state one "produce next token" call works on: the unread bytes,
/// the terminal event after them, the pending slot, and whether a read
/// failure has been reported.
#[verifier::ext_equal]
pub struct DocModel {
    pub rest: Seq<u8>,
    pub term: Term,
    pub pending: Option<TokenModel>,
    pub failed: bool,
}

/// What one call yields, and the state it leaves.
#[verifier::ext_equal]
pub struct StepModel {
    pub tok: Option<TokenModel>,
    pub post: DocModel,
}

/// The outcome of one sub-scan: the token it produced, how many bytes
/// it consumed beyond the dispatch byte, what it left in the pending
/// slot, and whether it hit a read failure.
#[verifier::ext_equal]
pub struct ScanResult {
    pub tok: TokenModel,
    pub used: int,
    pub pending: Option<TokenModel>,
    pub failed: bool,
}

/// A state the scanner can actually reach: after a reported failure
/// nothing is pending, and only the four buffered terminators are ever
/// pending.
pub open spec fn model_wf(d: DocModel) -> bool {
    &&& d.failed ==> d.pending is None
    &&& match d.pending {
        Some(t) => t is ObjectStart || t is ObjectEnd || t is ArrayEnd || t is Comma,
        None => true,
    }
}

/// The length of the whitespace prefix of `s`.
pub open spec fn ws_run(s: Seq<u8>) -> int
    decreases s.len(),
{
    if s.len() == 0 || !is_ws(s[0]) {
        0
    } else {
        1 + ws_run(s.skip(1))
    }
}

/// Scanning a string body from escape state `esc`: `Some((body, used))`
/// when an unescaped closing quote is found after consuming `used`
/// bytes, of which all but the quote form `body`; `None` when the bytes
/// run out first.  The escape state toggles on a backslash and resets
/// on every other byte, so an even run of backslashes leaves a
/// following quote unescaped and an odd run escapes it.
pub open spec fn scan_string(s: Seq<u8>, esc: bool) -> Option<(Seq<u8>, int)>
    decreases s.len(),
{
    if s.len() == 0 {
        None
    } else if s[0] == QUOTE && !esc {
        Some((Seq::empty(), 1))
    } else {
        let esc2 = if s[0] == BACKSLASH {
            !esc
        } else {
            false
        };
        match scan_string(s.skip(1), esc2) {
            Some(r) => Some((seq![s[0]] + r.0, 1 + r.1)),
            None => None,
        }
    }
}

/// Position-by-position match of `s` against the keyword bytes `kw`.
pub enum KeyScan {
    /// `kw` is a prefix of `s`; `kw.len()` bytes consumed.
    Matched,
    /// The first `used - 1` bytes matched and byte `used - 1` did not;
    /// `used` bytes consumed.
    Mismatch { used: int },
    /// `s` ran out while still matching; all of `s` consumed.
    OffEnd,
}

/// Match `s` against `kw` byte by byte.
pub open spec fn scan_keyword(s: Seq<u8>, kw: Seq<u8>) -> KeyScan
    decreases kw.len(),
{
    if kw.len() == 0 {
        KeyScan::Matched
    } else if s.len() == 0 {
        KeyScan::OffEnd
    } else if s[0] == kw[0] {
        match scan_keyword(s.skip(1), kw.skip(1)) {
            KeyScan::Matched => KeyScan::Matched,
            KeyScan::Mismatch { used } => KeyScan::Mismatch { used: 1 + used },
            KeyScan::OffEnd => KeyScan::OffEnd,
        }
    } else {
        KeyScan::Mismatch { used: 1 }
    }
}

/// The length of the prefix of `s` drawn from the number alphabet.
pub open spec fn number_run(s: Seq<u8>) -> int
    decreases s.len(),
{
    if s.len() == 0 || !is_number_byte(s[0]) {
        0
    } else {
        1 + number_run(s.skip(1))
    }
}

/// The string sub-scan, entered after an opening quote: the body up to
/// an unescaped closing quote, or `InvalidJSON` with the partial body
/// when the input ends first, or the read failure.
pub open spec fn string_step(s: Seq<u8>, term: Term) -> ScanResult {
    match scan_string(s, false) {
        Some(r) => ScanResult { tok: TokenModel::Str(r.0), used: r.1, pending: None, failed: false },
        None => match term {
            Term::End => ScanResult {
                tok: TokenModel::Invalid(s),
                used: s.len() as int,
                pending: None,
                failed: false,
            },
            Term::Fail(m) => ScanResult {
                tok: TokenModel::Fail(m),
                used: s.len() as int,
                pending: None,
                failed: true,
            },
        },
    }
}

/// The terminator check after a fully matched keyword `word`: end of
/// input and whitespace accept the literal, a buffered terminator
/// accepts it and goes to the pending slot, and any other byte makes
/// the word `InvalidJSON`.
pub open spec fn literal_end(
    word: Seq<u8>,
    good: TokenModel,
    used: int,
    s2: Seq<u8>,
    term: Term,
) -> ScanResult {
    if s2.len() == 0 {
        match term {
            Term::End => ScanResult { tok: good, used, pending: None, failed: false },
            Term::Fail(m) => ScanResult {
                tok: TokenModel::Fail(m),
                used,
                pending: None,
                failed: true,
            },
        }
    } else {
        let c = s2[0];
        if is_ws(c) {
            ScanResult { tok: good, used: used + 1, pending: None, failed: false }
        } else if is_buffered_terminator(c) {
            ScanResult {
                tok: good,
                used: used + 1,
                pending: Some(structural_token(c)),
                failed: false,
            }
        } else {
            ScanResult { tok: TokenModel::Invalid(word), used: used + 1, pending: None, failed: false }
        }
    }
}

/// The literal sub-scan, entered after the first keyword byte `first`:
/// match the remaining keyword bytes `kw`, then check the terminator.
/// A mismatch or end of input mid-keyword yields `InvalidJSON` with the
/// bytes consumed, the mismatching byte included.
pub open spec fn literal_step(
    first: u8,
    kw: Seq<u8>,
    good: TokenModel,
    s: Seq<u8>,
    term: Term,
) -> ScanResult {
    match scan_keyword(s, kw) {
        KeyScan::Matched => literal_end(
            seq![first] + kw,
            good,
            kw.len() as int,
            s.skip(kw.len() as int),
            term,
        ),
        KeyScan::Mismatch { used } => ScanResult {
            tok: TokenModel::Invalid(seq![first] + s.take(used)),
            used,
            pending: None,
            failed: false,
        },
        KeyScan::OffEnd => match term {
            Term::End => ScanResult {
                tok: TokenModel::Invalid(seq![first] + s),
                used: s.len() as int,
                pending: None,
                failed: false,
            },
            Term::Fail(m) => ScanResult {
                tok: TokenModel::Fail(m),
                used: s.len() as int,
                pending: None,
                failed: true,
            },
        },
    }
}

/// The number sub-scan, entered after a first number-alphabet byte
/// `first`: greedily take the run of number-alphabet bytes.  End of
/// input accepts the span; a buffered terminator accepts it and goes to
/// the pending slot; any other byte — whitespace or not — ends the span
/// and is consumed and discarded.
pub open spec fn number_step(first: u8, s: Seq<u8>, term: Term) -> ScanResult {
    let n = number_run(s);
    let span = seq![first] + s.take(n);
    let s2 = s.skip(n);
    if s2.len() == 0 {
        match term {
            Term::End => ScanResult { tok: TokenModel::Num(span), used: n, pending: None, failed: false },
            Term::Fail(m) => ScanResult {
                tok: TokenModel::Fail(m),
                used: n,
                pending: None,
                failed: true,
            },
        }
    } else if is_buffered_terminator(s2[0]) {
        ScanResult {
            tok: TokenModel::Num(span),
            used: n + 1,
            pending: Some(structural_token(s2[0])),
            failed: false,
        }
    } else {
        ScanResult { tok: TokenModel::Num(span), used: n + 1, pending: None, failed: false }
    }
}

/// Classify the first significant byte `c` and run its sub-scan over
/// the bytes `s` after it.  An unrecognized byte is discarded and
/// yields `InvalidJSON` with an empty payload.
pub open spec fn dispatch_step(c: u8, s: Seq<u8>, term: Term) -> ScanResult {
    if is_structural(c) {
        ScanResult { tok: structural_token(c), used: 0, pending: None, failed: false }
    } else if c == QUOTE {
        string_step(s, term)
    } else if c == LETTER_T {
        literal_step(c, seq![LETTER_R, LETTER_U, LETTER_E], TokenModel::Bool(true), s, term)
    } else if c == LETTER_F {
        literal_step(c, seq![LETTER_A, LETTER_L, LETTER_S, LETTER_E], TokenModel::Bool(false), s, term)
    } else if c == LETTER_N {
        literal_step(c, seq![LETTER_U, LETTER_L, LETTER_L], TokenModel::Null, s, term)
    } else if is_number_byte(c) {
        number_step(c, s, term)
    } else {
        ScanResult { tok: TokenModel::Invalid(Seq::empty()), used: 0, pending: None, failed: false }
    }
}

/// One "produce next token" call.  A pending token is replayed with no
/// read; after a reported failure nothing further is produced; end of
/// input after whitespace ends the sequence cleanly; a read failure is
/// reported once and marks the state failed.
pub open spec fn next_spec(d: DocModel) -> StepModel {
    if d.failed {
        StepModel { tok: None, post: d }
    } else if d.pending is Some {
        StepModel {
            tok: Some(d.pending->0),
            post: DocModel { rest: d.rest, term: d.term, pending: None, failed: false },
        }
    } else {
        let w = ws_run(d.rest);
        let s = d.rest.skip(w);
        if s.len() == 0 {
            match d.term {
                Term::End => StepModel {
                    tok: None,
                    post: DocModel { rest: s, term: d.term, pending: None, failed: false },
                },
                Term::Fail(m) => StepModel {
                    tok: Some(TokenModel::Fail(m)),
                    post: DocModel { rest: s, term: Term::End, pending: None, failed: true },
                },
            }
        } else {
            let r = dispatch_step(s[0], s.skip(1), d.term);
            StepModel {
                tok: Some(r.tok),
                post: DocModel {
                    rest: s.skip(1 + r.used),
                    term: if r.failed {
                        Term::End
                    } else {
                        d.term
                    },
                    pending: r.pending,
                    failed: r.failed,
                },
            }
        }
    }
}

/// The whitespace run never leaves `s`, covers only whitespace, and
/// stops at the first significant byte.
pub proof fn lemma_ws_run(s: Seq<u8>)
    ensures
        0 <= ws_run(s) <= s.len(),
        ws_run(s) < s.len() ==> !is_ws(s[ws_run(s)]),
        forall|i: int| 0 <= i < ws_run(s) ==> is_ws(s[i]),
    decreases s.len(),
{
    if s.len() != 0 && is_ws(s[0]) {
        lemma_ws_run(s.skip(1));
        assert forall|i: int| 0 <= i < ws_run(s) implies is_ws(s[i]) by {
            if i > 0 {
                assert(is_ws(s.skip(1)[i - 1]));
            }
        }
    }
}

/// A successful string scan consumes between one byte and all of `s`,
/// and its body is exactly the consumed bytes less the closing quote.
pub proof fn lemma_scan_string_shape(s: Seq<u8>, esc: bool)
    ensures
        match scan_string(s, esc) {
            Some(r) => 1 <= r.1 <= s.len() && r.0 == s.take(r.1 - 1),
            None => true,
        },
    decreases s.len(),
{
    if s.len() == 0 {
    } else if s[0] == QUOTE && !esc {
        assert(Seq::<u8>::empty() =~= s.take(0));
    } else {
        let esc2 = if s[0] == BACKSLASH {
            !esc
        } else {
            false
        };
        lemma_scan_string_shape(s.skip(1), esc2);
        match scan_string(s.skip(1), esc2) {
            Some(r) => {
                assert(seq![s[0]] + s.skip(1).take(r.1 - 1) =~= s.take(1 + r.1 - 1));
            },
            None => {},
        }
    }
}

/// What each keyword-scan outcome says of `s` against `kw`.
pub proof fn lemma_scan_keyword_shape(s: Seq<u8>, kw: Seq<u8>)
    ensures
        match scan_keyword(s, kw) {
            KeyScan::Matched => kw.len() <= s.len() && s.take(kw.len() as int) == kw,
            KeyScan::Mismatch { used } => 1 <= used <= s.len() && used <= kw.len(),
            KeyScan::OffEnd => s.len() < kw.len(),
        },
    decreases kw.len(),
{
    if kw.len() == 0 {
        assert(s.take(0) =~= kw);
    } else if s.len() == 0 {
    } else if s[0] == kw[0] {
        lemma_scan_keyword_shape(s.skip(1), kw.skip(1));
        match scan_keyword(s.skip(1), kw.skip(1)) {
            KeyScan::Matched => {
                assert forall|i: int| 0 <= i < kw.len() implies s.take(kw.len() as int)[i]
                    == kw[i] by {
                    if i > 0 {
                        assert(s.skip(1).take(kw.len() - 1)[i - 1] == kw.skip(1)[i - 1]);
                    }
                }
                assert(s.take(kw.len() as int) =~= kw);
            },
            KeyScan::Mismatch { used } => {},
            KeyScan::OffEnd => {},
        }
    }
}

/// The number run never leaves `s`, covers only number-alphabet bytes,
/// and stops at the first byte outside the alphabet.
pub proof fn lemma_number_run(s: Seq<u8>)
    ensures
        0 <= number_run(s) <= s.len(),
        number_run(s) < s.len() ==> !is_number_byte(s[number_run(s)]),
        forall|i: int| 0 <= i < number_run(s) ==> is_number_byte(s[i]),
    decreases s.len(),
{
    if s.len() != 0 && is_number_byte(s[0]) {
        lemma_number_run(s.skip(1));
        assert forall|i: int| 0 <= i < number_run(s) implies is_number_byte(s[i]) by {
            if i > 0 {
                assert(is_number_byte(s.skip(1)[i - 1]));
            }
        }
    }
}

/// Every sub-scan consumes no more than the bytes it was given, and a
/// sub-scan that hits the read failure consumes them all.
pub proof fn lemma_dispatch_bounds(c: u8, s: Seq<u8>, term: Term)
    ensures
        0 <= dispatch_step(c, s, term).used <= s.len(),
        dispatch_step(c, s, term).failed ==> dispatch_step(c, s, term).used == s.len(),
{
    lemma_scan_string_shape(s, false);
    lemma_scan_keyword_shape(s, seq![LETTER_R, LETTER_U, LETTER_E]);
    lemma_scan_keyword_shape(s, seq![LETTER_A, LETTER_L, LETTER_S, LETTER_E]);
    lemma_scan_keyword_shape(s, seq![LETTER_U, LETTER_L, LETTER_L]);
    lemma_number_run(s);
}

/// One step never grows the unread bytes, keeps the state well formed,
/// and whenever it yields a token it strictly shrinks the measure that
/// [`tokens_from`] descends on.
pub proof fn lemma_next_spec_shape(d: DocModel)
    requires
        model_wf(d),
    ensures
        model_wf(next_spec(d).post),
        next_spec(d).post.rest.len() <= d.rest.len(),
        next_spec(d).tok is Some ==> {
            let p = next_spec(d).post;
            ||| p.rest.len() < d.rest.len()
            ||| (p.rest.len() == d.rest.len() && d.pending is Some && p.pending is None)
            ||| (p.rest.len() == d.rest.len() && p.pending == d.pending && !d.failed && p.failed)
        },
{
    if d.failed {
    } else if d.pending is Some {
    } else {
        lemma_ws_run(d.rest);
        let w = ws_run(d.rest);
        let s = d.rest.skip(w);
        if s.len() == 0 {
        } else {
            lemma_dispatch_bounds(s[0], s.skip(1), d.term);
            let r = dispatch_step(s[0], s.skip(1), d.term);
            assert(s.skip(1 + r.used).len() == d.rest.len() - w - 1 - r.used);
        }
    }
}

/// The token sequence the scanner produces from state `d`: iterate
/// [`next_spec`] until it yields nothing.
pub open spec fn tokens_from(d: DocModel) -> Seq<TokenModel>
    decreases
            d.rest.len(),
            (if d.pending is Some {
                1int
            } else {
                0int
            }),
            (if d.failed {
                0int
            } else {
                1int
            }),
        when model_wf(d)
        via tokens_from_decreases
{
    let step = next_spec(d);
    match step.tok {
        None => Seq::<TokenModel>::empty(),
        Some(t) => seq![t] + tokens_from(step.post),
    }
}

#[via_fn]
proof fn tokens_from_decreases(d: DocModel) {
    lemma_next_spec_shape(d);
}

} // verus!
