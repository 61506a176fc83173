//! The executable scanner.
//!
//! A [`Document`] owns a [`Source`], a one-slot pending token, and the
//! flag that records a reported read failure.  Its [`Document::next`]
//! produces one token per call and is proved to follow
//! [`crate::scan::next_spec`] exactly: the returned token and the new
//! state are the ones the model gives for the old state.

use vstd::prelude::*;

use crate::buffer::{buf_bytes, buf_new, buf_push, buf_take};
use crate::scan::{
    dispatch_step, is_buffered_terminator, is_number_byte, is_structural, is_ws,
    lemma_dispatch_bounds, lemma_next_spec_shape, lemma_scan_keyword_shape, literal_step,
    model_wf, next_spec, number_run, number_step, scan_keyword, scan_string, string_step,
    structural_token, tokens_from, ws_run, DocModel, KeyScan, BACKSLASH, COLON, COMMA, DIGIT_0, DIGIT_9, DOT, LBRACE, LBRACKET,
    LETTER_A, LETTER_E, LETTER_F, LETTER_L, LETTER_N, LETTER_R, LETTER_S, LETTER_T, LETTER_U,
    MINUS, PLUS, QUOTE, RBRACE, RBRACKET, UPPER_E,
};
use crate::source::{ReadEvent, Source, Term};
use crate::token::{opt_token_model, Token, TokenModel};

verus! {

/// Whether `b` is whitespace the scanner skips.
fn ws_byte(b: u8) -> (r: bool)
    ensures
        r == is_ws(b),
{
    b == 0x20 || b == 0x09 || b == 0x0a || b == 0x0d
}

/// Whether `b` is one of the six structural punctuation bytes.
fn structural_byte(b: u8) -> (r: bool)
    ensures
        r == is_structural(b),
{
    b == LBRACE || b == RBRACE || b == LBRACKET || b == RBRACKET || b == COMMA || b == COLON
}

/// Whether `b` is a structural byte that ends a literal or number and
/// is replayed through the pending slot.
fn buffered_terminator_byte(b: u8) -> (r: bool)
    ensures
        r == is_buffered_terminator(b),
{
    b == LBRACE || b == RBRACE || b == RBRACKET || b == COMMA
}

/// Whether `b` belongs to the number alphabet.
fn number_byte(b: u8) -> (r: bool)
    ensures
        r == is_number_byte(b),
{
    (DIGIT_0 <= b && b <= DIGIT_9) || b == MINUS || b == PLUS || b == DOT || b == UPPER_E
        || b == LETTER_E
}

/// The one-byte token a structural byte stands for.
fn structural_token_of(b: u8) -> (t: Token)
    requires
        is_structural(b),
    ensures
        t@ == structural_token(b),
{
    if b == LBRACE {
        Token::ObjectStart
    } else if b == RBRACE {
        Token::ObjectEnd
    } else if b == LBRACKET {
        Token::ArrayStart
    } else if b == RBRACKET {
        Token::ArrayEnd
    } else if b == COMMA {
        Token::Comma
    } else {
        Token::Colon
    }
}

/// The keyword bytes expected after a leading `t`.
fn kw_true_tail() -> (v: Vec<u8>)
    ensures
        v@ == seq![LETTER_R, LETTER_U, LETTER_E],
{
    let mut v: Vec<u8> = Vec::new();
    v.push(LETTER_R);
    v.push(LETTER_U);
    v.push(LETTER_E);
    proof {
        assert(v@ =~= seq![LETTER_R, LETTER_U, LETTER_E]);
    }
    v
}

/// The keyword bytes expected after a leading `f`.
fn kw_false_tail() -> (v: Vec<u8>)
    ensures
        v@ == seq![LETTER_A, LETTER_L, LETTER_S, LETTER_E],
{
    let mut v: Vec<u8> = Vec::new();
    v.push(LETTER_A);
    v.push(LETTER_L);
    v.push(LETTER_S);
    v.push(LETTER_E);
    proof {
        assert(v@ =~= seq![LETTER_A, LETTER_L, LETTER_S, LETTER_E]);
    }
    v
}

/// The keyword bytes expected after a leading `n`.
fn kw_null_tail() -> (v: Vec<u8>)
    ensures
        v@ == seq![LETTER_U, LETTER_L, LETTER_L],
{
    let mut v: Vec<u8> = Vec::new();
    v.push(LETTER_U);
    v.push(LETTER_L);
    v.push(LETTER_L);
    proof {
        assert(v@ =~= seq![LETTER_U, LETTER_L, LETTER_L]);
    }
    v
}

/// The streaming scanner: a pull-based producer of tokens over a
/// byte source.
pub struct Document {
    source: Source,
    pending: Option<Token>,
    failed: bool,
}

impl View for Document {
    type V = DocModel;

    closed spec fn view(&self) -> DocModel {
        DocModel {
            rest: self.source.stream().rest,
            term: self.source.stream().term,
            pending: opt_token_model(self.pending),
            failed: self.failed,
        }
    }
}

impl Document {
    /// The source is well formed and the scanner state is reachable.
    pub closed spec fn wf(&self) -> bool {
        &&& self.source.wf()
        &&& model_wf(self@)
    }

    /// A scanner over `source`, with nothing pending and nothing
    /// failed.
    pub fn new(source: Source) -> (d: Document)
        requires
            source.wf(),
        ensures
            d.wf(),
            d@ == (DocModel {
                rest: source.stream().rest,
                term: source.stream().term,
                pending: None,
                failed: false,
            }),
    {
        Document { source, pending: None, failed: false }
    }

    /// Read up to the first significant byte: whitespace is consumed
    /// and discarded, and the byte after it — or the terminal event
    /// that cut the whitespace short — is yielded.
    fn read_significant(&mut self) -> (r: ReadEvent)
        requires
            old(self).wf(),
            old(self)@.pending is None,
            !old(self)@.failed,
        ensures
            final(self).wf(),
            final(self)@.pending is None,
            !final(self)@.failed,
            ({
                let w = ws_run(old(self)@.rest);
                let s = old(self)@.rest.skip(w);
                match r {
                    ReadEvent::Byte(b) => {
                        &&& s.len() > 0
                        &&& b == s[0]
                        &&& !is_ws(b)
                        &&& final(self)@.rest == s.skip(1)
                        &&& final(self)@.term == old(self)@.term
                    },
                    ReadEvent::End => {
                        &&& s.len() == 0
                        &&& old(self)@.term is End
                        &&& final(self)@.rest == s
                        &&& final(self)@.term == old(self)@.term
                    },
                    ReadEvent::Failed(m) => {
                        &&& s.len() == 0
                        &&& old(self)@.term == Term::Fail(m@)
                        &&& final(self)@.rest == s
                        &&& final(self)@.term == Term::End
                    },
                }
            }),
    {
        let ghost orig = self@.rest;
        let ghost mut k: int = 0;
        loop
            invariant
                self.wf(),
                self@.pending is None,
                !self@.failed,
                self@.term == old(self)@.term,
                orig == old(self)@.rest,
                0 <= k <= orig.len(),
                self@.rest == orig.skip(k),
                ws_run(orig) == k + ws_run(self@.rest),
            decreases orig.len() - k,
        {
            match self.source.read() {
                ReadEvent::Byte(b) => {
                    proof {
                        assert(orig.skip(k).skip(1) =~= orig.skip(k + 1));
                    }
                    if !ws_byte(b) {
                        return ReadEvent::Byte(b);
                    }
                    proof {
                        k = k + 1;
                    }
                },
                ReadEvent::End => {
                    return ReadEvent::End;
                },
                ReadEvent::Failed(m) => {
                    return ReadEvent::Failed(m);
                },
            }
        }
    }

    /// The string sub-scan, entered after the opening quote was
    /// consumed.  Follows [`string_step`] on the state at entry.
    fn scan_string_tail(&mut self) -> (t: Token)
        requires
            old(self).wf(),
            old(self)@.pending is None,
            !old(self)@.failed,
        ensures
            final(self).wf(),
            ({
                let r = string_step(old(self)@.rest, old(self)@.term);
                &&& t@ == r.tok
                &&& final(self)@.rest == old(self)@.rest.skip(r.used)
                &&& final(self)@.term == (if r.failed {
                    Term::End
                } else {
                    old(self)@.term
                })
                &&& final(self)@.pending == r.pending
                &&& final(self)@.failed == r.failed
            }),
    {
        let ghost orig = self@.rest;
        proof {
            self.source.stream_fits();
        }
        let mut buf = buf_new();
        let mut esc = false;
        let ghost mut k: int = 0;
        loop
            invariant
                self.wf(),
                self@.pending is None,
                !self@.failed,
                self@.term == old(self)@.term,
                orig == old(self)@.rest,
                orig.len() < usize::MAX / 4,
                0 <= k <= orig.len(),
                self@.rest == orig.skip(k),
                buf_bytes(buf) == orig.take(k),
                match scan_string(orig.skip(k), esc) {
                    Some(r2) => scan_string(orig, false) == Some::<(Seq<u8>, int)>(
                        (orig.take(k) + r2.0, k + r2.1),
                    ),
                    None => scan_string(orig, false) is None,
                },
            decreases orig.len() - k,
        {
            let ghost cur = self@.rest;
            match self.source.read() {
                ReadEvent::Byte(b) => {
                    proof {
                        assert(cur.skip(1) =~= orig.skip(k + 1));
                    }
                    if b == QUOTE && !esc {
                        proof {
                            assert(scan_string(cur, esc) == Some::<(Seq<u8>, int)>(
                                (Seq::<u8>::empty(), 1int),
                            ));
                            assert(orig.take(k) + Seq::<u8>::empty() =~= orig.take(k));
                        }
                        return Token::String(buf_take(buf));
                    }
                    let ghost esc_old = esc;
                    if b == BACKSLASH {
                        esc = !esc;
                    } else {
                        esc = false;
                    }
                    buf_push(&mut buf, b);
                    proof {
                        assert(orig.take(k + 1) =~= orig.take(k).push(b));
                        match scan_string(orig.skip(k + 1), esc) {
                            Some(r2) => {
                                assert(scan_string(cur, esc_old) == Some::<(Seq<u8>, int)>(
                                    (seq![b] + r2.0, 1 + r2.1),
                                ));
                                assert(orig.take(k) + (seq![b] + r2.0) =~= orig.take(k + 1)
                                    + r2.0);
                            },
                            None => {
                                assert(scan_string(cur, esc_old) is None);
                            },
                        }
                        k = k + 1;
                    }
                },
                ReadEvent::End => {
                    proof {
                        assert(scan_string(cur, esc) is None);
                        assert(k == orig.len());
                        assert(orig.take(k) =~= orig);
                    }
                    return Token::InvalidJSON(buf_take(buf));
                },
                ReadEvent::Failed(m) => {
                    proof {
                        assert(scan_string(cur, esc) is None);
                        assert(k == orig.len());
                    }
                    self.failed = true;
                    return Token::IOError(m);
                },
            }
        }
    }

    /// The literal sub-scan, entered after the leading keyword byte
    /// `first` was consumed: match the remaining keyword bytes `kw`,
    /// then check the terminator.  Follows [`literal_step`] on the
    /// state at entry.
    fn scan_literal_tail(&mut self, first: u8, kw: &Vec<u8>, good: Token) -> (t: Token)
        requires
            old(self).wf(),
            old(self)@.pending is None,
            !old(self)@.failed,
        ensures
            final(self).wf(),
            ({
                let r = literal_step(first, kw@, good@, old(self)@.rest, old(self)@.term);
                &&& t@ == r.tok
                &&& final(self)@.rest == old(self)@.rest.skip(r.used)
                &&& final(self)@.term == (if r.failed {
                    Term::End
                } else {
                    old(self)@.term
                })
                &&& final(self)@.pending == r.pending
                &&& final(self)@.failed == r.failed
            }),
    {
        let ghost orig = self@.rest;
        proof {
            self.source.stream_fits();
        }
        let mut buf = buf_new();
        buf_push(&mut buf, first);
        proof {
            assert(orig.skip(0) =~= orig);
            assert(kw@.skip(0) =~= kw@);
        }
        let mut i: usize = 0;
        while i < kw.len()
            invariant
                self.wf(),
                self@.pending is None,
                !self@.failed,
                self@.term == old(self)@.term,
                orig == old(self)@.rest,
                orig.len() < usize::MAX / 4,
                0 <= i <= kw@.len(),
                i <= orig.len(),
                self@.rest == orig.skip(i as int),
                buf_bytes(buf) == seq![first] + orig.take(i as int),
                match scan_keyword(orig.skip(i as int), kw@.skip(i as int)) {
                    KeyScan::Matched => scan_keyword(orig, kw@) is Matched,
                    KeyScan::Mismatch { used } => scan_keyword(orig, kw@) == (KeyScan::Mismatch {
                        used: i + used,
                    }),
                    KeyScan::OffEnd => scan_keyword(orig, kw@) is OffEnd,
                },
            decreases kw@.len() - i,
        {
            let ghost cur = self@.rest;
            let ghost kwrest = kw@.skip(i as int);
            match self.source.read() {
                ReadEvent::Byte(b) => {
                    proof {
                        assert(cur.skip(1) =~= orig.skip(i + 1));
                        assert(kwrest.skip(1) =~= kw@.skip(i + 1));
                        assert(kwrest[0] == kw@[i as int]);
                        assert(orig.take(i + 1) =~= orig.take(i as int).push(b));
                        assert((seq![first] + orig.take(i as int)).push(b) =~= seq![first]
                            + orig.take(i + 1));
                    }
                    buf_push(&mut buf, b);
                    if b != kw[i] {
                        proof {
                            assert(scan_keyword(cur, kwrest) == (KeyScan::Mismatch { used: 1int }));
                        }
                        return Token::InvalidJSON(buf_take(buf));
                    }
                    i = i + 1;
                },
                ReadEvent::End => {
                    proof {
                        assert(scan_keyword(cur, kwrest) is OffEnd);
                        assert(i == orig.len());
                        assert(orig.take(i as int) =~= orig);
                    }
                    return Token::InvalidJSON(buf_take(buf));
                },
                ReadEvent::Failed(m) => {
                    proof {
                        assert(scan_keyword(cur, kwrest) is OffEnd);
                        assert(i == orig.len());
                    }
                    self.failed = true;
                    return Token::IOError(m);
                },
            }
        }
        proof {
            assert(scan_keyword(orig.skip(i as int), kw@.skip(i as int)) is Matched);
            assert(scan_keyword(orig, kw@) is Matched);
            lemma_scan_keyword_shape(orig, kw@);
            assert(seq![first] + orig.take(kw@.len() as int) =~= seq![first] + kw@);
        }
        let ghost cur = self@.rest;
        match self.source.read() {
            ReadEvent::Byte(c) => {
                proof {
                    assert(cur.skip(1) =~= orig.skip(kw@.len() as int + 1));
                }
                if ws_byte(c) {
                    good
                } else if buffered_terminator_byte(c) {
                    self.pending = Some(structural_token_of(c));
                    good
                } else {
                    Token::InvalidJSON(buf_take(buf))
                }
            },
            ReadEvent::End => {
                good
            },
            ReadEvent::Failed(m) => {
                proof {
                    assert(kw@.len() == orig.len());
                }
                self.failed = true;
                Token::IOError(m)
            },
        }
    }

    /// The number sub-scan, entered after the leading number byte
    /// `first` was consumed.  Follows [`number_step`] on the state at
    /// entry.
    fn scan_number_tail(&mut self, first: u8) -> (t: Token)
        requires
            old(self).wf(),
            old(self)@.pending is None,
            !old(self)@.failed,
        ensures
            final(self).wf(),
            ({
                let r = number_step(first, old(self)@.rest, old(self)@.term);
                &&& t@ == r.tok
                &&& final(self)@.rest == old(self)@.rest.skip(r.used)
                &&& final(self)@.term == (if r.failed {
                    Term::End
                } else {
                    old(self)@.term
                })
                &&& final(self)@.pending == r.pending
                &&& final(self)@.failed == r.failed
            }),
    {
        let ghost orig = self@.rest;
        proof {
            self.source.stream_fits();
        }
        let mut buf = buf_new();
        buf_push(&mut buf, first);
        let ghost mut k: int = 0;
        loop
            invariant
                self.wf(),
                self@.pending is None,
                !self@.failed,
                self@.term == old(self)@.term,
                orig == old(self)@.rest,
                orig.len() < usize::MAX / 4,
                0 <= k <= orig.len(),
                self@.rest == orig.skip(k),
                buf_bytes(buf) == seq![first] + orig.take(k),
                number_run(orig) == k + number_run(orig.skip(k)),
            decreases orig.len() - k,
        {
            let ghost cur = self@.rest;
            match self.source.read() {
                ReadEvent::Byte(b) => {
                    proof {
                        assert(cur.skip(1) =~= orig.skip(k + 1));
                    }
                    if number_byte(b) {
                        buf_push(&mut buf, b);
                        proof {
                            assert(orig.take(k + 1) =~= orig.take(k).push(b));
                            assert((seq![first] + orig.take(k)).push(b) =~= seq![first]
                                + orig.take(k + 1));
                            k = k + 1;
                        }
                    } else {
                        proof {
                            assert(number_run(cur) == 0);
                            assert(number_run(orig) == k);
                        }
                        if buffered_terminator_byte(b) {
                            self.pending = Some(structural_token_of(b));
                            return Token::Number(buf_take(buf));
                        } else {
                            return Token::Number(buf_take(buf));
                        }
                    }
                },
                ReadEvent::End => {
                    proof {
                        assert(number_run(cur) == 0);
                        assert(k == orig.len());
                        assert(number_run(orig) == k);
                    }
                    return Token::Number(buf_take(buf));
                },
                ReadEvent::Failed(m) => {
                    proof {
                        assert(number_run(cur) == 0);
                        assert(k == orig.len());
                        assert(number_run(orig) == k);
                    }
                    self.failed = true;
                    return Token::IOError(m);
                },
            }
        }
    }

    /// Produce the next token, or `None` when the sequence is over.
    ///
    /// The returned token and the state left behind are exactly what
    /// [`next_spec`] gives for the state at entry: a pending token is
    /// replayed with no source read, whitespace is skipped, one token
    /// is scanned, and after a reported read failure nothing further
    /// is produced.
    pub fn next(&mut self) -> (r: Option<Token>)
        requires
            old(self).wf(),
        ensures
            final(self).wf(),
            opt_token_model(r) == next_spec(old(self)@).tok,
            final(self)@ == next_spec(old(self)@).post,
    {
        if self.failed {
            return None;
        }
        if self.pending.is_some() {
            let t = self.pending.take().unwrap();
            return Some(t);
        }
        let ghost d0 = self@;
        let ghost w = ws_run(d0.rest);
        let ghost s = d0.rest.skip(w);
        match self.read_significant() {
            ReadEvent::End => {
                proof {
                    assert(final(self)@ =~= next_spec(d0).post);
                }
                None
            },
            ReadEvent::Failed(m) => {
                self.failed = true;
                proof {
                    assert(self@ =~= next_spec(d0).post);
                }
                Some(Token::IOError(m))
            },
            ReadEvent::Byte(c) => {
                proof {
                    lemma_dispatch_bounds(s[0], s.skip(1), d0.term);
                }
                let ghost dr = dispatch_step(s[0], s.skip(1), d0.term);
                let ghost d1 = self@;
                let t: Token;
                if structural_byte(c) {
                    t = structural_token_of(c);
                } else if c == QUOTE {
                    t = self.scan_string_tail();
                } else if c == LETTER_T {
                    let kw = kw_true_tail();
                    t = self.scan_literal_tail(c, &kw, Token::Bool(true));
                } else if c == LETTER_F {
                    let kw = kw_false_tail();
                    t = self.scan_literal_tail(c, &kw, Token::Bool(false));
                } else if c == LETTER_N {
                    let kw = kw_null_tail();
                    t = self.scan_literal_tail(c, &kw, Token::Null);
                } else if number_byte(c) {
                    t = self.scan_number_tail(c);
                } else {
                    t = Token::InvalidJSON(Vec::new());
                }
                proof {
                    assert(d1.rest == s.skip(1));
                    assert(s.skip(1).skip(dr.used) =~= s.skip(1 + dr.used));
                    assert(t@ == dr.tok);
                    assert(self@ =~= next_spec(d0).post);
                }
                Some(t)
            },
        }
    }

    /// Drain the scanner: every remaining token, in order.
    ///
    /// This is the executable form of [`tokens_from`]: the views of
    /// the returned tokens are exactly the model's token sequence for
    /// the state at entry, and afterwards the scanner yields nothing
    /// further.
    pub fn tokens(&mut self) -> (out: Vec<Token>)
        requires
            old(self).wf(),
        ensures
            final(self).wf(),
            out@.map_values(|t: Token| t@) == tokens_from(old(self)@),
            next_spec(final(self)@).tok is None,
    {
        let ghost pre = *self;
        let mut out: Vec<Token> = Vec::new();
        proof {
            assert(out@.map_values(|t: Token| t@) =~= Seq::<TokenModel>::empty());
        }
        loop
            invariant
                self.wf(),
                pre == *old(self),
                tokens_from(pre@) == out@.map_values(|t: Token| t@) + tokens_from(self@),
            decreases
                    self@.rest.len(),
                    (if self@.pending is Some {
                        1int
                    } else {
                        0int
                    }),
                    (if self@.failed {
                        0int
                    } else {
                        1int
                    }),
        {
            let ghost cur = self@;
            let ghost prev_map = out@.map_values(|x: Token| x@);
            match self.next() {
                Some(t) => {
                    proof {
                        lemma_next_spec_shape(cur);
                    }
                    let ghost tv = t@;
                    out.push(t);
                    proof {
                        assert(out@.map_values(|x: Token| x@) =~= prev_map.push(tv));
                        assert(tokens_from(cur) == seq![tv] + tokens_from(self@));
                        assert(prev_map + (seq![tv] + tokens_from(self@)) =~= prev_map.push(tv)
                            + tokens_from(self@));
                    }
                },
                None => {
                    proof {
                        assert(tokens_from(cur) =~= Seq::<TokenModel>::empty());
                        assert(prev_map + Seq::<TokenModel>::empty() =~= prev_map);
                    }
                    return out;
                },
            }
        }
    }
}

} // verus!
