//! Laws of the scanner, stated over the model and proved once for all
//! inputs.
//!
//! Each law speaks of [`next_spec`] or [`tokens_from`]; because
//! [`crate::document::Document::next`] is proved to follow
//! [`next_spec`] call by call, every law carries over to the
//! executable scanner.

use vstd::prelude::*;

use crate::scan::{
    dispatch_step, is_number_byte, is_structural, is_ws, lemma_next_spec_shape, lemma_ws_run, model_wf,
    next_spec, number_run, number_step, scan_string, string_step, structural_token, tokens_from,
    ws_run, DocModel, StepModel, BACKSLASH, COMMA, QUOTE,
};
use crate::source::Term;
use crate::token::TokenModel;

verus! {

/// A byte sequence of structural punctuation and whitespace only.
pub open spec fn structural_only(s: Seq<u8>) -> bool {
    forall|i: int| 0 <= i < s.len() ==> is_structural(s[i]) || is_ws(s[i])
}

/// The structural tokens of `s`, whitespace elided.
pub open spec fn structural_tokens(s: Seq<u8>) -> Seq<TokenModel>
    decreases s.len(),
{
    if s.len() == 0 {
        Seq::<TokenModel>::empty()
    } else if is_ws(s[0]) {
        structural_tokens(s.skip(1))
    } else {
        seq![structural_token(s[0])] + structural_tokens(s.skip(1))
    }
}

/// Scanning from escape state `esc`, `body` never closes the string:
/// it holds no unescaped quote.
pub open spec fn unclosed_from(body: Seq<u8>, esc: bool) -> bool
    decreases body.len(),
{
    if body.len() == 0 {
        true
    } else {
        &&& !(body[0] == QUOTE && !esc)
        &&& unclosed_from(
            body.skip(1),
            if body[0] == BACKSLASH {
                !esc
            } else {
                false
            },
        )
    }
}

/// `body` holds no unescaped quote when scanned from a fresh string
/// start.
pub open spec fn unclosed(body: Seq<u8>) -> bool {
    unclosed_from(body, false)
}

/// `body` is a properly escaped string body: it holds no unescaped
/// quote, and it does not end mid-escape, so a quote right after it
/// closes the string.
pub open spec fn well_escaped_from(body: Seq<u8>, esc: bool) -> bool
    decreases body.len(),
{
    if body.len() == 0 {
        !esc
    } else {
        &&& !(body[0] == QUOTE && !esc)
        &&& well_escaped_from(
            body.skip(1),
            if body[0] == BACKSLASH {
                !esc
            } else {
                false
            },
        )
    }
}

/// `body` is a properly escaped string body, scanned from a fresh
/// string start.
pub open spec fn well_escaped(body: Seq<u8>) -> bool {
    well_escaped_from(body, false)
}

/// A properly escaped body followed by a quote closes there: the scan
/// yields exactly `body` and consumes it and the quote.
proof fn lemma_scan_closes(body: Seq<u8>, tail: Seq<u8>, esc: bool)
    requires
        well_escaped_from(body, esc),
    ensures
        scan_string(body + seq![QUOTE] + tail, esc) == Some::<(Seq<u8>, int)>(
            (body, body.len() as int + 1),
        ),
    decreases body.len(),
{
    let s = body + seq![QUOTE] + tail;
    if body.len() == 0 {
        assert(s[0] == QUOTE);
        assert(body =~= Seq::<u8>::empty());
    } else {
        let c = body[0];
        assert(s[0] == c);
        let esc2 = if c == BACKSLASH {
            !esc
        } else {
            false
        };
        lemma_scan_closes(body.skip(1), tail, esc2);
        assert(s.skip(1) =~= body.skip(1) + seq![QUOTE] + tail);
        assert(seq![c] + body.skip(1) =~= body);
    }
}

/// A body with no unescaped quote never closes: the scan runs off the
/// end.
proof fn lemma_scan_unclosed(body: Seq<u8>, esc: bool)
    requires
        unclosed_from(body, esc),
    ensures
        scan_string(body, esc) is None,
    decreases body.len(),
{
    if body.len() != 0 {
        let esc2 = if body[0] == BACKSLASH {
            !esc
        } else {
            false
        };
        lemma_scan_unclosed(body.skip(1), esc2);
    }
}

/// For every properly escaped string body: the input `"body"` followed
/// by anything yields the `String` token carrying exactly the bytes of
/// `body`, escapes preserved unprocessed, and leaves the rest of the
/// input untouched.
pub proof fn lemma_string_exact(body: Seq<u8>, tail: Seq<u8>, term: Term)
    requires
        well_escaped(body),
    ensures
        ({
            let d = DocModel {
                rest: seq![QUOTE] + body + seq![QUOTE] + tail,
                term,
                pending: None,
                failed: false,
            };
            next_spec(d) == (StepModel {
                tok: Some(TokenModel::Str(body)),
                post: DocModel { rest: tail, term, pending: None, failed: false },
            })
        }),
{
    let rest = seq![QUOTE] + body + seq![QUOTE] + tail;
    let d = DocModel { rest, term, pending: None, failed: false };
    assert(rest[0] == QUOTE);
    assert(ws_run(rest) == 0);
    assert(rest.skip(0) =~= rest);
    assert(rest.skip(1) =~= body + seq![QUOTE] + tail);
    lemma_scan_closes(body, tail, false);
    assert(rest.skip(1 + (body.len() as int + 1)) =~= tail);
    assert(next_spec(d) =~= (StepModel {
        tok: Some(TokenModel::Str(body)),
        post: DocModel { rest: tail, term, pending: None, failed: false },
    }));
}

/// For every unterminated string — an opening quote, then a body with
/// no unescaped closing quote, then end-of-input — the result is
/// `InvalidJSON` carrying the partial body.
pub proof fn lemma_string_unterminated(body: Seq<u8>)
    requires
        unclosed(body),
    ensures
        ({
            let d = DocModel {
                rest: seq![QUOTE] + body,
                term: Term::End,
                pending: None,
                failed: false,
            };
            next_spec(d) == (StepModel {
                tok: Some(TokenModel::Invalid(body)),
                post: DocModel {
                    rest: Seq::<u8>::empty(),
                    term: Term::End,
                    pending: None,
                    failed: false,
                },
            })
        }),
{
    let rest = seq![QUOTE] + body;
    let d = DocModel { rest, term: Term::End, pending: None, failed: false };
    assert(rest[0] == QUOTE);
    assert(ws_run(rest) == 0);
    assert(rest.skip(0) =~= rest);
    assert(rest.skip(1) =~= body);
    lemma_scan_unclosed(body, false);
    assert(rest.skip(1 + body.len() as int) =~= Seq::<u8>::empty());
    assert(next_spec(d) =~= (StepModel {
        tok: Some(TokenModel::Invalid(body)),
        post: DocModel {
            rest: Seq::<u8>::empty(),
            term: Term::End,
            pending: None,
            failed: false,
        },
    }));
}

/// For every input of structural punctuation and interleaved ASCII
/// whitespace that ends cleanly, the token sequence is the structural
/// tokens in order, whitespace fully elided.
pub proof fn lemma_structural_only(s: Seq<u8>)
    requires
        structural_only(s),
    ensures
        tokens_from(DocModel { rest: s, term: Term::End, pending: None, failed: false })
            == structural_tokens(s),
    decreases s.len(),
{
    let d = DocModel { rest: s, term: Term::End, pending: None, failed: false };
    if s.len() == 0 {
        assert(s.skip(0) =~= s);
        assert(next_spec(d).tok is None);
    } else {
        assert(structural_only(s.skip(1))) by {
            assert(forall|i: int|
                0 <= i < s.skip(1).len() ==> s.skip(1)[i] == s[i + 1]);
        }
        lemma_structural_only(s.skip(1));
        let d1 = DocModel { rest: s.skip(1), term: Term::End, pending: None, failed: false };
        if is_ws(s[0]) {
            lemma_ws_run(s);
            lemma_ws_run(s.skip(1));
            assert(ws_run(s) == 1 + ws_run(s.skip(1)));
            assert(s.skip(ws_run(s)) =~= s.skip(1).skip(ws_run(s.skip(1))));
            assert(next_spec(d) == next_spec(d1));
            assert(tokens_from(d) == tokens_from(d1));
        } else {
            assert(is_structural(s[0]));
            assert(ws_run(s) == 0);
            assert(s.skip(0) =~= s);
            assert(s.skip(1int + 0) =~= s.skip(1));
            assert(next_spec(d) == (StepModel { tok: Some(structural_token(s[0])), post: d1 }));
            assert(tokens_from(d) == seq![structural_token(s[0])] + tokens_from(d1));
        }
    }
}

/// For every nonempty run of number-alphabet bytes followed by a
/// comma: the scanner yields `Number` carrying the full run, then —
/// from the pending slot, with no source read — `Comma`, and leaves
/// the rest of the input untouched.
pub proof fn lemma_number_before_comma(run: Seq<u8>, tail: Seq<u8>, term: Term)
    requires
        run.len() > 0,
        forall|i: int| 0 <= i < run.len() ==> is_number_byte(run[i]),
    ensures
        ({
            let d = DocModel { rest: run + seq![COMMA] + tail, term, pending: None, failed: false };
            let mid = DocModel {
                rest: tail,
                term,
                pending: Some(TokenModel::Comma),
                failed: false,
            };
            &&& next_spec(d) == (StepModel { tok: Some(TokenModel::Num(run)), post: mid })
            &&& next_spec(mid) == (StepModel {
                tok: Some(TokenModel::Comma),
                post: DocModel { rest: tail, term, pending: None, failed: false },
            })
        }),
{
    let rest = run + seq![COMMA] + tail;
    let d = DocModel { rest, term, pending: None, failed: false };
    let c = run[0];
    assert(rest[0] == c);
    assert(is_number_byte(c));
    assert(ws_run(rest) == 0);
    assert(rest.skip(0) =~= rest);
    let s = rest.skip(1);
    assert(s =~= run.skip(1) + seq![COMMA] + tail);
    lemma_number_run_stops(s, run.len() - 1);
    let n = run.len() - 1;
    assert(number_run(s) == n);
    assert(seq![c] + s.take(n) =~= run);
    assert(s.skip(n) =~= seq![COMMA] + tail);
    assert(s.skip(n)[0] == COMMA);
    assert(rest.skip(1 + (n + 1)) =~= tail);
    assert(next_spec(d) =~= (StepModel {
        tok: Some(TokenModel::Num(run)),
        post: DocModel { rest: tail, term, pending: Some(TokenModel::Comma), failed: false },
    }));
}

/// A sequence whose first `p` bytes are number-alphabet bytes and
/// whose byte `p`, if any, is not, has a number run of exactly `p`.
proof fn lemma_number_run_stops(s: Seq<u8>, p: int)
    requires
        0 <= p <= s.len(),
        forall|i: int| 0 <= i < p ==> is_number_byte(s[i]),
        p < s.len() ==> !is_number_byte(s[p]),
    ensures
        number_run(s) == p,
    decreases p,
{
    if p == 0 {
    } else {
        assert(is_number_byte(s[0]));
        lemma_number_run_stops(s.skip(1), p - 1);
    }
}

/// Re-scanning an identical stream reproduces an identical token
/// sequence: the scanner carries no state beyond what the stream
/// model holds, so the sequence is a function of the stream alone.
/// Together with [`crate::document::Document::next`]'s contract —
/// each call returns exactly [`next_spec`] of the scanner's state —
/// two fresh scanners over equal inputs agree call by call.
pub proof fn lemma_rescan_deterministic(a: DocModel, b: DocModel)
    requires
        a == b,
    ensures
        next_spec(a) == next_spec(b),
        tokens_from(a) == tokens_from(b),
{
}

/// A sequence that has ended stays ended: once a call yields no
/// token — clean end of input, or a state past a reported failure —
/// every later call yields none either.
pub proof fn lemma_end_is_stable(d: DocModel)
    requires
        model_wf(d),
    ensures
        next_spec(d).tok is None ==> next_spec(next_spec(d).post).tok is None,
{
    if next_spec(d).tok is None && !d.failed {
        let p = next_spec(d).post;
        assert(p.rest.len() == 0);
        assert(p.rest.skip(ws_run(p.rest)) =~= p.rest);
    }
}

/// A read failure is terminal: whenever a call yields the `IOError`
/// token the state is marked failed, a failed state yields nothing
/// further, and the failure is the last token of the sequence.
pub proof fn lemma_failure_is_terminal(d: DocModel)
    requires
        model_wf(d),
    ensures
        (next_spec(d).tok matches Some(t) && t is Fail) ==> next_spec(d).post.failed,
        next_spec(d).post.failed ==> next_spec(next_spec(d).post).tok is None,
        d.failed ==> tokens_from(d) == Seq::<TokenModel>::empty(),
        (next_spec(d).tok matches Some(t) && t is Fail) ==> tokens_from(d) == seq![
            next_spec(d).tok->0,
        ],
{
    lemma_next_spec_shape(d);
    if next_spec(d).tok is Some && next_spec(d).tok->0 is Fail {
        let t = next_spec(d).tok->0;
        assert(next_spec(d).post.failed);
        assert(tokens_from(next_spec(d).post) == Seq::<TokenModel>::empty());
        assert(seq![t] + Seq::<TokenModel>::empty() =~= seq![t]);
    }
}

} // verus!
