//! The byte source: a pull-based supplier of single units.
//!
//! A [`Source`] owns its bytes and yields them one at a time through
//! [`Source::read`]; after the bytes it reports either end-of-input or,
//! when a failure was injected at construction, a single read failure.
//! Its view is a [`StreamModel`]: the bytes still to come, followed by
//! the terminal event.  Callers that pull from an external reader drain
//! it into a `Source` first, recording any read error as the failure
//! point.

use vstd::prelude::*;

verus! {

/// The terminal event of a stream: clean end-of-input, or a read
/// failure carrying its message.
pub enum Term {
    End,
    Fail(Seq<char>),
}

/// The mathematical view of a source: the bytes that remain, then the
/// terminal event.
#[verifier::ext_equal]
pub struct StreamModel {
    pub rest: Seq<u8>,
    pub term: Term,
}

/// What one pull from the source produced.
pub enum ReadEvent {
    /// The next unit.
    Byte(u8),
    /// End of input; further reads keep reporting it.
    End,
    /// The source failed; the failure is reported exactly once.
    Failed(String),
}

/// An injected read failure: reads at or past `at` fail with `msg`.
struct FailPoint {
    at: usize,
    msg: String,
}

/// An in-memory byte source with an optional injected read failure.
pub struct Source {
    data: Vec<u8>,
    pos: usize,
    fail: Option<FailPoint>,
}

impl Source {
    /// The cursor sits inside the data, the data leaves room for the
    /// scanner's accumulation buffer, and the cursor is before any
    /// failure point.
    pub closed spec fn wf(&self) -> bool {
        &&& self.pos <= self.data@.len()
        &&& self.data@.len() < usize::MAX / 4
        &&& match self.fail {
            Some(f) => self.pos <= f.at,
            None => true,
        }
    }

    /// The unread bytes of a well-formed source fit the machine with
    /// room to spare.
    pub proof fn stream_fits(&self)
        requires
            self.wf(),
        ensures
            self.stream().rest.len() < usize::MAX / 4,
    {
    }

    /// How many bytes can still be read before the terminal event.
    spec fn limit(&self) -> int {
        match self.fail {
            Some(f) =>
                if f.at <= self.data@.len() {
                    f.at as int
                } else {
                    self.data@.len() as int
                },
            None => self.data@.len() as int,
        }
    }

    /// The stream this source still holds: its unread bytes up to the
    /// failure point (if any), then the terminal event.
    pub closed spec fn stream(&self) -> StreamModel {
        StreamModel {
            rest: self.data@.subrange(self.pos as int, self.limit()),
            term: match self.fail {
                Some(f) =>
                    if f.at <= self.data@.len() {
                        Term::Fail(f.msg@)
                    } else {
                        Term::End
                    },
                None => Term::End,
            },
        }
    }

    /// A source that yields `data` and then ends cleanly.  The data
    /// must stay within a quarter of the address space: the scanner's
    /// accumulation buffer appends one byte per byte read and must
    /// never outgrow the allocator, rounding included.
    pub fn new(data: Vec<u8>) -> (s: Source)
        requires
            data@.len() < usize::MAX / 4,
        ensures
            s.wf(),
            s.stream() == (StreamModel { rest: data@, term: Term::End }),
    {
        let s = Source { data, pos: 0, fail: None };
        proof {
            assert(s.stream().rest =~= s.data@);
        }
        s
    }

    /// A source that yields the bytes of `data` before index `at`, then
    /// fails with `msg`.  An `at` past the end of `data` injects no
    /// failure: the whole of `data` is yielded and the stream ends
    /// cleanly.  The data must stay within a quarter of the address space, as
    /// for [`Source::new`].
    pub fn with_failure(data: Vec<u8>, at: usize, msg: String) -> (s: Source)
        requires
            data@.len() < usize::MAX / 4,
        ensures
            s.wf(),
            at <= data@.len() ==> s.stream() == (StreamModel {
                rest: data@.take(at as int),
                term: Term::Fail(msg@),
            }),
            at > data@.len() ==> s.stream() == (StreamModel { rest: data@, term: Term::End }),
    {
        let s = Source { data, pos: 0, fail: Some(FailPoint { at, msg }) };
        proof {
            if at <= s.data@.len() {
                assert(s.stream().rest =~= s.data@.take(at as int));
            } else {
                assert(s.stream().rest =~= s.data@);
            }
        }
        s
    }

    /// Pull the next unit.  Yields the head of the stream, or its
    /// terminal event once the bytes are exhausted.  A failure is
    /// yielded once; afterwards the stream reads as cleanly ended.
    pub fn read(&mut self) -> (r: ReadEvent)
        requires
            old(self).wf(),
        ensures
            final(self).wf(),
            match r {
                ReadEvent::Byte(b) => {
                    &&& old(self).stream().rest.len() > 0
                    &&& b == old(self).stream().rest[0]
                    &&& final(self).stream() == (StreamModel {
                        rest: old(self).stream().rest.skip(1),
                        term: old(self).stream().term,
                    })
                },
                ReadEvent::End => {
                    &&& old(self).stream().rest.len() == 0
                    &&& old(self).stream().term is End
                    &&& *final(self) == *old(self)
                },
                ReadEvent::Failed(m) => {
                    &&& old(self).stream().rest.len() == 0
                    &&& old(self).stream().term == Term::Fail(m@)
                    &&& final(self).stream() == (StreamModel {
                        rest: Seq::<u8>::empty(),
                        term: Term::End,
                    })
                },
            },
    {
        let failing = match &self.fail {
            Some(f) => self.pos >= f.at,
            None => false,
        };
        if failing {
            let f = self.fail.take().unwrap();
            self.pos = self.data.len();
            proof {
                assert(self.stream().rest =~= Seq::<u8>::empty());
            }
            ReadEvent::Failed(f.msg)
        } else if self.pos < self.data.len() {
            let b = self.data[self.pos];
            self.pos = self.pos + 1;
            proof {
                assert(self.stream().rest =~= old(self).stream().rest.skip(1));
            }
            ReadEvent::Byte(b)
        } else {
            ReadEvent::End
        }
    }
}

} // verus!
