//! Bounded in-memory reads of an HTTP response body.

use vstd::prelude::*;
use vstd::slice::slice_subrange;

verus! {

/// What a stream of chunks delivers: the bytes of the chunks before the first error.
pub open spec fn delivered<E>(items: Seq<Result<Vec<u8>, E>>) -> Seq<u8>
    decreases items.len(),
{
    if items.len() == 0 {
        Seq::empty()
    } else {
        match items[0] {
            Ok(chunk) => chunk@ + delivered(items.skip(1)),
            Err(_) => Seq::empty(),
        }
    }
}

/// The first error of a stream, if there is one.
pub open spec fn first_error<E>(items: Seq<Result<Vec<u8>, E>>) -> Option<E>
    decreases items.len(),
{
    if items.len() == 0 {
        None
    } else {
        match items[0] {
            Ok(_) => first_error(items.skip(1)),
            Err(e) => Some(e),
        }
    }
}

/// What a read of at most `max` bytes gives: the first `max` bytes, marked as cut, if more than
/// that arrives before any error; else the error, if there is one; else the whole body.
pub open spec fn capped<E>(items: Seq<Result<Vec<u8>, E>>, max: int) -> Result<(Seq<u8>, bool), E> {
    let bytes = delivered(items);
    if bytes.len() > max {
        Ok((bytes.take(max), true))
    } else {
        match first_error(items) {
            Some(e) => Err(e),
            None => Ok((bytes, false)),
        }
    }
}

/// A body under way: what has been kept so far, never more than `max` bytes.
pub struct CappedBody {
    buf: Vec<u8>,
    max: usize,
}

/// What became of a chunk.
pub enum Taken {
    /// It was kept whole, and more may come.
    More(CappedBody),
    /// It went over the cap. These are the bytes up to it; nothing more is to be read.
    Full(Vec<u8>),
}

impl CappedBody {
    /// The bytes kept so far.
    pub closed spec fn bytes(self) -> Seq<u8> {
        self.buf@
    }

    /// The most that will be kept.
    pub closed spec fn cap(self) -> int {
        self.max as int
    }

    #[verifier::type_invariant]
    spec fn under_the_cap(self) -> bool {
        self.buf@.len() <= self.max
    }

    /// Nothing read yet.
    pub fn new(max: usize) -> (r: CappedBody)
        ensures
            r.bytes() == Seq::<u8>::empty(),
            r.cap() == max,
    {
        CappedBody { buf: Vec::new(), max }
    }

    /// Takes the next chunk. A chunk that just fills the room there is does not go over the cap.
    pub fn take(self, chunk: &[u8]) -> (r: Taken)
        ensures
            match r {
                Taken::More(body) => {
                    &&& body.bytes() == self.bytes() + chunk@
                    &&& body.cap() == self.cap()
                    &&& (self.bytes() + chunk@).len() <= self.cap()
                },
                Taken::Full(bytes) => {
                    &&& (self.bytes() + chunk@).len() > self.cap()
                    &&& bytes@ == (self.bytes() + chunk@).take(self.cap())
                },
            },
    {
        proof {
            use_type_invariant(&self);
        }
        let ghost before = self.buf@;
        let CappedBody { mut buf, max } = self;
        let room: usize = max - buf.len();
        if chunk.len() > room {
            buf.extend_from_slice(slice_subrange(chunk, 0, room));
            assert(buf@ =~= (before + chunk@).take(max as int));
            Taken::Full(buf)
        } else {
            buf.extend_from_slice(chunk);
            assert(buf@ =~= before + chunk@);
            Taken::More(CappedBody { buf, max })
        }
    }

    /// The body, once the stream has ended.
    pub fn finish(self) -> (r: Vec<u8>)
        ensures
            r@ == self.bytes(),
            r@.len() <= self.cap(),
    {
        proof {
            use_type_invariant(&self);
        }
        self.buf
    }
}

/// Collect at most `max` bytes from a stream of chunks, reporting whether more remained.
///
/// Nothing after the chunk that goes over the cap is looked at. The stream's own error comes back
/// untouched.
pub fn read_capped<E>(items: Vec<Result<Vec<u8>, E>>, max: usize) -> (r: Result<(Vec<u8>, bool), E>)
    ensures
        match r {
            Ok((bytes, truncated)) => capped(items@, max as int) == Ok::<(Seq<u8>, bool), E>(
                (bytes@, truncated),
            ),
            Err(e) => capped(items@, max as int) == Err::<(Seq<u8>, bool), E>(e),
        },
{
    let ghost all = items@;
    let mut body = CappedBody::new(max);
    let ghost mut n: int = 0;
    assert(all.skip(0) =~= all);
    assert(Seq::<u8>::empty() + delivered(all) =~= delivered(all));
    for item in it: items
        invariant
            it.seq() == all,
            n == it.index(),
            body.cap() == max,
            body.bytes().len() <= max,
            delivered(all) == body.bytes() + delivered(all.skip(n)),
            first_error(all) == first_error(all.skip(n)),
    {
        let ghost rest = all.skip(n);
        assert(rest[0] == item);
        assert(rest.skip(1) =~= all.skip(n + 1));
        match item {
            Ok(chunk) => {
                let ghost before = body.bytes();
                assert(before + (chunk@ + delivered(rest.skip(1))) =~= (before + chunk@)
                    + delivered(rest.skip(1)));
                match body.take(chunk.as_slice()) {
                    Taken::More(next) => {
                        body = next;
                    },
                    Taken::Full(bytes) => {
                        assert(bytes@ =~= delivered(all).take(max as int));
                        return Ok((bytes, true));
                    },
                }
            },
            Err(e) => {
                assert(delivered(all) =~= body.bytes());
                return Err(e);
            },
        }
        proof {
            n = n + 1;
        }
    }
    assert(delivered(all) =~= body.bytes());
    Ok((body.finish(), false))
}

} // verus!
