//! Laws of bounded reads.

use vstd::prelude::*;

use crate::body;

verus! {

/// A read never gives more than the cap; what it gives is the start of what was delivered; and it
/// is marked as cut exactly if more was delivered.
pub proof fn law_read_is_a_capped_prefix<E>(items: Seq<Result<Vec<u8>, E>>, max: int)
    requires
        0 <= max,
    ensures
        body::capped(items, max) matches Ok((bytes, truncated)) ==> {
            &&& bytes.len() <= max
            &&& bytes.is_prefix_of(body::delivered(items))
            &&& truncated <==> body::delivered(items).len() > max
            &&& !truncated ==> bytes == body::delivered(items)
        },
{
    let all = body::delivered(items);
    if all.len() > max {
        assert(all.take(max) =~= all.subrange(0, max));
    } else {
        assert(all =~= all.subrange(0, all.len() as int));
    }
}

/// A body of exactly the cap is complete, not cut.
pub proof fn law_exactly_the_cap_is_complete<E>(items: Seq<Result<Vec<u8>, E>>)
    requires
        body::first_error(items) is None,
    ensures
        body::capped(items, body::delivered(items).len() as int) == Ok::<(Seq<u8>, bool), E>(
            (body::delivered(items), false),
        ),
{
}

/// How the bytes are cut into chunks makes no difference.
pub proof fn law_chunking_is_invisible<E>(
    a: Seq<Result<Vec<u8>, E>>,
    b: Seq<Result<Vec<u8>, E>>,
    max: int,
)
    requires
        body::delivered(a) == body::delivered(b),
        body::first_error(a) == body::first_error(b),
    ensures
        body::capped(a, max) == body::capped(b, max),
{
}

proof fn lemma_more_items<E>(items: Seq<Result<Vec<u8>, E>>, more: Seq<Result<Vec<u8>, E>>)
    ensures
        body::first_error(items) is Some ==> body::first_error(items + more) == body::first_error(
            items,
        ) && body::delivered(items + more) == body::delivered(items),
        body::first_error(items) is None ==> body::first_error(items + more) == body::first_error(
            more,
        ) && body::delivered(items + more) == body::delivered(items) + body::delivered(more),
    decreases items.len(),
{
    if items.len() == 0 {
        assert(items + more =~= more);
        assert(body::delivered(items) + body::delivered(more) =~= body::delivered(more));
    } else {
        assert((items + more).skip(1) =~= items.skip(1) + more);
        lemma_more_items(items.skip(1), more);
        if let Ok(chunk) = items[0] {
            assert(chunk@ + (body::delivered(items.skip(1)) + body::delivered(more)) =~= (chunk@
                + body::delivered(items.skip(1))) + body::delivered(more));
        }
    }
}

/// Once the cap is passed nothing that follows matters, an error as little as more bytes.
pub proof fn law_nothing_counts_past_the_cap<E>(
    items: Seq<Result<Vec<u8>, E>>,
    more: Seq<Result<Vec<u8>, E>>,
    max: int,
)
    requires
        0 <= max < body::delivered(items).len(),
    ensures
        body::capped(items + more, max) == body::capped(items, max),
{
    lemma_more_items(items, more);
    assert(body::delivered(items + more).take(max) =~= body::delivered(items).take(max));
}

/// An error that comes before the cap is passed is what the read gives, as it is.
pub proof fn law_error_comes_back_untouched<E>(
    items: Seq<Result<Vec<u8>, E>>,
    e: E,
    more: Seq<Result<Vec<u8>, E>>,
    max: int,
)
    requires
        body::first_error(items) is None,
        body::delivered(items).len() <= max,
    ensures
        body::capped(items.push(Err(e)) + more, max) == Err::<(Seq<u8>, bool), E>(e),
{
    let tail = seq![Err::<Vec<u8>, E>(e)] + more;
    assert(items.push(Err(e)) + more =~= items + tail);
    lemma_more_items(items, tail);
    assert(tail[0] == Err::<Vec<u8>, E>(e));
    assert(body::delivered(items) + Seq::<u8>::empty() =~= body::delivered(items));
}

/// The stream that delivers these chunks.
pub open spec fn stream_of<E>(chunks: Seq<Vec<u8>>) -> Seq<Result<Vec<u8>, E>> {
    chunks.map_values(|chunk: Vec<u8>| Ok::<Vec<u8>, E>(chunk))
}

/// The bytes of these chunks, one chunk after the other.
pub open spec fn all_bytes(chunks: Seq<Vec<u8>>) -> Seq<u8> {
    chunks.map_values(|chunk: Vec<u8>| chunk@).flatten()
}

proof fn lemma_stream<E>(chunks: Seq<Vec<u8>>)
    ensures
        body::delivered(stream_of::<E>(chunks)) == all_bytes(chunks),
        body::first_error(stream_of::<E>(chunks)) is None,
    decreases chunks.len(),
{
    let items = stream_of::<E>(chunks);
    let views = chunks.map_values(|chunk: Vec<u8>| chunk@);
    if chunks.len() > 0 {
        let rest = chunks.skip(1);
        lemma_stream::<E>(rest);
        assert(items.skip(1) =~= stream_of::<E>(rest));
        assert(views.drop_first() =~= rest.map_values(|chunk: Vec<u8>| chunk@));
        assert(items[0] == Ok::<Vec<u8>, E>(chunks[0]));
        assert(views.first() == chunks[0]@);
        assert(views.flatten() == views.first() + views.drop_first().flatten());
    } else {
        assert(views.flatten() =~= Seq::<u8>::empty());
        assert(body::delivered(items) =~= Seq::<u8>::empty());
    }
}

/// A stream that ends without an error is read whole if it fits under the cap, and up to the cap,
/// marked as cut, if it does not.
pub proof fn law_read_of_a_whole_stream<E>(chunks: Seq<Vec<u8>>, max: int)
    requires
        0 <= max,
    ensures
        body::capped(stream_of::<E>(chunks), max) == if all_bytes(chunks).len() <= max {
            Ok::<(Seq<u8>, bool), E>((all_bytes(chunks), false))
        } else {
            Ok::<(Seq<u8>, bool), E>((all_bytes(chunks).subrange(0, max), true))
        },
{
    lemma_stream::<E>(chunks);
    if all_bytes(chunks).len() > max {
        assert(all_bytes(chunks).take(max) =~= all_bytes(chunks).subrange(0, max));
    }
}

/// A stream that breaks off gives its error, as it is, if what came before fits under the cap, and
/// else the bytes up to the cap, marked as cut, whatever follows.
pub proof fn law_read_of_a_broken_stream<E>(
    chunks: Seq<Vec<u8>>,
    e: E,
    more: Seq<Result<Vec<u8>, E>>,
    max: int,
)
    requires
        0 <= max,
    ensures
        body::capped(stream_of::<E>(chunks).push(Err(e)) + more, max) == if all_bytes(chunks).len()
            <= max {
            Err::<(Seq<u8>, bool), E>(e)
        } else {
            Ok::<(Seq<u8>, bool), E>((all_bytes(chunks).subrange(0, max), true))
        },
{
    lemma_stream::<E>(chunks);
    let items = stream_of::<E>(chunks);
    if all_bytes(chunks).len() <= max {
        law_error_comes_back_untouched(items, e, more, max);
    } else {
        let tail = seq![Err::<Vec<u8>, E>(e)] + more;
        assert(items.push(Err(e)) + more =~= items + tail);
        law_nothing_counts_past_the_cap(items, tail, max);
        law_read_of_a_whole_stream::<E>(chunks, max);
    }
}

} // verus!
