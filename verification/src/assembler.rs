//! Frame assembly: cutting `$`...`\n` frames out of a byte stream that arrives
//! in chunks of arbitrary size.

use vstd::prelude::*;

verus! {

/// The byte that opens a frame, `$`.
pub const FRAME_START: u8 = 0x24;

/// The byte that closes a frame, line feed.
pub const FRAME_END: u8 = 0x0a;

/// A cache is complete when it ends with the closing byte.
pub open spec fn is_complete(cache: Seq<u8>) -> bool {
    cache.len() > 0 && cache.last() == FRAME_END
}

/// A frame: opens with `$`, closes with line feed, and holds at least one byte
/// between them.
pub open spec fn is_frame(bytes: Seq<u8>) -> bool {
    bytes.len() > 2 && bytes[0] == FRAME_START && bytes.last() == FRAME_END
}

/// The cache after one byte of a chunk has been looked at.
///
/// Once the cache is complete the rest of the chunk is dropped. Otherwise `$`
/// restarts the cache, a byte outside any frame is discarded, and every other
/// byte is appended.
pub open spec fn accept(cache: Seq<u8>, byte: u8) -> Seq<u8> {
    if is_complete(cache) {
        cache
    } else if byte == FRAME_START {
        seq![FRAME_START]
    } else if cache.len() == 0 {
        cache
    } else {
        cache.push(byte)
    }
}

/// The cache after every byte of `chunk` has been looked at in order.
pub open spec fn scan(cache: Seq<u8>, chunk: Seq<u8>) -> Seq<u8>
    decreases chunk.len(),
{
    if chunk.len() == 0 {
        cache
    } else {
        scan(accept(cache, chunk.first()), chunk.drop_first())
    }
}

/// The cache as a call starts with it: a frame completed by the call before
/// is cleared.
pub open spec fn carried(cache: Seq<u8>) -> Seq<u8> {
    if is_complete(cache) {
        Seq::empty()
    } else {
        cache
    }
}

/// The cache that one call leaves behind.
pub open spec fn cache_after(cache: Seq<u8>, chunk: Seq<u8>) -> Seq<u8> {
    scan(carried(cache), chunk)
}

/// What one call hands out for the cache it leaves behind.
pub open spec fn emitted(cache: Seq<u8>) -> Option<Seq<u8>> {
    if is_frame(cache) {
        Some(cache)
    } else {
        None
    }
}

/// Feeds one chunk of bytes to the assembler.
///
/// `msg_cache` carries the frame in progress from call to call. The frame is
/// handed out by the call that sees its closing byte, and at most one frame is
/// handed out per chunk.
pub fn get_msg<'a, 'b>(buffer: &'a [u8], msg_cache: &'b mut Vec<u8>) -> (frame: Option<&'b [u8]>)
    ensures
        final(msg_cache)@ == cache_after(old(msg_cache)@, buffer@),
        frame.is_some() == is_frame(final(msg_cache)@),
        frame.is_some() ==> frame.unwrap()@ == final(msg_cache)@,
{
    if msg_cache.len() > 0 && msg_cache[msg_cache.len() - 1] == FRAME_END {
        msg_cache.clear();
    }
    let mut i: usize = 0;
    let mut open = true;
    assert(buffer@.subrange(0, buffer@.len() as int) =~= buffer@);
    while open && i < buffer.len()
        invariant
            0 <= i <= buffer.len(),
            open ==> !is_complete(msg_cache@),
            !open ==> is_complete(msg_cache@),
            scan(msg_cache@, buffer@.subrange(i as int, buffer@.len() as int)) == cache_after(
                old(msg_cache)@,
                buffer@,
            ),
        decreases buffer.len() - i + if open { 1nat } else { 0nat },
    {
        let x: u8 = buffer[i];
        proof {
            let rest = buffer@.subrange(i as int, buffer@.len() as int);
            assert(rest.first() == x);
            assert(rest.drop_first() =~= buffer@.subrange(i + 1, buffer@.len() as int));
        }
        if x == FRAME_START {
            msg_cache.clear();
            msg_cache.push(x);
            assert(msg_cache@ =~= seq![FRAME_START]);
        } else if msg_cache.len() > 0 {
            msg_cache.push(x);
            if x == FRAME_END {
                open = false;
            }
        }
        i += 1;
    }
    proof {
        let rest = buffer@.subrange(i as int, buffer@.len() as int);
        if open {
            assert(rest.len() == 0);
        } else {
            lemma_complete_absorbs(msg_cache@, rest);
        }
    }
    let n = msg_cache.len();
    if n > 2 && msg_cache[0] == FRAME_START && msg_cache[n - 1] == FRAME_END {
        Some(msg_cache.as_slice())
    } else {
        None
    }
}

/// A complete cache takes no further byte of the chunk.
pub proof fn lemma_complete_absorbs(cache: Seq<u8>, chunk: Seq<u8>)
    requires
        is_complete(cache),
    ensures
        scan(cache, chunk) == cache,
    decreases chunk.len(),
{
    if chunk.len() > 0 {
        lemma_complete_absorbs(cache, chunk.drop_first());
    }
}

/// The frames handed out, in order, when `chunks` are fed one call after
/// another to an assembler that starts with `cache`.
pub open spec fn frames_of(cache: Seq<u8>, chunks: Seq<Seq<u8>>) -> Seq<Seq<u8>>
    decreases chunks.len(),
{
    if chunks.len() == 0 {
        Seq::empty()
    } else {
        let next = cache_after(cache, chunks.first());
        let rest = frames_of(next, chunks.drop_first());
        match emitted(next) {
            Some(frame) => seq![frame] + rest,
            None => rest,
        }
    }
}

/// How many bytes of `chunk` are looked at before the cache is complete: all
/// bytes up to the one that completes it, that one included, or the whole
/// chunk where nothing completes it.
pub open spec fn scanned(cache: Seq<u8>, chunk: Seq<u8>) -> nat
    decreases chunk.len(),
{
    if chunk.len() == 0 || is_complete(cache) {
        0
    } else {
        1 + scanned(accept(cache, chunk.first()), chunk.drop_first())
    }
}

/// No frame comes out of `stream` even when it is fed one byte per call,
/// which drops no byte and so hands out every frame that any way of cutting
/// the stream hands out.
pub open spec fn quiet(cache: Seq<u8>, stream: Seq<u8>) -> bool
    decreases stream.len(),
{
    stream.len() == 0 || {
        let next = accept(carried(cache), stream.first());
        !is_frame(next) && quiet(next, stream.drop_first())
    }
}

/// A stream that holds one frame at most: after the byte that first completes
/// the cache, no further frame can be cut from it.
///
/// One call looks at a chunk only up to that byte. A stream that goes on with
/// another frame yields that frame when it is cut before it, and loses it when
/// it is fed whole.
pub open spec fn holds_one_frame(cache: Seq<u8>, stream: Seq<u8>) -> bool {
    quiet(
        cache_after(cache, stream),
        stream.subrange(scanned(carried(cache), stream) as int, stream.len() as int),
    )
}

/// The frames of a stream fed as one chunk: what the one call hands out.
pub open spec fn frames_of_whole(cache: Seq<u8>, stream: Seq<u8>) -> Seq<Seq<u8>> {
    match emitted(cache_after(cache, stream)) {
        Some(frame) => seq![frame],
        None => Seq::empty(),
    }
}

/// Scanning two chunks one after the other, without a call boundary between
/// them, is scanning their concatenation.
pub proof fn lemma_scan_concat(cache: Seq<u8>, a: Seq<u8>, b: Seq<u8>)
    ensures
        scan(cache, a + b) == scan(scan(cache, a), b),
    decreases a.len(),
{
    if a.len() == 0 {
        assert(a + b =~= b);
    } else {
        assert((a + b).first() == a.first());
        assert((a + b).drop_first() =~= a.drop_first() + b);
        lemma_scan_concat(accept(cache, a.first()), a.drop_first(), b);
    }
}

/// While no `$` arrives, an empty cache stays empty.
pub proof fn lemma_scan_without_start(chunk: Seq<u8>)
    requires
        forall|i: int| 0 <= i < chunk.len() ==> chunk[i] != FRAME_START,
    ensures
        scan(Seq::empty(), chunk) == Seq::<u8>::empty(),
    decreases chunk.len(),
{
    if chunk.len() > 0 {
        let rest = chunk.drop_first();
        assert forall|i: int| 0 <= i < rest.len() implies rest[i] != FRAME_START by {
            assert(rest[i] == chunk[i + 1]);
        }
        assert(accept(Seq::empty(), chunk.first()) == Seq::<u8>::empty());
        lemma_scan_without_start(rest);
    }
}

/// Garbage rejection: a chunk without any `$`, fed to an assembler that holds
/// no frame in progress, hands out no frame and leaves the cache empty.
pub proof fn lemma_garbage_rejected(cache: Seq<u8>, chunk: Seq<u8>)
    requires
        carried(cache).len() == 0,
        forall|i: int| 0 <= i < chunk.len() ==> chunk[i] != FRAME_START,
    ensures
        cache_after(cache, chunk).len() == 0,
        emitted(cache_after(cache, chunk)).is_none(),
{
    assert(carried(cache) =~= Seq::empty());
    lemma_scan_without_start(chunk);
}

/// Looking at a chunk and at what follows it: scanning stops inside the
/// chunk, or goes on behind it.
pub proof fn lemma_scanned_concat(cache: Seq<u8>, a: Seq<u8>, b: Seq<u8>)
    ensures
        scanned(cache, a) <= a.len(),
        scanned(cache, a + b) == if is_complete(scan(cache, a)) {
            scanned(cache, a)
        } else {
            a.len() + scanned(scan(cache, a), b)
        },
    decreases a.len(),
{
    if a.len() == 0 {
        assert(a + b =~= b);
    } else if is_complete(cache) {
        lemma_complete_absorbs(cache, a);
    } else {
        assert((a + b).first() == a.first());
        assert((a + b).drop_first() =~= a.drop_first() + b);
        lemma_scanned_concat(accept(cache, a.first()), a.drop_first(), b);
    }
}

/// A stream that is quiet behind some cache is quiet behind an empty one.
pub proof fn lemma_quiet_from_empty(cache: Seq<u8>, stream: Seq<u8>)
    requires
        quiet(cache, stream),
    ensures
        quiet(Seq::empty(), stream),
    decreases stream.len(),
{
    if stream.len() > 0 {
        let next = accept(carried(cache), stream.first());
        let fresh = accept(carried(Seq::empty()), stream.first());
        if stream.first() == FRAME_START {
            assert(fresh == next);
        } else {
            assert(fresh =~= Seq::empty());
            lemma_quiet_from_empty(next, stream.drop_first());
        }
    }
}

/// A quiet stream stays quiet when its first bytes are dropped.
pub proof fn lemma_quiet_skip(cache: Seq<u8>, dropped: Seq<u8>, stream: Seq<u8>)
    requires
        quiet(cache, dropped + stream),
    ensures
        quiet(Seq::empty(), stream),
    decreases dropped.len(),
{
    if dropped.len() == 0 {
        assert(dropped + stream =~= stream);
        lemma_quiet_from_empty(cache, stream);
    } else {
        assert((dropped + stream).first() == dropped.first());
        assert((dropped + stream).drop_first() =~= dropped.drop_first() + stream);
        lemma_quiet_skip(
            accept(carried(cache), dropped.first()),
            dropped.drop_first(),
            stream,
        );
    }
}

/// One call on the first part of a quiet stream hands out no frame, and the
/// rest of the stream is quiet behind what the call leaves.
pub proof fn lemma_quiet_chunk(cache: Seq<u8>, chunk: Seq<u8>, stream: Seq<u8>)
    requires
        quiet(cache, chunk + stream),
    ensures
        !is_frame(cache_after(cache, chunk)),
        quiet(cache_after(cache, chunk), stream),
    decreases chunk.len(),
{
    if chunk.len() == 0 {
        assert(chunk + stream =~= stream);
        assert(carried(carried(cache)) == carried(cache));
    } else {
        assert((chunk + stream).first() == chunk.first());
        assert((chunk + stream).drop_first() =~= chunk.drop_first() + stream);
        let next = accept(carried(cache), chunk.first());
        if is_complete(next) {
            lemma_complete_absorbs(next, chunk.drop_first());
            lemma_quiet_skip(next, chunk.drop_first(), stream);
            assert(carried(next) =~= carried(Seq::empty()));
        } else {
            lemma_quiet_chunk(next, chunk.drop_first(), stream);
        }
    }
}

/// However a quiet stream is cut into chunks, no call hands out a frame.
pub proof fn lemma_quiet_chunks(cache: Seq<u8>, chunks: Seq<Seq<u8>>)
    requires
        quiet(cache, chunks.flatten()),
    ensures
        frames_of(cache, chunks) == Seq::<Seq<u8>>::empty(),
    decreases chunks.len(),
{
    if chunks.len() > 0 {
        lemma_quiet_chunk(cache, chunks.first(), chunks.drop_first().flatten());
        lemma_quiet_chunks(cache_after(cache, chunks.first()), chunks.drop_first());
    }
}

/// However a stream that holds one frame at most is cut into chunks, the
/// calls hand out what the one call on the whole stream hands out.
pub proof fn lemma_frames_of_chunks(cache: Seq<u8>, chunks: Seq<Seq<u8>>)
    requires
        holds_one_frame(cache, chunks.flatten()),
    ensures
        frames_of(cache, chunks) == frames_of_whole(cache, chunks.flatten()),
    decreases chunks.len(),
{
    let stream = chunks.flatten();
    if chunks.len() == 0 {
        assert(stream.len() == 0);
        assert(cache_after(cache, stream) == carried(cache));
    } else {
        let a = chunks.first();
        let rest = chunks.drop_first();
        let tail = rest.flatten();
        let start = carried(cache);
        let next = cache_after(cache, a);
        assert(stream == a + tail);
        lemma_scan_concat(start, a, tail);
        lemma_scanned_concat(start, a, tail);
        let n = scanned(start, stream) as int;
        if is_complete(next) {
            lemma_complete_absorbs(next, tail);
            assert(stream.subrange(n, stream.len() as int) =~= a.subrange(n, a.len() as int)
                + tail);
            lemma_quiet_skip(next, a.subrange(n, a.len() as int), tail);
            assert(carried(next) =~= carried(Seq::empty()));
            assert(quiet(next, tail));
            lemma_quiet_chunks(next, rest);
        } else {
            assert(carried(next) == next);
            lemma_scanned_concat(next, tail, Seq::empty());
            assert(stream.subrange(n, stream.len() as int) =~= tail.subrange(
                scanned(next, tail) as int,
                tail.len() as int,
            ));
            lemma_frames_of_chunks(next, rest);
        }
    }
}

/// Framing does not depend on chunk boundaries: a stream that holds one frame
/// at most yields the same frames whether it is fed as one chunk or cut into
/// chunks at arbitrary places.
pub proof fn lemma_chunking_keeps_frames(cache: Seq<u8>, stream: Seq<u8>, chunks: Seq<Seq<u8>>)
    requires
        chunks.flatten() == stream,
        holds_one_frame(cache, stream),
    ensures
        frames_of(cache, chunks) == frames_of(cache, seq![stream]),
{
    lemma_frames_of_chunks(cache, chunks);
    let one = seq![stream];
    one.lemma_flatten_one_element();
    assert(one.first() == stream);
    lemma_frames_of_chunks(cache, one);
}

/// While no closing byte arrives, the cache stays open and every byte is
/// looked at.
pub proof fn lemma_scan_without_end(cache: Seq<u8>, chunk: Seq<u8>)
    requires
        !is_complete(cache),
        forall|i: int| 0 <= i < chunk.len() ==> chunk[i] != FRAME_END,
    ensures
        !is_complete(scan(cache, chunk)),
        scanned(cache, chunk) == chunk.len(),
    decreases chunk.len(),
{
    if chunk.len() > 0 {
        let rest = chunk.drop_first();
        assert forall|i: int| 0 <= i < rest.len() implies rest[i] != FRAME_END by {
            assert(rest[i] == chunk[i + 1]);
        }
        lemma_scan_without_end(accept(cache, chunk.first()), rest);
    }
}

/// A stream with no closing byte before its last byte holds one frame at
/// most: a single line, whole or in part, can be cut anywhere.
pub proof fn lemma_one_line_holds_one_frame(cache: Seq<u8>, stream: Seq<u8>)
    requires
        forall|i: int| 0 <= i < stream.len() - 1 ==> stream[i] != FRAME_END,
    ensures
        holds_one_frame(cache, stream),
{
    let start = carried(cache);
    if stream.len() > 0 {
        let line = stream.drop_last();
        let end = seq![stream.last()];
        assert(line + end =~= stream);
        lemma_scan_without_end(start, line);
        lemma_scanned_concat(start, line, end);
        assert(scanned(scan(start, line), end) == 1) by {
            assert(end.drop_first().len() == 0);
            reveal_with_fuel(scanned, 2);
        }
    }
}

/// A stream cut into chunks of one byte each.
pub open spec fn byte_by_byte(stream: Seq<u8>) -> Seq<Seq<u8>> {
    Seq::new(stream.len(), |i: int| seq![stream[i]])
}

/// The chunks of one byte each make up the stream.
pub proof fn lemma_byte_by_byte_flatten(stream: Seq<u8>)
    ensures
        byte_by_byte(stream).flatten() == stream,
    decreases stream.len(),
{
    let chunks = byte_by_byte(stream);
    if stream.len() > 0 {
        assert(chunks.drop_first() =~= byte_by_byte(stream.drop_first()));
        lemma_byte_by_byte_flatten(stream.drop_first());
        assert(seq![stream[0]] + stream.drop_first() =~= stream);
    }
}

/// A stream that is not quiet hands out a frame when it is fed byte by byte.
pub proof fn lemma_loud_stream_hands_out(cache: Seq<u8>, stream: Seq<u8>)
    requires
        !quiet(cache, stream),
    ensures
        frames_of(cache, byte_by_byte(stream)).len() > 0,
    decreases stream.len(),
{
    let chunks = byte_by_byte(stream);
    let one = seq![stream.first()];
    assert(chunks.first() == one);
    assert(chunks.drop_first() =~= byte_by_byte(stream.drop_first()));
    let next = accept(carried(cache), stream.first());
    assert(cache_after(cache, one) == next) by {
        assert(one.first() == stream.first());
        assert(one.drop_first().len() == 0);
        reveal_with_fuel(scan, 2);
    }
    if !is_frame(next) {
        lemma_loud_stream_hands_out(next, stream.drop_first());
    }
}

/// The stream that holds one frame at most is the widest for which framing
/// does not depend on chunk boundaries: any other stream can be cut so that
/// the calls hand out more frames than the one call on the whole stream.
pub proof fn lemma_further_frame_depends_on_chunking(cache: Seq<u8>, stream: Seq<u8>)
    requires
        !holds_one_frame(cache, stream),
    ensures
        exists|chunks: Seq<Seq<u8>>| #[trigger]
            chunks.flatten() == stream && frames_of(cache, chunks) != frames_of(
                cache,
                seq![stream],
            ),
{
    let start = carried(cache);
    lemma_scanned_concat(start, stream, Seq::empty());
    let n = scanned(start, stream) as int;
    let head = stream.subrange(0, n);
    let rest = stream.subrange(n, stream.len() as int);
    let chunks = seq![head] + byte_by_byte(rest);
    assert(head + rest =~= stream);
    assert(chunks.first() == head);
    assert(chunks.drop_first() =~= byte_by_byte(rest));
    lemma_byte_by_byte_flatten(rest);
    assert(chunks.flatten() == stream);
    lemma_scanned_concat(start, head, rest);
    lemma_scan_concat(start, head, rest);
    let next = cache_after(cache, head);
    assert(rest.len() > 0);
    assert(is_complete(next));
    lemma_complete_absorbs(next, rest);
    assert(next == cache_after(cache, stream));
    lemma_loud_stream_hands_out(next, rest);
    let whole = seq![stream];
    assert(whole.first() == stream);
    assert(whole.drop_first().len() == 0);
    assert(frames_of(cache, whole) == frames_of_whole(cache, stream)) by {
        reveal_with_fuel(frames_of, 2);
        assert(frames_of(next, whole.drop_first()) =~= Seq::<Seq<u8>>::empty());
        if is_frame(next) {
            assert(seq![next] + Seq::<Seq<u8>>::empty() =~= seq![next]);
        }
    }
    assert(frames_of(cache, chunks).len() > frames_of(cache, whole).len());
}

} // verus!
