//! What the codec guarantees: a message written into an image is the
//! message read out of it.

use crate::bit::{
    after, is_mask, lemma_usable_each, loaded, stored, usable, BitDistribution, BitEncode,
    BitEncoder, Lsb, Rsb,
};
use crate::exec::{
    capacity, coder_of, embed_outcome, extract_outcome, framed_bits, samples_inside, RunError,
};
use crate::grid::PixelGrid;
use crate::steg::{
    carried, embedded, ends_with, fits, marker, marker_bits, reading, scan_len, scan_stop, slot,
    visit_count, Reading, Steganography, MARKER_BITS,
};
use crate::stream::{bits_of, bytes_of, is_binary, lemma_bits_round_trip};
use vstd::prelude::*;

verus! {

/// No pixel is visited twice among the first `n` visits.
pub open spec fn distinct_visits(visits: Seq<int>, n: nat) -> bool {
    forall|a: int, b: int| 0 <= a < b < n ==> visits[a] != visits[b]
}

/// The marker does not show before the end of the stream `bits`.
pub open spec fn marker_only_at_end(bits: Seq<u8>) -> bool {
    forall|j: int| 0 <= j < bits.len() ==> !ends_with(#[trigger] bits.subrange(0, j), marker_bits())
}

/// A bit that was stored under a mask is the bit loaded under that mask.
pub proof fn lemma_load_stored(c: u8, mask: u8, bit: u8)
    requires
        is_mask(mask),
        bit <= 1,
    ensures
        loaded(stored(c, mask, bit), mask) == bit,
{
    assert((c & !mask) & mask == 0) by (bit_vector);
    assert((c | mask) & mask != 0) by (bit_vector)
        requires
            mask == 1 || mask == 2 || mask == 4 || mask == 8,
    ;
}

/// Storing a bit under a mask changes no other bit of the byte.
pub proof fn lemma_store_keeps_others(c: u8, mask: u8, bit: u8)
    ensures
        stored(c, mask, bit) & !mask == c & !mask,
{
    assert((c & !mask) & !mask == c & !mask) by (bit_vector);
    assert((c | mask) & !mask == c & !mask) by (bit_vector);
}

/// The bits of two runs of bytes, one after the other, are the bits of the
/// first and then the bits of the second.
pub proof fn lemma_bits_of_concat(a: Seq<u8>, b: Seq<u8>)
    ensures
        bits_of(a + b) == bits_of(a) + bits_of(b),
{
    let whole = bits_of(a + b);
    let parts = bits_of(a) + bits_of(b);
    assert(whole.len() == parts.len());
    assert forall|i: int| 0 <= i < whole.len() implies whole[i] == parts[i] by {
        if i < 8 * a.len() {
            assert((a + b)[i / 8] == a[i / 8]);
        } else {
            let j = i - 8 * a.len();
            assert(i / 8 == a.len() + j / 8);
            assert(i % 8 == j % 8);
            assert((a + b)[i / 8] == b[j / 8]);
            assert(parts[i] == bits_of(b)[j]);
        }
    }
    assert(whole =~= parts);
}

/// Bits that go to pixels inside the grid go to channel bytes inside it, and
/// two bits go to different channel bytes if no pixel is visited twice.
pub proof fn lemma_slots(visits: Seq<int>, pixels: int, n: nat)
    requires
        fits(n, visits, pixels),
    ensures
        forall|i: int| 0 <= i < n ==> 0 <= #[trigger] slot(visits, i) < 3 * pixels,
        distinct_visits(visits, visit_count(n)) ==> forall|i: int, j: int|
            0 <= i < n && 0 <= j < n && i != j ==> slot(visits, i) != slot(visits, j),
{
    assert forall|i: int| 0 <= i < n implies 0 <= #[trigger] slot(visits, i) < 3 * pixels by {
        assert(0 <= i / 3 < visit_count(n));
        assert(0 <= visits[i / 3] < pixels);
    }
    if distinct_visits(visits, visit_count(n)) {
        assert forall|i: int, j: int| 0 <= i < n && 0 <= j < n && i != j implies slot(visits, i)
            != slot(visits, j) by {
            assert(0 <= i / 3 < visit_count(n));
            assert(0 <= j / 3 < visit_count(n));
            if i / 3 < j / 3 {
                assert(visits[i / 3] != visits[j / 3]);
            } else if j / 3 < i / 3 {
                assert(visits[j / 3] != visits[i / 3]);
            }
        }
    }
}

/// Writing bits leaves the number of channel bytes as it was.
pub proof fn lemma_embedded_len<E: BitEncode>(
    data: Seq<u8>,
    e: E,
    bits: Seq<u8>,
    visits: Seq<int>,
    n: nat,
)
    requires
        forall|i: int| 0 <= i < n ==> 0 <= #[trigger] slot(visits, i) < data.len(),
    ensures
        embedded(data, e, bits, visits, n).len() == data.len(),
    decreases n,
{
    if n > 0 {
        lemma_embedded_len(data, e, bits, visits, (n - 1) as nat);
        assert(0 <= slot(visits, n - 1) < data.len());
    }
}

/// A channel byte that none of the first `n` bits goes to is as it was.
pub proof fn lemma_embedded_elsewhere<E: BitEncode>(
    data: Seq<u8>,
    e: E,
    bits: Seq<u8>,
    visits: Seq<int>,
    n: nat,
    at: int,
)
    requires
        0 <= at < data.len(),
        forall|i: int| 0 <= i < n ==> 0 <= #[trigger] slot(visits, i) < data.len(),
        forall|i: int| 0 <= i < n ==> #[trigger] slot(visits, i) != at,
    ensures
        embedded(data, e, bits, visits, n)[at] == data[at],
    decreases n,
{
    if n > 0 {
        let m = (n - 1) as nat;
        lemma_embedded_elsewhere(data, e, bits, visits, m, at);
        lemma_embedded_len(data, e, bits, visits, m);
        assert(slot(visits, m as int) != at);
    }
}

/// Once bit `i` is written, its channel byte holds it under the selector of
/// call `i`, whatever is written after it, if no two bits go to one place.
pub proof fn lemma_embedded_here<E: BitEncode>(
    data: Seq<u8>,
    e: E,
    bits: Seq<u8>,
    visits: Seq<int>,
    n: nat,
    i: int,
)
    requires
        0 <= i < n,
        forall|j: int| 0 <= j < n ==> 0 <= #[trigger] slot(visits, j) < data.len(),
        forall|j: int, k: int|
            0 <= j < n && 0 <= k < n && j != k ==> slot(visits, j) != slot(visits, k),
    ensures
        embedded(data, e, bits, visits, n)[slot(visits, i)] == stored(
            data[slot(visits, i)],
            after(e, i as nat).selector(),
            bits[i],
        ),
    decreases n,
{
    let m = (n - 1) as nat;
    lemma_embedded_len(data, e, bits, visits, m);
    if i == m {
        assert forall|j: int| 0 <= j < m implies #[trigger] slot(visits, j) != slot(visits, i) by {}
        lemma_embedded_elsewhere(data, e, bits, visits, m, slot(visits, i));
    } else {
        lemma_embedded_here(data, e, bits, visits, m, i);
        assert(slot(visits, m as int) != slot(visits, i));
    }
}

/// A scan ends at the first place before which the stream ends with `end`.
pub proof fn lemma_scan_stop_first(stream: Seq<u8>, end: Seq<u8>, from: nat, stop: nat)
    requires
        from <= stop <= stream.len(),
        forall|j: int| from <= j < stop ==> !ends_with(#[trigger] stream.subrange(0, j), end),
        stop == stream.len() || ends_with(stream.subrange(0, stop as int), end),
    ensures
        scan_stop(stream, end, from) == stop,
    decreases stop - from,
{
    if from < stop {
        assert(!ends_with(stream.subrange(0, from as int), end));
        lemma_scan_stop_first(stream, end, from + 1, stop);
    }
}

/// Every bit that was written is the bit that a scan reads at its place,
/// if the strategy is usable for every bit and no two bits go to one place.
pub proof fn lemma_read_back<E: BitEncode>(
    data: Seq<u8>,
    e: E,
    bits: Seq<u8>,
    visits: Seq<int>,
    pixels: int,
)
    requires
        data.len() == 3 * pixels,
        is_binary(bits),
        fits(bits.len(), visits, pixels),
        distinct_visits(visits, visit_count(bits.len())),
        usable(e, bits.len()),
    ensures
        bits.len() <= 3 * visits.len(),
        forall|j: int|
            0 <= j <= bits.len() ==> #[trigger] carried(
                embedded(data, e, bits, visits, bits.len()),
                e,
                visits,
            ).subrange(0, j) == bits.subrange(0, j),
{
    let n = bits.len();
    let out = embedded(data, e, bits, visits, n);
    let stream = carried(out, e, visits);
    lemma_slots(visits, pixels, n);
    lemma_usable_each(e, n);
    assert forall|i: int| 0 <= i < n implies stream[i] == bits[i] by {
        lemma_embedded_here(data, e, bits, visits, n, i);
        assert(is_mask(after(e, i as nat).selector()));
        lemma_load_stored(data[slot(visits, i)], after(e, i as nat).selector(), bits[i]);
    }
    assert forall|j: int| 0 <= j <= n implies #[trigger] stream.subrange(0, j) == bits.subrange(
        0,
        j,
    ) by {
        assert(stream.subrange(0, j) =~= bits.subrange(0, j));
    }
}

/// A message with the marker after it, as bits, ends with the marker, and
/// before the marker stand the bits of the message.
pub proof fn lemma_framed_stream(msg: Seq<u8>)
    ensures
        bits_of(msg + marker()).len() == 8 * msg.len() + MARKER_BITS,
        is_binary(bits_of(msg + marker())),
        ends_with(bits_of(msg + marker()), marker_bits()),
        bits_of(msg + marker()).subrange(0, 8 * msg.len() as int) == bits_of(msg),
{
    lemma_bits_round_trip(msg + marker());
    lemma_bits_of_concat(msg, marker());
    lemma_concat_parts(bits_of(msg), marker_bits());
}

/// A run and another after it: the whole starts with the first and ends
/// with the second.
pub proof fn lemma_concat_parts(a: Seq<u8>, b: Seq<u8>)
    ensures
        (a + b).subrange(0, a.len() as int) == a,
        (a + b).subrange(a.len() as int, (a + b).len() as int) == b,
{
    assert((a + b).subrange(0, a.len() as int) =~= a);
    assert((a + b).subrange(a.len() as int, (a + b).len() as int) =~= b);
}

/// Round trip. Let a message with the marker after it be written into
/// channel bytes, to pixels inside the grid and none of them visited twice,
/// by a strategy that is usable for every bit. If the marker does not show
/// in the stream before its end, then reading the result with the strategy
/// in the same state and the same order of visits gives the message.
pub proof fn lemma_round_trip<E: BitEncode>(
    data: Seq<u8>,
    e: E,
    msg: Seq<u8>,
    visits: Seq<int>,
    pixels: int,
)
    requires
        data.len() == 3 * pixels,
        fits(bits_of(msg + marker()).len(), visits, pixels),
        distinct_visits(visits, visit_count(bits_of(msg + marker()).len())),
        usable(e, bits_of(msg + marker()).len()),
        marker_only_at_end(bits_of(msg + marker())),
    ensures
        scan_len(
            embedded(data, e, bits_of(msg + marker()), visits, bits_of(msg + marker()).len()),
            e,
            visits,
        ) == bits_of(msg + marker()).len(),
        reading(
            embedded(data, e, bits_of(msg + marker()), visits, bits_of(msg + marker()).len()),
            e,
            visits,
            true,
        ) == Reading::Payload(msg),
{
    let bits = bits_of(msg + marker());
    let n = bits.len();
    let out = embedded(data, e, bits, visits, n);
    let stream = carried(out, e, visits);
    lemma_framed_stream(msg);
    lemma_read_back(data, e, bits, visits, pixels);
    assert(bits.subrange(0, n as int) =~= bits);
    assert forall|j: int| 0 <= j < n implies !ends_with(
        #[trigger] stream.subrange(0, j),
        marker_bits(),
    ) by {
        assert(stream.subrange(0, j) == bits.subrange(0, j));
    }
    assert(stream.subrange(0, n as int) == bits);
    lemma_scan_stop_first(stream, marker_bits(), 0, n);
    let found = stream.subrange(0, n as int);
    assert(found.subrange(0, found.len() - MARKER_BITS) == bits_of(msg));
    lemma_bits_round_trip(msg);
}

/// Under the sequential distribution no pixel is visited twice.
pub proof fn lemma_sequential_distinct<E: BitEncode>(
    coder: BitEncoder<E>,
    img: PixelGrid,
    samples: Seq<usize>,
    n: nat,
)
    requires
        coder.bit_dist is Sequential,
        n <= img.pixels(),
    ensures
        distinct_visits(coder.visits(&img, samples), n),
{
}

/// Round trip, for both distributions and every strategy. Let `out` be the
/// image that `encode` makes of `img` and a message, the marker switched on.
/// If the marker does not show in the written stream before its end and,
/// under the linear distribution, no sample is visited twice, then what
/// `decode` reads from `out`, with the strategy in the state in which
/// `encode` started and the same samples, is the message.
pub proof fn lemma_decode_inverts_encode<E: BitEncode>(
    coder: BitEncoder<E>,
    img: PixelGrid,
    out: PixelGrid,
    msg: Seq<u8>,
    samples: Seq<usize>,
)
    requires
        coder.end_seq,
        coder.can_encode(&img, msg, samples),
        usable(coder.encoder, coder.stream(msg).len()),
        out.spec_width() == img.spec_width(),
        out.spec_height() == img.spec_height(),
        out@ == coder.written(&img, msg, samples),
        marker_only_at_end(coder.stream(msg)),
        coder.bit_dist is Linear ==> distinct_visits(
            coder.visits(&img, samples),
            visit_count(coder.stream(msg).len()),
        ),
    ensures
        reading(out@, coder.encoder, coder.visits(&out, samples), coder.end_seq)
            == Reading::Payload(msg),
{
    let visits = coder.visits(&img, samples);
    assert(coder.visits(&out, samples) =~= visits);
    if coder.bit_dist is Sequential {
        lemma_sequential_distinct(coder, img, samples, visit_count(coder.stream(msg).len()));
    }
    lemma_round_trip(img@, coder.encoder, msg, visits, img.pixels());
}

/// A message is read only where the scan met the marker: what `decode`
/// gives as the message is what the image carries before the marker, never
/// anything else.
pub proof fn lemma_payload_was_carried<E: BitEncode>(data: Seq<u8>, e: E, visits: Seq<int>)
    requires
        reading(data, e, visits, true) is Payload,
    ensures
        ({
            let found = carried(data, e, visits).subrange(0, scan_len(data, e, visits) as int);
            &&& ends_with(found, marker_bits())
            &&& reading(data, e, visits, true) == Reading::Payload(
                bytes_of(found.subrange(0, found.len() - MARKER_BITS)),
            )
        }),
{
}

/// Marker absence. Where the marker shows nowhere in the bits that an image
/// carries and the strategy is usable for all of them, reading fails for
/// want of the marker.
pub proof fn lemma_no_marker_no_message<E: BitEncode>(data: Seq<u8>, e: E, visits: Seq<int>)
    requires
        usable(e, 3 * visits.len()),
        forall|j: int|
            0 <= j <= 3 * visits.len() ==> !ends_with(
                #[trigger] carried(data, e, visits).subrange(0, j),
                marker_bits(),
            ),
    ensures
        reading(data, e, visits, true) == Reading::NoMarker,
{
    let stream = carried(data, e, visits);
    lemma_scan_stop_first(stream, marker_bits(), 0, stream.len());
}

/// The least-significant-bit strategy has one state, which every call
/// leaves as it is and in which every call can be made.
pub proof fn lemma_lsb_stateless(e: Lsb, n: nat)
    ensures
        after(e, n) == e,
        usable(e, n),
    decreases n,
{
    if n > 0 {
        lemma_lsb_stateless(e, (n - 1) as nat);
    }
}

/// Determinism. Two encoders with the least-significant-bit strategy, the
/// same distribution and the same setting of the marker write the same
/// image for the same message, and writing leaves the encoder as it was, so
/// that writing twice gives the same image twice.
pub proof fn lemma_lsb_deterministic(
    a: BitEncoder<Lsb>,
    b: BitEncoder<Lsb>,
    img: PixelGrid,
    msg: Seq<u8>,
    samples: Seq<usize>,
)
    requires
        a.bit_dist == b.bit_dist,
        a.end_seq == b.end_seq,
    ensures
        a.written(&img, msg, samples) == b.written(&img, msg, samples),
        usable(a.encoder, a.stream(msg).len()),
        after(a.encoder, a.stream(msg).len()) == a.encoder,
{
    lemma_lsb_stateless(a.encoder, a.stream(msg).len());
}

/// Seed reproducibility. Two encoders with the random-significant-bit
/// strategy made from the same seed and the same maximum, with the same
/// distribution and the same setting of the marker, write the same image
/// for the same message and read the same from the same image.
pub proof fn lemma_seed_reproducible(
    a: BitEncoder<Rsb>,
    b: BitEncoder<Rsb>,
    max: u8,
    seed: Seq<char>,
    img: PixelGrid,
    msg: Seq<u8>,
    samples: Seq<usize>,
)
    requires
        a.encoder == Rsb::seeded(max, seed),
        b.encoder == Rsb::seeded(max, seed),
        a.bit_dist == b.bit_dist,
        a.end_seq == b.end_seq,
    ensures
        usable(a.encoder, a.stream(msg).len()) == usable(b.encoder, b.stream(msg).len()),
        a.written(&img, msg, samples) == b.written(&img, msg, samples),
        reading(img@, a.encoder, a.visits(&img, samples), a.end_seq) == reading(
            img@,
            b.encoder,
            b.visits(&img, samples),
            b.end_seq,
        ),
{
}

/// Capacity. The capacity of an image of `W` by `H` pixels is
/// `(3 * W * H - 32) / 8` bytes, rounded down. With the
/// least-significant-bit strategy and the sequential distribution a message
/// is hidden exactly if it is no longer than that: one of exactly that many
/// bytes is, one of a byte more fails for want of capacity.
pub proof fn lemma_capacity_exact(
    img: PixelGrid,
    payload: Seq<u8>,
    samples: Seq<usize>,
    r: Result<PixelGrid, RunError>,
)
    requires
        img.wf(),
        embed_outcome(coder_of(Lsb, BitDistribution::Sequential), &img, payload, samples, r),
    ensures
        capacity(&img) == (3 * (img.spec_width() * img.spec_height()) - 32) / 8,
        r is Ok <==> payload.len() <= capacity(&img),
        payload.len() > capacity(&img) ==> (r matches Err(e) && e is CapacityExceeded),
{
    let coder = coder_of(Lsb, BitDistribution::Sequential);
    lemma_lsb_stateless(Lsb, framed_bits(payload.len()));
    if payload.len() <= capacity(&img) {
        let visits = coder.visits(&img, samples);
        assert(fits(framed_bits(payload.len()), visits, img.pixels()));
    }
}

/// Round trip with the least-significant-bit strategy, which is usable for
/// every bit: whatever message fits is read back, if the marker does not
/// show in the written stream before its end and, under the linear
/// distribution, no sample is visited twice.
pub proof fn lemma_lsb_round_trip(
    coder: BitEncoder<Lsb>,
    img: PixelGrid,
    out: PixelGrid,
    msg: Seq<u8>,
    samples: Seq<usize>,
)
    requires
        coder.end_seq,
        coder.can_encode(&img, msg, samples),
        out.spec_width() == img.spec_width(),
        out.spec_height() == img.spec_height(),
        out@ == coder.written(&img, msg, samples),
        marker_only_at_end(coder.stream(msg)),
        coder.bit_dist is Linear ==> distinct_visits(
            coder.visits(&img, samples),
            visit_count(coder.stream(msg).len()),
        ),
    ensures
        reading(out@, coder.encoder, coder.visits(&out, samples), coder.end_seq)
            == Reading::Payload(msg),
{
    lemma_lsb_stateless(coder.encoder, coder.stream(msg).len());
    lemma_decode_inverts_encode(coder, img, out, msg, samples);
}

/// Round trip of a run. Where `embed_with` has hidden a message in an image,
/// `extract_with` recovers that message from the result with the same
/// strategy and distribution, if the marker does not show in the written
/// stream before its end and, under the linear distribution, the samples are
/// as many as its length says, lie inside the image and are not visited
/// twice.
pub proof fn lemma_run_round_trip<E: BitEncode>(
    encoder: E,
    dist: BitDistribution,
    img: PixelGrid,
    payload: Seq<u8>,
    samples: Seq<usize>,
    hidden: Result<PixelGrid, RunError>,
    found: Result<Vec<u8>, RunError>,
)
    requires
        encoder.wf(),
        img.wf(),
        embed_outcome(coder_of(encoder, dist), &img, payload, samples, hidden),
        hidden is Ok,
        extract_outcome(coder_of(encoder, dist), &hidden->Ok_0, samples, found),
        marker_only_at_end(bits_of(payload + marker())),
        dist matches BitDistribution::Linear { length } ==> samples.len() == length
            && samples_inside(samples, img.pixels()) && distinct_visits(
            coder_of(encoder, dist).visits(&img, samples),
            visit_count(framed_bits(payload.len())),
        ),
    ensures
        found matches Ok(bytes) && bytes@ == payload,
{
    let coder = coder_of(encoder, dist);
    let out = hidden->Ok_0;
    img.lemma_size();
    assert(coder.stream(payload).len() == framed_bits(payload.len()));
    lemma_decode_inverts_encode(coder, img, out, payload, samples);
}

/// What one strategy writes, bit after bit, into a run of bytes, the same
/// strategy reads from them in the same order, if it is usable for every
/// bit. Two strategies made from one seed and one maximum are the same
/// strategy, so this holds of what one of them writes and the other reads.
pub proof fn lemma_strategy_reads_back<E: BitEncode>(e: E, bytes: Seq<u8>, bits: Seq<u8>)
    requires
        usable(e, bits.len()),
        is_binary(bits),
        bytes.len() == bits.len(),
    ensures
        forall|i: int|
            0 <= i < bits.len() ==> loaded(
                stored(bytes[i], #[trigger] after(e, i as nat).selector(), bits[i]),
                after(e, i as nat).selector(),
            ) == bits[i],
{
    lemma_usable_each(e, bits.len());
    assert forall|i: int| 0 <= i < bits.len() implies loaded(
        stored(bytes[i], #[trigger] after(e, i as nat).selector(), bits[i]),
        after(e, i as nat).selector(),
    ) == bits[i] by {
        assert(is_mask(after(e, i as nat).selector()));
        lemma_load_stored(bytes[i], after(e, i as nat).selector(), bits[i]);
    }
}

/// The strategy shows in the image only through its selectors: where two
/// strategies store some bit of the stream differently in its channel byte,
/// the images that they write differ, if no pixel is visited twice. So two
/// seeds give two images as soon as their selectors part at one bit that
/// the selector matters for.
pub proof fn lemma_selectors_show<E: BitEncode>(
    data: Seq<u8>,
    a: E,
    b: E,
    bits: Seq<u8>,
    visits: Seq<int>,
    pixels: int,
    i: int,
)
    requires
        data.len() == 3 * pixels,
        fits(bits.len(), visits, pixels),
        distinct_visits(visits, visit_count(bits.len())),
        0 <= i < bits.len(),
        stored(data[slot(visits, i)], after(a, i as nat).selector(), bits[i]) != stored(
            data[slot(visits, i)],
            after(b, i as nat).selector(),
            bits[i],
        ),
    ensures
        embedded(data, a, bits, visits, bits.len()) != embedded(
            data,
            b,
            bits,
            visits,
            bits.len(),
        ),
{
    lemma_slots(visits, pixels, bits.len());
    lemma_embedded_here(data, a, bits, visits, bits.len(), i);
    lemma_embedded_here(data, b, bits, visits, bits.len(), i);
}

} // verus!
