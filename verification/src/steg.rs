//! The codec: writes a payload, bit by bit, into the channel bytes of a
//! pixel grid, and reads it back.

use crate::bit::{
    after, lemma_ready_prefix_stops, loaded, ready_prefix, stored, usable, BitDistribution,
    BitEncode, BitEncoder,
};
use crate::grid::{channel_index, PixelGrid};
use crate::parse::{is_word, ParseError};
use crate::stream::{bits_of, bytes_of, from_bits, is_binary, ragged_message, to_bits};
use crate::StegError;
use vstd::prelude::*;
use vstd::string::StringSliceAdditionalSpecFns;

verus! {

/// Supported steganography encoding algorithms.
#[derive(Debug, Clone, Copy, PartialEq, Eq, Structural)]
pub enum StegMethod {
    /// Least significant bit encoding: each bit of the message is encoded
    /// into the least significant bit of each RGB byte of each pixel.
    LeastSignificantBit,
    /// Random significant bit encoding: each bit of the message is encoded
    /// randomly into one of the `n` least significant bits of each RGB byte
    /// of each pixel.
    RandomSignificantBit,
}

impl StegMethod {
    /// The method that the text names: `lsb` or `rsb`.
    pub open spec fn parse(s: Seq<u8>) -> Result<StegMethod, ParseError> {
        if s == "lsb".spec_bytes() {
            Ok(StegMethod::LeastSignificantBit)
        } else if s == "rsb".spec_bytes() {
            Ok(StegMethod::RandomSignificantBit)
        } else {
            Err(ParseError::UnknownMethod)
        }
    }

    /// Reads a method from its name: `lsb` or `rsb`.
    pub fn from_str(method: &str) -> (r: Result<StegMethod, ParseError>)
        ensures
            r == StegMethod::parse(method.spec_bytes()),
    {
        let text = method.as_bytes();
        assert(text@.subrange(0, text@.len() as int) =~= text@);
        if is_word(text, 0, text.len(), "lsb".as_bytes()) {
            Ok(StegMethod::LeastSignificantBit)
        } else if is_word(text, 0, text.len(), "rsb".as_bytes()) {
            Ok(StegMethod::RandomSignificantBit)
        } else {
            Err(ParseError::UnknownMethod)
        }
    }
}

/// The end-of-message marker, the ASCII text `$TGV`.
pub open spec fn marker() -> Seq<u8> {
    seq![0x24u8, 0x54u8, 0x47u8, 0x56u8]
}

/// The marker as bits.
pub open spec fn marker_bits() -> Seq<u8> {
    bits_of(marker())
}

/// The number of bits of the marker.
pub const MARKER_BITS: usize = 32;

/// Whether the stream `bits` ends with the stream `end`.
pub open spec fn ends_with(bits: Seq<u8>, end: Seq<u8>) -> bool {
    end.len() <= bits.len() && bits.subrange(bits.len() - end.len(), bits.len() as int) == end
}

/// The number of pixels that a stream of `bits` bits visits, three bits to a
/// pixel.
pub open spec fn visit_count(bits: nat) -> nat {
    (bits + 2) / 3
}

/// The place among the channel bytes that bit `i` of a stream goes to, when
/// the pixels are visited in the order `visits`.
pub open spec fn slot(visits: Seq<int>, i: int) -> int {
    3 * visits[i / 3] + i % 3
}

/// Whether a stream of `bits` bits has a pixel to go to for every three of
/// its bits, each inside a grid of `pixels` pixels.
pub open spec fn fits(bits: nat, visits: Seq<int>, pixels: int) -> bool {
    &&& visit_count(bits) <= visits.len()
    &&& forall|k: int| 0 <= k < visit_count(bits) ==> 0 <= #[trigger] visits[k] < pixels
}

/// The channel bytes `data` after the first `n` bits of `bits` have been
/// written, bit `i` with the selector of call `i` of the strategy `e`.
pub open spec fn embedded<E: BitEncode>(
    data: Seq<u8>,
    e: E,
    bits: Seq<u8>,
    visits: Seq<int>,
    n: nat,
) -> Seq<u8>
    decreases n,
{
    if n == 0 {
        data
    } else {
        let i = (n - 1) as nat;
        let before = embedded(data, e, bits, visits, i);
        let at = slot(visits, i as int);
        before.update(at, stored(before[at], after(e, i).selector(), bits[i as int]))
    }
}

/// The first `n` bits that the channel bytes `data` carry, bit `i` read with
/// the selector of call `i` of the strategy `e`.
pub open spec fn extracted<E: BitEncode>(data: Seq<u8>, e: E, visits: Seq<int>, n: nat) -> Seq<u8> {
    Seq::new(n, |i: int| loaded(data[slot(visits, i)], after(e, i as nat).selector()))
}

/// Where a scan of `stream` that has come to bit `from` ends: at the first
/// place from there on before which the stream ends with `end`, or where the
/// stream is over.
pub open spec fn scan_stop(stream: Seq<u8>, end: Seq<u8>, from: nat) -> nat
    decreases stream.len() - from,
{
    if from >= stream.len() {
        stream.len()
    } else if ends_with(stream.subrange(0, from as int), end) {
        from
    } else {
        scan_stop(stream, end, from + 1)
    }
}

/// What reading a message out of channel bytes comes to.
pub enum Reading {
    /// The bytes of the message.
    Payload(Seq<u8>),
    /// The scan ended without meeting the marker.
    NoMarker,
    /// The bits found do not regroup into whole bytes.
    Ragged,
    /// The strategy met a selector that names no single bit.
    BadSelector,
}

/// The bits that a scan of the channel bytes `data` can reach: three for
/// each pixel visited.
pub open spec fn carried<E: BitEncode>(data: Seq<u8>, e: E, visits: Seq<int>) -> Seq<u8> {
    extracted(data, e, visits, 3 * visits.len())
}

/// The number of bits that a scan of the channel bytes `data` reads before
/// it ends.
pub open spec fn scan_len<E: BitEncode>(data: Seq<u8>, e: E, visits: Seq<int>) -> nat {
    scan_stop(carried(data, e, visits), marker_bits(), 0)
}

/// What reading a message out of the channel bytes `data` comes to, with the
/// strategy `e` and the pixels visited in the order `visits`; `end_seq`
/// tells whether the marker is asked for and taken off.
pub open spec fn reading<E: BitEncode>(
    data: Seq<u8>,
    e: E,
    visits: Seq<int>,
    end_seq: bool,
) -> Reading {
    let stop = scan_len(data, e, visits);
    let found = carried(data, e, visits).subrange(0, stop as int);
    if !usable(e, stop) {
        Reading::BadSelector
    } else if end_seq && !ends_with(found, marker_bits()) {
        Reading::NoMarker
    } else {
        let payload = if end_seq {
            found.subrange(0, found.len() - MARKER_BITS)
        } else {
            found
        };
        if payload.len() % 8 != 0 {
            Reading::Ragged
        } else {
            Reading::Payload(bytes_of(payload))
        }
    }
}

/// Whether the result of `decode` says what the reading says.
pub open spec fn agrees(r: Result<Vec<u8>, StegError>, reading: Reading) -> bool {
    match reading {
        Reading::Payload(bytes) => r matches Ok(v) && v@ == bytes,
        Reading::NoMarker => r matches Err(e) && e is EncodingNotFound,
        Reading::Ragged => r matches Err(e) && (e matches StegError::Decoding(m) && m@
            == ragged_message()),
        Reading::BadSelector => r matches Err(e) && e is Selector,
    }
}

/// A scan ends at or after the bit it has come to, and inside the stream.
pub proof fn lemma_scan_stop_bounds(stream: Seq<u8>, end: Seq<u8>, from: nat)
    requires
        from <= stream.len(),
    ensures
        from <= scan_stop(stream, end, from) <= stream.len(),
    decreases stream.len() - from,
{
    if from < stream.len() && !ends_with(stream.subrange(0, from as int), end) {
        lemma_scan_stop_bounds(stream, end, from + 1);
    }
}

/// Whether the bits read so far end with the bits of `end`.
pub fn has_end(bits: &[u8], end: &[u8]) -> (found: bool)
    ensures
        found == ends_with(bits@, end@),
{
    if bits.len() < end.len() {
        return false;
    }
    let start: usize = bits.len() - end.len();
    let mut i: usize = 0;
    while i < end.len()
        invariant
            start + end@.len() == bits@.len(),
            bits@.len() <= usize::MAX,
            i <= end@.len(),
            forall|j: int| 0 <= j < i ==> bits@[start + j] == end@[j],
        decreases end@.len() - i,
    {
        if bits[start + i] != end[i] {
            assert(bits@.subrange(start as int, bits@.len() as int)[i as int] != end@[i as int]);
            return false;
        }
        i = i + 1;
    }
    assert(bits@.subrange(start as int, bits@.len() as int) =~= end@);
    true
}

/// The end-of-message marker as bits.
pub fn end_bits() -> (end: Vec<u8>)
    ensures
        end@ == marker_bits(),
        end@.len() == MARKER_BITS,
{
    let text: Vec<u8> = vec![0x24u8, 0x54u8, 0x47u8, 0x56u8];
    assert(text@ =~= marker());
    to_bits(text.as_slice())
}

/// Trait to encode a message into an image and decode a message from an
/// image.
pub trait Steganography {
    /// Whether the message can be written into the image: `encode` asks for
    /// it.
    spec fn can_encode(&self, img: &PixelGrid, msg: Seq<u8>, samples: Seq<usize>) -> bool;

    /// Whether the image can be scanned: `decode` asks for it.
    spec fn can_decode(&self, img: &PixelGrid, samples: Seq<usize>) -> bool;

    /// Whether the image has room for the marker at least: `max_bytes` asks
    /// for it.
    spec fn can_measure(&self, img: &PixelGrid) -> bool;

    /// Encodes a message into an image. `samples` lists the pixels to visit
    /// under the linear distribution, in order.
    fn encode(&mut self, img: &PixelGrid, msg: &[u8], samples: &[usize]) -> (r: Result<
        PixelGrid,
        StegError,
    >)
        requires
            old(self).can_encode(img, msg@, samples@),
    ;

    /// Decodes a message from an image. `samples` lists the pixels to visit
    /// under the linear distribution, in order.
    fn decode(&mut self, img: &PixelGrid, samples: &[usize]) -> (r: Result<Vec<u8>, StegError>)
        requires
            old(self).can_decode(img, samples@),
    ;

    /// Returns the maximum number of bytes that can be encoded into an image
    /// with the method implemented.
    fn max_bytes(&self, img: &PixelGrid) -> (n: usize)
        requires
            self.can_measure(img),
    ;
}

impl<E: BitEncode> BitEncoder<E> {
    /// The bytes that are written for the message: the message, and after it
    /// the marker unless it is switched off.
    pub open spec fn framed(&self, msg: Seq<u8>) -> Seq<u8> {
        if self.end_seq {
            msg + marker()
        } else {
            msg
        }
    }

    /// The bits that are written for the message.
    pub open spec fn stream(&self, msg: Seq<u8>) -> Seq<u8> {
        bits_of(self.framed(msg))
    }

    /// The pixels in the order in which they are visited, each by its number
    /// in raster order: all of them from the top-left, or the samples given.
    pub open spec fn visits(&self, img: &PixelGrid, samples: Seq<usize>) -> Seq<int> {
        match self.bit_dist {
            BitDistribution::Sequential => Seq::new(img.pixels() as nat, |k: int| k),
            BitDistribution::Linear { .. } => Seq::new(samples.len(), |k: int| samples[k] as int),
        }
    }

    /// The channel bytes of the image with the message written into them.
    pub open spec fn written(&self, img: &PixelGrid, msg: Seq<u8>, samples: Seq<usize>) -> Seq<u8> {
        embedded(
            img@,
            self.encoder,
            self.stream(msg),
            self.visits(img, samples),
            self.stream(msg).len(),
        )
    }

    /// The message followed by the marker, unless the marker is switched off.
    fn frame(&self, msg: &[u8]) -> (framed: Vec<u8>)
        requires
            msg@.len() + 4 <= usize::MAX,
        ensures
            framed@ == self.framed(msg@),
    {
        let mut framed: Vec<u8> = Vec::new();
        let mut i: usize = 0;
        while i < msg.len()
            invariant
                i <= msg@.len(),
                framed@ == msg@.subrange(0, i as int),
            decreases msg@.len() - i,
        {
            framed.push(msg[i]);
            assert(framed@ =~= msg@.subrange(0, i + 1));
            i = i + 1;
        }
        assert(framed@ =~= msg@);
        if self.end_seq {
            framed.push(0x24);
            framed.push(0x54);
            framed.push(0x47);
            framed.push(0x56);
            assert(framed@ =~= msg@ + marker());
        }
        framed
    }
}

impl<E: BitEncode> BitEncoder<E> {
    /// Reads bits from the image until the stream read ends with `end` or
    /// every pixel to visit has been read.
    fn scan(&mut self, img: &PixelGrid, samples: &[usize], end: &Vec<u8>) -> (r: Result<
        Vec<u8>,
        StegError,
    >)
        requires
            old(self).can_decode(img, samples@),
            end@ == marker_bits(),
        ensures
            final(self).bit_dist == old(self).bit_dist,
            final(self).end_seq == old(self).end_seq,
            final(self).encoder.wf(),
            final(self).encoder == after(
                old(self).encoder,
                ready_prefix(
                    old(self).encoder,
                    scan_len(img@, old(self).encoder, old(self).visits(img, samples@)),
                ),
            ),
            r is Ok <==> usable(
                old(self).encoder,
                scan_len(img@, old(self).encoder, old(self).visits(img, samples@)),
            ),
            r matches Ok(found) ==> found@ == carried(
                img@,
                old(self).encoder,
                old(self).visits(img, samples@),
            ).subrange(
                0,
                scan_len(img@, old(self).encoder, old(self).visits(img, samples@)) as int,
            ),
    {
        let ghost e0 = self.encoder;
        let ghost visits = self.visits(img, samples@);
        let ghost stream = carried(img@, e0, visits);
        let total: usize = match self.bit_dist {
            BitDistribution::Sequential => img.pixel_count(),
            BitDistribution::Linear { .. } => samples.len(),
        };
        let mut found: Vec<u8> = Vec::new();
        let mut visit: usize = 0;
        let mut c: usize = 0;
        assert(found@ =~= stream.subrange(0, 0));
        while visit < total
            invariant
                visits == old(self).visits(img, samples@),
                e0 == old(self).encoder,
                stream == carried(img@, e0, visits),
                old(self).can_decode(img, samples@),
                end@ == marker_bits(),
                total == visits.len(),
                self.bit_dist == old(self).bit_dist,
                self.end_seq == old(self).end_seq,
                self.encoder.wf(),
                visit <= total,
                c < 3,
                visit < total || c == 0,
                found@ == stream.subrange(0, 3 * visit + c),
                scan_stop(stream, end@, 0) == scan_stop(stream, end@, (3 * visit + c) as nat),
                self.encoder == after(e0, (3 * visit + c) as nat),
                usable(e0, (3 * visit + c) as nat),
            decreases 3 * (total - visit) - c,
        {
            let ghost i: nat = (3 * visit + c) as nat;
            if has_end(found.as_slice(), end.as_slice()) {
                return Ok(found);
            }
            proof {
                lemma_scan_stop_bounds(stream, end@, i + 1);
            }
            if !self.encoder.ready() {
                proof {
                    lemma_ready_prefix_stops(e0, i, scan_stop(stream, end@, 0));
                }
                return Err(StegError::Selector);
            }
            let pixel: usize = match self.bit_dist {
                BitDistribution::Sequential => visit,
                BitDistribution::Linear { .. } => samples[visit],
            };
            assert(pixel == visits[visit as int]);
            let (x, y) = img.coordinate(pixel);
            let bit: u8 = self.encoder.decode(img.channel(x, y, c));
            assert(channel_index(img.spec_width() as int, x as int, y as int, c as int) == slot(
                visits,
                i as int,
            ));
            found.push(bit);
            assert(found@ =~= stream.subrange(0, i as int + 1));
            c = c + 1;
            if c == 3 {
                c = 0;
                visit = visit + 1;
            }
        }
        Ok(found)
    }
}

impl<E: BitEncode> Steganography for BitEncoder<E> {
    open spec fn can_encode(&self, img: &PixelGrid, msg: Seq<u8>, samples: Seq<usize>) -> bool {
        &&& self.encoder.wf()
        &&& img.wf()
        &&& 8 * (msg.len() + 4) <= usize::MAX
        &&& fits(self.stream(msg).len(), self.visits(img, samples), img.pixels())
    }

    open spec fn can_decode(&self, img: &PixelGrid, samples: Seq<usize>) -> bool {
        &&& self.encoder.wf()
        &&& img.wf()
        &&& self.bit_dist matches BitDistribution::Linear { length } ==> samples.len() == length
        &&& forall|k: int|
            0 <= k < self.visits(img, samples).len() ==> 0 <= #[trigger] self.visits(
                img,
                samples,
            )[k] < img.pixels()
    }

    open spec fn can_measure(&self, img: &PixelGrid) -> bool {
        &&& img.wf()
        &&& 3 * img.pixels() >= MARKER_BITS
    }

    fn max_bytes(&self, img: &PixelGrid) -> (n: usize)
        ensures
            n == (3 * img.pixels() - MARKER_BITS) / 8,
    {
        (img.as_raw().len() - MARKER_BITS) / 8
    }

    fn encode(&mut self, img: &PixelGrid, msg: &[u8], samples: &[usize]) -> (r: Result<
        PixelGrid,
        StegError,
    >)
        ensures
            final(self).bit_dist == old(self).bit_dist,
            final(self).end_seq == old(self).end_seq,
            final(self).encoder.wf(),
            final(self).encoder == after(
                old(self).encoder,
                ready_prefix(old(self).encoder, old(self).stream(msg@).len()),
            ),
            r is Ok <==> usable(old(self).encoder, old(self).stream(msg@).len()),
            r matches Ok(out) ==> out.wf() && out.spec_width() == img.spec_width()
                && out.spec_height() == img.spec_height() && out@ == old(self).written(
                img,
                msg@,
                samples@,
            ),
            r matches Err(e) ==> e is Selector,
    {
        let ghost e0 = self.encoder;
        let ghost visits = self.visits(img, samples@);
        let framed = self.frame(msg);
        let bits = to_bits(framed.as_slice());
        let mut out = img.clone();
        let mut i: usize = 0;
        while i < bits.len()
            invariant
                i <= bits@.len(),
                bits@ == old(self).stream(msg@),
                visits == old(self).visits(img, samples@),
                e0 == old(self).encoder,
                fits(bits@.len(), visits, img.pixels()),
                img.wf(),
                self.bit_dist == old(self).bit_dist,
                self.end_seq == old(self).end_seq,
                self.encoder.wf(),
                self.encoder == after(e0, i as nat),
                usable(e0, i as nat),
                out.wf(),
                out.spec_width() == img.spec_width(),
                out.spec_height() == img.spec_height(),
                out@ == embedded(img@, e0, bits@, visits, i as nat),
            decreases bits@.len() - i,
        {
            let visit: usize = i / 3;
            assert(visit < visit_count(bits@.len()));
            let pixel: usize = match self.bit_dist {
                BitDistribution::Sequential => visit,
                BitDistribution::Linear { .. } => samples[visit],
            };
            assert(pixel == visits[visit as int]);
            let (x, y) = img.coordinate(pixel);
            if !self.encoder.ready() {
                proof {
                    lemma_ready_prefix_stops(e0, i as nat, bits@.len());
                }
                return Err(StegError::Selector);
            }
            let channel = out.channel_mut(x, y, i % 3);
            self.encoder.encode(&bits[i], channel);
            assert(channel_index(img.spec_width() as int, x as int, y as int, (i % 3) as int)
                == slot(visits, i as int));
            i = i + 1;
        }
        Ok(out)
    }

    fn decode(&mut self, img: &PixelGrid, samples: &[usize]) -> (r: Result<Vec<u8>, StegError>)
        ensures
            final(self).bit_dist == old(self).bit_dist,
            final(self).end_seq == old(self).end_seq,
            final(self).encoder.wf(),
            final(self).encoder == after(
                old(self).encoder,
                ready_prefix(
                    old(self).encoder,
                    scan_len(img@, old(self).encoder, old(self).visits(img, samples@)),
                ),
            ),
            agrees(
                r,
                reading(
                    img@,
                    old(self).encoder,
                    old(self).visits(img, samples@),
                    old(self).end_seq,
                ),
            ),
    {
        let end = end_bits();
        let mut found = match self.scan(img, samples, &end) {
            Ok(found) => found,
            Err(_) => {
                return Err(StegError::Selector);
            },
        };
        let ghost whole = found@;
        if self.end_seq {
            if !has_end(found.as_slice(), end.as_slice()) {
                return Err(StegError::EncodingNotFound);
            }
            found.truncate(found.len() - end.len());
        }
        assert(is_binary(found@)) by {
            let stream = carried(img@, old(self).encoder, old(self).visits(img, samples@));
            lemma_scan_stop_bounds(stream, marker_bits(), 0);
            assert forall|i: int| 0 <= i < found@.len() implies found@[i] <= 1 by {
                assert(found@[i] == whole[i]);
                assert(whole[i] == stream[i]);
            }
        }
        from_bits(found.as_slice())
    }
}

} // verus!
