//! A run of the tool on values in memory: what is checked before a message
//! is hidden in an image or recovered from it, and the call that does it.

use crate::bit::{usable, BitDistribution, BitEncode, BitEncoder, Lsb, Rsb};
use crate::cli::{ConfigError, CLI};
use crate::grid::PixelGrid;
use crate::steg::{
    agrees, fits, reading, visit_count, StegMethod, Steganography, MARKER_BITS,
};
use crate::StegError;
use compression::prelude::{BZip2Error, CompressionError};
use vstd::prelude::*;

verus! {

/// Why a run did not hide or recover a message.
#[derive(Debug, PartialEq, Eq)]
pub enum RunError {
    /// The options are invalid or lack what the chosen method needs.
    Config(ConfigError),
    /// The message is longer than what fits in the image.
    CapacityExceeded,
    /// The samples of the linear distribution are too few or name pixels
    /// outside the image.
    Samples,
    /// The codec failed.
    Codec(StegError),
}

/// The maximum number of bytes of a message that fits in the image together
/// with the marker; negative where not even the marker fits.
pub open spec fn capacity(img: &PixelGrid) -> int {
    (3 * img.pixels() - MARKER_BITS) / 8
}

/// The number of bits written for a message of `len` bytes and the marker.
pub open spec fn framed_bits(len: nat) -> nat {
    8 * (len + 4)
}

/// The encoder that a run uses: the given strategy and distribution, with
/// the marker switched on.
pub open spec fn coder_of<E: BitEncode>(encoder: E, dist: BitDistribution) -> BitEncoder<E> {
    BitEncoder { encoder, bit_dist: dist, end_seq: true }
}

/// Whether every sample names a pixel of the image.
pub open spec fn samples_inside(samples: Seq<usize>, pixels: int) -> bool {
    forall|k: int| 0 <= k < samples.len() ==> #[trigger] samples[k] < pixels
}

/// What hiding a message comes to: the message must fit, the samples of a
/// linear distribution must cover it inside the image, and the strategy must
/// be usable for every bit; then the image is the one that `encode` writes.
pub open spec fn embed_outcome<E: BitEncode>(
    coder: BitEncoder<E>,
    img: &PixelGrid,
    payload: Seq<u8>,
    samples: Seq<usize>,
    r: Result<PixelGrid, RunError>,
) -> bool {
    if payload.len() > capacity(img) {
        r matches Err(e) && e is CapacityExceeded
    } else if !fits(framed_bits(payload.len()), coder.visits(img, samples), img.pixels()) {
        r matches Err(e) && e is Samples
    } else if !usable(coder.encoder, framed_bits(payload.len())) {
        r matches Err(e) && (e matches RunError::Codec(c) && c is Selector)
    } else {
        r matches Ok(out) && out.wf() && out.spec_width() == img.spec_width() && out.spec_height()
            == img.spec_height() && out@ == coder.written(img, payload, samples)
    }
}

/// What recovering a message comes to: the samples of a linear distribution
/// must be as many as its length says and lie inside the image; then the
/// result is what `decode` reads.
pub open spec fn extract_outcome<E: BitEncode>(
    coder: BitEncoder<E>,
    img: &PixelGrid,
    samples: Seq<usize>,
    r: Result<Vec<u8>, RunError>,
) -> bool {
    if coder.bit_dist matches BitDistribution::Linear { length } && (samples.len() != length
        || !samples_inside(samples, img.pixels())) {
        r matches Err(e) && e is Samples
    } else {
        match r {
            Ok(found) => agrees(
                Ok(found),
                reading(img@, coder.encoder, coder.visits(img, samples), true),
            ),
            Err(RunError::Codec(e)) => agrees(
                Err(e),
                reading(img@, coder.encoder, coder.visits(img, samples), true),
            ),
            Err(_) => false,
        }
    }
}

/// The maximum number of bytes of a message that fits in the image, if the
/// image has room for the marker at least.
pub fn capacity_of(img: &PixelGrid) -> (cap: Option<usize>)
    requires
        img.wf(),
    ensures
        cap is Some <==> 3 * img.pixels() >= MARKER_BITS,
        cap matches Some(n) ==> n == capacity(img),
{
    if img.as_raw().len() < MARKER_BITS {
        None
    } else {
        Some((img.as_raw().len() - MARKER_BITS) / 8)
    }
}

/// The number of pixels that a message of `len` bytes and the marker visit:
/// the number of samples that the linear distribution needs. `None` where
/// the number of bits does not fit the machine's word.
pub fn required_visits(len: usize) -> (n: Option<usize>)
    ensures
        n is Some <==> framed_bits(len as nat) <= usize::MAX,
        n matches Some(v) ==> v == visit_count(framed_bits(len as nat)),
{
    if len > usize::MAX / 8 - 4 {
        None
    } else {
        let bits: usize = 8 * (len + 4);
        Some(bits / 3 + if bits % 3 == 0 {
            0
        } else {
            1
        })
    }
}

/// Whether the first `needed` samples are there and name pixels among the
/// first `pixels`.
pub fn samples_cover(samples: &[usize], needed: usize, pixels: usize) -> (ok: bool)
    ensures
        ok == (needed <= samples@.len() && forall|k: int|
            0 <= k < needed ==> #[trigger] samples@[k] < pixels),
{
    if needed > samples.len() {
        return false;
    }
    let mut k: usize = 0;
    while k < needed
        invariant
            k <= needed <= samples@.len(),
            forall|j: int| 0 <= j < k ==> #[trigger] samples@[j] < pixels,
        decreases needed - k,
    {
        if samples[k] >= pixels {
            return false;
        }
        k = k + 1;
    }
    true
}

/// Hides `payload` in a copy of `img` with the given strategy and
/// distribution, after checking that it fits.
pub fn embed_with<E: BitEncode>(
    encoder: E,
    dist: BitDistribution,
    img: &PixelGrid,
    payload: &[u8],
    samples: &[usize],
) -> (r: Result<PixelGrid, RunError>)
    requires
        encoder.wf(),
        img.wf(),
    ensures
        embed_outcome(coder_of(encoder, dist), img, payload@, samples@, r),
{
    let mut coder = BitEncoder::new(encoder, Some(dist));
    let max: usize = match capacity_of(img) {
        Some(max) => max,
        None => {
            return Err(RunError::CapacityExceeded);
        },
    };
    if payload.len() > max {
        return Err(RunError::CapacityExceeded);
    }
    let ghost bits = framed_bits(payload@.len());
    let ghost visits = coder.visits(img, samples@);
    proof {
        img.lemma_size();
    }
    assert(coder.stream(payload@).len() == bits);
    match dist {
        BitDistribution::Sequential => {
            assert(fits(bits, visits, img.pixels()));
        },
        BitDistribution::Linear { .. } => {
            let needed: usize = match required_visits(payload.len()) {
                Some(needed) => needed,
                None => {
                    return Err(RunError::Samples);
                },
            };
            if !samples_cover(samples, needed, img.pixel_count()) {
                assert(!fits(bits, visits, img.pixels())) by {
                    if fits(bits, visits, img.pixels()) {
                        assert forall|k: int| 0 <= k < needed implies #[trigger] samples@[k]
                            < img.pixels() by {
                            assert(visits[k] == samples@[k]);
                        }
                    }
                }
                return Err(RunError::Samples);
            }
            assert(fits(bits, visits, img.pixels())) by {
                assert forall|k: int| 0 <= k < visit_count(bits) implies 0 <= #[trigger] visits[k]
                    < img.pixels() by {
                    assert(samples@[k] < img.pixels());
                }
            }
        },
    }
    match coder.encode(img, payload, samples) {
        Ok(out) => Ok(out),
        Err(_) => Err(RunError::Codec(StegError::Selector)),
    }
}

/// Recovers a message from `img` with the given strategy and distribution.
pub fn extract_with<E: BitEncode>(
    encoder: E,
    dist: BitDistribution,
    img: &PixelGrid,
    samples: &[usize],
) -> (r: Result<Vec<u8>, RunError>)
    requires
        encoder.wf(),
        img.wf(),
    ensures
        extract_outcome(coder_of(encoder, dist), img, samples@, r),
{
    let mut coder = BitEncoder::new(encoder, Some(dist));
    let ghost visits = coder.visits(img, samples@);
    match dist {
        BitDistribution::Sequential => {},
        BitDistribution::Linear { length } => {
            if samples.len() != length || !samples_cover(samples, length, img.pixel_count()) {
                return Err(RunError::Samples);
            }
            assert forall|k: int| 0 <= k < visits.len() implies 0 <= #[trigger] visits[k]
                < img.pixels() by {
                assert(samples@[k] < img.pixels());
            }
        },
    }
    match coder.decode(img, samples) {
        Ok(found) => Ok(found),
        Err(e) => Err(RunError::Codec(e)),
    }
}

/// The strategy that the options ask for under the random-significant-bit
/// method.
pub open spec fn chosen_rsb(opt: &CLI) -> Rsb {
    Rsb::seeded(opt.max_bit->Some_0, opt.seed->Some_0@)
}

/// Hides `payload` in a copy of `img` as the options say. The options are
/// checked first, before a strategy is made from them.
pub fn embed(opt: &CLI, img: &PixelGrid, payload: &[u8], samples: &[usize]) -> (r: Result<
    PixelGrid,
    RunError,
>)
    requires
        img.wf(),
    ensures
        opt.complete() matches Err(e) ==> (r matches Err(RunError::Config(c)) && c == e),
        opt.complete() is Ok && opt.method is LeastSignificantBit ==> embed_outcome(
            coder_of(Lsb, opt.distribution),
            img,
            payload@,
            samples@,
            r,
        ),
        opt.complete() is Ok && opt.method is RandomSignificantBit ==> embed_outcome(
            coder_of(chosen_rsb(opt), opt.distribution),
            img,
            payload@,
            samples@,
            r,
        ),
{
    if let Err(e) = opt.check_complete() {
        return Err(RunError::Config(e));
    }
    match opt.method {
        StegMethod::LeastSignificantBit => embed_with(Lsb, opt.distribution, img, payload, samples),
        StegMethod::RandomSignificantBit => {
            let rsb = Rsb::new(opt.max_bit.unwrap(), opt.seed.as_ref().unwrap().as_str());
            embed_with(rsb, opt.distribution, img, payload, samples)
        },
    }
}

/// Recovers a message from `img` as the options say. The options are checked
/// first, before a strategy is made from them.
pub fn extract(opt: &CLI, img: &PixelGrid, samples: &[usize]) -> (r: Result<Vec<u8>, RunError>)
    requires
        img.wf(),
    ensures
        opt.complete() matches Err(e) ==> (r matches Err(RunError::Config(c)) && c == e),
        opt.complete() is Ok && opt.method is LeastSignificantBit ==> extract_outcome(
            coder_of(Lsb, opt.distribution),
            img,
            samples@,
            r,
        ),
        opt.complete() is Ok && opt.method is RandomSignificantBit ==> extract_outcome(
            coder_of(chosen_rsb(opt), opt.distribution),
            img,
            samples@,
            r,
        ),
{
    if let Err(e) = opt.check_complete() {
        return Err(RunError::Config(e));
    }
    match opt.method {
        StegMethod::LeastSignificantBit => extract_with(Lsb, opt.distribution, img, samples),
        StegMethod::RandomSignificantBit => {
            let rsb = Rsb::new(opt.max_bit.unwrap(), opt.seed.as_ref().unwrap().as_str());
            extract_with(rsb, opt.distribution, img, samples)
        },
    }
}

/// The bytes to hide for a message. `packed` is what compressing the message
/// gave; it is looked at only where the options ask for compression, and
/// otherwise the message itself is hidden.
pub fn pack_with(opt: &CLI, msg: Vec<u8>, packed: Result<Vec<u8>, CompressionError>) -> (r: Result<
    Vec<u8>,
    StegError,
>)
    ensures
        !opt.compress ==> (r matches Ok(payload) && payload == msg),
        opt.compress ==> match packed {
            Ok(bytes) => r matches Ok(payload) && payload == bytes,
            Err(e) => r matches Err(StegError::Compression(c)) && c == e,
        },
{
    if opt.compress {
        match packed {
            Ok(bytes) => Ok(bytes),
            Err(e) => Err(StegError::Compression(e)),
        }
    } else {
        Ok(msg)
    }
}

/// The message for the bytes recovered. `unpacked` is what decompressing the
/// bytes gave; it is looked at only where the options ask for decompression,
/// and otherwise the bytes themselves are the message.
pub fn unpack_with(opt: &CLI, found: Vec<u8>, unpacked: Result<Vec<u8>, BZip2Error>) -> (r: Result<
    Vec<u8>,
    StegError,
>)
    ensures
        !opt.compress ==> (r matches Ok(msg) && msg == found),
        opt.compress ==> match unpacked {
            Ok(bytes) => r matches Ok(msg) && msg == bytes,
            Err(e) => r matches Err(StegError::Decompression(d)) && d == e,
        },
{
    if opt.compress {
        match unpacked {
            Ok(bytes) => Ok(bytes),
            Err(e) => Err(StegError::Decompression(e)),
        }
    } else {
        Ok(found)
    }
}

} // verus!
