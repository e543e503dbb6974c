use stgv::bit::BitDistribution;
use compression::prelude::{
    Action, BZip2Decoder, BZip2Encoder, BZip2Error, CompressionError, DecodeExt, EncodeExt,
};
use stgv::cli::{ConfigError, CLI};
use stgv::exec::{
    capacity_of, embed, extract, pack_with, required_visits, samples_cover, unpack_with,
    RunError,
};
use stgv::grid::PixelGrid;
use stgv::steg::StegMethod;
use stgv::StegError;

fn options(method: StegMethod, distribution: BitDistribution) -> CLI {
    CLI {
        decode: false,
        compress: false,
        check_max_length: false,
        method,
        distribution,
        seed: Some("a seed".to_string()),
        max_bit: Some(2),
        output: None,
        input: None,
        image: "image.png".to_string(),
    }
}

fn ramp(width: u32, height: u32) -> PixelGrid {
    let len = 3 * width as usize * height as usize;
    let data: Vec<u8> = (0..len).map(|i| (i * 5 + 1) as u8).collect();
    PixelGrid::from_raw(width, height, data).unwrap()
}

#[test]
fn capacity_is_the_room_left_by_the_marker() {
    assert_eq!(capacity_of(&ramp(4, 4)), Some(2));
    assert_eq!(capacity_of(&ramp(11, 1)), Some(0));
    assert_eq!(capacity_of(&ramp(12, 1)), Some(0));
    assert_eq!(capacity_of(&ramp(40, 1)), Some(11));
    assert_eq!(capacity_of(&ramp(640, 480)), Some((3 * 640 * 480 - 32) / 8));
}

#[test]
fn image_without_room_for_the_marker_has_no_capacity() {
    assert_eq!(capacity_of(&ramp(10, 1)), None);
    assert_eq!(capacity_of(&ramp(0, 0)), None);
    assert_eq!(capacity_of(&ramp(1, 1)), None);
}

#[test]
fn message_of_exactly_the_capacity_fits() {
    let img = ramp(4, 4);
    let opt = options(StegMethod::LeastSignificantBit, BitDistribution::Sequential);
    let out = embed(&opt, &img, &[0xab, 0xcd], &[]).unwrap();
    assert_eq!(extract(&opt, &out, &[]), Ok(vec![0xab, 0xcd]));
}

#[test]
fn message_of_one_byte_more_than_the_capacity_does_not_fit() {
    let img = ramp(4, 4);
    let opt = options(StegMethod::LeastSignificantBit, BitDistribution::Sequential);
    assert_eq!(embed(&opt, &img, &[1, 2, 3], &[]).err(), Some(RunError::CapacityExceeded));
    let big = ramp(40, 30);
    let cap = capacity_of(&big).unwrap();
    assert!(embed(&opt, &big, &vec![0x11; cap], &[]).is_ok());
    assert_eq!(
        embed(&opt, &big, &vec![0x11; cap + 1], &[]).err(),
        Some(RunError::CapacityExceeded)
    );
}

#[test]
fn nothing_fits_an_image_without_room_for_the_marker() {
    let img = ramp(5, 2);
    let opt = options(StegMethod::LeastSignificantBit, BitDistribution::Sequential);
    assert_eq!(embed(&opt, &img, &[], &[]).err(), Some(RunError::CapacityExceeded));
}

#[test]
fn one_byte_in_a_four_by_four_image() {
    let img = ramp(4, 4);
    let opt = options(StegMethod::LeastSignificantBit, BitDistribution::Sequential);
    assert_eq!(capacity_of(&img), Some(2));
    let out = embed(&opt, &img, &[0x41], &[]).unwrap();
    assert_eq!(extract(&opt, &out, &[]), Ok(vec![0x41]));
}

#[test]
fn required_visits_counts_three_bits_a_pixel() {
    assert_eq!(required_visits(0), Some(11));
    assert_eq!(required_visits(1), Some(14));
    assert_eq!(required_visits(2), Some(16));
    assert_eq!(required_visits(5), Some(24));
    assert_eq!(required_visits(usize::MAX / 8 - 4), Some((8 * (usize::MAX / 8) + 2) / 3));
    assert_eq!(required_visits(usize::MAX / 8 - 3), None);
    assert_eq!(required_visits(usize::MAX), None);
}

#[test]
fn samples_cover_checks_count_and_range() {
    assert!(samples_cover(&[0, 4, 9], 3, 10));
    assert!(samples_cover(&[0, 4, 9, 50], 3, 10));
    assert!(!samples_cover(&[0, 4, 10], 3, 10));
    assert!(!samples_cover(&[0, 4], 3, 10));
    assert!(samples_cover(&[], 0, 0));
}

#[test]
fn linear_run_round_trips() {
    let img = ramp(10, 10);
    let msg = b"spread".to_vec();
    let n = required_visits(msg.len()).unwrap();
    let samples: Vec<usize> = (0..n).map(|k| (k * 99) / (n - 1)).collect();
    let opt = options(StegMethod::LeastSignificantBit, BitDistribution::Linear { length: n });
    let out = embed(&opt, &img, &msg, &samples).unwrap();
    assert_eq!(extract(&opt, &out, &samples), Ok(msg));
}

#[test]
fn linear_run_refuses_samples_that_are_too_few_or_outside() {
    let img = ramp(10, 10);
    let opt = options(StegMethod::LeastSignificantBit, BitDistribution::Linear { length: 3 });
    assert_eq!(embed(&opt, &img, &[7], &[0, 50, 99]).err(), Some(RunError::Samples));
    let outside: Vec<usize> = (0..14).map(|k| k * 8).collect();
    assert_eq!(embed(&opt, &img, &[7], &outside).err(), Some(RunError::Samples));
    assert_eq!(extract(&opt, &img, &[0, 100]), Err(RunError::Samples));
}

#[test]
fn sequential_run_ignores_the_samples() {
    let img = ramp(8, 8);
    let opt = options(StegMethod::LeastSignificantBit, BitDistribution::Sequential);
    let a = embed(&opt, &img, b"x", &[]).unwrap();
    let b = embed(&opt, &img, b"x", &[1000, 2000]).unwrap();
    assert_eq!(a.as_raw(), b.as_raw());
    assert_eq!(extract(&opt, &a, &[1000]), Ok(b"x".to_vec()));
}

#[test]
fn rsb_run_round_trips_with_the_same_seed() {
    let img = ramp(20, 20);
    let opt = options(StegMethod::RandomSignificantBit, BitDistribution::Sequential);
    let out = embed(&opt, &img, b"keyed", &[]).unwrap();
    assert_eq!(extract(&opt, &out, &[]), Ok(b"keyed".to_vec()));
    let mut other = options(StegMethod::RandomSignificantBit, BitDistribution::Sequential);
    other.seed = Some("b seed".to_string());
    assert_ne!(extract(&other, &out, &[]), Ok(b"keyed".to_vec()));
    let again = embed(&other, &img, b"keyed", &[]).unwrap();
    assert_ne!(again.as_raw(), out.as_raw());
}

#[test]
fn rsb_run_reports_a_selector_that_names_no_bit() {
    let img = ramp(30, 30);
    let mut opt = options(StegMethod::RandomSignificantBit, BitDistribution::Sequential);
    opt.max_bit = Some(3);
    assert_eq!(
        embed(&opt, &img, &vec![0u8; 64], &[]).err(),
        Some(RunError::Codec(StegError::Selector))
    );
}

#[test]
fn run_on_an_untouched_image_finds_no_marker() {
    let img = PixelGrid::from_raw(6, 6, vec![0xff; 108]).unwrap();
    let opt = options(StegMethod::LeastSignificantBit, BitDistribution::Sequential);
    assert_eq!(extract(&opt, &img, &[]), Err(RunError::Codec(StegError::EncodingNotFound)));
}

fn compress(data: &[u8]) -> Result<Vec<u8>, CompressionError> {
    data.iter()
        .cloned()
        .encode(&mut BZip2Encoder::new(9), Action::Finish)
        .collect::<Result<Vec<_>, _>>()
}

fn decompress(data: &[u8]) -> Result<Vec<u8>, BZip2Error> {
    data.iter().cloned().decode(&mut BZip2Decoder::new()).collect::<Result<Vec<_>, _>>()
}

#[test]
fn pack_with_follows_the_compress_option() {
    let msg = b"hello hello hello hello hello hello".to_vec();
    let mut opt = options(StegMethod::LeastSignificantBit, BitDistribution::Sequential);
    assert_eq!(pack_with(&opt, msg.clone(), Ok(vec![1, 2, 3])), Ok(msg.clone()));
    assert_eq!(
        pack_with(&opt, msg.clone(), Err(CompressionError::DataError)),
        Ok(msg.clone())
    );
    opt.compress = true;
    assert_eq!(pack_with(&opt, msg.clone(), Ok(vec![1, 2, 3])), Ok(vec![1, 2, 3]));
    assert_eq!(
        pack_with(&opt, msg.clone(), Err(CompressionError::DataError)),
        Err(StegError::Compression(CompressionError::DataError))
    );
    assert_eq!(
        pack_with(&opt, msg, Err(CompressionError::UnexpectedEof)),
        Err(StegError::Compression(CompressionError::UnexpectedEof))
    );
}

#[test]
fn unpack_with_follows_the_compress_option() {
    let found = vec![9u8, 8, 7];
    let mut opt = options(StegMethod::LeastSignificantBit, BitDistribution::Sequential);
    assert_eq!(unpack_with(&opt, found.clone(), Ok(vec![1])), Ok(found.clone()));
    assert_eq!(
        unpack_with(&opt, found.clone(), Err(BZip2Error::DataError)),
        Ok(found.clone())
    );
    opt.compress = true;
    assert_eq!(unpack_with(&opt, found.clone(), Ok(vec![1])), Ok(vec![1]));
    assert_eq!(
        unpack_with(&opt, found.clone(), Err(BZip2Error::DataErrorMagic)),
        Err(StegError::Decompression(BZip2Error::DataErrorMagic))
    );
    assert_eq!(
        unpack_with(&opt, found, Err(BZip2Error::UnexpectedEof)),
        Err(StegError::Decompression(BZip2Error::UnexpectedEof))
    );
}

#[test]
fn compressed_payload_is_carried_unchanged() {
    let img = ramp(40, 40);
    let msg: Vec<u8> = vec![b'z'; 300];
    let mut opt = options(StegMethod::LeastSignificantBit, BitDistribution::Sequential);
    opt.compress = true;
    let packed = compress(&msg);
    assert_eq!(&packed.clone().unwrap()[..4], b"BZh9");
    let payload = pack_with(&opt, msg.clone(), packed).unwrap();
    assert!(payload.len() < msg.len());
    let out = embed(&opt, &img, &payload, &[]).unwrap();
    assert_eq!(extract(&opt, &out, &[]), Ok(payload));
}

#[test]
fn what_was_not_compressed_is_a_decompression_error() {
    let mut opt = options(StegMethod::LeastSignificantBit, BitDistribution::Sequential);
    opt.compress = true;
    let found = b"not a bzip2 stream".to_vec();
    let unpacked = decompress(&found);
    assert!(matches!(
        unpack_with(&opt, found, unpacked),
        Err(StegError::Decompression(_))
    ));
}

fn rsb_options(max_bit: Option<u8>, seed: Option<&str>) -> CLI {
    let mut opt = options(StegMethod::RandomSignificantBit, BitDistribution::Sequential);
    opt.max_bit = max_bit;
    opt.seed = seed.map(|s| s.to_string());
    opt
}

#[test]
fn run_refuses_a_max_bit_outside_one_to_four() {
    let img = ramp(8, 8);
    for n in [0u8, 5, 200] {
        let opt = rsb_options(Some(n), Some("seed"));
        assert_eq!(opt.check_complete(), Err(ConfigError::MaxBit(n)));
        assert_eq!(
            embed(&opt, &img, b"x", &[]).err(),
            Some(RunError::Config(ConfigError::MaxBit(n)))
        );
        assert_eq!(extract(&opt, &img, &[]), Err(RunError::Config(ConfigError::MaxBit(n))));
    }
    let mut lsb = options(StegMethod::LeastSignificantBit, BitDistribution::Sequential);
    lsb.max_bit = Some(9);
    assert_eq!(
        embed(&lsb, &img, b"x", &[]).err(),
        Some(RunError::Config(ConfigError::MaxBit(9)))
    );
}

#[test]
fn run_refuses_the_seeded_method_without_max_bit_or_seed() {
    let img = ramp(8, 8);
    let no_max = rsb_options(None, Some("seed"));
    assert_eq!(no_max.validate(), Ok(()));
    assert_eq!(no_max.check_complete(), Err(ConfigError::MissingMaxBit));
    assert_eq!(
        embed(&no_max, &img, b"x", &[]).err(),
        Some(RunError::Config(ConfigError::MissingMaxBit))
    );
    assert_eq!(extract(&no_max, &img, &[]), Err(RunError::Config(ConfigError::MissingMaxBit)));
    let no_seed = rsb_options(Some(2), None);
    assert_eq!(no_seed.validate(), Ok(()));
    assert_eq!(no_seed.check_complete(), Err(ConfigError::MissingSeed));
    assert_eq!(
        embed(&no_seed, &img, b"x", &[]).err(),
        Some(RunError::Config(ConfigError::MissingSeed))
    );
    assert_eq!(extract(&no_seed, &img, &[]), Err(RunError::Config(ConfigError::MissingSeed)));
    let neither = rsb_options(None, None);
    assert_eq!(neither.check_complete(), Err(ConfigError::MissingMaxBit));
}

#[test]
fn run_refuses_bad_options_before_it_looks_at_the_message() {
    let img = ramp(4, 4);
    let opt = rsb_options(Some(7), None);
    assert_eq!(
        embed(&opt, &img, &[0u8; 100], &[]).err(),
        Some(RunError::Config(ConfigError::MaxBit(7)))
    );
}

#[test]
fn complete_options_are_taken() {
    for n in 1..=4u8 {
        assert_eq!(rsb_options(Some(n), Some("seed")).check_complete(), Ok(()));
    }
    let mut lsb = options(StegMethod::LeastSignificantBit, BitDistribution::Sequential);
    lsb.max_bit = None;
    lsb.seed = None;
    assert_eq!(lsb.check_complete(), Ok(()));
}
