use stgv::bit::BitMask;
use stgv::grid::PixelGrid;
use stgv::stream::{from_bits, to_bits};
use stgv::StegError;

#[test]
fn from_raw_takes_three_bytes_a_pixel() {
    assert!(PixelGrid::from_raw(2, 2, vec![0; 12]).is_some());
    assert!(PixelGrid::from_raw(2, 2, vec![0; 11]).is_none());
    assert!(PixelGrid::from_raw(2, 2, vec![0; 13]).is_none());
    assert!(PixelGrid::from_raw(0, 5, vec![]).is_some());
    assert!(PixelGrid::from_raw(0, 5, vec![1]).is_none());
    assert!(PixelGrid::from_raw(u32::MAX, u32::MAX, vec![0; 3]).is_none());
}

#[test]
fn grid_reports_its_size_and_bytes() {
    let data: Vec<u8> = (0..24).collect();
    let grid = PixelGrid::from_raw(4, 2, data.clone()).unwrap();
    assert_eq!(grid.width(), 4);
    assert_eq!(grid.height(), 2);
    assert_eq!(grid.pixel_count(), 8);
    assert_eq!(grid.as_raw(), &data);
    let copy = grid.clone();
    assert_eq!(copy.as_raw(), &data);
    assert_eq!(copy.width(), 4);
    assert_eq!(copy.height(), 2);
    assert_eq!(grid.into_raw(), data);
}

#[test]
fn channel_is_addressed_by_column_row_and_colour() {
    let data: Vec<u8> = (0..24).collect();
    let grid = PixelGrid::from_raw(4, 2, data).unwrap();
    assert_eq!(*grid.channel(0, 0, 0), 0);
    assert_eq!(*grid.channel(1, 0, 2), 5);
    assert_eq!(*grid.channel(3, 0, 1), 10);
    assert_eq!(*grid.channel(0, 1, 0), 12);
    assert_eq!(*grid.channel(3, 1, 2), 23);
}

#[test]
fn channel_mut_writes_one_byte() {
    let mut grid = PixelGrid::from_raw(4, 2, vec![0; 24]).unwrap();
    *grid.channel_mut(2, 1, 1) = 9;
    let mut expected = vec![0u8; 24];
    expected[3 * (4 + 2) + 1] = 9;
    assert_eq!(grid.as_raw(), &expected);
}

#[test]
fn to_bits_puts_the_most_significant_bit_first() {
    assert_eq!(to_bits(&[0x41]), vec![0, 1, 0, 0, 0, 0, 0, 1]);
    assert_eq!(to_bits(&[0x80, 0x01]), vec![1, 0, 0, 0, 0, 0, 0, 0, 0, 0, 0, 0, 0, 0, 0, 1]);
    assert_eq!(to_bits(&[0xff]), vec![1; 8]);
    assert_eq!(to_bits(&[]), Vec::<u8>::new());
}

#[test]
fn from_bits_regroups_bytes() {
    assert_eq!(from_bits(&[0, 1, 0, 0, 0, 0, 0, 1]), Ok(vec![0x41]));
    assert_eq!(from_bits(&[1, 1, 1, 1, 1, 1, 1, 1, 0, 0, 0, 0, 0, 0, 1, 0]), Ok(vec![0xff, 0x02]));
    assert_eq!(from_bits(&[]), Ok(vec![]));
}

#[test]
fn from_bits_inverts_to_bits() {
    let bytes: Vec<u8> = (0..=255).collect();
    assert_eq!(from_bits(&to_bits(&bytes)), Ok(bytes));
}

#[test]
fn from_bits_rejects_a_ragged_stream() {
    let text = "reconstructing byte: the bits do not form whole bytes".to_string();
    assert_eq!(from_bits(&[1, 0, 1]), Err(StegError::Decoding(text.clone())));
    assert_eq!(from_bits(&[0; 9]), Err(StegError::Decoding(text)));
}

#[test]
fn from_bits_rejects_what_is_no_bit() {
    assert!(matches!(from_bits(&[0, 0, 0, 2, 0, 0, 0, 0]), Err(StegError::Decoding(_))));
    assert!(matches!(
        from_bits(&[0, 0, 0, 0, 0, 0, 0, 0, 1, 1, 1, 1, 1, 1, 1, 9]),
        Err(StegError::Decoding(_))
    ));
}

#[test]
fn bit_masks_are_powers_of_two() {
    assert_eq!(BitMask::from(1).bits(), 1);
    assert_eq!(BitMask::from(2).bits(), 2);
    assert_eq!(BitMask::from(4).bits(), 4);
    assert_eq!(BitMask::from(8).bits(), 8);
    assert_eq!(BitMask::One.bits(), 0b0000_0001);
    assert_eq!(BitMask::Two.bits(), 0b0000_0010);
    assert_eq!(BitMask::Four.bits(), 0b0000_0100);
    assert_eq!(BitMask::Eight.bits(), 0b0000_1000);
}

#[test]
fn coordinate_follows_raster_order() {
    let grid = PixelGrid::from_raw(4, 3, vec![0; 36]).unwrap();
    assert_eq!(grid.coordinate(0), (0, 0));
    assert_eq!(grid.coordinate(3), (3, 0));
    assert_eq!(grid.coordinate(4), (0, 1));
    assert_eq!(grid.coordinate(6), (2, 1));
    assert_eq!(grid.coordinate(11), (3, 2));
}
