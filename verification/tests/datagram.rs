use manchester_code::{BitOrder, Datagram, Error};

fn filled(length: usize) -> Datagram {
    Datagram::new(&"0".repeat(length))
}

#[test]
fn default() {
    let sut = Datagram::default();
    assert_eq!(0, sut.len());
    assert_eq!(0, sut.bits());
}

#[test]
fn add_bit_datagram_full() {
    let mut sut = filled(127);
    assert_eq!(127, sut.len());
    assert_eq!(0, sut.bits());
    assert!(sut.add_bit(true, BitOrder::LittleEndian).is_err());
}

#[test]
fn add_bit_some_bits_big_endian() {
    let mut sut = Datagram::default();
    assert!(sut.add_bit(false, BitOrder::LittleEndian).is_ok());
    assert_eq!(0b0, sut.bits());
    assert!(sut.add_bit(true, BitOrder::LittleEndian).is_ok());
    assert_eq!(0b10, sut.bits());
    assert!(sut.add_bit(false, BitOrder::LittleEndian).is_ok());
    assert_eq!(0b010, sut.bits());
    assert!(sut.add_bit(true, BitOrder::LittleEndian).is_ok());
    assert_eq!(4, sut.len());
    assert_eq!(0b1010, sut.bits());
}

#[test]
fn add_bit_some_bits_little_endian() {
    let mut sut = Datagram::default();
    assert!(sut.add_bit(true, BitOrder::BigEndian).is_ok());
    assert_eq!(0b1, sut.bits());
    assert!(sut.add_bit(false, BitOrder::BigEndian).is_ok());
    assert_eq!(0b10, sut.bits());
    assert!(sut.add_bit(true, BitOrder::BigEndian).is_ok());
    assert_eq!(0b101, sut.bits());
    assert!(sut.add_bit(false, BitOrder::BigEndian).is_ok());
    assert_eq!(4, sut.len());
    assert_eq!(0b1010, sut.bits());
}

#[test]
fn new() {
    let sut = Datagram::new("01-0111");
    assert_eq!(6, sut.len());
    assert_eq!(0b010111, sut.bits());

    let sut = Datagram::new("01110");
    assert_eq!(5, sut.len());
    assert_eq!(0b01110, sut.bits());

    let sut = Datagram::new("0111");
    assert_eq!(4, sut.len());
    assert_eq!(0b111, sut.bits());
}

#[test]
fn compare() {
    let sut = Datagram::new("111-010");
    let mut other = Datagram::default();
    for bit in [false, true, false, true, true, true] {
        assert!(other.add_bit(bit, BitOrder::LittleEndian).is_ok());
    }
    assert_eq!(6, other.len());
    assert_eq!(0b111010, other.bits());
    assert_eq!(sut, other);
}

#[test]
fn index_access() {
    let sut = Datagram::new("0");
    assert_eq!(0, sut[0]);

    let sut = Datagram::new("1");
    assert_eq!(1, sut[0]);

    let sut = Datagram::new("10");
    assert_eq!(1, sut[1]);
    assert_eq!(0, sut[0]);
}

#[test]
fn extract_data() {
    let sut = Datagram::new("010011");
    assert_eq!(0b11, sut.extract_data(0, 2));
    assert_eq!(0b011, sut.extract_data(0, 3));
    assert_eq!(0b01, sut.extract_data(1, 3));
    assert_eq!(0b0100, sut.extract_data(2, 6));
    assert_eq!(0b10011, sut.extract_data(0, 6));
}

#[test]
fn extract_data_of_the_grouped_example() {
    let datagram = Datagram::new("0-111_10101_00001111");
    assert_eq!(17, datagram.len());
    assert_eq!(0b1111, datagram.extract_data(0, 4));
    assert_eq!(0b1111, datagram.extract_data(0, 8));
    assert_eq!(0b1111, datagram.extract_data(datagram.len() - 5, datagram.len()));
    assert_eq!(1, datagram[0]);
    assert_eq!(0, datagram[5]);
}

#[test]
fn extract_data_of_one_bit_and_of_all_bits() {
    let datagram = Datagram::new("1000_0001");
    assert_eq!(1, datagram.extract_data(0, 1));
    assert_eq!(0, datagram.extract_data(1, 2));
    assert_eq!(1, datagram.extract_data(7, 8));
    assert_eq!(0b1000_0001, datagram.extract_data(0, 8));
    assert_eq!(0b100_0000, datagram.extract_data(1, 8));
}

#[test]
fn new_skips_everything_but_the_two_digits() {
    let plain = Datagram::new("1011");
    assert_eq!(plain, Datagram::new("1 0-1_1"));
    assert_eq!(plain, Datagram::new("x1y0z1\u{e9}1\n"));
    assert_eq!(plain, Datagram::new("2103141"));
    assert_eq!(Datagram::default(), Datagram::new(""));
    assert_eq!(Datagram::default(), Datagram::new("-_- abc"));
}

#[test]
fn datagrams_of_different_length_differ() {
    assert_ne!(Datagram::new("0"), Datagram::new("00"));
    assert_ne!(Datagram::new("01"), Datagram::new("1"));
    assert_ne!(Datagram::new("10"), Datagram::new("01"));
    assert_eq!(Datagram::new("0110"), Datagram::new("0110"));
}

#[test]
fn add_bit_fails_on_a_full_datagram_and_changes_nothing() {
    let mut sut = Datagram::new(&"10".repeat(63));
    assert_eq!(126, sut.len());
    assert_eq!(Ok(()), sut.add_bit(true, BitOrder::BigEndian));
    assert_eq!(127, sut.len());
    let full = sut;
    assert_eq!(Err(Error), sut.add_bit(true, BitOrder::BigEndian));
    assert_eq!(Err(Error), sut.add_bit(false, BitOrder::LittleEndian));
    assert_eq!(full, sut);
    assert_eq!(127, sut.len());
}

#[test]
fn a_full_datagram_keeps_its_highest_bit() {
    let mut sut = Datagram::default();
    for _ in 0..126 {
        assert!(sut.add_bit(false, BitOrder::LittleEndian).is_ok());
    }
    assert!(sut.add_bit(true, BitOrder::LittleEndian).is_ok());
    assert_eq!(1u128 << 126, sut.bits());
    assert_eq!(1, sut[126]);
    assert_eq!(0, sut[125]);
    assert_eq!(1, sut.extract_data(126, 127));
    assert_eq!(1u128 << 126, sut.extract_data(0, 127));

    let mut sut = Datagram::default();
    assert!(sut.add_bit(true, BitOrder::BigEndian).is_ok());
    for _ in 0..126 {
        assert!(sut.add_bit(false, BitOrder::BigEndian).is_ok());
    }
    assert_eq!(1u128 << 126, sut.bits());
}

#[test]
fn format_groups_the_bits_by_four() {
    assert_eq!("", Datagram::default().format());
    assert_eq!("-1", Datagram::new("1").format());
    assert_eq!("-0101", Datagram::new("0101").format());
    assert_eq!("-0101-1", Datagram::new("01011").format());
    assert_eq!("-0101-11", Datagram::new("010111").format());
    assert_eq!("-0111-1010-1000-0111-1", Datagram::new("0-111_10101_00001111").format());
}

#[test]
fn is_empty_tells_whether_bits_are_held() {
    let mut sut = Datagram::default();
    assert!(sut.is_empty());
    assert!(sut.add_bit(false, BitOrder::BigEndian).is_ok());
    assert!(!sut.is_empty());
    assert_eq!(1, sut.len());
}

#[test]
fn parse_takes_what_a_datagram_holds_and_no_more() {
    assert_eq!(Ok(Datagram::new("0110")), Datagram::parse("01-10"));
    assert_eq!(Ok(Datagram::default()), Datagram::parse(""));
    let most = "1".repeat(127);
    let parsed = Datagram::parse(&most);
    assert_eq!(Ok(127), parsed.map(|datagram| datagram.len()));
    assert_eq!(Ok(u128::MAX >> 1), parsed.map(|datagram| datagram.bits()));
    assert_eq!(Err(Error), Datagram::parse(&"1".repeat(128)));
    assert_eq!(Err(Error), Datagram::parse(&"0_".repeat(128)));
    assert!(Datagram::parse(&"0_".repeat(127)).is_ok());
    assert!(Datagram::parse(&"-".repeat(1000)).is_ok());
}
