use manchester_code::{BitIterator, BitOrder, Datagram};

#[test]
fn iterate_empty_big_endian() {
    let datagram = Datagram::new("");
    let mut sut = datagram.into_big_endian_iter();
    assert_eq!(None, sut.next());
    assert_eq!(None, sut.next());
}

#[test]
fn iterate_zero_big_endian() {
    let datagram = Datagram::new("0");
    let mut sut = datagram.into_big_endian_iter();
    assert_eq!(Some(false), sut.next());
    assert_eq!(None, sut.next());
}

#[test]
fn iterate_one_big_endian() {
    let datagram = Datagram::new("1");
    let mut sut = datagram.into_big_endian_iter();
    assert_eq!(Some(true), sut.next());
    assert_eq!(None, sut.next());
}

#[test]
fn iterate_zero_one_big_endian() {
    let datagram = Datagram::new("01");
    let mut sut = datagram.into_big_endian_iter();
    assert_eq!(Some(false), sut.next());
    assert_eq!(Some(true), sut.next());
    assert_eq!(None, sut.next());
}

#[test]
fn iterate_one_zero_big_endian() {
    let datagram = Datagram::new("10");
    let mut sut = datagram.into_big_endian_iter();
    assert_eq!(Some(true), sut.next());
    assert_eq!(Some(false), sut.next());
    assert_eq!(None, sut.next());
}

#[test]
fn iterate_zero_one_one_big_endian() {
    let datagram = Datagram::new("110");
    let mut sut = datagram.into_big_endian_iter();
    assert_eq!(Some(true), sut.next());
    assert_eq!(Some(true), sut.next());
    assert_eq!(Some(false), sut.next());
    assert_eq!(None, sut.next());
}

#[test]
fn iterate_zero_one_little_endian() {
    let datagram = Datagram::new("01");
    let mut sut = datagram.into_little_endian_iter();
    assert_eq!(Some(true), sut.next());
    assert_eq!(Some(false), sut.next());
    assert_eq!(None, sut.next());
}

#[test]
fn iterate_empty_little_endian() {
    let datagram = Datagram::new("");
    let mut sut = datagram.into_little_endian_iter();
    assert_eq!(None, sut.next());
    assert_eq!(None, sut.next());
}

fn pattern(length: usize) -> Vec<bool> {
    (0..length).map(|i| i % 3 == 0 || i % 7 == 2).collect()
}

fn collect(order: BitOrder, bits: &[bool]) -> Datagram {
    let mut datagram = Datagram::default();
    for bit in bits {
        assert!(datagram.add_bit(*bit, order).is_ok());
    }
    datagram
}

#[test]
fn bits_come_back_in_the_order_in_which_they_were_added() {
    for length in [0, 1, 2, 5, 32, 126, 127] {
        let bits = pattern(length);

        let mut big = collect(BitOrder::BigEndian, &bits).into_big_endian_iter();
        let mut little = collect(BitOrder::LittleEndian, &bits).into_little_endian_iter();
        for bit in &bits {
            assert_eq!(Some(*bit), big.next());
            assert_eq!(Some(*bit), little.next());
        }
        assert_eq!(None, big.next());
        assert_eq!(None, little.next());
    }
}

#[test]
fn the_nth_bit_is_the_one_that_was_added_as_the_nth() {
    for length in [1, 2, 5, 32, 126, 127] {
        let bits = pattern(length);
        let big = collect(BitOrder::BigEndian, &bits);
        let little = collect(BitOrder::LittleEndian, &bits);
        for (position, bit) in bits.iter().enumerate() {
            assert_eq!(*bit, big.nth_bit(position as u8, BitOrder::BigEndian));
            assert_eq!(*bit, little.nth_bit(position as u8, BitOrder::LittleEndian));
        }
    }
    let datagram = Datagram::new("100");
    assert_eq!(true, datagram.nth_bit(0, BitOrder::BigEndian));
    assert_eq!(false, datagram.nth_bit(0, BitOrder::LittleEndian));
    assert_eq!(false, datagram.nth_bit(2, BitOrder::BigEndian));
    assert_eq!(true, datagram.nth_bit(2, BitOrder::LittleEndian));
}

#[test]
fn the_two_orders_pack_the_same_bits_in_opposite_directions() {
    let bits = pattern(19);
    let big = collect(BitOrder::BigEndian, &bits);
    let little = collect(BitOrder::LittleEndian, &bits);
    assert_eq!(19, big.len());
    assert_eq!(19, little.len());
    for i in 0..19u8 {
        assert_eq!(big[i], little[18 - i]);
        assert_eq!(if bits[i as usize] { 1 } else { 0 }, little[i]);
    }
}
