use manchester_code::emitter::MAX_SENDING_POWER;
use manchester_code::{
    Datagram, DatagramBigEndianIterator, DatagramLittleEndianIterator, InfraredEmitter, Modulation,
};

#[test]
fn a_second_datagram_has_to_wait_for_the_pause() {
    let mut sut = InfraredEmitter::<DatagramBigEndianIterator>::new(3);
    for _ in 0..3 {
        assert_eq!(Modulation::Keep, sut.send_half_bit());
    }
    assert_eq!(true, sut.send_if_possible(Datagram::new("01"), 25));
    assert_eq!(false, sut.send_if_possible(Datagram::new("01"), 25));

    // the four half bits of the datagram, and the tick that ends it
    for _ in 0..5 {
        assert_ne!(Modulation::Keep, sut.send_half_bit());
    }
    assert_eq!(false, sut.send_if_possible(Datagram::new("01"), 25));
    assert_eq!(Modulation::Keep, sut.send_half_bit());
    assert_eq!(Modulation::Keep, sut.send_half_bit());
    assert_eq!(false, sut.send_if_possible(Datagram::new("01"), 25));
    assert_eq!(Modulation::Keep, sut.send_half_bit());
    assert_eq!(true, sut.send_if_possible(Datagram::new("01"), 25));
}

#[test]
fn a_new_emitter_waits_for_the_pause_too() {
    let mut sut = InfraredEmitter::<DatagramLittleEndianIterator>::new(2);
    assert_eq!(false, sut.send_if_possible(Datagram::new("1"), 10));
    assert_eq!(Modulation::Keep, sut.send_half_bit());
    assert_eq!(false, sut.send_if_possible(Datagram::new("1"), 10));
    assert_eq!(Modulation::Keep, sut.send_half_bit());
    assert_eq!(true, sut.send_if_possible(Datagram::new("1"), 10));
}

#[test]
fn an_emitter_without_pause_sends_at_once() {
    let mut sut = InfraredEmitter::<DatagramBigEndianIterator>::new(0);
    assert_eq!(true, sut.send_if_possible(Datagram::new("1"), 10));
    assert_eq!(Modulation::Disable, sut.send_half_bit());
    assert_eq!(Modulation::Enable, sut.send_half_bit());
    assert_eq!(false, sut.send_if_possible(Datagram::new("1"), 10));
    assert_eq!(Modulation::Disable, sut.send_half_bit());
    assert_eq!(true, sut.send_if_possible(Datagram::new("0"), 10));
    assert_eq!(Modulation::Enable, sut.send_half_bit());
    assert_eq!(Modulation::Disable, sut.send_half_bit());
    assert_eq!(Modulation::Disable, sut.send_half_bit());
    assert_eq!(Modulation::Keep, sut.send_half_bit());
}

#[test]
fn the_modulator_follows_the_half_bits_big_endian() {
    let mut sut = InfraredEmitter::<DatagramBigEndianIterator>::new(0);
    assert!(sut.send_if_possible(Datagram::new("011"), 20));
    let expected = [
        Modulation::Enable,
        Modulation::Disable,
        Modulation::Disable,
        Modulation::Enable,
        Modulation::Disable,
        Modulation::Enable,
        Modulation::Disable,
        Modulation::Keep,
        Modulation::Keep,
    ];
    for modulation in expected {
        assert_eq!(modulation, sut.send_half_bit());
    }
}

#[test]
fn the_modulator_follows_the_half_bits_little_endian() {
    let mut sut = InfraredEmitter::<DatagramLittleEndianIterator>::new(0);
    assert!(sut.send_if_possible(Datagram::new("011"), 20));
    let expected = [
        Modulation::Disable,
        Modulation::Enable,
        Modulation::Disable,
        Modulation::Enable,
        Modulation::Enable,
        Modulation::Disable,
        Modulation::Disable,
        Modulation::Keep,
    ];
    for modulation in expected {
        assert_eq!(modulation, sut.send_half_bit());
    }
}

#[test]
fn an_empty_datagram_is_over_with_the_first_tick() {
    let mut sut = InfraredEmitter::<DatagramBigEndianIterator>::new(1);
    assert_eq!(Modulation::Keep, sut.send_half_bit());
    assert!(sut.send_if_possible(Datagram::default(), 20));
    assert_eq!(Modulation::Disable, sut.send_half_bit());
    assert_eq!(false, sut.send_if_possible(Datagram::default(), 20));
    assert_eq!(Modulation::Keep, sut.send_half_bit());
    assert_eq!(true, sut.send_if_possible(Datagram::default(), 20));
}

#[test]
fn the_sending_power_is_held_at_a_quarter() {
    assert_eq!(25, MAX_SENDING_POWER);
    let mut sut = InfraredEmitter::<DatagramBigEndianIterator>::new(0);
    assert_eq!(0, sut.sending_power());
    assert!(sut.send_if_possible(Datagram::default(), 10));
    assert_eq!(10, sut.sending_power());
    assert_eq!(false, sut.send_if_possible(Datagram::default(), 20));
    assert_eq!(10, sut.sending_power());
    assert_eq!(Modulation::Disable, sut.send_half_bit());
    assert!(sut.send_if_possible(Datagram::default(), 25));
    assert_eq!(25, sut.sending_power());
    assert_eq!(Modulation::Disable, sut.send_half_bit());
    assert!(sut.send_if_possible(Datagram::default(), 26));
    assert_eq!(25, sut.sending_power());
    assert_eq!(Modulation::Disable, sut.send_half_bit());
    assert!(sut.send_if_possible(Datagram::default(), 255));
    assert_eq!(25, sut.sending_power());
}

#[test]
fn a_long_pause_does_not_run_over() {
    let mut sut = InfraredEmitter::<DatagramBigEndianIterator>::new(255);
    for _ in 0..254 {
        assert_eq!(Modulation::Keep, sut.send_half_bit());
    }
    assert_eq!(false, sut.send_if_possible(Datagram::new("1"), 10));
    for _ in 0..1000 {
        assert_eq!(Modulation::Keep, sut.send_half_bit());
    }
    assert_eq!(true, sut.send_if_possible(Datagram::new("1"), 10));
}
