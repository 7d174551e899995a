//! The address codec, hex color parsing, and the probe packet.

use canvas6::network::build_echo_request;
use canvas6::network::encode;
use canvas6::network::encode_payload;
use canvas6::utils::Color;
use canvas6::utils::Pixel;

#[test]
fn encode_documented_example() {
    // prefix 2001:610:1908:a000::, pixel (25,25), color #FFD100 opaque
    // => 2001:610:1908:a000:0019:0019:00d1:ffff
    let p = Pixel::new(25, 25);
    let c = Color::from_hex("FFD100");
    assert_eq!(c, Color(0xff, 0xd1, 0x00));
    let addr = encode(&p, &c);
    assert_eq!(addr, 0x2001_0610_1908_a000_0019_0019_00d1_ffffu128);
}

#[test]
fn encode_payload_bit_layout() {
    // X in the top 16 bits, then Y, then B, G, R, and an opaque alpha byte.
    let p = Pixel::new(1919, 1079);
    let c = Color(0x12, 0x34, 0x56);
    let payload = encode_payload(&p, &c);
    assert_eq!(payload, 0x077f_0437_5634_12ff);
}

#[test]
fn encode_origin_black() {
    let p = Pixel::new(0, 0);
    let c = Color(0, 0, 0);
    assert_eq!(encode(&p, &c), 0x2001_0610_1908_a000_0000_0000_0000_00ffu128);
}

#[test]
fn from_hex_primaries() {
    assert_eq!(Color::from_hex("FF0000"), Color(0xff, 0, 0));
    assert_eq!(Color::from_hex("00FF00"), Color(0, 0xff, 0));
    assert_eq!(Color::from_hex("0000FF"), Color(0, 0, 0xff));
    assert_eq!(Color::from_hex("010101"), Color(1, 1, 1));
    assert_eq!(Color::from_hex("111111"), Color(0x11, 0x11, 0x11));
}

#[test]
fn from_hex_lowercase_and_short() {
    assert_eq!(Color::from_hex("abcdef"), Color(0xab, 0xcd, 0xef));
    // Fewer than six digits: the value is small, high channels are zero.
    assert_eq!(Color::from_hex("ff"), Color(0, 0, 0xff));
}

#[test]
fn from_hex_uses_low_24_bits() {
    // Longer strings contribute only their low 24 bits.
    assert_eq!(Color::from_hex("FFFFD100"), Color(0xff, 0xd1, 0x00));
}

#[test]
fn from_hex_accepts_leading_zeros() {
    // Any number of digits is fine as long as the value fits 64 bits.
    assert_eq!(Color::from_hex("00000000000000000001"), Color(0, 0, 1));
    assert_eq!(Color::from_hex("0000000000000000FFD100"), Color(0xff, 0xd1, 0x00));
}

#[test]
fn color_new_keeps_channels() {
    let c = Color::new(&255, &209, &0);
    assert_eq!(c, Color(255, 209, 0));
}

#[test]
fn echo_request_packet_layout() {
    let packet = build_echo_request();
    assert_eq!(packet.len(), 16);
    // Echo request type, zero code.
    assert_eq!(packet[0], 128);
    assert_eq!(packet[1], 0);
    // Ones-complement checksum of the packet with a zeroed checksum field:
    // the only nonzero word is 0x8000, so the checksum is !0x8000 = 0x7fff.
    assert_eq!(packet[2], 0x7f);
    assert_eq!(packet[3], 0xff);
    for i in 4..16 {
        assert_eq!(packet[i], 0);
    }
}
