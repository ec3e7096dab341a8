use ldap_rs::controls::{decode_paged_value, encode_paged_value, SimplePagedResultsControl};
use ldap_rs::error::Error;
use ldap_rs::model::Control;
use ldap_rs::oid::SIMPLE_PAGED_RESULTS_CONTROL_OID;

fn round_trip(size: u32, cookie: Vec<u8>) {
    let bytes = encode_paged_value(size, &cookie);
    assert_eq!(decode_paged_value(&bytes), Some((size, cookie)));
}

#[test]
fn new_control_has_no_cookie_and_expects_entries() {
    let c = SimplePagedResultsControl::new(50);
    assert_eq!(c.size(), 50);
    assert!(c.cookie().is_empty());
    assert!(c.has_entries());
}

#[test]
fn with_size_keeps_cookie_and_flag() {
    let first = Control::try_from(SimplePagedResultsControl::new(5)).unwrap();
    let value = encode_paged_value(7, &b"abc".to_vec());
    let returned = Control::new(first.control_type.clone(), false, Some(value));
    let c = SimplePagedResultsControl::try_from(returned).unwrap().with_size(9);
    assert_eq!(c.size(), 9);
    assert_eq!(c.cookie(), &b"abc".to_vec());
    assert!(c.has_entries());
}

#[test]
fn paged_value_bytes_are_exact() {
    assert_eq!(encode_paged_value(1, &vec![]), vec![0x30, 0x05, 0x02, 0x01, 0x01, 0x04, 0x00]);
    assert_eq!(
        encode_paged_value(0, &vec![0xaa, 0xbb]),
        vec![0x30, 0x07, 0x02, 0x01, 0x00, 0x04, 0x02, 0xaa, 0xbb]
    );
    // 128 needs a leading zero octet, 256 two octets
    assert_eq!(encode_paged_value(128, &vec![]), vec![0x30, 0x06, 0x02, 0x02, 0x00, 0x80, 0x04, 0x00]);
    assert_eq!(encode_paged_value(256, &vec![]), vec![0x30, 0x06, 0x02, 0x02, 0x01, 0x00, 0x04, 0x00]);
    assert_eq!(
        encode_paged_value(u32::MAX, &vec![]),
        vec![0x30, 0x09, 0x02, 0x05, 0x00, 0xff, 0xff, 0xff, 0xff, 0x04, 0x00]
    );
}

#[test]
fn long_cookie_uses_long_length_form() {
    let cookie = vec![0x5a; 200];
    let bytes = encode_paged_value(3, &cookie);
    // SEQUENCE, 0x81 0xce (206), INTEGER 3, OCTET STRING 0x81 0xc8 (200)
    assert_eq!(&bytes[..9], &[0x30, 0x81, 0xce, 0x02, 0x01, 0x03, 0x04, 0x81, 0xc8]);
    assert_eq!(&bytes[9..], &cookie[..]);
    assert_eq!(bytes.len(), 209);
}

#[test]
fn paged_value_round_trips() {
    round_trip(0, vec![]);
    round_trip(1, vec![1]);
    round_trip(127, vec![0; 127]);
    round_trip(128, vec![7; 128]);
    round_trip(255, vec![9; 255]);
    round_trip(256, vec![9; 256]);
    round_trip(65535, vec![3; 70000]);
    round_trip(0x7fff_ffff, b"cookie".to_vec());
    round_trip(0x8000_0000, b"cookie".to_vec());
    round_trip(u32::MAX, vec![0xff; 3]);
}

#[test]
fn paged_value_agrees_with_rasn() {
    for (size, cookie) in [(0u32, vec![]), (300, b"opaque".to_vec()), (u32::MAX, vec![1u8; 300])] {
        let integer = rasn::ber::encode(&rasn::types::Integer::from(size)).unwrap();
        let string = rasn::ber::encode(&rasn::types::OctetString::from(cookie.clone())).unwrap();
        let parts = vec![rasn::types::Any::new(integer), rasn::types::Any::new(string)];
        let expected = rasn::ber::encode(&parts).unwrap();
        assert_eq!(encode_paged_value(size, &cookie), expected);
    }
}

#[test]
fn decode_accepts_longer_length_forms() {
    // the same value with lengths in the long form and two leading zero octets in the size
    let bytes = vec![0x30, 0x81, 0x0a, 0x02, 0x03, 0x00, 0x00, 0x05, 0x04, 0x82, 0x00, 0x01, 0x41];
    assert_eq!(decode_paged_value(&bytes), Some((5, b"A".to_vec())));
}

#[test]
fn decode_rejects_what_is_no_paged_value() {
    assert_eq!(decode_paged_value(&[]), None);
    assert_eq!(decode_paged_value(&[0x30]), None);
    // wrong outer tag
    assert_eq!(decode_paged_value(&[0x31, 0x05, 0x02, 0x01, 0x01, 0x04, 0x00]), None);
    // truncated
    assert_eq!(decode_paged_value(&[0x30, 0x05, 0x02, 0x01, 0x01, 0x04]), None);
    // trailing byte inside the sequence
    assert_eq!(decode_paged_value(&[0x30, 0x06, 0x02, 0x01, 0x01, 0x04, 0x00, 0x00]), None);
    // empty integer
    assert_eq!(decode_paged_value(&[0x30, 0x04, 0x02, 0x00, 0x04, 0x00]), None);
    // indefinite length without the two zero octets at the end
    assert_eq!(decode_paged_value(&[0x30, 0x80, 0x02, 0x01, 0x01, 0x04, 0x00]), None);
    assert_eq!(decode_paged_value(&[0x30, 0x80, 0x02, 0x01, 0x01, 0x04, 0x00, 0x00]), None);
    assert_eq!(decode_paged_value(&[0x30, 0x80, 0x02, 0x01, 0x01, 0x04, 0x00, 0x00, 0x01]), None);
    // a field of indefinite length
    assert_eq!(decode_paged_value(&[0x30, 0x07, 0x02, 0x01, 0x01, 0x04, 0x80, 0x00, 0x00]), None);
    // a cookie in pieces
    assert_eq!(
        decode_paged_value(&[0x30, 0x08, 0x02, 0x01, 0x01, 0x24, 0x03, 0x04, 0x01, 0x41]),
        None
    );
    // fields in the wrong order
    assert_eq!(decode_paged_value(&[0x30, 0x05, 0x04, 0x00, 0x02, 0x01, 0x01]), None);
    // length of length that runs past the end
    assert_eq!(decode_paged_value(&[0x30, 0x88, 0xff, 0xff]), None);
    // length that does not fit the machine
    assert_eq!(
        decode_paged_value(&[0x30, 0x89, 0x01, 0, 0, 0, 0, 0, 0, 0, 0, 0x02, 0x01, 0x01, 0x04, 0x00]),
        None
    );
}

#[test]
fn control_carries_oid_and_value() {
    let control = Control::try_from(SimplePagedResultsControl::new(1)).unwrap();
    assert_eq!(control.control_type, SIMPLE_PAGED_RESULTS_CONTROL_OID.as_bytes().to_vec());
    assert_eq!(control.control_type, b"1.2.840.113556.1.4.319".to_vec());
    assert!(!control.criticality);
    assert_eq!(control.control_value, Some(vec![0x30, 0x05, 0x02, 0x01, 0x01, 0x04, 0x00]));
    assert_eq!(SimplePagedResultsControl::OID, "1.2.840.113556.1.4.319");
}

#[test]
fn control_round_trip_recomputes_has_entries() {
    // a fresh control expects entries, but its cookie is empty: decoding says there are none
    let fresh = SimplePagedResultsControl::new(10);
    assert!(fresh.has_entries());
    let back = SimplePagedResultsControl::try_from(Control::try_from(fresh).unwrap()).unwrap();
    assert_eq!(back.size(), 10);
    assert!(back.cookie().is_empty());
    assert!(!back.has_entries());

    // with a cookie the control comes back as it was
    let value = encode_paged_value(10, &b"next".to_vec());
    let with_cookie = SimplePagedResultsControl::try_from(Control::new(vec![], true, Some(value))).unwrap();
    assert!(with_cookie.has_entries());
    let again =
        SimplePagedResultsControl::try_from(Control::try_from(with_cookie.clone()).unwrap()).unwrap();
    assert_eq!(again, with_cookie);
}

#[test]
fn control_without_value_is_a_decode_error() {
    let r = SimplePagedResultsControl::try_from(Control::new(b"1.2.840.113556.1.4.319".to_vec(), false, None));
    assert!(matches!(r, Err(Error::AsnDecode(_))));
    let r = SimplePagedResultsControl::try_from(Control::new(vec![], false, Some(vec![0x04, 0x00])));
    assert!(matches!(r, Err(Error::AsnDecode(_))));
}

#[test]
fn rasn_reads_the_paged_value_back() {
    for (size, cookie) in [(0u32, vec![]), (129, b"opaque".to_vec()), (u32::MAX, vec![7u8; 130])] {
        let bytes = encode_paged_value(size, &cookie);
        let parts: Vec<rasn::types::Any> = rasn::ber::decode(&bytes).unwrap();
        assert_eq!(parts.len(), 2);
        let integer: rasn::types::Integer = rasn::ber::decode(parts[0].as_bytes()).unwrap();
        let string: rasn::types::OctetString = rasn::ber::decode(parts[1].as_bytes()).unwrap();
        assert_eq!(integer, rasn::types::Integer::from(size));
        assert_eq!(string, rasn::types::OctetString::from(cookie));
    }
}

#[test]
fn decode_accepts_indefinite_length() {
    assert_eq!(
        decode_paged_value(&[0x30, 0x80, 0x02, 0x01, 0x05, 0x04, 0x02, 0x41, 0x42, 0x00, 0x00]),
        Some((5, b"AB".to_vec()))
    );
    assert_eq!(
        decode_paged_value(&[0x30, 0x80, 0x02, 0x01, 0x01, 0x04, 0x00, 0x00, 0x00]),
        Some((1, vec![]))
    );
    // and what follows the value does not count
    assert_eq!(
        decode_paged_value(&[0x30, 0x80, 0x02, 0x01, 0x01, 0x04, 0x00, 0x00, 0x00, 0xff]),
        Some((1, vec![]))
    );
}

#[test]
fn decode_ignores_what_follows_the_value() {
    assert_eq!(
        decode_paged_value(&[0x30, 0x05, 0x02, 0x01, 0x01, 0x04, 0x00, 0x00]),
        Some((1, vec![]))
    );
    assert_eq!(
        decode_paged_value(&[0x30, 0x06, 0x02, 0x01, 0x07, 0x04, 0x01, 0x43, 0x30, 0x00, 0x99]),
        Some((7, b"C".to_vec()))
    );
}

#[test]
fn size_outside_32_bits_reads_as_the_nearest() {
    // -128 reads as 0
    assert_eq!(decode_paged_value(&[0x30, 0x05, 0x02, 0x01, 0x80, 0x04, 0x00]), Some((0, vec![])));
    assert_eq!(
        decode_paged_value(&[0x30, 0x07, 0x02, 0x02, 0xff, 0xff, 0x04, 0x01, 0x41]),
        Some((0, b"A".to_vec()))
    );
    // 2^32 and more read as 2^32 - 1
    assert_eq!(
        decode_paged_value(&[0x30, 0x09, 0x02, 0x05, 0x01, 0x00, 0x00, 0x00, 0x00, 0x04, 0x00]),
        Some((u32::MAX, vec![]))
    );
    assert_eq!(
        decode_paged_value(&[
            0x30, 0x0e, 0x02, 0x0a, 0x7f, 0xff, 0xff, 0xff, 0xff, 0xff, 0xff, 0xff, 0xff, 0xff, 0x04,
            0x00
        ]),
        Some((u32::MAX, vec![]))
    );
    // a page of a paged search goes on with such a size
    let value = vec![0x30, 0x06, 0x02, 0x01, 0xff, 0x04, 0x01, 0x41];
    let state = SimplePagedResultsControl::try_from(Control::new(vec![], false, Some(value))).unwrap();
    assert_eq!(state.size(), 0);
    assert!(state.has_entries());
}

#[test]
fn rasn_reads_what_decode_accepts() {
    for bytes in [
        vec![0x30, 0x80, 0x02, 0x01, 0x05, 0x04, 0x02, 0x41, 0x42, 0x00, 0x00],
        vec![0x30, 0x05, 0x02, 0x01, 0x05, 0x04, 0x00, 0x00],
        vec![0x30, 0x81, 0x0a, 0x02, 0x03, 0x00, 0x00, 0x05, 0x04, 0x82, 0x00, 0x01, 0x41],
    ] {
        let (size, cookie) = decode_paged_value(&bytes).unwrap();
        let parts: Vec<rasn::types::Any> = rasn::ber::decode(&bytes).unwrap();
        assert_eq!(parts.len(), 2);
        let integer: rasn::types::Integer = rasn::ber::decode(parts[0].as_bytes()).unwrap();
        let string: rasn::types::OctetString = rasn::ber::decode(parts[1].as_bytes()).unwrap();
        assert_eq!(integer, rasn::types::Integer::from(size));
        assert_eq!(string, rasn::types::OctetString::from(cookie));
    }
}
