use der::Encode;
use libkrime::asn1::der::{no_children, push_child, wrap_bytes, DerValue};
use libkrime::asn1::leaf::{
    decode_int, encode_int, ia5_bytes, ia5_string, int_value_of, octets_value_of, push_field,
    read_int, read_octets, read_seq, read_string, read_wrapped, seq_value_of, string_value_of,
    wrap_value,
};
use libkrime::asn1::time::{decode_time, encode_time, read_time, time_value_of};

#[test]
fn integers_are_minimal_twos_complement() {
    assert_eq!(encode_int(0), vec![0x00]);
    assert_eq!(encode_int(5), vec![0x05]);
    assert_eq!(encode_int(127), vec![0x7f]);
    assert_eq!(encode_int(128), vec![0x00, 0x80]);
    assert_eq!(encode_int(255), vec![0x00, 0xff]);
    assert_eq!(encode_int(256), vec![0x01, 0x00]);
    assert_eq!(encode_int(-1), vec![0xff]);
    assert_eq!(encode_int(-128), vec![0x80]);
    assert_eq!(encode_int(-129), vec![0xff, 0x7f]);
    assert_eq!(encode_int(0x7fff_ffff), vec![0x7f, 0xff, 0xff, 0xff]);
    assert_eq!(encode_int(0x8000_0000), vec![0x00, 0x80, 0x00, 0x00, 0x00]);
    assert_eq!(encode_int(0xffff_ffff), vec![0x00, 0xff, 0xff, 0xff, 0xff]);
    assert_eq!(encode_int(-0x8000_0000), vec![0x80, 0x00, 0x00, 0x00]);
    assert_eq!(encode_int(0x7f_ffff_ffff), vec![0x7f, 0xff, 0xff, 0xff, 0xff]);
    assert_eq!(encode_int(-0x80_0000_0000), vec![0x80, 0x00, 0x00, 0x00, 0x00]);
    assert_eq!(encode_int(0x80_0000_0000), vec![0x00, 0x80, 0x00, 0x00, 0x00, 0x00]);
    assert_eq!(encode_int(i64::MAX), vec![0x7f, 0xff, 0xff, 0xff, 0xff, 0xff, 0xff, 0xff]);
    assert_eq!(encode_int(i64::MIN), vec![0x80, 0, 0, 0, 0, 0, 0, 0]);
    assert_eq!(encode_int(i64::MIN + 1), vec![0x80, 0, 0, 0, 0, 0, 0, 1]);
    assert_eq!(encode_int(-0x1_0000_0000_0000), vec![0xff, 0, 0, 0, 0, 0, 0]);
}

#[test]
fn integers_agree_with_the_der_crate() {
    let samples: [i64; 14] = [
        0, 1, 5, 18, 127, 128, 255, 256, 65535, 65536, 0x7fff_ffff, -1, -129, -0x8000_0000,
    ];
    for v in samples {
        let ours = int_value_of(v).encode().unwrap();
        let theirs = (v as i32).to_der().unwrap();
        assert_eq!(ours, theirs, "value {}", v);
    }
    for v in [0x8000_0000u32, 0xffff_ffff, 0x1234_5678, 133] {
        let ours = int_value_of(v as i64).encode().unwrap();
        let theirs = v.to_der().unwrap();
        assert_eq!(ours, theirs, "value {}", v);
    }
}

#[test]
fn integers_read_back() {
    for v in [
        0i64,
        1,
        -1,
        127,
        128,
        -128,
        -129,
        32767,
        32768,
        -32769,
        0x7fff_ffff,
        0x8000_0000,
        0xffff_ffff,
        -0x8000_0000,
        0x7f_ffff_ffff,
        -0x80_0000_0000,
        0x1234_5678_9abc,
        -0x1234_5678_9abc_def0,
        i64::MAX,
        i64::MIN,
    ] {
        assert_eq!(decode_int(&encode_int(v)), Some(v));
        assert_eq!(read_int(&int_value_of(v)), Some(v));
    }
}

#[test]
fn integers_with_a_spare_octet_are_refused() {
    assert_eq!(decode_int(&[]), None);
    assert_eq!(decode_int(&[0x00, 0x05]), None);
    assert_eq!(decode_int(&[0xff, 0xff]), None);
    assert_eq!(decode_int(&[0x00, 0x80]), Some(128));
    assert_eq!(decode_int(&[0xff, 0x7f]), Some(-129));
    assert_eq!(decode_int(&[1, 2, 3, 4, 5, 6]), Some(0x0102_0304_0506));
    assert_eq!(decode_int(&[1, 2, 3, 4, 5, 6, 7, 8, 9]), None);
    assert_eq!(decode_int(&[0, 0x80, 0, 0, 0, 0, 0, 0, 0]), None);
}

#[test]
fn lengths_take_the_short_form_where_they_can() {
    assert_eq!(wrap_bytes(0x04, &[]), vec![0x04, 0x00]);
    assert_eq!(wrap_bytes(0x04, &[9]), vec![0x04, 0x01, 9]);
    let v127 = wrap_bytes(0x04, &[1u8; 127]);
    assert_eq!(&v127[..2], &[0x04, 0x7f]);
    assert_eq!(v127.len(), 129);
    let v128 = wrap_bytes(0x04, &[1u8; 128]);
    assert_eq!(&v128[..3], &[0x04, 0x81, 0x80]);
    let v255 = wrap_bytes(0x04, &[1u8; 255]);
    assert_eq!(&v255[..3], &[0x04, 0x81, 0xff]);
    let v256 = wrap_bytes(0x04, &[1u8; 256]);
    assert_eq!(&v256[..4], &[0x04, 0x82, 0x01, 0x00]);
    let v65536 = wrap_bytes(0x04, &vec![1u8; 65536]);
    assert_eq!(&v65536[..5], &[0x04, 0x83, 0x01, 0x00, 0x00]);
    let v16m = wrap_bytes(0x04, &vec![1u8; 0x100_0000]);
    assert_eq!(&v16m[..6], &[0x04, 0x84, 0x01, 0x00, 0x00, 0x00]);
}

#[test]
fn octet_strings_agree_with_the_der_crate() {
    for len in [0usize, 1, 12, 127, 128, 300, 70000] {
        let bytes: Vec<u8> = (0..len).map(|i| i as u8).collect();
        let ours = octets_value_of(bytes.clone()).encode().unwrap();
        let theirs = der::asn1::OctetString::new(bytes).unwrap().to_der().unwrap();
        assert_eq!(ours, theirs);
    }
}

#[test]
fn values_parse_back_to_what_was_encoded() {
    let mut fields = no_children();
    push_field(&mut fields, 0, int_value_of(5));
    push_field(&mut fields, 1, octets_value_of(vec![1, 2, 3]));
    push_field(&mut fields, 2, string_value_of("EXAMPLE.COM").unwrap());
    let mut inner = no_children();
    push_child(&mut inner, int_value_of(-7));
    push_child(&mut inner, int_value_of(70000));
    push_field(&mut fields, 3, seq_value_of(inner));
    let tree = wrap_value(0x6a, seq_value_of(fields));
    let octets = tree.encode().unwrap();
    assert_eq!(DerValue::parse(&octets).as_ref(), Some(&tree));
    // Encoding is a function of the value.
    assert_eq!(tree.encode().unwrap(), octets);

    let top = read_wrapped(&tree, 0x6a).unwrap();
    let items = read_seq(top).unwrap();
    assert_eq!(items.len(), 4);
    assert_eq!(read_int(read_wrapped(&items[0], 0xa0).unwrap()), Some(5));
    assert_eq!(
        read_octets(read_wrapped(&items[1], 0xa1).unwrap()),
        Some(&vec![1u8, 2, 3])
    );
    assert_eq!(
        read_string(read_wrapped(&items[2], 0xa2).unwrap()),
        Some("EXAMPLE.COM".to_string())
    );
    assert!(read_wrapped(&items[2], 0xa3).is_none());
}

#[test]
fn exact_encoding_of_a_small_sequence() {
    let mut fields = no_children();
    push_field(&mut fields, 0, int_value_of(18));
    push_field(&mut fields, 2, octets_value_of(vec![0xde, 0xad]));
    let octets = seq_value_of(fields).encode().unwrap();
    assert_eq!(
        octets,
        vec![0x30, 0x0b, 0xa0, 0x03, 0x02, 0x01, 0x12, 0xa2, 0x04, 0x04, 0x02, 0xde, 0xad]
    );
}

#[test]
fn malformed_encodings_are_refused() {
    // Nothing, and a tag without a length.
    assert_eq!(DerValue::parse(&[]), None);
    assert_eq!(DerValue::parse(&[0x04]), None);
    // Content shorter than announced.
    assert_eq!(DerValue::parse(&[0x04, 0x02, 0x01]), None);
    // Bytes behind the value.
    assert_eq!(DerValue::parse(&[0x04, 0x01, 0x01, 0x00]), None);
    // A length in the long form that fits the short one.
    assert_eq!(DerValue::parse(&[0x04, 0x81, 0x01, 0x01]), None);
    // A length with a leading zero octet.
    let mut padded = vec![0x04, 0x82, 0x00, 0x80];
    padded.extend(vec![0u8; 128]);
    assert_eq!(DerValue::parse(&padded), None);
    // The indefinite form.
    assert_eq!(DerValue::parse(&[0x30, 0x80, 0x00, 0x00]), None);
    // A tag of more than one octet.
    assert_eq!(DerValue::parse(&[0x1f, 0x81, 0x00, 0x00]), None);
    // A constructed value whose content is no whole value.
    assert_eq!(DerValue::parse(&[0x30, 0x01, 0x04]), None);
    // The well-formed neighbours of the above.
    assert!(DerValue::parse(&[0x04, 0x01, 0x01]).is_some());
    assert!(DerValue::parse(&[0x30, 0x00]).is_some());
}

#[test]
fn nesting_is_bounded() {
    let mut tree = DerValue::primitive(0x04, vec![]);
    for _ in 0..32 {
        tree = wrap_value(0x30, tree);
    }
    let octets = tree.encode().unwrap();
    assert_eq!(DerValue::parse(&octets).as_ref(), Some(&tree));
    let deeper = wrap_value(0x30, tree);
    assert_eq!(deeper.encode(), None);
    let mut raw = vec![0x04u8, 0x00];
    for _ in 0..33 {
        let mut next = vec![0x30, raw.len() as u8];
        next.extend(raw);
        raw = next;
    }
    assert_eq!(DerValue::parse(&raw), None);
}

#[test]
fn tags_must_fit_their_content() {
    assert_eq!(DerValue::primitive(0x30, vec![]).encode(), None);
    assert_eq!(DerValue::constructed(0x04, no_children()).encode(), None);
    assert_eq!(DerValue::primitive(0x1f, vec![]).encode(), None);
    assert_eq!(
        DerValue::constructed(0x30, no_children()).encode(),
        Some(vec![0x30, 0x00])
    );
}

#[test]
fn strings_are_seven_bit() {
    assert_eq!(ia5_bytes("krbtgt"), Some(b"krbtgt".to_vec()));
    assert_eq!(ia5_bytes(""), Some(vec![]));
    assert_eq!(ia5_bytes("caf\u{e9}"), None);
    assert_eq!(ia5_string(b"EXAMPLE.COM"), Some("EXAMPLE.COM".to_string()));
    assert_eq!(ia5_string(&[0x41, 0x80]), None);
    assert!(string_value_of("na\u{ef}ve").is_none());
    assert_eq!(
        string_value_of("alice").unwrap().encode().unwrap(),
        vec![0x1b, 0x05, 0x61, 0x6c, 0x69, 0x63, 0x65]
    );
}

#[test]
fn times_are_written_as_utc_calendar_time() {
    assert_eq!(encode_time(0), Some(b"19700101000000Z".to_vec()));
    assert_eq!(encode_time(1_700_000_000), Some(b"20231114221320Z".to_vec()));
    assert_eq!(encode_time(951_782_400), Some(b"20000229000000Z".to_vec()));
    assert_eq!(encode_time(253_402_300_799), Some(b"99991231235959Z".to_vec()));
    assert_eq!(encode_time(253_402_300_800), None);
    assert_eq!(encode_time(u64::MAX), None);
}

#[test]
fn times_agree_with_the_der_crate() {
    for secs in [0u64, 1, 86_399, 86_400, 1_700_000_000, 4_102_444_800, 253_402_300_799] {
        let ours = time_value_of(secs).unwrap().encode().unwrap();
        let theirs = der::asn1::GeneralizedTime::from_unix_duration(
            core::time::Duration::from_secs(secs),
        )
        .unwrap()
        .to_der()
        .unwrap();
        assert_eq!(ours, theirs);
    }
}

#[test]
fn times_read_back() {
    for secs in [0u64, 59, 1_700_000_000, 951_782_400, 253_402_300_799] {
        let content = encode_time(secs).unwrap();
        assert_eq!(decode_time(&content), Some(secs));
        assert_eq!(read_time(&time_value_of(secs).unwrap()), Some(secs));
    }
}

#[test]
fn misshapen_times_are_refused() {
    assert_eq!(decode_time(b"20231114221320"), None);
    assert_eq!(decode_time(b"20231114221320z"), None);
    assert_eq!(decode_time(b"2023111422132aZ"), None);
    assert_eq!(decode_time(b"20231314221320Z"), None);
    assert_eq!(decode_time(b"20230230000000Z"), None);
    assert_eq!(decode_time(b"20231114241320Z"), None);
    assert_eq!(decode_time(b"19691231235959Z"), None);
    assert_eq!(decode_time(b"20231114221320Z"), Some(1_700_000_000));
}
