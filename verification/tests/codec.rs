use bytes::BytesMut;
use libkrime::asn1::der::no_children;
use libkrime::asn1::leaf::{
    int_value_of, octets_value_of, push_field, seq_value_of, string_value_of, wrap_value,
};
use libkrime::asn1::time::time_value_of;
use libkrime::asn1::der::push_child;
use libkrime::codec::{scan, CodecError, RecordScan};
use libkrime::crypto::{derive_key_aes256_cts_hmac_sha1_96, encrypt_aes256_cts_hmac_sha1_96};
use libkrime::error::KrbError;
use libkrime::proto::wire::{pa_data_list_value_of, PaData};
use libkrime::proto::{
    EncryptedData, EncryptionType, KerberosRequest, KerberosResponse, Name, Preauth,
};
use libkrime::KerberosTcpCodec;

fn wire_name(kind: i64, parts: &[&str]) -> libkrime::asn1::der::DerValue {
    let mut strings = no_children();
    for p in parts {
        push_child(&mut strings, string_value_of(p).unwrap());
    }
    let mut fields = no_children();
    push_field(&mut fields, 0, int_value_of(kind));
    push_field(&mut fields, 1, seq_value_of(strings));
    seq_value_of(fields)
}

fn error_message(code: i64, e_data: Option<Vec<u8>>) -> Vec<u8> {
    let mut f = no_children();
    push_field(&mut f, 0, int_value_of(5));
    push_field(&mut f, 1, int_value_of(30));
    push_field(&mut f, 4, time_value_of(1_700_000_000).unwrap());
    push_field(&mut f, 5, int_value_of(0));
    push_field(&mut f, 6, int_value_of(code));
    push_field(&mut f, 9, string_value_of("EXAMPLE.COM").unwrap());
    push_field(&mut f, 10, wire_name(2, &["krbtgt", "EXAMPLE.COM"]));
    if let Some(d) = e_data {
        push_field(&mut f, 12, octets_value_of(d));
    }
    wrap_value(0x7e, seq_value_of(f)).encode().unwrap()
}

fn reply_message(user: &str, cipher: &[u8]) -> Vec<u8> {
    let mut e = no_children();
    push_field(&mut e, 0, int_value_of(18));
    push_field(&mut e, 2, octets_value_of(vec![0x55; 48]));
    let mut t = no_children();
    push_field(&mut t, 0, int_value_of(5));
    push_field(&mut t, 1, string_value_of("EXAMPLE.COM").unwrap());
    push_field(&mut t, 2, wire_name(2, &["krbtgt", "EXAMPLE.COM"]));
    push_field(&mut t, 3, seq_value_of(e));
    let mut c = no_children();
    push_field(&mut c, 0, int_value_of(18));
    push_field(&mut c, 2, octets_value_of(cipher.to_vec()));
    let mut f = no_children();
    push_field(&mut f, 0, int_value_of(5));
    push_field(&mut f, 1, int_value_of(11));
    push_field(&mut f, 3, string_value_of("EXAMPLE.COM").unwrap());
    push_field(&mut f, 4, wire_name(1, &[user]));
    push_field(&mut f, 5, wrap_value(0x61, seq_value_of(t)));
    push_field(&mut f, 6, seq_value_of(c));
    wrap_value(0x6b, seq_value_of(f)).encode().unwrap()
}

fn one_fragment(payload: &[u8]) -> Vec<u8> {
    let mut out = ((payload.len() as u32) | 0x8000_0000).to_be_bytes().to_vec();
    out.extend_from_slice(payload);
    out
}

fn sample_request() -> KerberosRequest {
    KerberosRequest::build_as(
        Name::principal("testuser", "EXAMPLE.COM"),
        Name::service_krbtgt("EXAMPLE.COM"),
        1_700_003_600,
    )
    .build_with_nonce(99)
}

#[test]
fn default_limit() {
    assert_eq!(KerberosTcpCodec::default().max_size(), 65536);
    assert_eq!(KerberosTcpCodec::new(1000).max_size(), 1000);
}

#[test]
fn encode_writes_one_fragment_marked_last() {
    let mut codec = KerberosTcpCodec::default();
    let mut buf = BytesMut::new();
    let der = sample_request().to_der().unwrap();
    assert_eq!(codec.encode(sample_request(), &mut buf), Ok(()));
    assert_eq!(&buf[..], &one_fragment(&der)[..]);
    assert_eq!(buf[0], 0x80);
    assert_eq!(
        u32::from_be_bytes([buf[0], buf[1], buf[2], buf[3]]) & 0x7fff_ffff,
        der.len() as u32
    );
    assert_eq!(buf.len(), der.len() + 4);
}

#[test]
fn encode_appends_behind_what_is_buffered() {
    let mut codec = KerberosTcpCodec::default();
    let mut buf = BytesMut::from(&b"xyz"[..]);
    let der = sample_request().to_der().unwrap();
    assert_eq!(codec.encode(sample_request(), &mut buf), Ok(()));
    assert_eq!(codec.encode(sample_request(), &mut buf), Ok(()));
    let mut want = b"xyz".to_vec();
    want.extend(one_fragment(&der));
    want.extend(one_fragment(&der));
    assert_eq!(&buf[..], &want[..]);
}

#[test]
fn encode_keeps_large_messages_in_one_fragment() {
    let mut codec = KerberosTcpCodec::new(1 << 20);
    let mut buf = BytesMut::new();
    let large = || KerberosRequest::Authentication {
        nonce: 1,
        client_name: Name::principal("testuser", "EXAMPLE.COM"),
        service_name: Name::service_krbtgt("EXAMPLE.COM"),
        from: None,
        until: 1_700_003_600,
        renew: None,
        preauth: Preauth { enc_timestamp: None, pa_fx_cookie: Some(vec![0x5a; 200_000]) },
        etypes: vec![EncryptionType::AES256_CTS_HMAC_SHA1_96],
    };
    let der = large().to_der().unwrap();
    assert!(der.len() > 200_000);
    assert_eq!(codec.encode(large(), &mut buf), Ok(()));
    assert_eq!(&buf[..], &one_fragment(&der)[..]);
}

#[test]
fn encode_enforces_the_limit() {
    let der_len = sample_request().to_der().unwrap().len();
    let mut buf = BytesMut::from(&b"kept"[..]);
    let mut codec = KerberosTcpCodec::new(der_len - 1);
    assert_eq!(
        codec.encode(sample_request(), &mut buf),
        Err(CodecError::MessageTooLarge)
    );
    assert_eq!(&buf[..], b"kept");
    let mut codec = KerberosTcpCodec::new(der_len);
    assert_eq!(codec.encode(sample_request(), &mut buf), Ok(()));
    assert_eq!(buf.len(), 4 + 4 + der_len);
}

#[test]
fn encode_refuses_what_cannot_be_written() {
    let mut codec = KerberosTcpCodec::default();
    let mut buf = BytesMut::new();
    assert_eq!(
        codec.encode(KerberosRequest::TicketGrant {}, &mut buf),
        Err(CodecError::InvalidInput(KrbError::TgsNotImplemented))
    );
    assert!(buf.is_empty());
}

#[test]
fn decode_takes_one_whole_record() {
    let mut codec = KerberosTcpCodec::default();
    let mut buf = BytesMut::from(&one_fragment(&error_message(6, None))[..]);
    assert_eq!(codec.decode(&mut buf), Ok(Some(KerberosResponse::ErrRep(6))));
    assert!(buf.is_empty());
    assert_eq!(codec.decode(&mut buf), Err(CodecError::UnexpectedEof));
}

#[test]
fn partial_delivery_gives_one_response_once_all_has_arrived() {
    let record = one_fragment(&error_message(6, None));
    let mut codec = KerberosTcpCodec::default();
    let mut buf = BytesMut::new();
    buf.extend_from_slice(&record[..7]);
    assert_eq!(codec.decode(&mut buf), Ok(None));
    assert_eq!(&buf[..], &record[..7]);
    // Asking again before more has arrived changes nothing.
    assert_eq!(codec.decode(&mut buf), Ok(None));
    assert_eq!(&buf[..], &record[..7]);
    buf.extend_from_slice(&record[7..]);
    assert_eq!(codec.decode(&mut buf), Ok(Some(KerberosResponse::ErrRep(6))));
    assert!(buf.is_empty());
}

#[test]
fn partial_delivery_at_every_split() {
    let record = one_fragment(&error_message(7, None));
    for split in 1..record.len() {
        let mut codec = KerberosTcpCodec::default();
        let mut buf = BytesMut::new();
        buf.extend_from_slice(&record[..split]);
        assert_eq!(codec.decode(&mut buf), Ok(None), "split at {}", split);
        assert_eq!(buf.len(), split);
        buf.extend_from_slice(&record[split..]);
        assert_eq!(
            codec.decode(&mut buf),
            Ok(Some(KerberosResponse::ErrRep(7))),
            "split at {}",
            split
        );
        assert!(buf.is_empty());
    }
}

#[test]
fn decode_puts_fragments_together() {
    let message = error_message(12, None);
    let (a, rest) = message.split_at(5);
    let (b, c) = rest.split_at(20);
    let mut wire = Vec::new();
    wire.extend((a.len() as u32).to_be_bytes());
    wire.extend_from_slice(a);
    wire.extend(0u32.to_be_bytes());
    wire.extend((b.len() as u32).to_be_bytes());
    wire.extend_from_slice(b);
    wire.extend(((c.len() as u32) | 0x8000_0000).to_be_bytes());
    wire.extend_from_slice(c);
    wire.extend_from_slice(b"next");
    let mut codec = KerberosTcpCodec::default();
    let mut buf = BytesMut::from(&wire[..wire.len() - 5]);
    assert_eq!(codec.decode(&mut buf), Ok(None));
    buf.extend_from_slice(&wire[wire.len() - 5..]);
    assert_eq!(codec.decode(&mut buf), Ok(Some(KerberosResponse::ErrRep(12))));
    assert_eq!(&buf[..], b"next");
}

#[test]
fn decode_takes_records_one_by_one() {
    let mut wire = one_fragment(&error_message(6, None));
    wire.extend(one_fragment(&error_message(7, None)));
    let mut codec = KerberosTcpCodec::default();
    let mut buf = BytesMut::from(&wire[..]);
    assert_eq!(codec.decode(&mut buf), Ok(Some(KerberosResponse::ErrRep(6))));
    assert_eq!(codec.decode(&mut buf), Ok(Some(KerberosResponse::ErrRep(7))));
    assert!(buf.is_empty());
}

#[test]
fn decode_enforces_the_limit() {
    let message = error_message(6, None);
    let record = one_fragment(&message);
    let mut codec = KerberosTcpCodec::new(message.len() - 1);
    let mut buf = BytesMut::from(&record[..]);
    assert_eq!(codec.decode(&mut buf), Err(CodecError::MessageTooLarge));
    assert_eq!(buf.len(), record.len());
    // The header alone is enough to refuse.
    let mut buf = BytesMut::from(&record[..4]);
    assert_eq!(codec.decode(&mut buf), Err(CodecError::MessageTooLarge));
    let mut buf = BytesMut::from(&[0xff, 0xff, 0xff, 0xff][..]);
    assert_eq!(
        KerberosTcpCodec::default().decode(&mut buf),
        Err(CodecError::MessageTooLarge)
    );
    // Fragments count together.
    let mut wire = Vec::new();
    wire.extend(40_000u32.to_be_bytes());
    wire.extend(vec![0u8; 40_000]);
    wire.extend((40_000u32 | 0x8000_0000).to_be_bytes());
    let mut buf = BytesMut::from(&wire[..]);
    assert_eq!(
        KerberosTcpCodec::default().decode(&mut buf),
        Err(CodecError::MessageTooLarge)
    );
    let mut codec = KerberosTcpCodec::new(message.len());
    let mut buf = BytesMut::from(&record[..]);
    assert_eq!(codec.decode(&mut buf), Ok(Some(KerberosResponse::ErrRep(6))));
}

#[test]
fn decode_reports_what_is_no_response() {
    let mut codec = KerberosTcpCodec::default();
    let mut buf = BytesMut::from(&one_fragment(&[0x30, 0x00])[..]);
    assert_eq!(
        codec.decode(&mut buf),
        Err(CodecError::InvalidData(KrbError::DerDecodeKdcRep))
    );
    // The record is gone all the same, and the next one can be read.
    assert!(buf.is_empty());
    let mut buf = BytesMut::from(&one_fragment(&[])[..]);
    assert_eq!(
        codec.decode(&mut buf),
        Err(CodecError::InvalidData(KrbError::DerDecodeKdcRep))
    );
}

#[test]
fn an_empty_buffer_has_no_record() {
    let mut codec = KerberosTcpCodec::default();
    let mut buf = BytesMut::new();
    assert_eq!(codec.decode(&mut buf), Err(CodecError::UnexpectedEof));
    assert!(buf.is_empty());
    buf.extend_from_slice(&[0x80]);
    assert_eq!(codec.decode(&mut buf), Ok(None));
    assert_eq!(&buf[..], &[0x80]);
}

#[test]
fn scanning_finds_the_first_record() {
    assert_eq!(scan(&[], 10), RecordScan::Incomplete);
    assert_eq!(scan(&[0x80, 0, 0], 10), RecordScan::Incomplete);
    assert_eq!(
        scan(&[0x80, 0, 0, 0], 10),
        RecordScan::Complete { consumed: 4, payload_len: 0 }
    );
    assert_eq!(scan(&[0x80, 0, 0, 2, 1], 10), RecordScan::Incomplete);
    assert_eq!(
        scan(&[0x80, 0, 0, 2, 1, 2, 3], 10),
        RecordScan::Complete { consumed: 6, payload_len: 2 }
    );
    assert_eq!(scan(&[0, 0, 0, 2, 1, 2], 10), RecordScan::Incomplete);
    assert_eq!(
        scan(&[0, 0, 0, 2, 1, 2, 0x80, 0, 0, 1, 3], 10),
        RecordScan::Complete { consumed: 11, payload_len: 3 }
    );
    assert_eq!(scan(&[0, 0, 0, 2, 1, 2, 0x80, 0, 0, 1, 3], 2), RecordScan::TooLarge);
    assert_eq!(
        scan(&[0, 0, 0, 2, 1, 2, 0x80, 0, 0, 1, 3], 3),
        RecordScan::Complete { consumed: 11, payload_len: 3 }
    );
    assert_eq!(scan(&[0x80, 0, 0, 11], 10), RecordScan::TooLarge);
    assert_eq!(scan(&[0x7f, 0xff, 0xff, 0xff], usize::MAX), RecordScan::Incomplete);
}

#[test]
fn exchange_with_preauthentication() {
    let mut client = KerberosTcpCodec::default();
    let user = Name::principal("testuser_preauth", "EXAMPLE.COM");
    let now: u64 = 1_700_000_000;

    // The first request goes out without pre-authentication.
    let mut out = BytesMut::new();
    let as_req = KerberosRequest::build_as(
        user.clone(),
        Name::service_krbtgt("EXAMPLE.COM"),
        now + 3600,
    )
    .build();
    assert_eq!(client.encode(as_req, &mut out), Ok(()));
    assert!(KerberosRequest::from_der(&out[4..]).is_ok());

    // The server asks for an encrypted timestamp.
    let offer = pa_data_list_value_of(&vec![
        PaData {
            padata_type: 19,
            padata_value: {
                let mut entry = no_children();
                push_field(&mut entry, 0, int_value_of(18));
                seq_value_of(vec![seq_value_of(entry)]).encode().unwrap()
            },
        },
        PaData { padata_type: 2, padata_value: vec![] },
        PaData { padata_type: 133, padata_value: b"cookie".to_vec() },
    ])
    .encode()
    .unwrap();
    let mut inbound = BytesMut::from(&one_fragment(&error_message(25, Some(offer)))[..]);
    let pa_rep = match client.decode(&mut inbound).unwrap().unwrap() {
        KerberosResponse::PaRep(p) => p,
        _ => panic!("no demand for pre-authentication"),
    };
    assert!(pa_rep.enc_timestamp);
    assert!(!pa_rep.etype_info2.is_empty());

    // The second request answers it.
    let as_req = KerberosRequest::build_as(
        user.clone(),
        Name::service_krbtgt("EXAMPLE.COM"),
        now + 3600,
    )
    .preauth_enc_ts(&pa_rep, "password", now, 250_000)
    .unwrap()
    .build();
    let mut out = BytesMut::new();
    assert_eq!(client.encode(as_req, &mut out), Ok(()));
    let seen = match KerberosRequest::from_der(&out[4..]).unwrap() {
        KerberosRequest::Authentication { preauth, client_name, .. } => {
            assert_eq!(client_name, user);
            preauth
        }
        _ => panic!("not an authentication request"),
    };
    assert_eq!(seen.pa_fx_cookie, Some(b"cookie".to_vec()));
    let key = derive_key_aes256_cts_hmac_sha1_96(
        b"password",
        b"EXAMPLE.COM",
        b"testuser_preauth",
        None,
    )
    .unwrap();
    match seen.enc_timestamp.unwrap() {
        EncryptedData::Aes256CtsHmacSha196 { data, .. } => {
            assert_eq!(
                EncryptedData::Aes256CtsHmacSha196 { kvno: None, data }
                    .decrypt_data(&key, 1)
                    .unwrap(),
                libkrime::proto::preauth::pa_enc_ts_enc_der(now, 250_000).unwrap()
            );
        }
    }

    // The server lets the client in.
    let session: Vec<u8> = (0..64u8).collect();
    let cipher = encrypt_aes256_cts_hmac_sha1_96(&key, &session, 3).unwrap();
    let mut inbound =
        BytesMut::from(&one_fragment(&reply_message("testuser_preauth", &cipher))[..]);
    let asrep = match client.decode(&mut inbound).unwrap().unwrap() {
        KerberosResponse::AsRep(r) => r,
        _ => panic!("no authentication reply"),
    };
    let base_key = asrep
        .enc_part
        .derive_key(b"password", b"EXAMPLE.COM", b"testuser_preauth")
        .unwrap();
    assert_eq!(asrep.enc_part.decrypt_data(&base_key, 3).unwrap(), session);
}
