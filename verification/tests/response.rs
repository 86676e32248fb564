use libkrime::asn1::der::{no_children, push_child, DerValue};
use libkrime::asn1::leaf::{
    int_value_of, octets_value_of, push_field, seq_value_of, string_value_of, wrap_value,
};
use libkrime::asn1::time::time_value_of;
use libkrime::crypto::{derive_key_aes256_cts_hmac_sha1_96, encrypt_aes256_cts_hmac_sha1_96};
use libkrime::error::KrbError;
use libkrime::proto::response::{read_etype_info2, KdcKrbError, KdcRep, KrbKdcRep};
use libkrime::proto::wire::{pa_data_list_value_of, PaData};
use libkrime::proto::{
    ETypeInfo2Entry, EncryptedData, EncryptionType, KerberosResponse, Name, PreauthData,
};

fn rsp_name(kind: i64, parts: &[&str]) -> DerValue {
    let mut strings = no_children();
    for p in parts {
        push_child(&mut strings, string_value_of(p).unwrap());
    }
    let mut fields = no_children();
    push_field(&mut fields, 0, int_value_of(kind));
    push_field(&mut fields, 1, seq_value_of(strings));
    seq_value_of(fields)
}

fn rsp_encrypted(etype: i64, kvno: Option<i64>, cipher: &[u8]) -> DerValue {
    let mut fields = no_children();
    push_field(&mut fields, 0, int_value_of(etype));
    if let Some(k) = kvno {
        push_field(&mut fields, 1, int_value_of(k));
    }
    push_field(&mut fields, 2, octets_value_of(cipher.to_vec()));
    seq_value_of(fields)
}

fn rsp_entry(etype: i64, salt: Option<&str>, params: Option<&[u8]>) -> DerValue {
    let mut fields = no_children();
    push_field(&mut fields, 0, int_value_of(etype));
    if let Some(s) = salt {
        push_field(&mut fields, 1, string_value_of(s).unwrap());
    }
    if let Some(p) = params {
        push_field(&mut fields, 2, octets_value_of(p.to_vec()));
    }
    seq_value_of(fields)
}

fn rsp_etype_info2(entries: Vec<DerValue>) -> Vec<u8> {
    seq_value_of(entries).encode().unwrap()
}

fn rsp_method_data(items: Vec<PaData>) -> Vec<u8> {
    pa_data_list_value_of(&items).encode().unwrap()
}

fn rsp_error(pvno: i64, msg_type: i64, code: i64, e_data: Option<Vec<u8>>) -> Vec<u8> {
    let mut f = no_children();
    push_field(&mut f, 0, int_value_of(pvno));
    push_field(&mut f, 1, int_value_of(msg_type));
    push_field(&mut f, 4, time_value_of(1_700_000_000).unwrap());
    push_field(&mut f, 5, int_value_of(500));
    push_field(&mut f, 6, int_value_of(code));
    push_field(&mut f, 9, string_value_of("EXAMPLE.COM").unwrap());
    push_field(&mut f, 10, rsp_name(2, &["krbtgt", "EXAMPLE.COM"]));
    push_field(&mut f, 11, string_value_of("NEEDED_PREAUTH").unwrap());
    if let Some(d) = e_data {
        push_field(&mut f, 12, octets_value_of(d));
    }
    wrap_value(0x7e, seq_value_of(f)).encode().unwrap()
}

fn rsp_as_rep(pvno: i64, msg_type: i64, etype: i64, cipher: &[u8], tag: u8) -> Vec<u8> {
    let mut t = no_children();
    push_field(&mut t, 0, int_value_of(5));
    push_field(&mut t, 1, string_value_of("EXAMPLE.COM").unwrap());
    push_field(&mut t, 2, rsp_name(2, &["krbtgt", "EXAMPLE.COM"]));
    push_field(&mut t, 3, rsp_encrypted(18, Some(1), &[0xaa; 60]));
    let ticket = wrap_value(0x61, seq_value_of(t));
    let mut f = no_children();
    push_field(&mut f, 0, int_value_of(pvno));
    push_field(&mut f, 1, int_value_of(msg_type));
    push_field(&mut f, 3, string_value_of("EXAMPLE.COM").unwrap());
    push_field(&mut f, 4, rsp_name(1, &["testuser"]));
    push_field(&mut f, 5, ticket);
    push_field(&mut f, 6, rsp_encrypted(etype, Some(2), cipher));
    wrap_value(tag, seq_value_of(f)).encode().unwrap()
}

fn rsp_offer() -> Vec<u8> {
    rsp_method_data(vec![
        PaData { padata_type: 136, padata_value: vec![] },
        PaData {
            padata_type: 19,
            padata_value: rsp_etype_info2(vec![
                rsp_entry(17, Some("EXAMPLE.COMtestuser_preauth"), None),
                rsp_entry(18, Some("EXAMPLE.COMtestuser_preauth"), Some(&[0, 0, 0x10, 0])),
            ]),
        },
        PaData { padata_type: 2, padata_value: vec![] },
        PaData { padata_type: 133, padata_value: b"MIT".to_vec() },
    ])
}

#[test]
fn preauth_required_carries_the_servers_offer() {
    let octets = rsp_error(5, 30, 25, Some(rsp_offer()));
    let response = KerberosResponse::from_der(&octets).unwrap();
    assert_eq!(
        response,
        KerberosResponse::PaRep(PreauthData {
            enc_timestamp: true,
            etype_info2: vec![ETypeInfo2Entry {
                etype: EncryptionType::AES256_CTS_HMAC_SHA1_96,
                salt: Some("EXAMPLE.COMtestuser_preauth".to_string()),
                s2kparams: Some(vec![0, 0, 0x10, 0]),
            }],
            pa_fx_cookie: Some(b"MIT".to_vec()),
        })
    );
}

#[test]
fn other_errors_come_with_their_code() {
    assert_eq!(
        KerberosResponse::from_der(&rsp_error(5, 30, 6, None)),
        Ok(KerberosResponse::ErrRep(6))
    );
    // Data that comes with another error is not looked at.
    assert_eq!(
        KerberosResponse::from_der(&rsp_error(5, 30, 24, Some(vec![1, 2, 3]))),
        Ok(KerberosResponse::ErrRep(24))
    );
}

#[test]
fn preauth_required_needs_readable_data() {
    assert_eq!(
        KerberosResponse::from_der(&rsp_error(5, 30, 25, None)),
        Err(KrbError::MissingPaData)
    );
    assert_eq!(
        KerberosResponse::from_der(&rsp_error(5, 30, 25, Some(vec![0x30, 0x01]))),
        Err(KrbError::DerDecodePaData)
    );
    assert_eq!(
        KerberosResponse::from_der(&rsp_error(5, 30, 25, Some(vec![0x04, 0x00]))),
        Err(KrbError::DerDecodePaData)
    );
    let bad_list = rsp_method_data(vec![PaData { padata_type: 19, padata_value: vec![0x05] }]);
    assert_eq!(
        KerberosResponse::from_der(&rsp_error(5, 30, 25, Some(bad_list))),
        Err(KrbError::DerDecodeEtypeInfo2)
    );
    let not_entries = rsp_method_data(vec![PaData {
        padata_type: 19,
        padata_value: seq_value_of(vec![int_value_of(18)]).encode().unwrap(),
    }]);
    assert_eq!(
        KerberosResponse::from_der(&rsp_error(5, 30, 25, Some(not_entries))),
        Err(KrbError::DerDecodeEtypeInfo2)
    );
    // An offer of nothing at all is an offer.
    assert_eq!(
        KerberosResponse::from_der(&rsp_error(5, 30, 25, Some(rsp_method_data(vec![])))),
        Ok(KerberosResponse::PaRep(PreauthData {
            enc_timestamp: false,
            etype_info2: vec![],
            pa_fx_cookie: None,
        }))
    );
}

#[test]
fn usable_entries_keep_the_servers_order() {
    let list = seq_value_of(vec![
        rsp_entry(18, Some("a"), None),
        rsp_entry(23, None, None),
        rsp_entry(18, None, Some(&[0, 0, 0, 2])),
        rsp_entry(77, Some("unknown"), None),
        rsp_entry(18, Some("c"), Some(&[1])),
    ]);
    let entries = read_etype_info2(&list).unwrap();
    assert_eq!(
        entries,
        vec![
            ETypeInfo2Entry {
                etype: EncryptionType::AES256_CTS_HMAC_SHA1_96,
                salt: Some("a".to_string()),
                s2kparams: None
            },
            ETypeInfo2Entry {
                etype: EncryptionType::AES256_CTS_HMAC_SHA1_96,
                salt: None,
                s2kparams: Some(vec![0, 0, 0, 2])
            },
            ETypeInfo2Entry {
                etype: EncryptionType::AES256_CTS_HMAC_SHA1_96,
                salt: Some("c".to_string()),
                s2kparams: Some(vec![1])
            },
        ]
    );
    assert_eq!(read_etype_info2(&seq_value_of(vec![])), Some(vec![]));
    assert_eq!(read_etype_info2(&int_value_of(1)), None);
}

#[test]
fn authentication_reply_is_read_and_opened() {
    let key =
        derive_key_aes256_cts_hmac_sha1_96(b"password", b"EXAMPLE.COM", b"testuser", None)
            .unwrap();
    let secret: Vec<u8> = (0..70u8).collect();
    let cipher = encrypt_aes256_cts_hmac_sha1_96(&key, &secret, 3).unwrap();
    let octets = rsp_as_rep(5, 11, 18, &cipher, 0x6b);
    let asrep = match KerberosResponse::from_der(&octets).unwrap() {
        KerberosResponse::AsRep(r) => r,
        _ => panic!("not an authentication reply"),
    };
    assert_eq!(asrep.name, Name::principal("testuser", "EXAMPLE.COM"));
    assert_eq!(asrep.pa_data, None);
    assert_eq!(asrep.ticket.tkt_vno, 5);
    assert_eq!(asrep.ticket.realm, "EXAMPLE.COM");
    assert_eq!(asrep.ticket.sname.name_type, 2);
    assert_eq!(
        asrep.ticket.sname.name_string,
        vec!["krbtgt".to_string(), "EXAMPLE.COM".to_string()]
    );
    assert_eq!(asrep.ticket.enc_part.etype, 18);
    assert_eq!(asrep.ticket.enc_part.kvno, Some(1));
    assert_eq!(asrep.ticket.enc_part.cipher, vec![0xaa; 60]);
    assert_eq!(
        asrep.enc_part,
        EncryptedData::Aes256CtsHmacSha196 { kvno: Some(2), data: cipher.clone() }
    );
    let base_key = asrep
        .enc_part
        .derive_key(b"password", b"EXAMPLE.COM", b"testuser")
        .unwrap();
    assert_eq!(base_key, key);
    assert_eq!(asrep.enc_part.decrypt_data(&base_key, 3).unwrap(), secret);
    assert_eq!(
        asrep.enc_part.decrypt_data(&base_key, 4),
        Err(KrbError::MessageAuthenticationFailed)
    );
}

#[test]
fn reply_headers_are_checked() {
    let cipher = [0u8; 40];
    assert_eq!(
        KerberosResponse::from_der(&rsp_as_rep(4, 11, 18, &cipher, 0x6b)),
        Err(KrbError::InvalidPvno)
    );
    assert_eq!(
        KerberosResponse::from_der(&rsp_as_rep(5, 10, 18, &cipher, 0x6b)),
        Err(KrbError::InvalidMessageDirection)
    );
    assert_eq!(
        KerberosResponse::from_der(&rsp_as_rep(5, 30, 18, &cipher, 0x6b)),
        Err(KrbError::InvalidMessageDirection)
    );
    assert_eq!(
        KerberosResponse::from_der(&rsp_as_rep(5, 99, 18, &cipher, 0x6b)),
        Err(KrbError::InvalidMessageType)
    );
    assert_eq!(
        KerberosResponse::from_der(&rsp_as_rep(5, 13, 18, &cipher, 0x6b)),
        Err(KrbError::TgsNotImplemented)
    );
    assert_eq!(
        KerberosResponse::from_der(&rsp_as_rep(5, 13, 18, &cipher, 0x6d)),
        Err(KrbError::TgsNotImplemented)
    );
    assert_eq!(
        KerberosResponse::from_der(&rsp_as_rep(5, 11, 17, &cipher, 0x6b)),
        Err(KrbError::UnsupportedEncryption)
    );
    assert_eq!(
        KerberosResponse::from_der(&rsp_error(4, 30, 6, None)),
        Err(KrbError::InvalidPvno)
    );
    assert_eq!(
        KerberosResponse::from_der(&rsp_error(5, 11, 6, None)),
        Err(KrbError::InvalidMessageDirection)
    );
    assert_eq!(
        KerberosResponse::from_der(&rsp_error(5, 0, 6, None)),
        Err(KrbError::InvalidMessageType)
    );
    assert!(KerberosResponse::from_der(&rsp_as_rep(5, 11, 18, &cipher, 0x6b)).is_ok());
}

#[test]
fn garbage_is_no_response() {
    assert_eq!(KerberosResponse::from_der(&[]), Err(KrbError::DerDecodeKdcRep));
    assert_eq!(
        KerberosResponse::from_der(&[0x30, 0x00]),
        Err(KrbError::DerDecodeKdcRep)
    );
    // A request is no response.
    assert_eq!(
        KerberosResponse::from_der(&rsp_as_rep(5, 11, 18, &[0u8; 40], 0x6a)),
        Err(KrbError::DerDecodeKdcRep)
    );
    let mut octets = rsp_error(5, 30, 6, None);
    octets.truncate(octets.len() - 1);
    assert_eq!(KerberosResponse::from_der(&octets), Err(KrbError::DerDecodeKdcRep));
}

#[test]
fn wire_structures_are_read_from_values() {
    let tree = DerValue::parse(&rsp_error(5, 30, 25, Some(vec![7]))).unwrap();
    match KrbKdcRep::from_der_value(&tree).unwrap() {
        KrbKdcRep::ErrRep(KdcKrbError { pvno, msg_type, error_code, error_data }) => {
            assert_eq!((pvno, msg_type, error_code), (5, 30, 25));
            assert_eq!(error_data, Some(vec![7]));
        }
        _ => panic!("not an error"),
    }
    let tree = DerValue::parse(&rsp_as_rep(5, 11, 18, &[3u8; 30], 0x6b)).unwrap();
    match KrbKdcRep::from_der_value(&tree).unwrap() {
        KrbKdcRep::AsRep(KdcRep { pvno, msg_type, crealm, enc_part, .. }) => {
            assert_eq!((pvno, msg_type), (5, 11));
            assert_eq!(crealm, "EXAMPLE.COM");
            assert_eq!(enc_part.cipher, vec![3u8; 30]);
        }
        _ => panic!("not a reply"),
    }
}
