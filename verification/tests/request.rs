use libkrime::asn1::der::DerValue;
use libkrime::crypto::decrypt_aes256_cts_hmac_sha1_96;
use libkrime::crypto::derive_key_aes256_cts_hmac_sha1_96;
use libkrime::error::KrbError;
use libkrime::proto::preauth::{compute_enc_timestamp, pa_enc_ts_enc_der};
use libkrime::proto::wire::{KdcReq, KdcReqBody, KrbKdcReq, PaData, PrincipalName};
use libkrime::proto::{
    ETypeInfo2Entry, EncryptedData, EncryptionType, KerberosRequest, Name, Preauth, PreauthData,
};

fn request_unhex(s: &str) -> Vec<u8> {
    let digits: Vec<u8> = s
        .bytes()
        .filter(|b| !b.is_ascii_whitespace())
        .map(|b| match b {
            b'0'..=b'9' => b - b'0',
            b'a'..=b'f' => b - b'a' + 10,
            _ => panic!("not a hex digit"),
        })
        .collect();
    digits.chunks(2).map(|p| p[0] * 16 + p[1]).collect()
}

fn alice() -> Name {
    Name::principal("alice", "EXAMPLE.COM")
}

fn krbtgt() -> Name {
    Name::service_krbtgt("EXAMPLE.COM")
}

fn sample_wire_request() -> KdcReq {
    KdcReq {
        pvno: 5,
        msg_type: 10,
        padata: None,
        req_body: KdcReqBody {
            kdc_options: vec![0x00, 0x80, 0x00, 0x00],
            cname: Some(PrincipalName {
                name_type: 1,
                name_string: vec!["alice".to_string()],
            }),
            realm: "EXAMPLE.COM".to_string(),
            sname: Some(PrincipalName {
                name_type: 2,
                name_string: vec!["krbtgt".to_string(), "EXAMPLE.COM".to_string()],
            }),
            from: None,
            till: 1_700_003_600,
            rtime: None,
            nonce: 42,
            etype: vec![18],
        },
    }
}

#[test]
fn builder_defaults() {
    let req = KerberosRequest::build_as(alice(), krbtgt(), 1_700_003_600).build_with_nonce(7);
    assert_eq!(
        req,
        KerberosRequest::Authentication {
            nonce: 7,
            client_name: alice(),
            service_name: krbtgt(),
            from: None,
            until: 1_700_003_600,
            renew: None,
            preauth: Preauth::default(),
            etypes: vec![EncryptionType::AES256_CTS_HMAC_SHA1_96],
        }
    );
}

#[test]
fn builder_sets_and_clears_times() {
    let req = KerberosRequest::build_as(alice(), krbtgt(), 100)
        .from(Some(50))
        .renew_until(Some(200))
        .build_with_nonce(1);
    match &req {
        KerberosRequest::Authentication { from, until, renew, .. } => {
            assert_eq!(*from, Some(50));
            assert_eq!(*until, 100);
            assert_eq!(*renew, Some(200));
        }
        _ => panic!("not an authentication request"),
    }
    let req = KerberosRequest::build_as(alice(), krbtgt(), 100)
        .from(Some(50))
        .from(None)
        .renew_until(Some(200))
        .renew_until(None)
        .build_with_nonce(1);
    match &req {
        KerberosRequest::Authentication { from, renew, .. } => {
            assert_eq!(*from, None);
            assert_eq!(*renew, None);
        }
        _ => panic!("not an authentication request"),
    }
}

#[test]
fn nonce_is_masked_to_31_bits() {
    for (raw, want) in [
        (0u32, 0u32),
        (1, 1),
        (0x7fff_ffff, 0x7fff_ffff),
        (0x8000_0000, 0),
        (0xffff_ffff, 0x7fff_ffff),
        (0x9234_5678, 0x1234_5678),
    ] {
        match KerberosRequest::build_as(alice(), krbtgt(), 100).build_with_nonce(raw) {
            KerberosRequest::Authentication { nonce, .. } => assert_eq!(nonce, want),
            _ => panic!("not an authentication request"),
        }
    }
}

#[test]
fn ten_thousand_nonces_are_below_two_to_the_31() {
    let mut seen = std::collections::HashSet::new();
    for _ in 0..10_000 {
        match KerberosRequest::build_as(alice(), krbtgt(), 100).build() {
            KerberosRequest::Authentication { nonce, .. } => {
                assert!(nonce < 0x8000_0000);
                seen.insert(nonce);
            }
            _ => panic!("not an authentication request"),
        }
    }
    // Fresh nonces: nearly all of them differ.
    assert!(seen.len() > 9_900);
}

#[test]
fn exact_encoding_of_an_authentication_request() {
    let req = KerberosRequest::build_as(alice(), krbtgt(), 1_700_000_000)
        .build_with_nonce(0x1234_5678);
    let want = request_unhex(
        "6a 81 80 30 7e
           a1 03 02 01 05
           a2 03 02 01 0a
           a4 72 30 70
             a0 07 03 05 00 00 80 00 00
             a1 12 30 10 a0 03 02 01 01 a1 09 30 07 1b 05 61 6c 69 63 65
             a2 0d 1b 0b 45 58 41 4d 50 4c 45 2e 43 4f 4d
             a3 20 30 1e a0 03 02 01 02 a1 17 30 15
                1b 06 6b 72 62 74 67 74
                1b 0b 45 58 41 4d 50 4c 45 2e 43 4f 4d
             a5 11 18 0f 32 30 32 33 31 31 31 34 32 32 31 33 32 30 5a
             a7 06 02 04 12 34 56 78
             a8 05 30 03 02 01 12",
    );
    assert_eq!(req.to_der().unwrap(), want);
}

#[test]
fn round_trip_keeps_every_field() {
    let now: u64 = 1_700_000_000;
    let built = KerberosRequest::build_as(
        Name::principal("alice", "EXAMPLE.COM"),
        Name::service_krbtgt("EXAMPLE.COM"),
        now + 3600,
    )
    .build();
    let first = built.to_der().unwrap();
    let second = built.to_der().unwrap();
    assert_eq!(first, second);
    let back = KerberosRequest::from_der(&first).unwrap();
    assert_eq!(back, built);
    match back {
        KerberosRequest::Authentication {
            client_name,
            service_name,
            from,
            until,
            renew,
            preauth,
            etypes,
            ..
        } => {
            assert_eq!(client_name, Name::principal("alice", "EXAMPLE.COM"));
            assert_eq!(service_name, Name::service_krbtgt("EXAMPLE.COM"));
            assert_eq!(from, None);
            assert_eq!(until, now + 3600);
            assert_eq!(renew, None);
            assert_eq!(preauth, Preauth::default());
            assert_eq!(etypes, vec![EncryptionType::AES256_CTS_HMAC_SHA1_96]);
        }
        _ => panic!("not an authentication request"),
    }
}

#[test]
fn round_trip_with_times_preauth_and_host_service() {
    let preauth = Preauth {
        enc_timestamp: Some(EncryptedData::Aes256CtsHmacSha196 {
            kvno: None,
            data: (0..40u8).collect(),
        }),
        pa_fx_cookie: Some(vec![9, 8, 7]),
    };
    let built = KerberosRequest::Authentication {
        nonce: 0x7fff_ffff,
        client_name: Name::principal("bob", "EXAMPLE.ORG"),
        service_name: Name::service("host", "server.example.org", "EXAMPLE.ORG"),
        from: Some(1_900_000_000),
        until: 2_000_000_000,
        renew: Some(2_100_000_000),
        preauth,
        etypes: vec![EncryptionType::AES256_CTS_HMAC_SHA1_96],
    };
    let octets = built.to_der().unwrap();
    assert_eq!(KerberosRequest::from_der(&octets).unwrap(), built);
    let wire = match built.try_into_kdc_req().unwrap() {
        KrbKdcReq::AsReq(w) => w,
        KrbKdcReq::TgsReq(_) => panic!("not an authentication request"),
    };
    let padata = wire.padata.clone().unwrap();
    assert_eq!(padata.len(), 2);
    assert_eq!(padata[0].padata_type, 133);
    assert_eq!(padata[0].padata_value, vec![9, 8, 7]);
    assert_eq!(padata[1].padata_type, 2);
    assert_eq!(
        wire.req_body.sname.clone().unwrap().name_string,
        vec!["host".to_string(), "server.example.org".to_string(), "EXAMPLE.ORG".to_string()]
    );
    assert_eq!(wire.req_body.sname.clone().unwrap().name_type, 3);
    assert_eq!(wire.req_body.realm, "EXAMPLE.ORG");
    assert_eq!(wire.req_body.kdc_options, vec![0x00, 0x80, 0x00, 0x00]);
    assert_eq!(KerberosRequest::try_from_kdc_req(&wire).unwrap(), built);
}

#[test]
fn ticket_grant_requests_are_refused() {
    let req = KerberosRequest::TicketGrant {};
    assert_eq!(req.try_into_kdc_req(), Err(KrbError::TgsNotImplemented));
    assert_eq!(req.to_der(), Err(KrbError::TgsNotImplemented));
    let mut wire = sample_wire_request();
    wire.msg_type = 12;
    assert_eq!(
        KerberosRequest::try_from_kdc_req(&wire),
        Err(KrbError::TgsNotImplemented)
    );
}

#[test]
fn wrong_protocol_version_is_refused() {
    let mut wire = sample_wire_request();
    wire.pvno = 4;
    assert_eq!(
        KerberosRequest::try_from_kdc_req(&wire),
        Err(KrbError::InvalidPvno)
    );
    let octets = KrbKdcReq::AsReq(wire).to_der_value().unwrap().encode().unwrap();
    assert_eq!(KerberosRequest::from_der(&octets), Err(KrbError::InvalidPvno));
}

#[test]
fn missing_client_name_is_refused() {
    let mut wire = sample_wire_request();
    wire.req_body.cname = None;
    assert_eq!(
        KerberosRequest::try_from_kdc_req(&wire),
        Err(KrbError::MissingClientName)
    );
    let octets = KrbKdcReq::AsReq(wire).to_der_value().unwrap().encode().unwrap();
    assert_eq!(
        KerberosRequest::from_der(&octets),
        Err(KrbError::MissingClientName)
    );
}

#[test]
fn missing_service_name_is_refused() {
    let mut wire = sample_wire_request();
    wire.req_body.sname = None;
    assert_eq!(
        KerberosRequest::try_from_kdc_req(&wire),
        Err(KrbError::MissingServiceNameWithRealm)
    );
    let mut wire = sample_wire_request();
    wire.req_body.sname = Some(PrincipalName {
        name_type: 2,
        name_string: vec!["krbtgt".to_string()],
    });
    assert_eq!(
        KerberosRequest::try_from_kdc_req(&wire),
        Err(KrbError::MissingServiceNameWithRealm)
    );
}

#[test]
fn message_type_and_direction_are_checked() {
    for t in [0u8, 9, 16, 19, 23, 29, 31, 255] {
        let mut wire = sample_wire_request();
        wire.msg_type = t;
        assert_eq!(
            KerberosRequest::try_from_kdc_req(&wire),
            Err(KrbError::InvalidMessageType)
        );
    }
    for t in [11u8, 13, 14, 15, 20, 21, 22, 30] {
        let mut wire = sample_wire_request();
        wire.msg_type = t;
        assert_eq!(
            KerberosRequest::try_from_kdc_req(&wire),
            Err(KrbError::InvalidMessageDirection)
        );
    }
    assert!(KerberosRequest::try_from_kdc_req(&sample_wire_request()).is_ok());
}

#[test]
fn only_the_supported_encryption_type_is_kept() {
    let mut wire = sample_wire_request();
    wire.req_body.etype = vec![17, 18, 23, 18, 99, -1];
    match KerberosRequest::try_from_kdc_req(&wire).unwrap() {
        KerberosRequest::Authentication { etypes, .. } => assert_eq!(
            etypes,
            vec![
                EncryptionType::AES256_CTS_HMAC_SHA1_96,
                EncryptionType::AES256_CTS_HMAC_SHA1_96
            ]
        ),
        _ => panic!("not an authentication request"),
    }
    wire.req_body.etype = vec![17, 23];
    match KerberosRequest::try_from_kdc_req(&wire).unwrap() {
        KerberosRequest::Authentication { etypes, .. } => assert!(etypes.is_empty()),
        _ => panic!("not an authentication request"),
    }
}

#[test]
fn service_realm_comes_from_the_service_name() {
    let mut wire = sample_wire_request();
    wire.req_body.realm = "CLIENT.REALM".to_string();
    wire.req_body.sname = Some(PrincipalName {
        name_type: 2,
        name_string: vec!["krbtgt".to_string(), "SERVICE.REALM".to_string()],
    });
    match KerberosRequest::try_from_kdc_req(&wire).unwrap() {
        KerberosRequest::Authentication { client_name, service_name, .. } => {
            assert_eq!(client_name, Name::principal("alice", "CLIENT.REALM"));
            assert_eq!(service_name, Name::service_krbtgt("SERVICE.REALM"));
        }
        _ => panic!("not an authentication request"),
    }
}

#[test]
fn undecodable_preauth_payload_is_refused() {
    let mut wire = sample_wire_request();
    wire.padata = Some(vec![PaData { padata_type: 2, padata_value: vec![0x30, 0x05, 0x00] }]);
    assert_eq!(
        KerberosRequest::try_from_kdc_req(&wire),
        Err(KrbError::DerDecodePaData)
    );
    // A well-formed value that is no encrypted data.
    wire.padata = Some(vec![PaData { padata_type: 2, padata_value: vec![0x04, 0x01, 0x00] }]);
    assert_eq!(
        KerberosRequest::try_from_kdc_req(&wire),
        Err(KrbError::DerDecodePaData)
    );
    // Kinds that a request does not act on are passed over.
    wire.padata = Some(vec![PaData { padata_type: 149, padata_value: vec![0xff] }]);
    match KerberosRequest::try_from_kdc_req(&wire).unwrap() {
        KerberosRequest::Authentication { preauth, .. } => {
            assert_eq!(preauth, Preauth::default())
        }
        _ => panic!("not an authentication request"),
    }
}

#[test]
fn requests_that_cannot_be_written_are_refused() {
    let req = KerberosRequest::build_as(
        Name::principal("al\u{ef}ce", "EXAMPLE.COM"),
        krbtgt(),
        1_700_000_000,
    )
    .build_with_nonce(1);
    assert_eq!(req.to_der(), Err(KrbError::DerEncodeKdcReq));
    let req = KerberosRequest::build_as(alice(), krbtgt(), 253_402_300_800).build_with_nonce(1);
    assert_eq!(req.to_der(), Err(KrbError::DerEncodeKdcReq));
    let req = KerberosRequest::build_as(alice(), krbtgt(), 253_402_300_799).build_with_nonce(1);
    assert!(req.to_der().is_ok());
}

#[test]
fn garbage_is_no_request() {
    assert_eq!(KerberosRequest::from_der(&[]), Err(KrbError::DerDecodeKdcReq));
    assert_eq!(
        KerberosRequest::from_der(&[0x30, 0x00]),
        Err(KrbError::DerDecodeKdcReq)
    );
    let req = KerberosRequest::build_as(alice(), krbtgt(), 1_700_000_000).build_with_nonce(1);
    let mut octets = req.to_der().unwrap();
    octets.push(0);
    assert_eq!(KerberosRequest::from_der(&octets), Err(KrbError::DerDecodeKdcReq));
    octets.pop();
    octets.pop();
    assert_eq!(KerberosRequest::from_der(&octets), Err(KrbError::DerDecodeKdcReq));
    assert!(DerValue::parse(&req.to_der().unwrap()).is_some());
}

fn preauth_offer() -> PreauthData {
    PreauthData {
        enc_timestamp: true,
        etype_info2: vec![ETypeInfo2Entry {
            etype: EncryptionType::AES256_CTS_HMAC_SHA1_96,
            salt: None,
            s2kparams: None,
        }],
        pa_fx_cookie: None,
    }
}

#[test]
fn preauth_flow_encrypts_the_timestamp() {
    let secs: u64 = 1_700_000_000;
    let usecs: u32 = 123_456;
    let client = Name::principal("testuser_preauth", "EXAMPLE.COM");
    let req = KerberosRequest::build_as(client, krbtgt(), secs + 3600)
        .preauth_enc_ts(&preauth_offer(), "password", secs, usecs)
        .unwrap()
        .build();
    let plain = pa_enc_ts_enc_der(secs, usecs).unwrap();
    assert_eq!(
        plain,
        request_unhex(
            "30 1a a0 11 18 0f 32 30 32 33 31 31 31 34 32 32 31 33 32 30 5a
             a1 05 02 03 01 e2 40"
        )
    );
    let data = match req {
        KerberosRequest::Authentication { preauth, .. } => {
            assert_eq!(preauth.pa_fx_cookie, None);
            match preauth.enc_timestamp {
                Some(EncryptedData::Aes256CtsHmacSha196 { kvno, data }) => {
                    assert_eq!(kvno, None);
                    data
                }
                None => panic!("no encrypted timestamp"),
            }
        }
        _ => panic!("not an authentication request"),
    };
    assert_eq!(data.len(), plain.len() + 12);
    let key = derive_key_aes256_cts_hmac_sha1_96(
        b"password",
        b"EXAMPLE.COM",
        b"testuser_preauth",
        None,
    )
    .unwrap();
    assert_eq!(decrypt_aes256_cts_hmac_sha1_96(&key, &data, 1).unwrap(), plain);
}

#[test]
fn preauth_uses_the_servers_salt_iterations_and_cookie() {
    let offer = PreauthData {
        enc_timestamp: true,
        etype_info2: vec![
            ETypeInfo2Entry {
                etype: EncryptionType::AES256_CTS_HMAC_SHA1_96,
                salt: Some("first".to_string()),
                s2kparams: None,
            },
            ETypeInfo2Entry {
                etype: EncryptionType::AES256_CTS_HMAC_SHA1_96,
                salt: Some("ATHENA.MIT.EDUraeburn".to_string()),
                s2kparams: Some(vec![0, 0, 0, 1]),
            },
            ETypeInfo2Entry {
                etype: EncryptionType::AES128_CTS_HMAC_SHA1_96,
                salt: None,
                s2kparams: None,
            },
        ],
        pa_fx_cookie: Some(b"MIT".to_vec()),
    };
    let pre = compute_enc_timestamp(
        &offer,
        "password",
        &Name::principal("someone", "EXAMPLE.COM"),
        1_700_000_000,
        0,
    )
    .unwrap();
    assert_eq!(pre.pa_fx_cookie, Some(b"MIT".to_vec()));
    let data = match pre.enc_timestamp.unwrap() {
        EncryptedData::Aes256CtsHmacSha196 { data, .. } => data,
    };
    // The key of the last usable entry: the published key for this
    // passphrase, salt and one iteration.
    let key: [u8; 32] = request_unhex(
        "fe697b52bc0d3ce14432ba036a92e65bbb52280990a2fa27883998d72af30161",
    )
    .try_into()
    .unwrap();
    assert_eq!(
        decrypt_aes256_cts_hmac_sha1_96(&key, &data, 1).unwrap(),
        pa_enc_ts_enc_der(1_700_000_000, 0).unwrap()
    );
}

#[test]
fn preauth_errors() {
    let builder = || KerberosRequest::build_as(alice(), krbtgt(), 1_700_003_600);
    let mut offer = preauth_offer();
    offer.enc_timestamp = false;
    assert_eq!(
        builder().preauth_enc_ts(&offer, "password", 1_700_000_000, 0).err(),
        Some(KrbError::PreauthUnsupported)
    );
    let mut offer = preauth_offer();
    offer.etype_info2.clear();
    assert_eq!(
        builder().preauth_enc_ts(&offer, "password", 1_700_000_000, 0).err(),
        Some(KrbError::PreauthMissingEtypeInfo2)
    );
    assert_eq!(
        builder()
            .preauth_enc_ts(&preauth_offer(), "password", 253_402_300_800, 0)
            .err(),
        Some(KrbError::PreAuthInvalidUnixTs)
    );
    for params in [vec![], vec![0, 0, 16], vec![0, 0, 0, 16, 0]] {
        let mut offer = preauth_offer();
        offer.etype_info2[0].s2kparams = Some(params);
        assert_eq!(
            builder().preauth_enc_ts(&offer, "password", 1_700_000_000, 0).err(),
            Some(KrbError::PreAuthInvalidS2KParams)
        );
    }
    let mut offer = preauth_offer();
    offer.etype_info2[0].etype = EncryptionType::RC4_HMAC;
    assert_eq!(
        builder().preauth_enc_ts(&offer, "password", 1_700_000_000, 0).err(),
        Some(KrbError::UnsupportedEncryption)
    );
    assert_eq!(
        KerberosRequest::build_as(krbtgt(), krbtgt(), 1_700_003_600)
            .preauth_enc_ts(&preauth_offer(), "password", 1_700_000_000, 0)
            .err(),
        Some(KrbError::NameNotPrincipal)
    );
}

#[test]
fn encryption_type_numbers() {
    assert_eq!(EncryptionType::AES256_CTS_HMAC_SHA1_96.code(), 18);
    assert_eq!(EncryptionType::AES128_CTS_HMAC_SHA1_96.code(), 17);
    assert_eq!(EncryptionType::RC4_HMAC.code(), 23);
    assert_eq!(
        EncryptionType::from_code(18),
        Ok(EncryptionType::AES256_CTS_HMAC_SHA1_96)
    );
    assert_eq!(EncryptionType::from_code(1), Ok(EncryptionType::DES_CBC_CRC));
    assert_eq!(
        EncryptionType::from_code(4),
        Err(KrbError::InvalidEnumValue("EncryptionType".to_string(), 4))
    );
    assert!(EncryptionType::AES256_CTS_HMAC_SHA1_96.is_supported());
    assert!(!EncryptionType::AES128_CTS_HMAC_SHA1_96.is_supported());
    for e in [
        EncryptionType::DES_CBC_CRC,
        EncryptionType::DES_CBC_MD4,
        EncryptionType::DES_CBC_MD5,
        EncryptionType::DES3_CBC_SHA1_KD,
        EncryptionType::AES128_CTS_HMAC_SHA1_96,
        EncryptionType::AES256_CTS_HMAC_SHA1_96,
        EncryptionType::AES128_CTS_HMAC_SHA256_128,
        EncryptionType::AES256_CTS_HMAC_SHA384_192,
        EncryptionType::RC4_HMAC,
    ] {
        assert_eq!(EncryptionType::from_code(e.code()), Ok(e));
    }
}

#[test]
fn names_without_a_realm_are_not_sent() {
    let req = KerberosRequest::build_as(Name::principal("alice", ""), krbtgt(), 1_700_000_000)
        .build_with_nonce(1);
    assert_eq!(req.to_der(), Err(KrbError::InvalidPrincipalName));
    let req = KerberosRequest::build_as(alice(), Name::service_krbtgt(""), 1_700_000_000)
        .build_with_nonce(1);
    assert_eq!(req.try_into_kdc_req(), Err(KrbError::InvalidPrincipalName));
    assert!(!Name::principal("alice", "").is_well_formed());
    assert!(alice().is_well_formed());
    let mut wire = sample_wire_request();
    wire.req_body.realm = String::new();
    assert_eq!(
        KerberosRequest::try_from_kdc_req(&wire),
        Err(KrbError::InvalidPrincipalName)
    );
    let mut wire = sample_wire_request();
    wire.req_body.sname = Some(PrincipalName {
        name_type: 2,
        name_string: vec!["krbtgt".to_string(), String::new()],
    });
    assert_eq!(
        KerberosRequest::try_from_kdc_req(&wire),
        Err(KrbError::MissingServiceNameWithRealm)
    );
}

#[test]
fn names() {
    assert_eq!(
        alice().principal_name(),
        Ok(("alice", "EXAMPLE.COM"))
    );
    assert_eq!(krbtgt().principal_name(), Err(KrbError::NameNotPrincipal));
    assert_eq!(
        Name::service("host", "a.example.com", "EXAMPLE.COM"),
        Name::SrvHst {
            service: "host".to_string(),
            host: "a.example.com".to_string(),
            realm: "EXAMPLE.COM".to_string()
        }
    );
    let (cname, realm) = alice().to_client_principal();
    assert_eq!(cname.name_type, 1);
    assert_eq!(cname.name_string, vec!["alice".to_string()]);
    assert_eq!(realm, "EXAMPLE.COM");
    assert_eq!(Name::from_client_principal(&cname, &realm), Some(alice()));
    let sname = krbtgt().to_service_principal();
    assert_eq!(Name::from_service_principal(&sname), Some(krbtgt()));
    let odd = PrincipalName { name_type: 7, name_string: vec!["x".to_string()] };
    assert_eq!(Name::from_client_principal(&odd, &realm), None);
    assert_eq!(Name::from_service_principal(&odd), None);
}
