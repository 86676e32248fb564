//! Between requests as the caller builds them and requests as the wire
//! carries them, in both directions, down to DER octets.

use crate::asn1::der::{
    encode_tree, lemma_parse_der_encode, parse_der, well_formed, DerValue, MAX_DEPTH,
};
use crate::error::KrbError;
use crate::proto::request::{KerberosRequest, KerberosRequestView};
use crate::proto::types::{
    copy_bytes, etype_code, EncryptedData, EncryptedDataView, EncryptionType, Name, NameView,
    Preauth, PreauthView,
};
use crate::proto::wire::{
    body_writable, encrypted_data_tree, inner_req, krb_kdc_req_tree,
    lemma_encrypted_data_round_trip, lemma_krb_kdc_req_round_trip, parse_encrypted_data,
    parse_krb_kdc_req, KdcEncryptedData, KdcEncryptedDataView, KdcReq, KdcReqBody,
    KdcReqBodyView, KdcReqView, KrbKdcReq, KrbKdcReqView, PaData, PaDataView, PrincipalName,
    PrincipalNameView,
};
use vstd::prelude::*;

verus! {

/// The protocol version that every message carries.
pub const PVNO: u8 = 5;

/// The message type of an authentication request.
pub const MSG_TYPE_AS_REQ: u8 = 10;

/// The message type of an authentication reply.
pub const MSG_TYPE_AS_REP: u8 = 11;

/// The message type of a ticket-granting request.
pub const MSG_TYPE_TGS_REQ: u8 = 12;

/// The message type of a ticket-granting reply.
pub const MSG_TYPE_TGS_REP: u8 = 13;

/// The message type of an error.
pub const MSG_TYPE_ERROR: u8 = 30;

/// The kind of pre-authentication data that holds an encrypted timestamp.
pub const PA_ENC_TIMESTAMP: u32 = 2;

/// The kind of pre-authentication data that lists encryption types.
pub const PA_ETYPE_INFO2: u32 = 19;

/// The kind of pre-authentication data that holds the server's cookie.
pub const PA_FX_COOKIE: u32 = 133;

/// The number of a message type that the protocol defines.
pub open spec fn message_type_known(t: u8) -> bool {
    (10 <= t <= 15) || (20 <= t <= 22) || t == 30
}

/// The options that every request asks for.
pub open spec fn request_options() -> Seq<u8> {
    seq![0x00u8, 0x80u8, 0x00u8, 0x00u8]
}

/// A client's name on the wire: its parts without the realm.
pub open spec fn client_principal(n: NameView) -> PrincipalNameView {
    PrincipalNameView { name_type: n.name_type() as i32, name_string: n.components() }
}

/// A service's name on the wire: its parts, then its realm.
pub open spec fn service_principal(n: NameView) -> PrincipalNameView {
    PrincipalNameView {
        name_type: n.name_type() as i32,
        name_string: n.components().push(n.realm()),
    }
}

/// The name that the parts `parts` of kind `name_type` make in `realm`,
/// which must not be empty.
pub open spec fn name_of_parts(name_type: i32, parts: Seq<Seq<char>>, realm: Seq<char>) -> Option<
    NameView,
> {
    if realm.len() == 0 {
        None
    } else if name_type == 1 && parts.len() == 1 {
        Some(NameView::Principal { name: parts[0], realm })
    } else if name_type == 2 && parts.len() == 1 {
        Some(NameView::SrvInst { service: parts[0], realm })
    } else if name_type == 3 && parts.len() == 2 {
        Some(NameView::SrvHst { service: parts[0], host: parts[1], realm })
    } else {
        None
    }
}

/// The client that a wire name and the realm of the request name together.
pub open spec fn name_of_client(p: PrincipalNameView, realm: Seq<char>) -> Option<NameView> {
    name_of_parts(p.name_type, p.name_string, realm)
}

/// The service that a wire name names: its last part is its realm.
pub open spec fn name_of_service(p: PrincipalNameView) -> Option<NameView> {
    if p.name_string.len() == 0 {
        None
    } else {
        name_of_parts(p.name_type, p.name_string.drop_last(), p.name_string.last())
    }
}

/// An encrypted timestamp as the wire carries it: no key version is named.
pub open spec fn timestamp_on_wire(data: Seq<u8>) -> KdcEncryptedDataView {
    KdcEncryptedDataView { etype: 18, kvno: None, cipher: data }
}

/// The encrypted timestamp can be sent: its DER value is well formed.
pub open spec fn timestamp_sendable(p: PreauthView) -> bool {
    p.enc_timestamp is Some ==> well_formed(
        encrypted_data_tree(timestamp_on_wire(p.enc_timestamp->0.data())),
        MAX_DEPTH as nat,
    )
}

/// The pre-authentication data of a request: none where there is neither
/// a cookie nor a timestamp, else the cookie, then the timestamp.
pub open spec fn preauth_padata(p: PreauthView) -> Option<Seq<PaDataView>> {
    if p.pa_fx_cookie is None && p.enc_timestamp is None {
        None
    } else {
        let cookie = match p.pa_fx_cookie {
            Some(c) => seq![PaDataView { padata_type: PA_FX_COOKIE, padata_value: c }],
            None => Seq::empty(),
        };
        let timestamp = match p.enc_timestamp {
            Some(e) => seq![
                PaDataView {
                    padata_type: PA_ENC_TIMESTAMP,
                    padata_value: encode_tree(encrypted_data_tree(timestamp_on_wire(e.data()))),
                },
            ],
            None => Seq::empty(),
        };
        Some(cookie + timestamp)
    }
}

/// The numbers of a list of encryption types.
pub open spec fn etype_codes(es: Seq<EncryptionType>) -> Seq<i32> {
    Seq::new(es.len(), |i: int| etype_code(es[i]) as i32)
}

/// The request as the wire carries it.
pub open spec fn request_to_wire(r: KerberosRequestView) -> Result<KrbKdcReqView, KrbError> {
    match r {
        KerberosRequestView::TicketGrant => Err(KrbError::TgsNotImplemented),
        KerberosRequestView::Authentication {
            nonce,
            client_name,
            service_name,
            from,
            until,
            renew,
            preauth,
            etypes,
        } => {
            if !client_name.wf() || !service_name.wf() {
                Err(KrbError::InvalidPrincipalName)
            } else if !timestamp_sendable(preauth) {
                Err(KrbError::DerEncodeOctetString)
            } else {
                Ok(
                    KrbKdcReqView::AsReq(
                        KdcReqView {
                            pvno: PVNO,
                            msg_type: MSG_TYPE_AS_REQ,
                            padata: preauth_padata(preauth),
                            req_body: KdcReqBodyView {
                                kdc_options: request_options(),
                                cname: Some(client_principal(client_name)),
                                realm: client_name.realm(),
                                sname: Some(service_principal(service_name)),
                                from,
                                till: until,
                                rtime: renew,
                                nonce,
                                etype: etype_codes(etypes),
                            },
                        },
                    ),
                )
            }
        },
    }
}

/// What one item of pre-authentication data adds to what the items before
/// it gave: the cookie, the encrypted timestamp, or nothing for a kind that
/// a request does not act on.
pub open spec fn with_padata(acc: PreauthView, p: PaDataView) -> Result<PreauthView, KrbError> {
    if p.padata_type == PA_FX_COOKIE {
        Ok(PreauthView { pa_fx_cookie: Some(p.padata_value), ..acc })
    } else if p.padata_type == PA_ENC_TIMESTAMP {
        match parse_der(p.padata_value) {
            None => Err(KrbError::DerDecodePaData),
            Some(t) => match parse_encrypted_data(t) {
                None => Err(KrbError::DerDecodePaData),
                Some(e) => if e.etype == 18 {
                    Ok(
                        PreauthView {
                            enc_timestamp: Some(
                                EncryptedDataView::Aes256CtsHmacSha196 {
                                    kvno: e.kvno,
                                    data: e.cipher,
                                },
                            ),
                            ..acc
                        },
                    )
                } else {
                    Err(KrbError::UnsupportedEncryption)
                },
            },
        }
    } else {
        Ok(acc)
    }
}

/// The pre-authentication that the items `ps[i..]` make of `acc`.
pub open spec fn fold_padata(ps: Seq<PaDataView>, i: nat, acc: PreauthView) -> Result<
    PreauthView,
    KrbError,
>
    decreases ps.len() - i,
{
    if i >= ps.len() {
        Ok(acc)
    } else {
        match with_padata(acc, ps[i as int]) {
            Err(e) => Err(e),
            Ok(next) => fold_padata(ps, i + 1, next),
        }
    }
}

/// The pre-authentication that the data of a request carries.
pub open spec fn preauth_of_padata(ps: Option<Seq<PaDataView>>) -> Result<PreauthView, KrbError> {
    match ps {
        None => Ok(PreauthView::empty()),
        Some(items) => fold_padata(items, 0, PreauthView::empty()),
    }
}

/// Of the numbers `codes[i..]`, those of the encryption type that this
/// client can use, in their order.
pub open spec fn supported_from(codes: Seq<i32>, i: nat) -> Seq<EncryptionType>
    decreases codes.len() - i,
{
    if i >= codes.len() {
        Seq::empty()
    } else if codes[i as int] == 18 {
        seq![EncryptionType::AES256_CTS_HMAC_SHA1_96] + supported_from(codes, i + 1)
    } else {
        supported_from(codes, i + 1)
    }
}

/// The request that a wire request stands for.
pub open spec fn request_of_wire(r: KdcReqView) -> Result<KerberosRequestView, KrbError> {
    if r.pvno != PVNO {
        Err(KrbError::InvalidPvno)
    } else if !message_type_known(r.msg_type) {
        Err(KrbError::InvalidMessageType)
    } else if r.msg_type == MSG_TYPE_TGS_REQ {
        Err(KrbError::TgsNotImplemented)
    } else if r.msg_type != MSG_TYPE_AS_REQ {
        Err(KrbError::InvalidMessageDirection)
    } else {
        match preauth_of_padata(r.padata) {
            Err(e) => Err(e),
            Ok(preauth) => match r.req_body.cname {
                None => Err(KrbError::MissingClientName),
                Some(cname) => match name_of_client(cname, r.req_body.realm) {
                    None => Err(KrbError::InvalidPrincipalName),
                    Some(client_name) => match r.req_body.sname {
                        None => Err(KrbError::MissingServiceNameWithRealm),
                        Some(sname) => match name_of_service(sname) {
                            None => Err(KrbError::MissingServiceNameWithRealm),
                            Some(service_name) => Ok(
                                KerberosRequestView::Authentication {
                                    nonce: r.req_body.nonce,
                                    client_name,
                                    service_name,
                                    from: r.req_body.from,
                                    until: r.req_body.till,
                                    renew: r.req_body.rtime,
                                    preauth,
                                    etypes: supported_from(r.req_body.etype, 0),
                                },
                            ),
                        },
                    },
                },
            },
        }
    }
}

/// The DER octets of a request.
pub open spec fn request_der(r: KerberosRequestView) -> Result<Seq<u8>, KrbError> {
    match request_to_wire(r) {
        Err(e) => Err(e),
        Ok(w) => {
            if body_writable(inner_req(w).req_body) && well_formed(
                krb_kdc_req_tree(w),
                MAX_DEPTH as nat,
            ) {
                Ok(encode_tree(krb_kdc_req_tree(w)))
            } else {
                Err(KrbError::DerEncodeKdcReq)
            }
        },
    }
}

/// The request that DER octets stand for.
pub open spec fn request_of_der(b: Seq<u8>) -> Result<KerberosRequestView, KrbError> {
    match parse_der(b) {
        None => Err(KrbError::DerDecodeKdcReq),
        Some(t) => match parse_krb_kdc_req(t) {
            None => Err(KrbError::DerDecodeKdcReq),
            Some(w) => request_of_wire(inner_req(w)),
        },
    }
}

/// Every proposed encryption type is the one that this client can use.
pub open spec fn all_supported(es: Seq<EncryptionType>) -> bool {
    forall|i: int| 0 <= i < es.len() ==> (#[trigger] es[i]) == EncryptionType::AES256_CTS_HMAC_SHA1_96
}

/// The encrypted timestamp, where there is one, names no key version.
pub open spec fn timestamp_without_kvno(p: PreauthView) -> bool {
    p.enc_timestamp is Some ==> p.enc_timestamp->0.kvno() is None
}

/// The request survives the way to the wire and back unchanged: it is an
/// authentication request that proposes only the supported encryption
/// type and whose encrypted timestamp names no key version.
pub open spec fn round_trips(r: KerberosRequestView) -> bool {
    match r {
        KerberosRequestView::Authentication { preauth, etypes, .. } => all_supported(etypes)
            && timestamp_without_kvno(preauth),
        KerberosRequestView::TicketGrant => false,
    }
}

proof fn lemma_supported_round_trip(es: Seq<EncryptionType>, i: nat)
    requires
        all_supported(es),
        i <= es.len(),
    ensures
        supported_from(etype_codes(es), i) == es.skip(i as int),
    decreases es.len() - i,
{
    if i < es.len() {
        lemma_supported_round_trip(es, i + 1);
        assert(es[i as int] == EncryptionType::AES256_CTS_HMAC_SHA1_96);
        assert(seq![es[i as int]] + es.skip((i + 1) as int) =~= es.skip(i as int));
    } else {
        assert(es.skip(i as int) =~= Seq::<EncryptionType>::empty());
    }
}

proof fn lemma_names_round_trip(n: NameView)
    requires
        n.wf(),
    ensures
        name_of_client(client_principal(n), n.realm()) == Some(n),
        name_of_service(service_principal(n)) == Some(n),
{
    let s = service_principal(n).name_string;
    assert(s.drop_last() =~= n.components());
    assert(s.last() == n.realm());
}

proof fn lemma_preauth_round_trip(p: PreauthView)
    requires
        timestamp_sendable(p),
        timestamp_without_kvno(p),
    ensures
        preauth_of_padata(preauth_padata(p)) == Ok::<PreauthView, KrbError>(p),
{
    reveal_with_fuel(fold_padata, 3);
    let empty = PreauthView::empty();
    if p.enc_timestamp is Some {
        let e = timestamp_on_wire(p.enc_timestamp->0.data());
        lemma_parse_der_encode(encrypted_data_tree(e));
        lemma_encrypted_data_round_trip(e);
    }
    match preauth_padata(p) {
        None => {},
        Some(items) => {
            if p.pa_fx_cookie is Some && p.enc_timestamp is Some {
                assert(items.len() == 2);
                let mid = PreauthView { pa_fx_cookie: p.pa_fx_cookie, ..empty };
                assert(with_padata(empty, items[0]) == Ok::<PreauthView, KrbError>(mid));
                assert(with_padata(mid, items[1]) == Ok::<PreauthView, KrbError>(p));
            } else if p.pa_fx_cookie is Some {
                assert(items.len() == 1);
                assert(with_padata(empty, items[0]) == Ok::<PreauthView, KrbError>(p));
            } else {
                assert(items.len() == 1);
                assert(with_padata(empty, items[0]) == Ok::<PreauthView, KrbError>(p));
            }
        },
    }
}

/// A request that went to the wire comes back from it as it was.
pub proof fn lemma_wire_round_trip(r: KerberosRequestView)
    requires
        round_trips(r),
        request_to_wire(r) is Ok,
    ensures
        request_of_wire(inner_req(request_to_wire(r)->Ok_0)) == Ok::<
            KerberosRequestView,
            KrbError,
        >(r),
{
    match r {
        KerberosRequestView::Authentication {
            nonce,
            client_name,
            service_name,
            from,
            until,
            renew,
            preauth,
            etypes,
        } => {
            lemma_preauth_round_trip(preauth);
            lemma_names_round_trip(client_name);
            lemma_names_round_trip(service_name);
            lemma_supported_round_trip(etypes, 0);
            assert(etypes.skip(0) =~= etypes);
        },
        KerberosRequestView::TicketGrant => {},
    }
}

/// Encoding a request to DER octets and decoding the octets gives the
/// request back, equal in every field.
pub proof fn lemma_request_round_trip(r: KerberosRequestView)
    requires
        round_trips(r),
        request_der(r) is Ok,
    ensures
        request_of_der(request_der(r)->Ok_0) == Ok::<KerberosRequestView, KrbError>(r),
{
    let w = request_to_wire(r)->Ok_0;
    lemma_parse_der_encode(krb_kdc_req_tree(w));
    lemma_krb_kdc_req_round_trip(w);
    lemma_wire_round_trip(r);
}

/// Relates the outcome of reading a request to what the model says it is.
pub open spec fn request_result_is(r: Result<KerberosRequest, KrbError>, model: Result<
    KerberosRequestView,
    KrbError,
>) -> bool {
    match r {
        Ok(q) => model == Ok::<KerberosRequestView, KrbError>(q@),
        Err(e) => model == Err::<KerberosRequestView, KrbError>(e),
    }
}

/// Relates the outcome of a conversion to the wire to what the model says
/// it is.
pub open spec fn wire_result_is(r: Result<KrbKdcReq, KrbError>, model: Result<
    KrbKdcReqView,
    KrbError,
>) -> bool {
    match r {
        Ok(w) => model == Ok::<KrbKdcReqView, KrbError>(w.deep_view()),
        Err(e) => model == Err::<KrbKdcReqView, KrbError>(e),
    }
}

fn one_part(a: &String) -> (parts: Vec<String>)
    ensures
        parts.deep_view() == seq![a@],
{
    let mut parts: Vec<String> = Vec::new();
    parts.push(a.clone());
    assert(parts.deep_view() =~= seq![a@]);
    parts
}

fn two_parts(a: &String, b: &String) -> (parts: Vec<String>)
    ensures
        parts.deep_view() == seq![a@, b@],
{
    let mut parts: Vec<String> = Vec::new();
    parts.push(a.clone());
    parts.push(b.clone());
    assert(parts.deep_view() =~= seq![a@, b@]);
    parts
}

fn three_parts(a: &String, b: &String, c: &String) -> (parts: Vec<String>)
    ensures
        parts.deep_view() == seq![a@, b@, c@],
{
    let mut parts: Vec<String> = Vec::new();
    parts.push(a.clone());
    parts.push(b.clone());
    parts.push(c.clone());
    assert(parts.deep_view() =~= seq![a@, b@, c@]);
    parts
}

impl Name {
    /// The name as a client's name on the wire, and its realm.
    pub fn to_client_principal(&self) -> (r: (PrincipalName, String))
        ensures
            r.0.deep_view() == client_principal(self@),
            r.1@ == self@.realm(),
    {
        match self {
            Name::Principal { name, realm } => (
                PrincipalName { name_type: 1, name_string: one_part(name) },
                realm.clone(),
            ),
            Name::SrvInst { service, realm } => (
                PrincipalName { name_type: 2, name_string: one_part(service) },
                realm.clone(),
            ),
            Name::SrvHst { service, host, realm } => (
                PrincipalName { name_type: 3, name_string: two_parts(service, host) },
                realm.clone(),
            ),
        }
    }

    /// The name as a service's name on the wire, its realm last.
    pub fn to_service_principal(&self) -> (r: PrincipalName)
        ensures
            r.deep_view() == service_principal(self@),
    {
        match self {
            Name::Principal { name, realm } => {
                assert(seq![name@].push(realm@) =~= seq![name@, realm@]);
                PrincipalName { name_type: 1, name_string: two_parts(name, realm) }
            },
            Name::SrvInst { service, realm } => {
                assert(seq![service@].push(realm@) =~= seq![service@, realm@]);
                PrincipalName { name_type: 2, name_string: two_parts(service, realm) }
            },
            Name::SrvHst { service, host, realm } => {
                assert(seq![service@, host@].push(realm@) =~= seq![service@, host@, realm@]);
                PrincipalName { name_type: 3, name_string: three_parts(service, host, realm) }
            },
        }
    }

    /// The client that a wire name and a realm name together.
    pub fn from_client_principal(p: &PrincipalName, realm: &String) -> (r: Option<Name>)
        ensures
            r.is_some() == name_of_client(p.deep_view(), realm@).is_some(),
            r matches Some(n) ==> name_of_client(p.deep_view(), realm@) == Some(n@),
    {
        let parts = &p.name_string;
        if realm.as_str().is_empty() {
            None
        } else if p.name_type == 1 && parts.len() == 1 {
            Some(Name::Principal { name: parts[0].clone(), realm: realm.clone() })
        } else if p.name_type == 2 && parts.len() == 1 {
            Some(Name::SrvInst { service: parts[0].clone(), realm: realm.clone() })
        } else if p.name_type == 3 && parts.len() == 2 {
            Some(
                Name::SrvHst {
                    service: parts[0].clone(),
                    host: parts[1].clone(),
                    realm: realm.clone(),
                },
            )
        } else {
            None
        }
    }

    /// The service that a wire name names, its last part being its realm.
    pub fn from_service_principal(p: &PrincipalName) -> (r: Option<Name>)
        ensures
            r.is_some() == name_of_service(p.deep_view()).is_some(),
            r matches Some(n) ==> name_of_service(p.deep_view()) == Some(n@),
    {
        let parts = &p.name_string;
        let n: usize = parts.len();
        if n == 0 {
            return None;
        }
        let ghost all = p.deep_view().name_string;
        assert(all.last() == parts[n - 1]@);
        assert(all.drop_last().len() == n - 1);
        if parts[n - 1].as_str().is_empty() {
            None
        } else if p.name_type == 1 && n == 2 {
            assert(all.drop_last()[0] == parts[0]@);
            Some(Name::Principal { name: parts[0].clone(), realm: parts[1].clone() })
        } else if p.name_type == 2 && n == 2 {
            assert(all.drop_last()[0] == parts[0]@);
            Some(Name::SrvInst { service: parts[0].clone(), realm: parts[1].clone() })
        } else if p.name_type == 3 && n == 3 {
            assert(all.drop_last()[0] == parts[0]@ && all.drop_last()[1] == parts[1]@);
            Some(
                Name::SrvHst {
                    service: parts[0].clone(),
                    host: parts[1].clone(),
                    realm: parts[2].clone(),
                },
            )
        } else {
            None
        }
    }
}

impl Preauth {
    /// The pre-authentication data that carries this on the wire.
    pub fn to_padata(&self) -> (r: Result<Option<Vec<PaData>>, KrbError>)
        ensures
            match r {
                Ok(items) => timestamp_sendable(self@) && items.deep_view() == preauth_padata(
                    self@,
                ),
                Err(e) => !timestamp_sendable(self@) && e == KrbError::DerEncodeOctetString,
            },
    {
        if self.pa_fx_cookie.is_none() && self.enc_timestamp.is_none() {
            return Ok(None);
        }
        let mut items: Vec<PaData> = Vec::new();
        match &self.pa_fx_cookie {
            Some(cookie) => {
                items.push(
                    PaData {
                        padata_type: PA_FX_COOKIE,
                        padata_value: copy_bytes(cookie.as_slice()),
                    },
                );
            },
            None => {},
        }
        match &self.enc_timestamp {
            Some(EncryptedData::Aes256CtsHmacSha196 { kvno, data }) => {
                let wire = KdcEncryptedData {
                    etype: 18,
                    kvno: None,
                    cipher: copy_bytes(data.as_slice()),
                };
                match wire.to_der_value().encode() {
                    None => {
                        return Err(KrbError::DerEncodeOctetString);
                    },
                    Some(octets) => {
                        items.push(PaData { padata_type: PA_ENC_TIMESTAMP, padata_value: octets });
                    },
                }
            },
            None => {},
        }
        assert(items.deep_view() =~= preauth_padata(self@)->0);
        Ok(Some(items))
    }

    /// The pre-authentication that the data of a request carries.
    pub fn from_padata(items: &Option<Vec<PaData>>) -> (r: Result<Preauth, KrbError>)
        ensures
            match r {
                Ok(p) => preauth_of_padata(items.deep_view()) == Ok::<PreauthView, KrbError>(p@),
                Err(e) => preauth_of_padata(items.deep_view()) == Err::<PreauthView, KrbError>(e),
            },
    {
        let mut acc: Preauth = Preauth::default();
        match items {
            None => Ok(acc),
            Some(list) => {
                let ghost views = list.deep_view();
                let mut i: usize = 0;
                while i < list.len()
                    invariant
                        i <= list.len(),
                        views == list.deep_view(),
                        items.deep_view() == Some(views),
                        fold_padata(views, i as nat, acc@) == fold_padata(
                            views,
                            0,
                            PreauthView::empty(),
                        ),
                    decreases list.len() - i,
                {
                    let item: &PaData = &list[i];
                    assert(views[i as int] == item.deep_view());
                    if item.padata_type == PA_FX_COOKIE {
                        acc.pa_fx_cookie = Some(copy_bytes(item.padata_value.as_slice()));
                    } else if item.padata_type == PA_ENC_TIMESTAMP {
                        match DerValue::parse(item.padata_value.as_slice()) {
                            None => {
                                return Err(KrbError::DerDecodePaData);
                            },
                            Some(tree) => match KdcEncryptedData::from_der_value(&tree) {
                                None => {
                                    return Err(KrbError::DerDecodePaData);
                                },
                                Some(e) => {
                                    if e.etype != 18 {
                                        return Err(KrbError::UnsupportedEncryption);
                                    }
                                    acc.enc_timestamp = Some(
                                        EncryptedData::Aes256CtsHmacSha196 {
                                            kvno: e.kvno,
                                            data: e.cipher,
                                        },
                                    );
                                },
                            },
                        }
                    }
                    i += 1;
                }
                Ok(acc)
            },
        }
    }
}

fn codes_of(etypes: &Vec<EncryptionType>) -> (codes: Vec<i32>)
    ensures
        codes@ == etype_codes(etypes@),
{
    let mut codes: Vec<i32> = Vec::new();
    let mut i: usize = 0;
    while i < etypes.len()
        invariant
            i <= etypes.len(),
            codes@ == etype_codes(etypes@.subrange(0, i as int)),
        decreases etypes.len() - i,
    {
        codes.push(etypes[i].code());
        assert(codes@ =~= etype_codes(etypes@.subrange(0, i + 1)));
        i += 1;
    }
    assert(etypes@.subrange(0, etypes.len() as int) =~= etypes@);
    codes
}

fn supported_of(codes: &Vec<i32>) -> (etypes: Vec<EncryptionType>)
    ensures
        etypes@ == supported_from(codes@, 0),
{
    let mut etypes: Vec<EncryptionType> = Vec::new();
    let mut i: usize = 0;
    while i < codes.len()
        invariant
            i <= codes.len(),
            etypes@ + supported_from(codes@, i as nat) == supported_from(codes@, 0),
        decreases codes.len() - i,
    {
        let ghost before = etypes@;
        if codes[i] == 18 {
            etypes.push(EncryptionType::AES256_CTS_HMAC_SHA1_96);
        }
        assert(etypes@ + supported_from(codes@, (i + 1) as nat) =~= before + supported_from(
            codes@,
            i as nat,
        ));
        i += 1;
    }
    assert(etypes@ + Seq::<EncryptionType>::empty() =~= etypes@);
    etypes
}

impl KerberosRequest {
    /// The request as the wire carries it. The ticket-granting exchange is
    /// not provided and is refused.
    pub fn try_into_kdc_req(&self) -> (r: Result<KrbKdcReq, KrbError>)
        ensures
            wire_result_is(r, request_to_wire(self@)),
    {
        match self {
            KerberosRequest::TicketGrant {  } => Err(KrbError::TgsNotImplemented),
            KerberosRequest::Authentication {
                nonce,
                client_name,
                service_name,
                from,
                until,
                renew,
                preauth,
                etypes,
            } => {
                if !client_name.is_well_formed() || !service_name.is_well_formed() {
                    return Err(KrbError::InvalidPrincipalName);
                }
                let padata = match preauth.to_padata() {
                    Err(e) => {
                        return Err(e);
                    },
                    Ok(items) => items,
                };
                let (cname, realm) = client_name.to_client_principal();
                let sname = service_name.to_service_principal();
                let mut kdc_options: Vec<u8> = Vec::new();
                kdc_options.push(0x00);
                kdc_options.push(0x80);
                kdc_options.push(0x00);
                kdc_options.push(0x00);
                assert(kdc_options@ =~= request_options());
                Ok(
                    KrbKdcReq::AsReq(
                        KdcReq {
                            pvno: PVNO,
                            msg_type: MSG_TYPE_AS_REQ,
                            padata,
                            req_body: KdcReqBody {
                                kdc_options,
                                cname: Some(cname),
                                realm,
                                sname: Some(sname),
                                from: *from,
                                till: *until,
                                rtime: *renew,
                                nonce: *nonce,
                                etype: codes_of(etypes),
                            },
                        },
                    ),
                )
            },
        }
    }

    /// The request that a wire request stands for. The protocol version
    /// must be 5 and the message an authentication request; of the proposed
    /// encryption types only the supported one is kept.
    pub fn try_from_kdc_req(req: &KdcReq) -> (r: Result<KerberosRequest, KrbError>)
        ensures
            request_result_is(r, request_of_wire(req.deep_view())),
    {
        if req.pvno != PVNO {
            return Err(KrbError::InvalidPvno);
        }
        let t: u8 = req.msg_type;
        if !((10 <= t && t <= 15) || (20 <= t && t <= 22) || t == 30) {
            return Err(KrbError::InvalidMessageType);
        }
        if t == MSG_TYPE_TGS_REQ {
            return Err(KrbError::TgsNotImplemented);
        }
        if t != MSG_TYPE_AS_REQ {
            return Err(KrbError::InvalidMessageDirection);
        }
        let etypes = supported_of(&req.req_body.etype);
        let preauth = match Preauth::from_padata(&req.padata) {
            Err(e) => {
                return Err(e);
            },
            Ok(p) => p,
        };
        let client_name = match &req.req_body.cname {
            None => {
                return Err(KrbError::MissingClientName);
            },
            Some(cname) => match Name::from_client_principal(cname, &req.req_body.realm) {
                None => {
                    return Err(KrbError::InvalidPrincipalName);
                },
                Some(n) => n,
            },
        };
        let service_name = match &req.req_body.sname {
            None => {
                return Err(KrbError::MissingServiceNameWithRealm);
            },
            Some(sname) => match Name::from_service_principal(sname) {
                None => {
                    return Err(KrbError::MissingServiceNameWithRealm);
                },
                Some(n) => n,
            },
        };
        Ok(
            KerberosRequest::Authentication {
                nonce: req.req_body.nonce,
                client_name,
                service_name,
                from: req.req_body.from,
                until: req.req_body.till,
                renew: req.req_body.rtime,
                preauth,
                etypes,
            },
        )
    }

    /// The request that a tagged wire request stands for, whichever tag
    /// it came under.
    pub fn try_from_krb_kdc_req(req: &KrbKdcReq) -> (r: Result<KerberosRequest, KrbError>)
        ensures
            request_result_is(r, request_of_wire(inner_req(req.deep_view()))),
    {
        match req {
            KrbKdcReq::TgsReq(kdc_req) => KerberosRequest::try_from_kdc_req(kdc_req),
            KrbKdcReq::AsReq(kdc_req) => KerberosRequest::try_from_kdc_req(kdc_req),
        }
    }

    /// The DER octets of the request. They depend on the request alone.
    pub fn to_der(&self) -> (r: Result<Vec<u8>, KrbError>)
        ensures
            crate::crypto::profile::bytes_result_is(r, request_der(self@)),
    {
        let wire = match self.try_into_kdc_req() {
            Err(e) => {
                return Err(e);
            },
            Ok(w) => w,
        };
        match wire.to_der_value() {
            None => Err(KrbError::DerEncodeKdcReq),
            Some(tree) => match tree.encode() {
                None => Err(KrbError::DerEncodeKdcReq),
                Some(octets) => Ok(octets),
            },
        }
    }

    /// Reads DER octets as a request.
    pub fn from_der(octets: &[u8]) -> (r: Result<KerberosRequest, KrbError>)
        ensures
            request_result_is(r, request_of_der(octets@)),
    {
        match DerValue::parse(octets) {
            None => Err(KrbError::DerDecodeKdcReq),
            Some(tree) => match KrbKdcReq::from_der_value(&tree) {
                None => Err(KrbError::DerDecodeKdcReq),
                Some(wire) => KerberosRequest::try_from_krb_kdc_req(&wire),
            },
        }
    }
}

} // verus!
