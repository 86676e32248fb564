//! Responses of the key distribution centre: the reply that carries a
//! ticket, the error that asks for pre-authentication, and other errors.

use crate::asn1::der::{forest, lemma_forest_of, parse_der, DerTree, DerValue};
use crate::asn1::leaf::{
    as_octets, as_seq, as_string, as_wrapped, next_field, opt_tree, read_octets, read_seq,
    read_string, read_wrapped, take_field,
};
use crate::asn1::time::{as_time, read_time};
use crate::error::KrbError;
use crate::proto::transcode::{
    message_type_known, name_of_client, MSG_TYPE_AS_REP, MSG_TYPE_ERROR, MSG_TYPE_TGS_REP,
    PA_ENC_TIMESTAMP, PA_ETYPE_INFO2, PA_FX_COOKIE, PVNO,
};
use crate::proto::types::{
    copy_bytes, entries_view, opt_bytes_view, ETypeInfo2Entry, ETypeInfo2EntryView,
    EncryptedData, EncryptedDataView, EncryptionType, Name, NameView, PreauthData,
    PreauthDataView,
};
use crate::proto::wire::{
    as_i32, as_u32, as_u8, parse_encrypted_data, parse_opt, parse_pa_data_list,
    parse_principal_name, read_i32, read_pa_data_list, read_u32, read_u8, KdcEncryptedData, KdcEncryptedDataView, PaData,
    PaDataView, PrincipalName, PrincipalNameView,
};
use vstd::prelude::*;

verus! {

/// The application tag of a ticket.
pub const TAG_TICKET: u8 = 0x61;

/// The application tag of an authentication reply.
pub const TAG_AS_REP: u8 = 0x6b;

/// The application tag of a ticket-granting reply.
pub const TAG_TGS_REP: u8 = 0x6d;

/// The application tag of an error.
pub const TAG_KRB_ERROR: u8 = 0x7e;

/// The error code that asks the client to pre-authenticate.
pub const KDC_ERR_PREAUTH_REQUIRED: i32 = 25;

/// A ticket: what the client is to hand to the service, encrypted for the
/// service, and what names that service.
#[derive(Debug, Clone, PartialEq, Eq)]
pub struct Ticket {
    pub tkt_vno: u8,
    pub realm: String,
    pub sname: PrincipalName,
    pub enc_part: KdcEncryptedData,
}

/// A ticket as contracts speak of it.
pub ghost struct TicketView {
    pub tkt_vno: u8,
    pub realm: Seq<char>,
    pub sname: PrincipalNameView,
    pub enc_part: KdcEncryptedDataView,
}

impl DeepView for Ticket {
    type V = TicketView;

    open spec fn deep_view(&self) -> TicketView {
        TicketView {
            tkt_vno: self.tkt_vno,
            realm: self.realm@,
            sname: self.sname.deep_view(),
            enc_part: self.enc_part.deep_view(),
        }
    }
}

/// A reply as the wire carries it.
#[derive(Debug, Clone, PartialEq, Eq)]
pub struct KdcRep {
    pub pvno: u8,
    pub msg_type: u8,
    pub padata: Option<Vec<PaData>>,
    pub crealm: String,
    pub cname: PrincipalName,
    pub ticket: Ticket,
    pub enc_part: KdcEncryptedData,
}

/// A wire reply as contracts speak of it.
pub ghost struct KdcRepView {
    pub pvno: u8,
    pub msg_type: u8,
    pub padata: Option<Seq<PaDataView>>,
    pub crealm: Seq<char>,
    pub cname: PrincipalNameView,
    pub ticket: TicketView,
    pub enc_part: KdcEncryptedDataView,
}

impl DeepView for KdcRep {
    type V = KdcRepView;

    open spec fn deep_view(&self) -> KdcRepView {
        KdcRepView {
            pvno: self.pvno,
            msg_type: self.msg_type,
            padata: self.padata.deep_view(),
            crealm: self.crealm@,
            cname: self.cname.deep_view(),
            ticket: self.ticket.deep_view(),
            enc_part: self.enc_part.deep_view(),
        }
    }
}

/// An error as the wire carries it. The times and names that the server
/// adds for the record are checked and passed over.
#[derive(Debug, Clone, PartialEq, Eq)]
pub struct KdcKrbError {
    pub pvno: u8,
    pub msg_type: u8,
    pub error_code: i32,
    pub error_data: Option<Vec<u8>>,
}

/// A wire error as contracts speak of it.
pub ghost struct KdcKrbErrorView {
    pub pvno: u8,
    pub msg_type: u8,
    pub error_code: i32,
    pub error_data: Option<Seq<u8>>,
}

impl DeepView for KdcKrbError {
    type V = KdcKrbErrorView;

    open spec fn deep_view(&self) -> KdcKrbErrorView {
        KdcKrbErrorView {
            pvno: self.pvno,
            msg_type: self.msg_type,
            error_code: self.error_code,
            error_data: crate::proto::types::opt_bytes_view(self.error_data),
        }
    }
}

/// A response under the tag that says what it is.
#[derive(Debug, Clone, PartialEq, Eq)]
pub enum KrbKdcRep {
    AsRep(KdcRep),
    TgsRep(KdcRep),
    ErrRep(KdcKrbError),
}

/// A tagged wire response as contracts speak of it.
pub ghost enum KrbKdcRepView {
    AsRep(KdcRepView),
    TgsRep(KdcRepView),
    ErrRep(KdcKrbErrorView),
}

impl DeepView for KrbKdcRep {
    type V = KrbKdcRepView;

    open spec fn deep_view(&self) -> KrbKdcRepView {
        match self {
            KrbKdcRep::AsRep(r) => KrbKdcRepView::AsRep(r.deep_view()),
            KrbKdcRep::TgsRep(r) => KrbKdcRepView::TgsRep(r.deep_view()),
            KrbKdcRep::ErrRep(e) => KrbKdcRepView::ErrRep(e.deep_view()),
        }
    }
}

/// The ticket that a DER value stands for, where it stands for one.
pub open spec fn parse_ticket(t: DerTree) -> Option<TicketView> {
    match as_wrapped(t, TAG_TICKET) {
        None => None,
        Some(inner) => match as_seq(inner) {
            None => None,
            Some(fs) => {
                let (vno, r0) = take_field(fs, 0);
                let (realm, r1) = take_field(r0, 1);
                let (sname, r2) = take_field(r1, 2);
                let (enc, r3) = take_field(r2, 3);
                if r3.len() != 0 || realm is None || sname is None || enc is None {
                    None
                } else {
                    match (
                        as_u8(vno),
                        as_string(realm->0),
                        parse_principal_name(sname->0),
                        parse_encrypted_data(enc->0),
                    ) {
                        (Some(tkt_vno), Some(realm), Some(sname), Some(enc_part)) => Some(
                            TicketView { tkt_vno, realm, sname, enc_part },
                        ),
                        _ => None,
                    }
                }
            },
        },
    }
}

/// The reply that a DER value stands for, where it stands for one.
pub open spec fn parse_kdc_rep(t: DerTree) -> Option<KdcRepView> {
    match as_seq(t) {
        None => None,
        Some(fs) => {
            let (pvno, r0) = take_field(fs, 0);
            let (msg_type, r1) = take_field(r0, 1);
            let (padata, r2) = take_field(r1, 2);
            let (crealm, r3) = take_field(r2, 3);
            let (cname, r4) = take_field(r3, 4);
            let (ticket, r5) = take_field(r4, 5);
            let (enc, r6) = take_field(r5, 6);
            if r6.len() != 0 || crealm is None || cname is None || ticket is None || enc is None {
                None
            } else {
                match (
                    as_u8(pvno),
                    as_u8(msg_type),
                    parse_opt(padata, |x: DerTree| parse_pa_data_list(x)),
                    as_string(crealm->0),
                    parse_principal_name(cname->0),
                    parse_ticket(ticket->0),
                    parse_encrypted_data(enc->0),
                ) {
                    (
                        Some(pvno),
                        Some(msg_type),
                        Some(padata),
                        Some(crealm),
                        Some(cname),
                        Some(ticket),
                        Some(enc_part),
                    ) => Some(
                        KdcRepView { pvno, msg_type, padata, crealm, cname, ticket, enc_part },
                    ),
                    _ => None,
                }
            }
        },
    }
}

/// The error that a DER value stands for, where it stands for one.
pub open spec fn parse_krb_error(t: DerTree) -> Option<KdcKrbErrorView> {
    match as_seq(t) {
        None => None,
        Some(fs) => {
            let (pvno, r0) = take_field(fs, 0);
            let (msg_type, r1) = take_field(r0, 1);
            let (ctime, r2) = take_field(r1, 2);
            let (cusec, r3) = take_field(r2, 3);
            let (stime, r4) = take_field(r3, 4);
            let (susec, r5) = take_field(r4, 5);
            let (code, r6) = take_field(r5, 6);
            let (crealm, r7) = take_field(r6, 7);
            let (cname, r8) = take_field(r7, 8);
            let (realm, r9) = take_field(r8, 9);
            let (sname, r10) = take_field(r9, 10);
            let (text, r11) = take_field(r10, 11);
            let (data, r12) = take_field(r11, 12);
            if r12.len() != 0 || stime is None || realm is None || sname is None {
                None
            } else {
                match (
                    as_u8(pvno),
                    as_u8(msg_type),
                    parse_opt(ctime, |x: DerTree| as_time(x)),
                    parse_opt(cusec, |x: DerTree| as_u32(Some(x))),
                    as_time(stime->0),
                    as_u32(susec),
                    as_i32(code),
                    parse_opt(crealm, |x: DerTree| as_string(x)),
                    parse_opt(cname, |x: DerTree| parse_principal_name(x)),
                    as_string(realm->0),
                    parse_principal_name(sname->0),
                    parse_opt(text, |x: DerTree| as_string(x)),
                    parse_opt(data, |x: DerTree| as_octets(x)),
                ) {
                    (
                        Some(pvno),
                        Some(msg_type),
                        Some(_),
                        Some(_),
                        Some(_),
                        Some(_),
                        Some(error_code),
                        Some(_),
                        Some(_),
                        Some(_),
                        Some(_),
                        Some(_),
                        Some(error_data),
                    ) => Some(KdcKrbErrorView { pvno, msg_type, error_code, error_data }),
                    _ => None,
                }
            }
        },
    }
}

/// The tagged response that a DER value stands for, where it stands for one.
pub open spec fn parse_krb_kdc_rep(t: DerTree) -> Option<KrbKdcRepView> {
    match as_wrapped(t, TAG_AS_REP) {
        Some(inner) => match parse_kdc_rep(inner) {
            Some(r) => Some(KrbKdcRepView::AsRep(r)),
            None => None,
        },
        None => match as_wrapped(t, TAG_TGS_REP) {
            Some(inner) => match parse_kdc_rep(inner) {
                Some(r) => Some(KrbKdcRepView::TgsRep(r)),
                None => None,
            },
            None => match as_wrapped(t, TAG_KRB_ERROR) {
                Some(inner) => match parse_krb_error(inner) {
                    Some(e) => Some(KrbKdcRepView::ErrRep(e)),
                    None => None,
                },
                None => None,
            },
        },
    }
}

fn read_opt_pa_data(v: Option<&DerValue>) -> (r: Option<Option<Vec<PaData>>>)
    ensures
        r.deep_view() == parse_opt(opt_tree(v), |x: DerTree| parse_pa_data_list(x)),
{
    match v {
        None => Some(None),
        Some(list) => match read_pa_data_list(list) {
            Some(items) => Some(Some(items)),
            None => None,
        },
    }
}

impl Ticket {
    /// Reads a DER value as a ticket.
    pub fn from_der_value(v: &DerValue) -> (r: Option<Ticket>)
        ensures
            r.deep_view() == parse_ticket(v@),
    {
        match read_wrapped(v, TAG_TICKET) {
            None => None,
            Some(inner) => match read_seq(inner) {
                None => None,
                Some(fields) => {
                    assert(forest(*fields).skip(0) =~= forest(*fields));
                    let (vno, at0) = next_field(fields, 0, 0);
                    let (realm, at1) = next_field(fields, at0, 1);
                    let (sname, at2) = next_field(fields, at1, 2);
                    let (enc, at3) = next_field(fields, at2, 3);
                    proof {
                        lemma_forest_of(*fields, fields.len() as nat);
                    }
                    if at3 != fields.len() {
                        return None;
                    }
                    match (realm, sname, enc) {
                        (Some(realm), Some(sname), Some(enc)) => match (
                            read_u8(vno),
                            read_string(realm),
                            PrincipalName::from_der_value(sname),
                            KdcEncryptedData::from_der_value(enc),
                        ) {
                            (Some(tkt_vno), Some(realm), Some(sname), Some(enc_part)) => Some(
                                Ticket { tkt_vno, realm, sname, enc_part },
                            ),
                            _ => None,
                        },
                        _ => None,
                    }
                },
            },
        }
    }
}

impl KdcRep {
    /// Reads a DER value as a reply.
    pub fn from_der_value(v: &DerValue) -> (r: Option<KdcRep>)
        ensures
            r.deep_view() == parse_kdc_rep(v@),
    {
        match read_seq(v) {
            None => None,
            Some(fields) => {
                assert(forest(*fields).skip(0) =~= forest(*fields));
                let (pvno, at0) = next_field(fields, 0, 0);
                let (msg_type, at1) = next_field(fields, at0, 1);
                let (padata, at2) = next_field(fields, at1, 2);
                let (crealm, at3) = next_field(fields, at2, 3);
                let (cname, at4) = next_field(fields, at3, 4);
                let (ticket, at5) = next_field(fields, at4, 5);
                let (enc, at6) = next_field(fields, at5, 6);
                proof {
                    lemma_forest_of(*fields, fields.len() as nat);
                }
                if at6 != fields.len() {
                    return None;
                }
                match (crealm, cname, ticket, enc) {
                    (Some(crealm), Some(cname), Some(ticket), Some(enc)) => match (
                        read_u8(pvno),
                        read_u8(msg_type),
                        read_opt_pa_data(padata),
                        read_string(crealm),
                        PrincipalName::from_der_value(cname),
                        Ticket::from_der_value(ticket),
                        KdcEncryptedData::from_der_value(enc),
                    ) {
                        (
                            Some(pvno),
                            Some(msg_type),
                            Some(padata),
                            Some(crealm),
                            Some(cname),
                            Some(ticket),
                            Some(enc_part),
                        ) => Some(
                            KdcRep { pvno, msg_type, padata, crealm, cname, ticket, enc_part },
                        ),
                        _ => None,
                    },
                    _ => None,
                }
            },
        }
    }
}

fn check_opt_time(v: Option<&DerValue>) -> (ok: bool)
    ensures
        ok == parse_opt(opt_tree(v), |x: DerTree| as_time(x)).is_some(),
{
    match v {
        None => true,
        Some(x) => read_time(x).is_some(),
    }
}

fn check_opt_u32(v: Option<&DerValue>) -> (ok: bool)
    ensures
        ok == parse_opt(opt_tree(v), |x: DerTree| as_u32(Some(x))).is_some(),
{
    match v {
        None => true,
        Some(x) => read_u32(Some(x)).is_some(),
    }
}

fn check_opt_string(v: Option<&DerValue>) -> (ok: bool)
    ensures
        ok == parse_opt(opt_tree(v), |x: DerTree| as_string(x)).is_some(),
{
    match v {
        None => true,
        Some(x) => read_string(x).is_some(),
    }
}

fn check_opt_name(v: Option<&DerValue>) -> (ok: bool)
    ensures
        ok == parse_opt(opt_tree(v), |x: DerTree| parse_principal_name(x)).is_some(),
{
    match v {
        None => true,
        Some(x) => PrincipalName::from_der_value(x).is_some(),
    }
}

fn read_opt_octets(v: Option<&DerValue>) -> (r: Option<Option<Vec<u8>>>)
    ensures
        match r {
            Some(d) => parse_opt(opt_tree(v), |x: DerTree| as_octets(x)) == Some(
                crate::proto::types::opt_bytes_view(d),
            ),
            None => parse_opt(opt_tree(v), |x: DerTree| as_octets(x)) is None,
        },
{
    match v {
        None => Some(None),
        Some(x) => match read_octets(x) {
            Some(b) => Some(Some(copy_bytes(b.as_slice()))),
            None => None,
        },
    }
}

impl KdcKrbError {
    /// Reads a DER value as an error.
    pub fn from_der_value(v: &DerValue) -> (r: Option<KdcKrbError>)
        ensures
            r.deep_view() == parse_krb_error(v@),
    {
        match read_seq(v) {
            None => None,
            Some(fields) => {
                assert(forest(*fields).skip(0) =~= forest(*fields));
                let (pvno, at0) = next_field(fields, 0, 0);
                let (msg_type, at1) = next_field(fields, at0, 1);
                let (ctime, at2) = next_field(fields, at1, 2);
                let (cusec, at3) = next_field(fields, at2, 3);
                let (stime, at4) = next_field(fields, at3, 4);
                let (susec, at5) = next_field(fields, at4, 5);
                let (code, at6) = next_field(fields, at5, 6);
                let (crealm, at7) = next_field(fields, at6, 7);
                let (cname, at8) = next_field(fields, at7, 8);
                let (realm, at9) = next_field(fields, at8, 9);
                let (sname, at10) = next_field(fields, at9, 10);
                let (text, at11) = next_field(fields, at10, 11);
                let (data, at12) = next_field(fields, at11, 12);
                proof {
                    lemma_forest_of(*fields, fields.len() as nat);
                }
                if at12 != fields.len() {
                    return None;
                }
                match (stime, realm, sname) {
                    (Some(stime), Some(realm), Some(sname)) => {
                        if !check_opt_time(ctime) || !check_opt_u32(cusec) || read_time(
                            stime,
                        ).is_none() || read_u32(susec).is_none() || !check_opt_string(crealm)
                            || !check_opt_name(cname) || read_string(realm).is_none()
                            || PrincipalName::from_der_value(sname).is_none() || !check_opt_string(
                            text,
                        ) {
                            return None;
                        }
                        match (
                            read_u8(pvno),
                            read_u8(msg_type),
                            read_i32(code),
                            read_opt_octets(data),
                        ) {
                            (Some(pvno), Some(msg_type), Some(error_code), Some(error_data)) => {
                                Some(KdcKrbError { pvno, msg_type, error_code, error_data })
                            },
                            _ => None,
                        }
                    },
                    _ => None,
                }
            },
        }
    }
}

impl KrbKdcRep {
    /// Reads a DER value as a tagged response.
    pub fn from_der_value(v: &DerValue) -> (r: Option<KrbKdcRep>)
        ensures
            r.deep_view() == parse_krb_kdc_rep(v@),
    {
        match read_wrapped(v, TAG_AS_REP) {
            Some(inner) => match KdcRep::from_der_value(inner) {
                Some(rep) => Some(KrbKdcRep::AsRep(rep)),
                None => None,
            },
            None => match read_wrapped(v, TAG_TGS_REP) {
                Some(inner) => match KdcRep::from_der_value(inner) {
                    Some(rep) => Some(KrbKdcRep::TgsRep(rep)),
                    None => None,
                },
                None => match read_wrapped(v, TAG_KRB_ERROR) {
                    Some(inner) => match KdcKrbError::from_der_value(inner) {
                        Some(e) => Some(KrbKdcRep::ErrRep(e)),
                        None => None,
                    },
                    None => None,
                },
            },
        }
    }
}

/// One entry of the server's list of encryption types, as the wire
/// carries it.
pub ghost struct KdcETypeInfo2EntryView {
    pub etype: i32,
    pub salt: Option<Seq<char>>,
    pub s2kparams: Option<Seq<u8>>,
}

/// The entry that a DER value stands for, where it stands for one.
pub open spec fn parse_etype_info2_entry(t: DerTree) -> Option<KdcETypeInfo2EntryView> {
    match as_seq(t) {
        None => None,
        Some(fs) => {
            let (etype, r0) = take_field(fs, 0);
            let (salt, r1) = take_field(r0, 1);
            let (params, r2) = take_field(r1, 2);
            if r2.len() != 0 {
                None
            } else {
                match (
                    as_i32(etype),
                    parse_opt(salt, |x: DerTree| as_string(x)),
                    parse_opt(params, |x: DerTree| as_octets(x)),
                ) {
                    (Some(etype), Some(salt), Some(s2kparams)) => Some(
                        KdcETypeInfo2EntryView { etype, salt, s2kparams },
                    ),
                    _ => None,
                }
            }
        },
    }
}

/// Every value of the list is an entry.
pub open spec fn entries_readable(ts: Seq<DerTree>) -> bool {
    forall|i: int| 0 <= i < ts.len() ==> parse_etype_info2_entry(#[trigger] ts[i]) is Some
}

/// Of the entries `ts[i..]`, those that name the encryption type this
/// client can use, in the server's order.
pub open spec fn usable_from(ts: Seq<DerTree>, i: nat) -> Seq<ETypeInfo2EntryView>
    decreases ts.len() - i,
{
    if i >= ts.len() {
        Seq::empty()
    } else {
        let e = parse_etype_info2_entry(ts[i as int])->0;
        if e.etype == 18 {
            seq![
                ETypeInfo2EntryView {
                    etype: EncryptionType::AES256_CTS_HMAC_SHA1_96,
                    salt: e.salt,
                    s2kparams: e.s2kparams,
                },
            ] + usable_from(ts, i + 1)
        } else {
            usable_from(ts, i + 1)
        }
    }
}

/// The usable entries of a list of encryption types.
pub open spec fn etype_info2_of(t: DerTree) -> Option<Seq<ETypeInfo2EntryView>> {
    match as_seq(t) {
        Some(ts) => if entries_readable(ts) {
            Some(usable_from(ts, 0))
        } else {
            None
        },
        None => None,
    }
}

fn read_opt_string(v: Option<&DerValue>) -> (r: Option<Option<String>>)
    ensures
        r.deep_view() == parse_opt(opt_tree(v), |x: DerTree| as_string(x)),
{
    match v {
        None => Some(None),
        Some(x) => match read_string(x) {
            Some(s) => Some(Some(s)),
            None => None,
        },
    }
}

/// Reads a DER value as one entry: the number of its encryption type, its
/// salt and its parameters.
fn read_etype_info2_entry(v: &DerValue) -> (r: Option<(i32, Option<String>, Option<Vec<u8>>)>)
    ensures
        match r {
            Some((etype, salt, params)) => parse_etype_info2_entry(v@) == Some(
                KdcETypeInfo2EntryView {
                    etype,
                    salt: salt.deep_view(),
                    s2kparams: opt_bytes_view(params),
                },
            ),
            None => parse_etype_info2_entry(v@) is None,
        },
{
    match read_seq(v) {
        None => None,
        Some(fields) => {
            assert(forest(*fields).skip(0) =~= forest(*fields));
            let (etype, at0) = next_field(fields, 0, 0);
            let (salt, at1) = next_field(fields, at0, 1);
            let (params, at2) = next_field(fields, at1, 2);
            proof {
                lemma_forest_of(*fields, fields.len() as nat);
            }
            if at2 != fields.len() {
                return None;
            }
            match (read_i32(etype), read_opt_string(salt), read_opt_octets(params)) {
                (Some(etype), Some(salt), Some(params)) => Some((etype, salt, params)),
                _ => None,
            }
        },
    }
}

/// Reads a DER value as the server's list of encryption types and keeps
/// the entries that this client can use.
pub fn read_etype_info2(v: &DerValue) -> (r: Option<Vec<ETypeInfo2Entry>>)
    ensures
        match r {
            Some(es) => etype_info2_of(v@) == Some(entries_view(es@)),
            None => etype_info2_of(v@) is None,
        },
{
    match read_seq(v) {
        None => None,
        Some(items) => {
            let ghost ts = forest(*items);
            proof {
                lemma_forest_of(*items, items.len() as nat);
            }
            let mut out: Vec<ETypeInfo2Entry> = Vec::new();
            assert(entries_view(out@) =~= Seq::<ETypeInfo2EntryView>::empty());
            let mut i: usize = 0;
            while i < items.len()
                invariant
                    i <= items.len(),
                    as_seq(v@) == Some(ts),
                    ts == forest(*items),
                    ts.len() == items.len(),
                    forall|k: int| 0 <= k < ts.len() ==> (#[trigger] ts[k]) == items[k]@,
                    forall|k: int| 0 <= k < i ==> parse_etype_info2_entry(#[trigger] ts[k]) is Some,
                    entries_view(out@) + usable_from(ts, i as nat) == usable_from(ts, 0),
                decreases items.len() - i,
            {
                match read_etype_info2_entry(&items[i]) {
                    None => {
                        assert(parse_etype_info2_entry(ts[i as int]) is None);
                        return None;
                    },
                    Some((etype, salt, s2kparams)) => {
                        let ghost before = entries_view(out@);
                        if etype == 18 {
                            let entry = ETypeInfo2Entry {
                                etype: EncryptionType::AES256_CTS_HMAC_SHA1_96,
                                salt,
                                s2kparams,
                            };
                            let ghost view = entry@;
                            out.push(entry);
                            assert(entries_view(out@) =~= before.push(view));
                        }
                        assert(entries_view(out@) + usable_from(ts, (i + 1) as nat) =~= before
                            + usable_from(ts, i as nat));
                    },
                }
                i += 1;
            }
            assert(entries_view(out@) + Seq::<ETypeInfo2EntryView>::empty() =~= entries_view(
                out@,
            ));
            Some(out)
        },
    }
}

impl PreauthDataView {
    /// Nothing advertised.
    pub open spec fn empty() -> PreauthDataView {
        PreauthDataView { enc_timestamp: false, etype_info2: Seq::empty(), pa_fx_cookie: None }
    }
}

/// What one item of the server's pre-authentication data adds to what the
/// items before it gave.
pub open spec fn with_method(acc: PreauthDataView, p: PaDataView) -> Result<
    PreauthDataView,
    KrbError,
> {
    if p.padata_type == PA_ENC_TIMESTAMP {
        Ok(PreauthDataView { enc_timestamp: true, ..acc })
    } else if p.padata_type == PA_ETYPE_INFO2 {
        match parse_der(p.padata_value) {
            None => Err(KrbError::DerDecodeEtypeInfo2),
            Some(t) => match etype_info2_of(t) {
                None => Err(KrbError::DerDecodeEtypeInfo2),
                Some(entries) => Ok(PreauthDataView { etype_info2: entries, ..acc }),
            },
        }
    } else if p.padata_type == PA_FX_COOKIE {
        Ok(PreauthDataView { pa_fx_cookie: Some(p.padata_value), ..acc })
    } else {
        Ok(acc)
    }
}

/// What the items `ps[i..]` make of `acc`.
pub open spec fn fold_methods(ps: Seq<PaDataView>, i: nat, acc: PreauthDataView) -> Result<
    PreauthDataView,
    KrbError,
>
    decreases ps.len() - i,
{
    if i >= ps.len() {
        Ok(acc)
    } else {
        match with_method(acc, ps[i as int]) {
            Err(e) => Err(e),
            Ok(next) => fold_methods(ps, i + 1, next),
        }
    }
}

/// What the server's pre-authentication data says.
pub open spec fn preauth_data_of(ps: Seq<PaDataView>) -> Result<PreauthDataView, KrbError> {
    fold_methods(ps, 0, PreauthDataView::empty())
}

/// Relates the outcome of reading pre-authentication data to what the
/// model says it is.
pub open spec fn preauth_data_result_is(r: Result<PreauthData, KrbError>, model: Result<
    PreauthDataView,
    KrbError,
>) -> bool {
    match r {
        Ok(p) => model == Ok::<PreauthDataView, KrbError>(p@),
        Err(e) => model == Err::<PreauthDataView, KrbError>(e),
    }
}

impl PreauthData {
    /// Reads the server's pre-authentication data: whether an encrypted
    /// timestamp is accepted, the usable encryption types, and the cookie.
    /// Other kinds of data are passed over.
    pub fn from_padata(items: &Vec<PaData>) -> (r: Result<PreauthData, KrbError>)
        ensures
            preauth_data_result_is(r, preauth_data_of(items.deep_view())),
    {
        let mut acc = PreauthData {
            enc_timestamp: false,
            etype_info2: Vec::new(),
            pa_fx_cookie: None,
        };
        assert(entries_view(acc.etype_info2@) =~= Seq::<ETypeInfo2EntryView>::empty());
        let ghost views = items.deep_view();
        let mut i: usize = 0;
        while i < items.len()
            invariant
                i <= items.len(),
                views == items.deep_view(),
                fold_methods(views, i as nat, acc@) == fold_methods(
                    views,
                    0,
                    PreauthDataView::empty(),
                ),
            decreases items.len() - i,
        {
            let item: &PaData = &items[i];
            assert(views[i as int] == item.deep_view());
            if item.padata_type == PA_ENC_TIMESTAMP {
                acc.enc_timestamp = true;
            } else if item.padata_type == PA_ETYPE_INFO2 {
                match DerValue::parse(item.padata_value.as_slice()) {
                    None => {
                        return Err(KrbError::DerDecodeEtypeInfo2);
                    },
                    Some(tree) => match read_etype_info2(&tree) {
                        None => {
                            return Err(KrbError::DerDecodeEtypeInfo2);
                        },
                        Some(entries) => {
                            acc.etype_info2 = entries;
                        },
                    },
                }
            } else if item.padata_type == PA_FX_COOKIE {
                acc.pa_fx_cookie = Some(copy_bytes(item.padata_value.as_slice()));
            }
            i += 1;
        }
        Ok(acc)
    }
}

/// The reply that carries a ticket and, encrypted for the client, the
/// session key that goes with it.
#[derive(Debug, Clone, PartialEq, Eq)]
pub struct KerberosAsRep {
    pub name: Name,
    pub enc_part: EncryptedData,
    pub pa_data: Option<PreauthData>,
    pub ticket: Ticket,
}

/// An authentication reply as contracts speak of it.
pub ghost struct KerberosAsRepView {
    pub name: NameView,
    pub enc_part: EncryptedDataView,
    pub pa_data: Option<PreauthDataView>,
    pub ticket: TicketView,
}

impl View for KerberosAsRep {
    type V = KerberosAsRepView;

    open spec fn view(&self) -> KerberosAsRepView {
        KerberosAsRepView {
            name: self.name@,
            enc_part: self.enc_part@,
            pa_data: match self.pa_data {
                Some(p) => Some(p@),
                None => None,
            },
            ticket: self.ticket.deep_view(),
        }
    }
}

/// What the key distribution centre answers.
#[derive(Debug, Clone, PartialEq, Eq)]
pub enum KerberosResponse {
    /// The client is authenticated.
    AsRep(KerberosAsRep),
    /// The client has to pre-authenticate, in a way that the data names.
    PaRep(PreauthData),
    /// Any other error, by its code.
    ErrRep(i32),
}

/// A response as contracts speak of it.
pub ghost enum KerberosResponseView {
    AsRep(KerberosAsRepView),
    PaRep(PreauthDataView),
    ErrRep(i32),
}

impl View for KerberosResponse {
    type V = KerberosResponseView;

    open spec fn view(&self) -> KerberosResponseView {
        match self {
            KerberosResponse::AsRep(r) => KerberosResponseView::AsRep(r@),
            KerberosResponse::PaRep(p) => KerberosResponseView::PaRep(p@),
            KerberosResponse::ErrRep(c) => KerberosResponseView::ErrRep(*c),
        }
    }
}

/// What the header of a message says of it: fine, or what is wrong.
pub open spec fn header_check(pvno: u8, msg_type: u8, expected: u8) -> Option<KrbError> {
    if pvno != PVNO {
        Some(KrbError::InvalidPvno)
    } else if !message_type_known(msg_type) {
        Some(KrbError::InvalidMessageType)
    } else if msg_type == MSG_TYPE_TGS_REP {
        Some(KrbError::TgsNotImplemented)
    } else if msg_type != expected {
        Some(KrbError::InvalidMessageDirection)
    } else {
        None
    }
}

/// The pre-authentication data of a reply, where it has any.
pub open spec fn opt_preauth_data_of(ps: Option<Seq<PaDataView>>) -> Result<
    Option<PreauthDataView>,
    KrbError,
> {
    match ps {
        None => Ok(None),
        Some(items) => match preauth_data_of(items) {
            Ok(p) => Ok(Some(p)),
            Err(e) => Err(e),
        },
    }
}

/// The authentication that a wire reply stands for.
pub open spec fn as_rep_of_wire(r: KdcRepView) -> Result<KerberosResponseView, KrbError> {
    match header_check(r.pvno, r.msg_type, MSG_TYPE_AS_REP) {
        Some(e) => Err(e),
        None => {
            if r.enc_part.etype != 18 {
                Err(KrbError::UnsupportedEncryption)
            } else {
                match name_of_client(r.cname, r.crealm) {
                    None => Err(KrbError::InvalidPrincipalName),
                    Some(name) => match opt_preauth_data_of(r.padata) {
                        Err(e) => Err(e),
                        Ok(pa_data) => Ok(
                            KerberosResponseView::AsRep(
                                KerberosAsRepView {
                                    name,
                                    enc_part: EncryptedDataView::Aes256CtsHmacSha196 {
                                        kvno: r.enc_part.kvno,
                                        data: r.enc_part.cipher,
                                    },
                                    pa_data,
                                    ticket: r.ticket,
                                },
                            ),
                        ),
                    },
                }
            }
        },
    }
}

/// The response that a wire error stands for: the demand to
/// pre-authenticate with the data that says how, or the error's code.
pub open spec fn error_of_wire(e: KdcKrbErrorView) -> Result<KerberosResponseView, KrbError> {
    match header_check(e.pvno, e.msg_type, MSG_TYPE_ERROR) {
        Some(err) => Err(err),
        None => {
            if e.error_code != KDC_ERR_PREAUTH_REQUIRED {
                Ok(KerberosResponseView::ErrRep(e.error_code))
            } else {
                match e.error_data {
                    None => Err(KrbError::MissingPaData),
                    Some(d) => match parse_der(d) {
                        None => Err(KrbError::DerDecodePaData),
                        Some(t) => match parse_pa_data_list(t) {
                            None => Err(KrbError::DerDecodePaData),
                            Some(items) => match preauth_data_of(items) {
                                Err(err) => Err(err),
                                Ok(p) => Ok(KerberosResponseView::PaRep(p)),
                            },
                        },
                    },
                }
            }
        },
    }
}

/// The response that a tagged wire response stands for.
pub open spec fn response_of_wire(r: KrbKdcRepView) -> Result<KerberosResponseView, KrbError> {
    match r {
        KrbKdcRepView::AsRep(rep) => as_rep_of_wire(rep),
        KrbKdcRepView::TgsRep(_) => Err(KrbError::TgsNotImplemented),
        KrbKdcRepView::ErrRep(e) => error_of_wire(e),
    }
}

/// The response that DER octets stand for.
pub open spec fn response_of_der(b: Seq<u8>) -> Result<KerberosResponseView, KrbError> {
    match parse_der(b) {
        None => Err(KrbError::DerDecodeKdcRep),
        Some(t) => match parse_krb_kdc_rep(t) {
            None => Err(KrbError::DerDecodeKdcRep),
            Some(w) => response_of_wire(w),
        },
    }
}

/// Relates the outcome of reading a response to what the model says it is.
pub open spec fn response_result_is(r: Result<KerberosResponse, KrbError>, model: Result<
    KerberosResponseView,
    KrbError,
>) -> bool {
    match r {
        Ok(q) => model == Ok::<KerberosResponseView, KrbError>(q@),
        Err(e) => model == Err::<KerberosResponseView, KrbError>(e),
    }
}

fn check_header(pvno: u8, msg_type: u8, expected: u8) -> (r: Option<KrbError>)
    ensures
        r == header_check(pvno, msg_type, expected),
{
    let t: u8 = msg_type;
    if pvno != PVNO {
        Some(KrbError::InvalidPvno)
    } else if !((10 <= t && t <= 15) || (20 <= t && t <= 22) || t == 30) {
        Some(KrbError::InvalidMessageType)
    } else if t == MSG_TYPE_TGS_REP {
        Some(KrbError::TgsNotImplemented)
    } else if t != expected {
        Some(KrbError::InvalidMessageDirection)
    } else {
        None
    }
}

impl KerberosResponse {
    /// The response that a tagged wire response stands for. Replies of the
    /// ticket-granting exchange are refused.
    pub fn try_from_krb_kdc_rep(rep: KrbKdcRep) -> (r: Result<KerberosResponse, KrbError>)
        ensures
            response_result_is(r, response_of_wire(rep.deep_view())),
    {
        match rep {
            KrbKdcRep::TgsRep(_) => Err(KrbError::TgsNotImplemented),
            KrbKdcRep::AsRep(rep) => {
                match check_header(rep.pvno, rep.msg_type, MSG_TYPE_AS_REP) {
                    Some(e) => {
                        return Err(e);
                    },
                    None => {},
                }
                if rep.enc_part.etype != 18 {
                    return Err(KrbError::UnsupportedEncryption);
                }
                let name = match Name::from_client_principal(&rep.cname, &rep.crealm) {
                    None => {
                        return Err(KrbError::InvalidPrincipalName);
                    },
                    Some(n) => n,
                };
                let pa_data = match &rep.padata {
                    None => None,
                    Some(items) => match PreauthData::from_padata(items) {
                        Err(e) => {
                            return Err(e);
                        },
                        Ok(p) => Some(p),
                    },
                };
                let KdcRep { ticket, enc_part, .. } = rep;
                let KdcEncryptedData { kvno, cipher, .. } = enc_part;
                Ok(
                    KerberosResponse::AsRep(
                        KerberosAsRep {
                            name,
                            enc_part: EncryptedData::Aes256CtsHmacSha196 { kvno, data: cipher },
                            pa_data,
                            ticket,
                        },
                    ),
                )
            },
            KrbKdcRep::ErrRep(e) => {
                match check_header(e.pvno, e.msg_type, MSG_TYPE_ERROR) {
                    Some(err) => {
                        return Err(err);
                    },
                    None => {},
                }
                if e.error_code != KDC_ERR_PREAUTH_REQUIRED {
                    return Ok(KerberosResponse::ErrRep(e.error_code));
                }
                match &e.error_data {
                    None => Err(KrbError::MissingPaData),
                    Some(d) => match DerValue::parse(d.as_slice()) {
                        None => Err(KrbError::DerDecodePaData),
                        Some(tree) => match read_pa_data_list(&tree) {
                            None => Err(KrbError::DerDecodePaData),
                            Some(items) => match PreauthData::from_padata(&items) {
                                Err(err) => Err(err),
                                Ok(p) => Ok(KerberosResponse::PaRep(p)),
                            },
                        },
                    },
                }
            },
        }
    }

    /// Reads DER octets as a response.
    pub fn from_der(octets: &[u8]) -> (r: Result<KerberosResponse, KrbError>)
        ensures
            response_result_is(r, response_of_der(octets@)),
    {
        match DerValue::parse(octets) {
            None => Err(KrbError::DerDecodeKdcRep),
            Some(tree) => match KrbKdcRep::from_der_value(&tree) {
                None => Err(KrbError::DerDecodeKdcRep),
                Some(wire) => KerberosResponse::try_from_krb_kdc_rep(wire),
            },
        }
    }
}

} // verus!
