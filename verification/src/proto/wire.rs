//! The structures that travel on the wire, field for field, and their
//! form as DER values.

use crate::asn1::der::{forest, lemma_forest_of, no_children, push_child, DerTree, DerValue};
use crate::asn1::leaf::{
    as_int, as_octets, as_primitive, as_seq, as_string, int_value_of, lemma_int_round_trip,
    lemma_string_round_trip, lemma_take_absent, lemma_take_field, next_field, octets_value_of, opt_field, opt_tree,
    push_field, read_int, read_octets, read_primitive, read_seq, read_string, seq_value_of,
    string_value_of, t_bits, t_int, t_octets, t_seq, t_string, take_field,
    TAG_BIT_STRING,
};
use crate::asn1::time::{as_time, read_time, t_time, time_content, time_value_of};
use crate::proto::types::copy_bytes;
use vstd::prelude::*;
use vstd::utf8::is_ascii_chars;

verus! {

/// A name as the wire carries it: the kind of name and its parts.
#[derive(Debug, Clone, PartialEq, Eq)]
pub struct PrincipalName {
    pub name_type: i32,
    pub name_string: Vec<String>,
}

/// A wire name as contracts speak of it.
pub ghost struct PrincipalNameView {
    pub name_type: i32,
    pub name_string: Seq<Seq<char>>,
}

impl DeepView for PrincipalName {
    type V = PrincipalNameView;

    open spec fn deep_view(&self) -> PrincipalNameView {
        PrincipalNameView {
            name_type: self.name_type,
            name_string: self.name_string.deep_view(),
        }
    }
}

/// One item of pre-authentication data: its kind and its payload.
#[derive(Debug, Clone, PartialEq, Eq)]
pub struct PaData {
    pub padata_type: u32,
    pub padata_value: Vec<u8>,
}

/// An item of pre-authentication data as contracts speak of it.
pub ghost struct PaDataView {
    pub padata_type: u32,
    pub padata_value: Seq<u8>,
}

impl DeepView for PaData {
    type V = PaDataView;

    open spec fn deep_view(&self) -> PaDataView {
        PaDataView { padata_type: self.padata_type, padata_value: self.padata_value@ }
    }
}

/// Encrypted data as the wire carries it.
#[derive(Debug, Clone, PartialEq, Eq)]
pub struct KdcEncryptedData {
    pub etype: i32,
    pub kvno: Option<u32>,
    pub cipher: Vec<u8>,
}

/// Wire encrypted data as contracts speak of it.
pub ghost struct KdcEncryptedDataView {
    pub etype: i32,
    pub kvno: Option<u32>,
    pub cipher: Seq<u8>,
}

impl DeepView for KdcEncryptedData {
    type V = KdcEncryptedDataView;

    open spec fn deep_view(&self) -> KdcEncryptedDataView {
        KdcEncryptedDataView { etype: self.etype, kvno: self.kvno, cipher: self.cipher@ }
    }
}

/// Reads every value of a list with `f`; one that `f` refuses spoils the
/// whole list.
pub open spec fn parse_all<T>(ts: Seq<DerTree>, f: spec_fn(DerTree) -> Option<T>) -> Option<
    Seq<T>,
> {
    if forall|i: int| 0 <= i < ts.len() ==> (#[trigger] f(ts[i])) is Some {
        Some(Seq::new(ts.len(), |i: int| f(ts[i])->0))
    } else {
        None
    }
}

/// A list written item by item with `g` is read back item by item with `f`
/// where `f` reads back what `g` writes.
pub proof fn lemma_parse_all<T>(
    xs: Seq<T>,
    g: spec_fn(T) -> DerTree,
    f: spec_fn(DerTree) -> Option<T>,
)
    requires
        forall|i: int| 0 <= i < xs.len() ==> f(g(#[trigger] xs[i])) == Some(xs[i]),
    ensures
        parse_all(Seq::new(xs.len(), |i: int| g(xs[i])), f) == Some(xs),
{
    let ts = Seq::new(xs.len(), |i: int| g(xs[i]));
    assert forall|i: int| 0 <= i < ts.len() implies (#[trigger] f(ts[i])) is Some by {
        assert(f(g(xs[i])) == Some(xs[i]));
    }
    assert(Seq::new(ts.len(), |i: int| f(ts[i])->0) =~= xs) by {
        assert forall|i: int| 0 <= i < xs.len() implies f(ts[i])->0 == xs[i] by {
            assert(f(g(xs[i])) == Some(xs[i]));
        }
    }
}

/// All strings are made of 7-bit characters.
pub open spec fn all_ascii(parts: Seq<Seq<char>>) -> bool {
    forall|i: int| 0 <= i < parts.len() ==> is_ascii_chars(#[trigger] parts[i])
}

/// The DER value of a list of 7-bit strings.
pub open spec fn strings_tree(parts: Seq<Seq<char>>) -> DerTree {
    t_seq(Seq::new(parts.len(), |i: int| t_string(parts[i])))
}

/// The list of 7-bit strings that a DER value stands for, where it stands for
/// one.
pub open spec fn parse_strings(t: DerTree) -> Option<Seq<Seq<char>>> {
    match as_seq(t) {
        Some(ts) => parse_all(ts, |x: DerTree| as_string(x)),
        None => None,
    }
}

/// A list of 7-bit strings reads back as itself.
pub proof fn lemma_strings_round_trip(parts: Seq<Seq<char>>)
    requires
        all_ascii(parts),
    ensures
        parse_strings(strings_tree(parts)) == Some(parts),
{
    assert forall|i: int| 0 <= i < parts.len() implies as_string(t_string(#[trigger] parts[i]))
        == Some(parts[i]) by {
        lemma_string_round_trip(parts[i]);
    }
    lemma_parse_all(parts, |p: Seq<char>| t_string(p), |x: DerTree| as_string(x));
    assert(Seq::new(parts.len(), |i: int| t_string(parts[i])) =~= Seq::new(
        parts.len(),
        |i: int| (|p: Seq<char>| t_string(p))(parts[i]),
    ));
}

/// The value of a name whose parts are 7-bit strings.
pub open spec fn principal_name_tree(n: PrincipalNameView) -> DerTree {
    t_seq(
        opt_field(0, Some(t_int(n.name_type as int))) + opt_field(
            1,
            Some(strings_tree(n.name_string)),
        ),
    )
}

/// The number fits 32 bits with a sign.
pub open spec fn fits_i32(v: int) -> bool {
    -0x8000_0000 <= v <= 0x7fff_ffff
}

/// The number fits 32 bits without a sign.
pub open spec fn fits_u32(v: int) -> bool {
    0 <= v <= 0xffff_ffff
}

/// An integer value that fits 32 bits with a sign.
pub open spec fn as_i32(t: Option<DerTree>) -> Option<i32> {
    match t {
        Some(x) => match as_int(x) {
            Some(v) => if fits_i32(v) {
                Some(v as i32)
            } else {
                None
            },
            None => None,
        },
        None => None,
    }
}

/// An integer value that fits 32 bits without a sign.
pub open spec fn as_u32(t: Option<DerTree>) -> Option<u32> {
    match t {
        Some(x) => match as_int(x) {
            Some(v) => if fits_u32(v) {
                Some(v as u32)
            } else {
                None
            },
            None => None,
        },
        None => None,
    }
}

/// The name that a DER value stands for, where it stands for one.
pub open spec fn parse_principal_name(t: DerTree) -> Option<PrincipalNameView> {
    match as_seq(t) {
        None => None,
        Some(fs) => {
            let (kind, r1) = take_field(fs, 0);
            let (parts, r2) = take_field(r1, 1);
            if r2.len() != 0 || parts is None {
                None
            } else {
                match (as_i32(kind), parse_strings(parts->0)) {
                    (Some(name_type), Some(name_string)) => Some(
                        PrincipalNameView { name_type, name_string },
                    ),
                    _ => None,
                }
            }
        },
    }
}

/// A name of 7-bit strings reads back as itself.
pub proof fn lemma_principal_name_round_trip(n: PrincipalNameView)
    requires
        all_ascii(n.name_string),
    ensures
        parse_principal_name(principal_name_tree(n)) == Some(n),
{
    let a = t_int(n.name_type as int);
    let b = strings_tree(n.name_string);
    let none = Seq::<DerTree>::empty();
    lemma_take_field(1, Some(b), none);
    assert(opt_field(1, Some(b)) + none =~= opt_field(1, Some(b)));
    lemma_take_field(0, Some(a), opt_field(1, Some(b)));
    lemma_int_round_trip(n.name_type as int);
    lemma_strings_round_trip(n.name_string);
}

/// The DER value of an item of pre-authentication data.
pub open spec fn pa_data_tree(p: PaDataView) -> DerTree {
    t_seq(
        opt_field(1, Some(t_int(p.padata_type as int))) + opt_field(
            2,
            Some(t_octets(p.padata_value)),
        ),
    )
}

/// The item of pre-authentication data that a DER value stands for, where it
/// stands for one.
pub open spec fn parse_pa_data(t: DerTree) -> Option<PaDataView> {
    match as_seq(t) {
        None => None,
        Some(fs) => {
            let (kind, r1) = take_field(fs, 1);
            let (value, r2) = take_field(r1, 2);
            if r2.len() != 0 || value is None {
                None
            } else {
                match (as_u32(kind), as_octets(value->0)) {
                    (Some(padata_type), Some(padata_value)) => Some(
                        PaDataView { padata_type, padata_value },
                    ),
                    _ => None,
                }
            }
        },
    }
}

/// An item of pre-authentication data reads back as itself.
pub proof fn lemma_pa_data_round_trip(p: PaDataView)
    ensures
        parse_pa_data(pa_data_tree(p)) == Some(p),
{
    let a = t_int(p.padata_type as int);
    let b = t_octets(p.padata_value);
    let none = Seq::<DerTree>::empty();
    lemma_take_field(2, Some(b), none);
    assert(opt_field(2, Some(b)) + none =~= opt_field(2, Some(b)));
    lemma_take_field(1, Some(a), opt_field(2, Some(b)));
    lemma_int_round_trip(p.padata_type as int);
}

/// The DER value of a list of pre-authentication data.
pub open spec fn pa_data_list_tree(ps: Seq<PaDataView>) -> DerTree {
    t_seq(Seq::new(ps.len(), |i: int| pa_data_tree(ps[i])))
}

/// The list of pre-authentication data that a DER value stands for, where it
/// stands for one.
pub open spec fn parse_pa_data_list(t: DerTree) -> Option<Seq<PaDataView>> {
    match as_seq(t) {
        Some(ts) => parse_all(ts, |x: DerTree| parse_pa_data(x)),
        None => None,
    }
}

/// A list of pre-authentication data reads back as itself.
pub proof fn lemma_pa_data_list_round_trip(ps: Seq<PaDataView>)
    ensures
        parse_pa_data_list(pa_data_list_tree(ps)) == Some(ps),
{
    assert forall|i: int| 0 <= i < ps.len() implies parse_pa_data(pa_data_tree(#[trigger] ps[i]))
        == Some(ps[i]) by {
        lemma_pa_data_round_trip(ps[i]);
    }
    lemma_parse_all(ps, |p: PaDataView| pa_data_tree(p), |x: DerTree| parse_pa_data(x));
    assert(Seq::new(ps.len(), |i: int| pa_data_tree(ps[i])) =~= Seq::new(
        ps.len(),
        |i: int| (|p: PaDataView| pa_data_tree(p))(ps[i]),
    ));
}

/// The value of an integer that may be absent.
pub open spec fn opt_int_tree(v: Option<u32>) -> Option<DerTree> {
    match v {
        Some(x) => Some(t_int(x as int)),
        None => None,
    }
}

/// The DER value of encrypted data.
pub open spec fn encrypted_data_tree(e: KdcEncryptedDataView) -> DerTree {
    t_seq(
        opt_field(0, Some(t_int(e.etype as int))) + (opt_field(1, opt_int_tree(e.kvno))
            + opt_field(2, Some(t_octets(e.cipher)))),
    )
}

/// The encrypted data that a DER value stands for, where it stands for some.
pub open spec fn parse_encrypted_data(t: DerTree) -> Option<KdcEncryptedDataView> {
    match as_seq(t) {
        None => None,
        Some(fs) => {
            let (etype, r1) = take_field(fs, 0);
            let (kvno, r2) = take_field(r1, 1);
            let (cipher, r3) = take_field(r2, 2);
            if r3.len() != 0 || cipher is None || (kvno is Some && as_u32(kvno) is None) {
                None
            } else {
                match (as_i32(etype), as_octets(cipher->0)) {
                    (Some(etype), Some(cipher)) => Some(
                        KdcEncryptedDataView { etype, kvno: as_u32(kvno), cipher },
                    ),
                    _ => None,
                }
            }
        },
    }
}

/// Encrypted data reads back as itself.
pub proof fn lemma_encrypted_data_round_trip(e: KdcEncryptedDataView)
    ensures
        parse_encrypted_data(encrypted_data_tree(e)) == Some(e),
{
    let a = t_int(e.etype as int);
    let c = t_octets(e.cipher);
    let none = Seq::<DerTree>::empty();
    lemma_take_field(2, Some(c), none);
    assert(opt_field(2, Some(c)) + none =~= opt_field(2, Some(c)));
    let r2 = opt_field(2, Some(c));
    lemma_take_field(1, opt_int_tree(e.kvno), r2);
    let r1 = opt_field(1, opt_int_tree(e.kvno)) + r2;
    lemma_take_field(0, Some(a), r1);
    lemma_int_round_trip(e.etype as int);
    if e.kvno is Some {
        lemma_int_round_trip(e.kvno->0 as int);
    }
}

/// The body of a request: who asks, for which service, for how long, and
/// with which encryption types.
#[derive(Debug, Clone, PartialEq, Eq)]
pub struct KdcReqBody {
    pub kdc_options: Vec<u8>,
    pub cname: Option<PrincipalName>,
    pub realm: String,
    pub sname: Option<PrincipalName>,
    pub from: Option<u64>,
    pub till: u64,
    pub rtime: Option<u64>,
    pub nonce: u32,
    pub etype: Vec<i32>,
}

/// A request body as contracts speak of it.
pub ghost struct KdcReqBodyView {
    pub kdc_options: Seq<u8>,
    pub cname: Option<PrincipalNameView>,
    pub realm: Seq<char>,
    pub sname: Option<PrincipalNameView>,
    pub from: Option<u64>,
    pub till: u64,
    pub rtime: Option<u64>,
    pub nonce: u32,
    pub etype: Seq<i32>,
}

impl DeepView for KdcReqBody {
    type V = KdcReqBodyView;

    open spec fn deep_view(&self) -> KdcReqBodyView {
        KdcReqBodyView {
            kdc_options: self.kdc_options@,
            cname: self.cname.deep_view(),
            realm: self.realm@,
            sname: self.sname.deep_view(),
            from: self.from,
            till: self.till,
            rtime: self.rtime,
            nonce: self.nonce,
            etype: self.etype@,
        }
    }
}

/// A request as the wire carries it.
#[derive(Debug, Clone, PartialEq, Eq)]
pub struct KdcReq {
    pub pvno: u8,
    pub msg_type: u8,
    pub padata: Option<Vec<PaData>>,
    pub req_body: KdcReqBody,
}

/// A wire request as contracts speak of it.
pub ghost struct KdcReqView {
    pub pvno: u8,
    pub msg_type: u8,
    pub padata: Option<Seq<PaDataView>>,
    pub req_body: KdcReqBodyView,
}

impl DeepView for KdcReq {
    type V = KdcReqView;

    open spec fn deep_view(&self) -> KdcReqView {
        KdcReqView {
            pvno: self.pvno,
            msg_type: self.msg_type,
            padata: self.padata.deep_view(),
            req_body: self.req_body.deep_view(),
        }
    }
}

/// A request under the tag that says which exchange it belongs to.
#[derive(Debug, Clone, PartialEq, Eq)]
pub enum KrbKdcReq {
    AsReq(KdcReq),
    TgsReq(KdcReq),
}

/// A tagged wire request as contracts speak of it.
pub ghost enum KrbKdcReqView {
    AsReq(KdcReqView),
    TgsReq(KdcReqView),
}

impl DeepView for KrbKdcReq {
    type V = KrbKdcReqView;

    open spec fn deep_view(&self) -> KrbKdcReqView {
        match self {
            KrbKdcReq::AsReq(r) => KrbKdcReqView::AsReq(r.deep_view()),
            KrbKdcReq::TgsReq(r) => KrbKdcReqView::TgsReq(r.deep_view()),
        }
    }
}

/// The application tag of an authentication request.
pub const TAG_AS_REQ: u8 = 0x6a;

/// The application tag of a ticket-granting request.
pub const TAG_TGS_REQ: u8 = 0x6c;

/// Reads an optional value with `f`: nothing there is fine, something that
/// `f` refuses is not.
pub open spec fn parse_opt<T>(t: Option<DerTree>, f: spec_fn(DerTree) -> Option<T>) -> Option<
    Option<T>,
> {
    match t {
        None => Some(None),
        Some(x) => match f(x) {
            Some(v) => Some(Some(v)),
            None => None,
        },
    }
}

/// The name, where there is one, is made of 7-bit strings.
pub open spec fn opt_name_ascii(n: Option<PrincipalNameView>) -> bool {
    n is Some ==> all_ascii(n->0.name_string)
}

/// The time, where there is one, can be written.
pub open spec fn opt_time_writable(t: Option<u64>) -> bool {
    t is Some ==> time_content(t->0) is Some
}

/// Every string of the body is made of 7-bit characters and every time
/// can be written.
pub open spec fn body_writable(b: KdcReqBodyView) -> bool {
    &&& is_ascii_chars(b.realm)
    &&& opt_name_ascii(b.cname)
    &&& opt_name_ascii(b.sname)
    &&& opt_time_writable(b.from)
    &&& time_content(b.till) is Some
    &&& opt_time_writable(b.rtime)
}

/// The value of a name that may be absent.
pub open spec fn opt_name_tree(n: Option<PrincipalNameView>) -> Option<DerTree> {
    match n {
        Some(x) => Some(principal_name_tree(x)),
        None => None,
    }
}

/// The value of a time that can be written.
pub open spec fn time_tree(t: u64) -> DerTree {
    t_time(time_content(t)->0)
}

/// The value of a time that may be absent.
pub open spec fn opt_time_tree(t: Option<u64>) -> Option<DerTree> {
    match t {
        Some(x) => Some(time_tree(x)),
        None => None,
    }
}

/// The DER value of a list of encryption type numbers.
pub open spec fn etypes_tree(es: Seq<i32>) -> DerTree {
    t_seq(Seq::new(es.len(), |i: int| t_int(es[i] as int)))
}

/// The list of encryption type numbers that a DER value stands for, where it
/// stands for one.
pub open spec fn parse_etypes(t: DerTree) -> Option<Seq<i32>> {
    match as_seq(t) {
        Some(ts) => parse_all(ts, |x: DerTree| as_i32(Some(x))),
        None => None,
    }
}

/// The flag octets of a bit string of whole octets.
pub open spec fn as_bits(t: DerTree) -> Option<Seq<u8>> {
    match as_primitive(t, TAG_BIT_STRING) {
        Some(c) => if c.len() >= 1 && c[0] == 0 {
            Some(c.skip(1))
        } else {
            None
        },
        None => None,
    }
}

/// The value of field number `k` of a request body, where it has one.
pub open spec fn body_field_value(b: KdcReqBodyView, k: nat) -> Option<DerTree> {
    if k == 0 {
        Some(t_bits(b.kdc_options))
    } else if k == 1 {
        opt_name_tree(b.cname)
    } else if k == 2 {
        Some(t_string(b.realm))
    } else if k == 3 {
        opt_name_tree(b.sname)
    } else if k == 4 {
        opt_time_tree(b.from)
    } else if k == 5 {
        Some(time_tree(b.till))
    } else if k == 6 {
        opt_time_tree(b.rtime)
    } else if k == 7 {
        Some(t_int(b.nonce as int))
    } else {
        Some(etypes_tree(b.etype))
    }
}

/// The fields of a request body from field `from` on.
pub open spec fn body_fields(b: KdcReqBodyView, from: nat) -> Seq<DerTree>
    decreases 9 - from,
{
    if from >= 9 {
        Seq::empty()
    } else {
        opt_field(from as u8, body_field_value(b, from)) + body_fields(b, from + 1)
    }
}

/// Putting field `k` behind the fields before it leaves the fields after
/// it to be put.
proof fn lemma_body_step(acc: Seq<DerTree>, b: KdcReqBodyView, k: nat, next: Seq<DerTree>)
    requires
        k < 9,
        acc + body_fields(b, k) == body_fields(b, 0),
        next == acc + opt_field(k as u8, body_field_value(b, k)),
    ensures
        next + body_fields(b, k + 1) == body_fields(b, 0),
{
    assert(next + body_fields(b, k + 1) =~= acc + body_fields(b, k));
}

/// The DER value of a request body.
pub open spec fn req_body_tree(b: KdcReqBodyView) -> DerTree {
    t_seq(body_fields(b, 0))
}

/// The request body that a DER value stands for, where it stands for one.
/// Addresses, authorization data and additional tickets may follow the
/// encryption types and are passed over.
pub open spec fn parse_req_body(t: DerTree) -> Option<KdcReqBodyView> {
    match as_seq(t) {
        None => None,
        Some(fs) => {
            let (options, r0) = take_field(fs, 0);
            let (cname, r1) = take_field(r0, 1);
            let (realm, r2) = take_field(r1, 2);
            let (sname, r3) = take_field(r2, 3);
            let (from, r4) = take_field(r3, 4);
            let (till, r5) = take_field(r4, 5);
            let (rtime, r6) = take_field(r5, 6);
            let (nonce, r7) = take_field(r6, 7);
            let (etype, r8) = take_field(r7, 8);
            let (addresses, r9) = take_field(r8, 9);
            let (authorization, r10) = take_field(r9, 10);
            let (tickets, r11) = take_field(r10, 11);
            if r11.len() != 0 || options is None || realm is None || till is None || etype
                is None {
                None
            } else {
                match (
                    as_bits(options->0),
                    parse_opt(cname, |x: DerTree| parse_principal_name(x)),
                    as_string(realm->0),
                    parse_opt(sname, |x: DerTree| parse_principal_name(x)),
                    parse_opt(from, |x: DerTree| as_time(x)),
                    as_time(till->0),
                    parse_opt(rtime, |x: DerTree| as_time(x)),
                    as_u32(nonce),
                    parse_etypes(etype->0),
                ) {
                    (
                        Some(kdc_options),
                        Some(cname),
                        Some(realm),
                        Some(sname),
                        Some(from),
                        Some(till),
                        Some(rtime),
                        Some(nonce),
                        Some(etype),
                    ) => Some(
                        KdcReqBodyView {
                            kdc_options,
                            cname,
                            realm,
                            sname,
                            from,
                            till,
                            rtime,
                            nonce,
                            etype,
                        },
                    ),
                    _ => None,
                }
            }
        },
    }
}

proof fn lemma_etypes_round_trip(es: Seq<i32>)
    ensures
        parse_etypes(etypes_tree(es)) == Some(es),
{
    assert forall|i: int| 0 <= i < es.len() implies as_i32(Some(t_int(#[trigger] es[i] as int)))
        == Some(es[i]) by {
        lemma_int_round_trip(es[i] as int);
    }
    lemma_parse_all(es, |e: i32| t_int(e as int), |x: DerTree| as_i32(Some(x)));
    assert(Seq::new(es.len(), |i: int| t_int(es[i] as int)) =~= Seq::new(
        es.len(),
        |i: int| (|e: i32| t_int(e as int))(es[i]),
    ));
}

proof fn lemma_opt_time(t: Option<u64>)
    requires
        opt_time_writable(t),
    ensures
        parse_opt(opt_time_tree(t), |x: DerTree| as_time(x)) == Some(t),
{
    if t is Some {
        crate::asn1::time::lemma_time_round_trip(t->0);
    }
}

proof fn lemma_opt_name(n: Option<PrincipalNameView>)
    requires
        opt_name_ascii(n),
    ensures
        parse_opt(opt_name_tree(n), |x: DerTree| parse_principal_name(x)) == Some(n),
{
    if n is Some {
        lemma_principal_name_round_trip(n->0);
    }
}

/// A request body that can be written reads back as itself.
pub proof fn lemma_req_body_round_trip(b: KdcReqBodyView)
    requires
        body_writable(b),
    ensures
        parse_req_body(req_body_tree(b)) == Some(b),
{
    reveal_with_fuel(body_fields, 10);
    let none = Seq::<DerTree>::empty();
    let s9 = body_fields(b, 9);
    assert(s9 =~= none);
    lemma_take_absent(11, none);
    lemma_take_absent(10, none);
    lemma_take_absent(9, none);
    let s8 = body_fields(b, 8);
    lemma_take_field(8, Some(etypes_tree(b.etype)), s9);
    let s7 = body_fields(b, 7);
    lemma_take_field(7, Some(t_int(b.nonce as int)), s8);
    let s6 = body_fields(b, 6);
    lemma_take_field(6, opt_time_tree(b.rtime), s7);
    let s5 = body_fields(b, 5);
    lemma_take_field(5, Some(time_tree(b.till)), s6);
    let s4 = body_fields(b, 4);
    lemma_take_field(4, opt_time_tree(b.from), s5);
    let s3 = body_fields(b, 3);
    lemma_take_field(3, opt_name_tree(b.sname), s4);
    let s2 = body_fields(b, 2);
    lemma_take_field(2, Some(t_string(b.realm)), s3);
    let s1 = body_fields(b, 1);
    lemma_take_field(1, opt_name_tree(b.cname), s2);
    let s0 = body_fields(b, 0);
    lemma_take_field(0, Some(t_bits(b.kdc_options)), s1);
    lemma_etypes_round_trip(b.etype);
    lemma_int_round_trip(b.nonce as int);
    lemma_opt_time(b.rtime);
    lemma_opt_time(b.from);
    crate::asn1::time::lemma_time_round_trip(b.till);
    lemma_opt_name(b.sname);
    lemma_opt_name(b.cname);
    lemma_string_round_trip(b.realm);
    assert((seq![0u8] + b.kdc_options).skip(1) =~= b.kdc_options);
}

/// The value of a list of pre-authentication data that may be absent.
pub open spec fn opt_pa_data_tree(p: Option<Seq<PaDataView>>) -> Option<DerTree> {
    match p {
        Some(ps) => Some(pa_data_list_tree(ps)),
        None => None,
    }
}

/// The DER value of a request.
pub open spec fn kdc_req_tree(r: KdcReqView) -> DerTree {
    t_seq(
        opt_field(1, Some(t_int(r.pvno as int))) + (opt_field(2, Some(t_int(r.msg_type as int)))
            + (opt_field(3, opt_pa_data_tree(r.padata)) + opt_field(
            4,
            Some(req_body_tree(r.req_body)),
        ))),
    )
}

/// An integer value that fits one octet without a sign.
pub open spec fn as_u8(t: Option<DerTree>) -> Option<u8> {
    match t {
        Some(x) => match as_int(x) {
            Some(v) => if 0 <= v <= 255 {
                Some(v as u8)
            } else {
                None
            },
            None => None,
        },
        None => None,
    }
}

/// The request that a DER value stands for, where it stands for one.
pub open spec fn parse_kdc_req(t: DerTree) -> Option<KdcReqView> {
    match as_seq(t) {
        None => None,
        Some(fs) => {
            let (pvno, r1) = take_field(fs, 1);
            let (msg_type, r2) = take_field(r1, 2);
            let (padata, r3) = take_field(r2, 3);
            let (body, r4) = take_field(r3, 4);
            if r4.len() != 0 || body is None {
                None
            } else {
                match (
                    as_u8(pvno),
                    as_u8(msg_type),
                    parse_opt(padata, |x: DerTree| parse_pa_data_list(x)),
                    parse_req_body(body->0),
                ) {
                    (Some(pvno), Some(msg_type), Some(padata), Some(req_body)) => Some(
                        KdcReqView { pvno, msg_type, padata, req_body },
                    ),
                    _ => None,
                }
            }
        },
    }
}

/// A request that can be written reads back as itself.
pub proof fn lemma_kdc_req_round_trip(r: KdcReqView)
    requires
        body_writable(r.req_body),
    ensures
        parse_kdc_req(kdc_req_tree(r)) == Some(r),
{
    let none = Seq::<DerTree>::empty();
    let body = req_body_tree(r.req_body);
    lemma_take_field(4, Some(body), none);
    assert(opt_field(4, Some(body)) + none =~= opt_field(4, Some(body)));
    let s4 = opt_field(4, Some(body));
    lemma_take_field(3, opt_pa_data_tree(r.padata), s4);
    let s3 = opt_field(3, opt_pa_data_tree(r.padata)) + s4;
    lemma_take_field(2, Some(t_int(r.msg_type as int)), s3);
    let s2 = opt_field(2, Some(t_int(r.msg_type as int))) + s3;
    lemma_take_field(1, Some(t_int(r.pvno as int)), s2);
    lemma_int_round_trip(r.pvno as int);
    lemma_int_round_trip(r.msg_type as int);
    lemma_req_body_round_trip(r.req_body);
    if r.padata is Some {
        lemma_pa_data_list_round_trip(r.padata->0);
    }
}

/// The DER value of a request under the tag of its exchange.
pub open spec fn krb_kdc_req_tree(r: KrbKdcReqView) -> DerTree {
    match r {
        KrbKdcReqView::AsReq(x) => crate::asn1::leaf::t_wrap(TAG_AS_REQ, kdc_req_tree(x)),
        KrbKdcReqView::TgsReq(x) => crate::asn1::leaf::t_wrap(TAG_TGS_REQ, kdc_req_tree(x)),
    }
}

/// The tagged request that a DER value stands for, where it stands for one.
pub open spec fn parse_krb_kdc_req(t: DerTree) -> Option<KrbKdcReqView> {
    match crate::asn1::leaf::as_wrapped(t, TAG_AS_REQ) {
        Some(inner) => match parse_kdc_req(inner) {
            Some(r) => Some(KrbKdcReqView::AsReq(r)),
            None => None,
        },
        None => match crate::asn1::leaf::as_wrapped(t, TAG_TGS_REQ) {
            Some(inner) => match parse_kdc_req(inner) {
                Some(r) => Some(KrbKdcReqView::TgsReq(r)),
                None => None,
            },
            None => None,
        },
    }
}

/// The request that a view of either exchange holds.
pub open spec fn inner_req(r: KrbKdcReqView) -> KdcReqView {
    match r {
        KrbKdcReqView::AsReq(x) => x,
        KrbKdcReqView::TgsReq(x) => x,
    }
}

/// A tagged request that can be written reads back as itself.
pub proof fn lemma_krb_kdc_req_round_trip(r: KrbKdcReqView)
    requires
        body_writable(inner_req(r).req_body),
    ensures
        parse_krb_kdc_req(krb_kdc_req_tree(r)) == Some(r),
{
    lemma_kdc_req_round_trip(inner_req(r));
}

pub(crate) fn read_i32(v: Option<&DerValue>) -> (r: Option<i32>)
    ensures
        r == as_i32(opt_tree(v)),
{
    match v {
        None => None,
        Some(x) => match read_int(x) {
            None => None,
            Some(n) => if -0x8000_0000 <= n && n <= 0x7fff_ffff {
                Some(n as i32)
            } else {
                None
            },
        },
    }
}

pub(crate) fn read_u32(v: Option<&DerValue>) -> (r: Option<u32>)
    ensures
        r == as_u32(opt_tree(v)),
{
    match v {
        None => None,
        Some(x) => match read_int(x) {
            None => None,
            Some(n) => if 0 <= n && n <= 0xffff_ffff {
                Some(n as u32)
            } else {
                None
            },
        },
    }
}

pub(crate) fn read_u8(v: Option<&DerValue>) -> (r: Option<u8>)
    ensures
        r == as_u8(opt_tree(v)),
{
    match v {
        None => None,
        Some(x) => match read_int(x) {
            None => None,
            Some(n) => if 0 <= n && n <= 255 {
                Some(n as u8)
            } else {
                None
            },
        },
    }
}

fn strings_value_of(parts: &Vec<String>) -> (r: Option<DerValue>)
    ensures
        match r {
            Some(v) => all_ascii(parts.deep_view()) && v@ == strings_tree(parts.deep_view()),
            None => !all_ascii(parts.deep_view()),
        },
{
    let ghost views = parts.deep_view();
    let mut children: Vec<DerValue> = no_children();
    let mut i: usize = 0;
    while i < parts.len()
        invariant
            i <= parts.len(),
            views == parts.deep_view(),
            forall|k: int| 0 <= k < i ==> is_ascii_chars(#[trigger] views[k]),
            forest(children) == Seq::new(i as nat, |k: int| t_string(views[k])),
        decreases parts.len() - i,
    {
        match string_value_of(parts[i].as_str()) {
            None => {
                assert(!is_ascii_chars(views[i as int]));
                return None;
            },
            Some(v) => {
                push_child(&mut children, v);
                assert(forest(children) =~= Seq::new((i + 1) as nat, |k: int| t_string(views[k])));
            },
        }
        i += 1;
    }
    Some(seq_value_of(children))
}

fn read_strings(v: &DerValue) -> (r: Option<Vec<String>>)
    ensures
        r.deep_view() == parse_strings(v@),
{
    match read_seq(v) {
        None => None,
        Some(items) => {
            let ghost ts = forest(*items);
            proof {
                lemma_forest_of(*items, items.len() as nat);
            }
            let mut out: Vec<String> = Vec::new();
            let mut i: usize = 0;
            while i < items.len()
                invariant
                    i <= items.len(),
                    as_seq(v@) == Some(ts),
                    ts == forest(*items),
                    ts.len() == items.len(),
                    forall|k: int| 0 <= k < ts.len() ==> (#[trigger] ts[k]) == items[k]@,
                    out.len() == i,
                    forall|k: int| 0 <= k < i ==> as_string(ts[k]) == Some((#[trigger] out[k])@),
                decreases items.len() - i,
            {
                match read_string(&items[i]) {
                    None => {
                        assert((|x: DerTree| as_string(x))(ts[i as int]) is None);
                        return None;
                    },
                    Some(s) => {
                        out.push(s);
                    },
                }
                i += 1;
            }
            proof {
                let f = |x: DerTree| as_string(x);
                assert forall|k: int| 0 <= k < ts.len() implies (#[trigger] f(ts[k])) is Some by {
                    assert(as_string(ts[k]) == Some(out[k]@));
                }
                assert(Seq::new(ts.len(), |k: int| f(ts[k])->0) =~= out.deep_view());
            }
            Some(out)
        },
    }
}

impl PrincipalName {
    /// The DER value of the name, or `None` where a part of it holds a
    /// character that is no 7-bit character.
    pub fn to_der_value(&self) -> (r: Option<DerValue>)
        ensures
            match r {
                Some(v) => all_ascii(self.deep_view().name_string) && v@ == principal_name_tree(
                    self.deep_view(),
                ),
                None => !all_ascii(self.deep_view().name_string),
            },
    {
        match strings_value_of(&self.name_string) {
            None => None,
            Some(parts) => {
                let mut fields: Vec<DerValue> = no_children();
                push_field(&mut fields, 0, int_value_of(self.name_type as i64));
                push_field(&mut fields, 1, parts);
                assert(forest(fields) =~= opt_field(0, Some(t_int(self.name_type as int)))
                    + opt_field(1, Some(strings_tree(self.deep_view().name_string))));
                Some(seq_value_of(fields))
            },
        }
    }

    /// Reads a DER value as a name.
    pub fn from_der_value(v: &DerValue) -> (r: Option<PrincipalName>)
        ensures
            r.deep_view() == parse_principal_name(v@),
    {
        match read_seq(v) {
            None => None,
            Some(fields) => {
                assert(forest(*fields).skip(0) =~= forest(*fields));
                let (kind, at1) = next_field(fields, 0, 0);
                let (parts, at2) = next_field(fields, at1, 1);
                if at2 != fields.len() {
                    proof {
                        lemma_forest_of(*fields, fields.len() as nat);
                    }
                    return None;
                }
                proof {
                    lemma_forest_of(*fields, fields.len() as nat);
                }
                match parts {
                    None => None,
                    Some(list) => match (read_i32(kind), read_strings(list)) {
                        (Some(name_type), Some(name_string)) => Some(
                            PrincipalName { name_type, name_string },
                        ),
                        _ => None,
                    },
                }
            },
        }
    }
}

impl PaData {
    /// The DER value of the item.
    pub fn to_der_value(&self) -> (r: DerValue)
        ensures
            r@ == pa_data_tree(self.deep_view()),
    {
        let mut fields: Vec<DerValue> = no_children();
        push_field(&mut fields, 1, int_value_of(self.padata_type as i64));
        push_field(&mut fields, 2, octets_value_of(copy_bytes(self.padata_value.as_slice())));
        assert(forest(fields) =~= opt_field(1, Some(t_int(self.padata_type as int))) + opt_field(
            2,
            Some(t_octets(self.padata_value@)),
        ));
        seq_value_of(fields)
    }

    /// Reads a DER value as an item of pre-authentication data.
    pub fn from_der_value(v: &DerValue) -> (r: Option<PaData>)
        ensures
            r.deep_view() == parse_pa_data(v@),
    {
        match read_seq(v) {
            None => None,
            Some(fields) => {
                assert(forest(*fields).skip(0) =~= forest(*fields));
                let (kind, at1) = next_field(fields, 0, 1);
                let (value, at2) = next_field(fields, at1, 2);
                proof {
                    lemma_forest_of(*fields, fields.len() as nat);
                }
                if at2 != fields.len() {
                    return None;
                }
                match value {
                    None => None,
                    Some(octets) => match (read_u32(kind), read_octets(octets)) {
                        (Some(padata_type), Some(bytes)) => Some(
                            PaData { padata_type, padata_value: copy_bytes(bytes.as_slice()) },
                        ),
                        _ => None,
                    },
                }
            },
        }
    }
}

/// The DER value of a list of pre-authentication data.
pub fn pa_data_list_value_of(items: &Vec<PaData>) -> (r: DerValue)
    ensures
        r@ == pa_data_list_tree(items.deep_view()),
{
    let ghost views = items.deep_view();
    let mut children: Vec<DerValue> = no_children();
    let mut i: usize = 0;
    while i < items.len()
        invariant
            i <= items.len(),
            views == items.deep_view(),
            forest(children) == Seq::new(i as nat, |k: int| pa_data_tree(views[k])),
        decreases items.len() - i,
    {
        push_child(&mut children, items[i].to_der_value());
        assert(forest(children) =~= Seq::new((i + 1) as nat, |k: int| pa_data_tree(views[k])));
        i += 1;
    }
    seq_value_of(children)
}

/// Reads a DER value as a list of pre-authentication data.
pub fn read_pa_data_list(v: &DerValue) -> (r: Option<Vec<PaData>>)
    ensures
        r.deep_view() == parse_pa_data_list(v@),
{
    match read_seq(v) {
        None => None,
        Some(items) => {
            let ghost ts = forest(*items);
            proof {
                lemma_forest_of(*items, items.len() as nat);
            }
            let mut out: Vec<PaData> = Vec::new();
            let mut i: usize = 0;
            while i < items.len()
                invariant
                    i <= items.len(),
                    as_seq(v@) == Some(ts),
                    ts == forest(*items),
                    ts.len() == items.len(),
                    forall|k: int| 0 <= k < ts.len() ==> (#[trigger] ts[k]) == items[k]@,
                    out.len() == i,
                    forall|k: int|
                        0 <= k < i ==> parse_pa_data(ts[k]) == Some(
                            (#[trigger] out[k]).deep_view(),
                        ),
                decreases items.len() - i,
            {
                match PaData::from_der_value(&items[i]) {
                    None => {
                        assert((|x: DerTree| parse_pa_data(x))(ts[i as int]) is None);
                        return None;
                    },
                    Some(p) => {
                        out.push(p);
                    },
                }
                i += 1;
            }
            proof {
                let f = |x: DerTree| parse_pa_data(x);
                assert forall|k: int| 0 <= k < ts.len() implies (#[trigger] f(ts[k])) is Some by {
                    assert(parse_pa_data(ts[k]) == Some(out[k].deep_view()));
                }
                assert(Seq::new(ts.len(), |k: int| f(ts[k])->0) =~= out.deep_view());
            }
            Some(out)
        },
    }
}

impl KdcEncryptedData {
    /// The DER value of the encrypted data.
    pub fn to_der_value(&self) -> (r: DerValue)
        ensures
            r@ == encrypted_data_tree(self.deep_view()),
    {
        let ghost e = self.deep_view();
        let mut fields: Vec<DerValue> = no_children();
        push_field(&mut fields, 0, int_value_of(self.etype as i64));
        match self.kvno {
            Some(k) => {
                push_field(&mut fields, 1, int_value_of(k as i64));
            },
            None => {},
        }
        push_field(&mut fields, 2, octets_value_of(copy_bytes(self.cipher.as_slice())));
        assert(forest(fields) =~= opt_field(0, Some(t_int(e.etype as int))) + (opt_field(
            1,
            opt_int_tree(e.kvno),
        ) + opt_field(2, Some(t_octets(e.cipher)))));
        seq_value_of(fields)
    }

    /// Reads a DER value as encrypted data.
    pub fn from_der_value(v: &DerValue) -> (r: Option<KdcEncryptedData>)
        ensures
            r.deep_view() == parse_encrypted_data(v@),
    {
        match read_seq(v) {
            None => None,
            Some(fields) => {
                assert(forest(*fields).skip(0) =~= forest(*fields));
                let (etype, at1) = next_field(fields, 0, 0);
                let (kvno, at2) = next_field(fields, at1, 1);
                let (cipher, at3) = next_field(fields, at2, 2);
                proof {
                    lemma_forest_of(*fields, fields.len() as nat);
                }
                if at3 != fields.len() {
                    return None;
                }
                let kvno_value: Option<u32> = read_u32(kvno);
                if kvno.is_some() && kvno_value.is_none() {
                    return None;
                }
                match cipher {
                    None => None,
                    Some(octets) => match (read_i32(etype), read_octets(octets)) {
                        (Some(etype), Some(bytes)) => Some(
                            KdcEncryptedData {
                                etype,
                                kvno: kvno_value,
                                cipher: copy_bytes(bytes.as_slice()),
                            },
                        ),
                        _ => None,
                    },
                }
            },
        }
    }
}

fn etypes_value_of(etypes: &Vec<i32>) -> (r: DerValue)
    ensures
        r@ == etypes_tree(etypes@),
{
    let mut children: Vec<DerValue> = no_children();
    let mut i: usize = 0;
    while i < etypes.len()
        invariant
            i <= etypes.len(),
            forest(children) == Seq::new(i as nat, |k: int| t_int(etypes@[k] as int)),
        decreases etypes.len() - i,
    {
        push_child(&mut children, int_value_of(etypes[i] as i64));
        assert(forest(children) =~= Seq::new((i + 1) as nat, |k: int| t_int(etypes@[k] as int)));
        i += 1;
    }
    seq_value_of(children)
}

fn read_etypes(v: &DerValue) -> (r: Option<Vec<i32>>)
    ensures
        match r {
            Some(es) => parse_etypes(v@) == Some(es@),
            None => parse_etypes(v@) is None,
        },
{
    match read_seq(v) {
        None => None,
        Some(items) => {
            let ghost ts = forest(*items);
            proof {
                lemma_forest_of(*items, items.len() as nat);
            }
            let mut out: Vec<i32> = Vec::new();
            let mut i: usize = 0;
            while i < items.len()
                invariant
                    i <= items.len(),
                    as_seq(v@) == Some(ts),
                    ts == forest(*items),
                    ts.len() == items.len(),
                    forall|k: int| 0 <= k < ts.len() ==> (#[trigger] ts[k]) == items[k]@,
                    out.len() == i,
                    forall|k: int| 0 <= k < i ==> as_i32(Some(ts[k])) == Some(#[trigger] out[k]),
                decreases items.len() - i,
            {
                match read_i32(Some(&items[i])) {
                    None => {
                        assert((|x: DerTree| as_i32(Some(x)))(ts[i as int]) is None);
                        return None;
                    },
                    Some(e) => {
                        out.push(e);
                    },
                }
                i += 1;
            }
            proof {
                let f = |x: DerTree| as_i32(Some(x));
                assert forall|k: int| 0 <= k < ts.len() implies (#[trigger] f(ts[k])) is Some by {
                    assert(as_i32(Some(ts[k])) == Some(out[k]));
                }
                assert(Seq::new(ts.len(), |k: int| f(ts[k])->0) =~= out@);
            }
            Some(out)
        },
    }
}

fn bits_value_of(flags: &Vec<u8>) -> (r: DerValue)
    ensures
        r@ == t_bits(flags@),
{
    let mut content: Vec<u8> = Vec::new();
    content.push(0u8);
    content.extend_from_slice(flags.as_slice());
    assert(content@ =~= seq![0u8] + flags@);
    DerValue::primitive(TAG_BIT_STRING, content)
}

fn read_bits(v: &DerValue) -> (r: Option<Vec<u8>>)
    ensures
        match r {
            Some(flags) => as_bits(v@) == Some(flags@),
            None => as_bits(v@) is None,
        },
{
    match read_primitive(v, TAG_BIT_STRING) {
        None => None,
        Some(c) => {
            if c.len() >= 1 && c[0] == 0 {
                let rest = vstd::slice::slice_subrange(c.as_slice(), 1, c.len());
                assert(rest@ =~= c@.skip(1));
                Some(copy_bytes(rest))
            } else {
                None
            }
        },
    }
}

fn read_opt_name(v: Option<&DerValue>) -> (r: Option<Option<PrincipalName>>)
    ensures
        r.deep_view() == parse_opt(opt_tree(v), |x: DerTree| parse_principal_name(x)),
{
    match v {
        None => Some(None),
        Some(x) => match PrincipalName::from_der_value(x) {
            Some(n) => Some(Some(n)),
            None => None,
        },
    }
}

fn read_opt_time(v: Option<&DerValue>) -> (r: Option<Option<u64>>)
    ensures
        r == parse_opt(opt_tree(v), |x: DerTree| as_time(x)),
{
    match v {
        None => Some(None),
        Some(x) => match read_time(x) {
            Some(t) => Some(Some(t)),
            None => None,
        },
    }
}

impl KdcReqBody {
    /// The DER value of the body, or `None` where a string of it holds a
    /// character that is no 7-bit character or a time cannot be written.
    pub fn to_der_value(&self) -> (r: Option<DerValue>)
        ensures
            match r {
                Some(v) => body_writable(self.deep_view()) && v@ == req_body_tree(
                    self.deep_view(),
                ),
                None => !body_writable(self.deep_view()),
            },
    {
        let ghost b = self.deep_view();
        let mut fields: Vec<DerValue> = no_children();
        let ghost f0 = forest(fields);
        assert(f0 + body_fields(b, 0) =~= body_fields(b, 0));
        push_field(&mut fields, 0, bits_value_of(&self.kdc_options));
        let ghost f1 = forest(fields);
        proof {
            lemma_body_step(f0, b, 0, f1);
        }
        match &self.cname {
            Some(n) => match n.to_der_value() {
                None => {
                    return None;
                },
                Some(v) => {
                    push_field(&mut fields, 1, v);
                },
            },
            None => {
                assert(f1 + opt_field(1, None) =~= f1);
            },
        }
        let ghost f2 = forest(fields);
        proof {
            lemma_body_step(f1, b, 1, f2);
        }
        match string_value_of(self.realm.as_str()) {
            None => {
                return None;
            },
            Some(v) => {
                push_field(&mut fields, 2, v);
            },
        }
        let ghost f3 = forest(fields);
        proof {
            lemma_body_step(f2, b, 2, f3);
        }
        match &self.sname {
            Some(n) => match n.to_der_value() {
                None => {
                    return None;
                },
                Some(v) => {
                    push_field(&mut fields, 3, v);
                },
            },
            None => {
                assert(f3 + opt_field(3, None) =~= f3);
            },
        }
        let ghost f4 = forest(fields);
        proof {
            lemma_body_step(f3, b, 3, f4);
        }
        match self.from {
            Some(t) => match time_value_of(t) {
                None => {
                    return None;
                },
                Some(v) => {
                    push_field(&mut fields, 4, v);
                },
            },
            None => {
                assert(f4 + opt_field(4, None) =~= f4);
            },
        }
        let ghost f5 = forest(fields);
        proof {
            lemma_body_step(f4, b, 4, f5);
        }
        match time_value_of(self.till) {
            None => {
                return None;
            },
            Some(v) => {
                push_field(&mut fields, 5, v);
            },
        }
        let ghost f6 = forest(fields);
        proof {
            lemma_body_step(f5, b, 5, f6);
        }
        match self.rtime {
            Some(t) => match time_value_of(t) {
                None => {
                    return None;
                },
                Some(v) => {
                    push_field(&mut fields, 6, v);
                },
            },
            None => {
                assert(f6 + opt_field(6, None) =~= f6);
            },
        }
        let ghost f7 = forest(fields);
        proof {
            lemma_body_step(f6, b, 6, f7);
        }
        push_field(&mut fields, 7, int_value_of(self.nonce as i64));
        let ghost f8 = forest(fields);
        proof {
            lemma_body_step(f7, b, 7, f8);
        }
        push_field(&mut fields, 8, etypes_value_of(&self.etype));
        let ghost f9 = forest(fields);
        proof {
            lemma_body_step(f8, b, 8, f9);
            assert(f9 + body_fields(b, 9) =~= f9);
        }
        Some(seq_value_of(fields))
    }

    /// Reads a DER value as a request body. Addresses, authorization data
    /// and additional tickets may be present and are passed over.
    pub fn from_der_value(v: &DerValue) -> (r: Option<KdcReqBody>)
        ensures
            r.deep_view() == parse_req_body(v@),
    {
        match read_seq(v) {
            None => None,
            Some(fields) => {
                assert(forest(*fields).skip(0) =~= forest(*fields));
                let (options, at0) = next_field(fields, 0, 0);
                let (cname, at1) = next_field(fields, at0, 1);
                let (realm, at2) = next_field(fields, at1, 2);
                let (sname, at3) = next_field(fields, at2, 3);
                let (from, at4) = next_field(fields, at3, 4);
                let (till, at5) = next_field(fields, at4, 5);
                let (rtime, at6) = next_field(fields, at5, 6);
                let (nonce, at7) = next_field(fields, at6, 7);
                let (etype, at8) = next_field(fields, at7, 8);
                let (addresses, at9) = next_field(fields, at8, 9);
                let (authorization, at10) = next_field(fields, at9, 10);
                let (tickets, at11) = next_field(fields, at10, 11);
                proof {
                    lemma_forest_of(*fields, fields.len() as nat);
                }
                if at11 != fields.len() {
                    return None;
                }
                match (options, realm, till, etype) {
                    (Some(options), Some(realm), Some(till), Some(etype)) => {
                        match (
                            read_bits(options),
                            read_opt_name(cname),
                            read_string(realm),
                            read_opt_name(sname),
                            read_opt_time(from),
                            read_time(till),
                            read_opt_time(rtime),
                            read_u32(nonce),
                            read_etypes(etype),
                        ) {
                            (
                                Some(kdc_options),
                                Some(cname),
                                Some(realm),
                                Some(sname),
                                Some(from),
                                Some(till),
                                Some(rtime),
                                Some(nonce),
                                Some(etype),
                            ) => Some(
                                KdcReqBody {
                                    kdc_options,
                                    cname,
                                    realm,
                                    sname,
                                    from,
                                    till,
                                    rtime,
                                    nonce,
                                    etype,
                                },
                            ),
                            _ => None,
                        }
                    },
                    _ => None,
                }
            },
        }
    }
}

impl KdcReq {
    /// The DER value of the request, or `None` where its body cannot be
    /// written.
    pub fn to_der_value(&self) -> (r: Option<DerValue>)
        ensures
            match r {
                Some(v) => body_writable(self.deep_view().req_body) && v@ == kdc_req_tree(
                    self.deep_view(),
                ),
                None => !body_writable(self.deep_view().req_body),
            },
    {
        let ghost q = self.deep_view();
        match self.req_body.to_der_value() {
            None => None,
            Some(body) => {
                let mut fields: Vec<DerValue> = no_children();
                push_field(&mut fields, 1, int_value_of(self.pvno as i64));
                push_field(&mut fields, 2, int_value_of(self.msg_type as i64));
                match &self.padata {
                    Some(items) => {
                        push_field(&mut fields, 3, pa_data_list_value_of(items));
                    },
                    None => {},
                }
                push_field(&mut fields, 4, body);
                assert(forest(fields) =~= opt_field(1, Some(t_int(q.pvno as int))) + (opt_field(
                    2,
                    Some(t_int(q.msg_type as int)),
                ) + (opt_field(3, opt_pa_data_tree(q.padata)) + opt_field(
                    4,
                    Some(req_body_tree(q.req_body)),
                ))));
                Some(seq_value_of(fields))
            },
        }
    }

    /// Reads a DER value as a request.
    pub fn from_der_value(v: &DerValue) -> (r: Option<KdcReq>)
        ensures
            r.deep_view() == parse_kdc_req(v@),
    {
        match read_seq(v) {
            None => None,
            Some(fields) => {
                assert(forest(*fields).skip(0) =~= forest(*fields));
                let (pvno, at1) = next_field(fields, 0, 1);
                let (msg_type, at2) = next_field(fields, at1, 2);
                let (padata, at3) = next_field(fields, at2, 3);
                let (body, at4) = next_field(fields, at3, 4);
                proof {
                    lemma_forest_of(*fields, fields.len() as nat);
                }
                if at4 != fields.len() {
                    return None;
                }
                let padata_value: Option<Option<Vec<PaData>>> = match padata {
                    None => Some(None),
                    Some(list) => match read_pa_data_list(list) {
                        Some(items) => Some(Some(items)),
                        None => None,
                    },
                };
                match body {
                    None => None,
                    Some(body) => match (
                        read_u8(pvno),
                        read_u8(msg_type),
                        padata_value,
                        KdcReqBody::from_der_value(body),
                    ) {
                        (Some(pvno), Some(msg_type), Some(padata), Some(req_body)) => Some(
                            KdcReq { pvno, msg_type, padata, req_body },
                        ),
                        _ => None,
                    },
                }
            },
        }
    }
}

impl KrbKdcReq {
    /// The DER value of the tagged request, or `None` where its body
    /// cannot be written.
    pub fn to_der_value(&self) -> (r: Option<DerValue>)
        ensures
            match r {
                Some(v) => body_writable(inner_req(self.deep_view()).req_body) && v@
                    == krb_kdc_req_tree(self.deep_view()),
                None => !body_writable(inner_req(self.deep_view()).req_body),
            },
    {
        match self {
            KrbKdcReq::AsReq(req) => match req.to_der_value() {
                Some(v) => Some(crate::asn1::leaf::wrap_value(TAG_AS_REQ, v)),
                None => None,
            },
            KrbKdcReq::TgsReq(req) => match req.to_der_value() {
                Some(v) => Some(crate::asn1::leaf::wrap_value(TAG_TGS_REQ, v)),
                None => None,
            },
        }
    }

    /// Reads a DER value as a tagged request.
    pub fn from_der_value(v: &DerValue) -> (r: Option<KrbKdcReq>)
        ensures
            r.deep_view() == parse_krb_kdc_req(v@),
    {
        match crate::asn1::leaf::read_wrapped(v, TAG_AS_REQ) {
            Some(inner) => match KdcReq::from_der_value(inner) {
                Some(req) => Some(KrbKdcReq::AsReq(req)),
                None => None,
            },
            None => match crate::asn1::leaf::read_wrapped(v, TAG_TGS_REQ) {
                Some(inner) => match KdcReq::from_der_value(inner) {
                    Some(req) => Some(KrbKdcReq::TgsReq(req)),
                    None => None,
                },
                None => None,
            },
        }
    }
}

} // verus!
