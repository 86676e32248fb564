//! Requests to the key distribution centre, and the builder that puts an
//! authentication request together step by step.

use crate::error::KrbError;
use crate::proto::preauth::{compute_enc_timestamp, enc_timestamp_spec};
use crate::proto::types::{
    EncryptionType, Name, NameView, Preauth, PreauthData, PreauthView,
};
use rand::Rng;
use vstd::prelude::*;

verus! {

/// Largest nonce that is sent: the top bit of the 32 is always clear.
pub const NONCE_MASK: u32 = 0x7fff_ffff;

/// A request to the key distribution centre. Times are seconds since the
/// Unix epoch.
#[derive(Debug, Clone, PartialEq, Eq)]
pub enum KerberosRequest {
    Authentication {
        nonce: u32,
        client_name: Name,
        service_name: Name,
        from: Option<u64>,
        until: u64,
        renew: Option<u64>,
        preauth: Preauth,
        etypes: Vec<EncryptionType>,
    },
    TicketGrant {  },
}

/// A request as contracts speak of it.
pub ghost enum KerberosRequestView {
    Authentication {
        nonce: u32,
        client_name: NameView,
        service_name: NameView,
        from: Option<u64>,
        until: u64,
        renew: Option<u64>,
        preauth: PreauthView,
        etypes: Seq<EncryptionType>,
    },
    TicketGrant,
}

impl View for KerberosRequest {
    type V = KerberosRequestView;

    open spec fn view(&self) -> KerberosRequestView {
        match self {
            KerberosRequest::Authentication {
                nonce,
                client_name,
                service_name,
                from,
                until,
                renew,
                preauth,
                etypes,
            } => KerberosRequestView::Authentication {
                nonce: *nonce,
                client_name: client_name@,
                service_name: service_name@,
                from: *from,
                until: *until,
                renew: *renew,
                preauth: preauth@,
                etypes: etypes@,
            },
            KerberosRequest::TicketGrant {  } => KerberosRequestView::TicketGrant,
        }
    }
}

/// An authentication request in the making.
#[derive(Debug, Clone, PartialEq, Eq)]
pub struct KerberosAuthenticationBuilder {
    client_name: Name,
    service_name: Name,
    from: Option<u64>,
    until: u64,
    renew: Option<u64>,
    preauth: Option<Preauth>,
    etypes: Vec<EncryptionType>,
}

/// A builder as contracts speak of it.
pub ghost struct KerberosAuthenticationBuilderView {
    pub client_name: NameView,
    pub service_name: NameView,
    pub from: Option<u64>,
    pub until: u64,
    pub renew: Option<u64>,
    pub preauth: Option<PreauthView>,
    pub etypes: Seq<EncryptionType>,
}

impl KerberosAuthenticationBuilderView {
    /// The request that the builder stands for, with the given nonce.
    pub open spec fn request(self, nonce: u32) -> KerberosRequestView {
        KerberosRequestView::Authentication {
            nonce,
            client_name: self.client_name,
            service_name: self.service_name,
            from: self.from,
            until: self.until,
            renew: self.renew,
            preauth: match self.preauth {
                Some(p) => p,
                None => PreauthView::empty(),
            },
            etypes: self.etypes,
        }
    }
}

impl View for KerberosAuthenticationBuilder {
    type V = KerberosAuthenticationBuilderView;

    closed spec fn view(&self) -> KerberosAuthenticationBuilderView {
        KerberosAuthenticationBuilderView {
            client_name: self.client_name@,
            service_name: self.service_name@,
            from: self.from,
            until: self.until,
            renew: self.renew,
            preauth: match self.preauth {
                Some(p) => Some(p@),
                None => None,
            },
            etypes: self.etypes@,
        }
    }
}

/// The nonce made from 32 random bits: the bits without the top one.
pub open spec fn masked_nonce(raw: u32) -> u32 {
    raw & NONCE_MASK
}

/// A masked nonce is below 2^31.
pub proof fn lemma_masked_nonce(raw: u32)
    ensures
        masked_nonce(raw) < 0x8000_0000,
{
    assert(raw & 0x7fff_ffffu32 < 0x8000_0000u32) by (bit_vector);
}

/// `thread_rng().gen::<u32>()` of the `rand` crate. Any number may come
/// back.
#[verifier::external_body]
fn random_u32() -> u32 {
    rand::thread_rng().gen()
}

impl KerberosRequest {
    /// Starts an authentication request of `client_name` for
    /// `service_name` that is to expire at `until`: no start time, no
    /// renewal, no pre-authentication, and the one supported encryption
    /// type proposed.
    pub fn build_as(client_name: Name, service_name: Name, until: u64) -> (r:
        KerberosAuthenticationBuilder)
        ensures
            r@ == (KerberosAuthenticationBuilderView {
                client_name: client_name@,
                service_name: service_name@,
                from: None,
                until,
                renew: None,
                preauth: None,
                etypes: seq![EncryptionType::AES256_CTS_HMAC_SHA1_96],
            }),
    {
        let mut etypes: Vec<EncryptionType> = Vec::new();
        etypes.push(EncryptionType::AES256_CTS_HMAC_SHA1_96);
        assert(etypes@ =~= seq![EncryptionType::AES256_CTS_HMAC_SHA1_96]);
        KerberosAuthenticationBuilder {
            client_name,
            service_name,
            from: None,
            until,
            renew: None,
            preauth: None,
            etypes,
        }
    }
}

impl KerberosAuthenticationBuilder {
    /// Sets, or clears, the time from which the ticket is to be valid.
    pub fn from(self, from: Option<u64>) -> (r: KerberosAuthenticationBuilder)
        ensures
            r@ == (KerberosAuthenticationBuilderView { from, ..self@ }),
    {
        let mut next = self;
        next.from = from;
        next
    }

    /// Sets, or clears, the time until which the ticket may be renewed.
    pub fn renew_until(self, renew: Option<u64>) -> (r: KerberosAuthenticationBuilder)
        ensures
            r@ == (KerberosAuthenticationBuilderView { renew, ..self@ }),
    {
        let mut next = self;
        next.renew = renew;
        next
    }

    /// Answers the server's pre-authentication data with an encrypted
    /// timestamp of the moment `epoch_secs` seconds and `usecs`
    /// microseconds after the Unix epoch, and echoes the server's cookie.
    pub fn preauth_enc_ts(
        self,
        pa_data: &PreauthData,
        passphrase: &str,
        epoch_secs: u64,
        usecs: u32,
    ) -> (r: Result<KerberosAuthenticationBuilder, KrbError>)
        ensures
            match enc_timestamp_spec(
                pa_data@,
                passphrase@,
                self@.client_name,
                epoch_secs,
                usecs,
            ) {
                Ok(p) => r matches Ok(b) && b@ == (KerberosAuthenticationBuilderView {
                    preauth: Some(p),
                    ..self@
                }),
                Err(e) => r matches Err(f) && f == e,
            },
    {
        match compute_enc_timestamp(pa_data, passphrase, &self.client_name, epoch_secs, usecs) {
            Err(e) => Err(e),
            Ok(p) => {
                let mut next = self;
                next.preauth = Some(p);
                Ok(next)
            },
        }
    }

    /// Finishes the request with the nonce made from `raw`.
    pub fn build_with_nonce(self, raw: u32) -> (r: KerberosRequest)
        ensures
            r@ == self@.request(masked_nonce(raw)),
    {
        let KerberosAuthenticationBuilder {
            client_name,
            service_name,
            from,
            until,
            renew,
            preauth,
            etypes,
        } = self;
        let preauth: Preauth = match preauth {
            Some(p) => p,
            None => Preauth::default(),
        };
        KerberosRequest::Authentication {
            nonce: raw & NONCE_MASK,
            client_name,
            service_name,
            from,
            until,
            renew,
            preauth,
            etypes,
        }
    }

    /// Finishes the request with a fresh random nonce below 2^31.
    pub fn build(self) -> (r: KerberosRequest)
        ensures
            r matches KerberosRequest::Authentication { nonce, .. } && nonce < 0x8000_0000 && r@
                == self@.request(nonce),
    {
        let raw: u32 = random_u32();
        proof {
            lemma_masked_nonce(raw);
        }
        self.build_with_nonce(raw)
    }
}

} // verus!
