//! Names, encryption types, encrypted data and pre-authentication data.

use crate::crypto::kdf::{
    derive_key_aes256_cts_hmac_sha1_96, key_result_is, string_to_key_spec,
};
use crate::crypto::profile::{bytes_result_is, decrypt_aes256_cts_hmac_sha1_96, decrypt_spec};
use crate::error::KrbError;
use vstd::prelude::*;

verus! {

/// A copy of `b`.
pub fn copy_bytes(b: &[u8]) -> (out: Vec<u8>)
    ensures
        out@ == b@,
{
    let mut out: Vec<u8> = Vec::new();
    out.extend_from_slice(b);
    assert(out@ =~= b@);
    out
}

/// The octets of an optional byte string.
pub open spec fn opt_bytes_view(b: Option<Vec<u8>>) -> Option<Seq<u8>> {
    match b {
        Some(v) => Some(v@),
        None => None,
    }
}

/// A copy of an optional byte string.
pub fn copy_opt_bytes(b: &Option<Vec<u8>>) -> (out: Option<Vec<u8>>)
    ensures
        opt_bytes_view(out) == opt_bytes_view(*b),
{
    match b {
        Some(v) => Some(copy_bytes(v.as_slice())),
        None => None,
    }
}

/// The encryption types that have a number on the wire. Only
/// `AES256_CTS_HMAC_SHA1_96` can be proposed or selected.
#[allow(non_camel_case_types)]
#[derive(Debug, Clone, Copy, PartialEq, Eq, Structural)]
pub enum EncryptionType {
    DES_CBC_CRC,
    DES_CBC_MD4,
    DES_CBC_MD5,
    DES3_CBC_SHA1_KD,
    AES128_CTS_HMAC_SHA1_96,
    AES256_CTS_HMAC_SHA1_96,
    AES128_CTS_HMAC_SHA256_128,
    AES256_CTS_HMAC_SHA384_192,
    RC4_HMAC,
}

/// The number of an encryption type on the wire.
pub open spec fn etype_code(e: EncryptionType) -> int {
    match e {
        EncryptionType::DES_CBC_CRC => 1,
        EncryptionType::DES_CBC_MD4 => 2,
        EncryptionType::DES_CBC_MD5 => 3,
        EncryptionType::DES3_CBC_SHA1_KD => 16,
        EncryptionType::AES128_CTS_HMAC_SHA1_96 => 17,
        EncryptionType::AES256_CTS_HMAC_SHA1_96 => 18,
        EncryptionType::AES128_CTS_HMAC_SHA256_128 => 19,
        EncryptionType::AES256_CTS_HMAC_SHA384_192 => 20,
        EncryptionType::RC4_HMAC => 23,
    }
}

/// The encryption type that a number on the wire names.
pub open spec fn etype_of_code(v: int) -> Option<EncryptionType> {
    if v == 1 {
        Some(EncryptionType::DES_CBC_CRC)
    } else if v == 2 {
        Some(EncryptionType::DES_CBC_MD4)
    } else if v == 3 {
        Some(EncryptionType::DES_CBC_MD5)
    } else if v == 16 {
        Some(EncryptionType::DES3_CBC_SHA1_KD)
    } else if v == 17 {
        Some(EncryptionType::AES128_CTS_HMAC_SHA1_96)
    } else if v == 18 {
        Some(EncryptionType::AES256_CTS_HMAC_SHA1_96)
    } else if v == 19 {
        Some(EncryptionType::AES128_CTS_HMAC_SHA256_128)
    } else if v == 20 {
        Some(EncryptionType::AES256_CTS_HMAC_SHA384_192)
    } else if v == 23 {
        Some(EncryptionType::RC4_HMAC)
    } else {
        None
    }
}

/// The number names the one encryption type that this client can use.
pub open spec fn code_is_supported(v: int) -> bool {
    v == 18
}

impl EncryptionType {
    /// The number of the encryption type on the wire.
    pub fn code(&self) -> (v: i32)
        ensures
            v == etype_code(*self),
            etype_of_code(v as int) == Some(*self),
    {
        match self {
            EncryptionType::DES_CBC_CRC => 1,
            EncryptionType::DES_CBC_MD4 => 2,
            EncryptionType::DES_CBC_MD5 => 3,
            EncryptionType::DES3_CBC_SHA1_KD => 16,
            EncryptionType::AES128_CTS_HMAC_SHA1_96 => 17,
            EncryptionType::AES256_CTS_HMAC_SHA1_96 => 18,
            EncryptionType::AES128_CTS_HMAC_SHA256_128 => 19,
            EncryptionType::AES256_CTS_HMAC_SHA384_192 => 20,
            EncryptionType::RC4_HMAC => 23,
        }
    }

    /// The encryption type with the number `v`, or the number back in an
    /// `InvalidEnumValue` where it names none.
    pub fn from_code(v: i32) -> (r: Result<EncryptionType, KrbError>)
        ensures
            match etype_of_code(v as int) {
                Some(e) => r == Ok::<EncryptionType, KrbError>(e),
                None => r matches Err(KrbError::InvalidEnumValue(name, value)) && name@
                    == "EncryptionType"@ && value == v,
            },
    {
        if v == 1 {
            Ok(EncryptionType::DES_CBC_CRC)
        } else if v == 2 {
            Ok(EncryptionType::DES_CBC_MD4)
        } else if v == 3 {
            Ok(EncryptionType::DES_CBC_MD5)
        } else if v == 16 {
            Ok(EncryptionType::DES3_CBC_SHA1_KD)
        } else if v == 17 {
            Ok(EncryptionType::AES128_CTS_HMAC_SHA1_96)
        } else if v == 18 {
            Ok(EncryptionType::AES256_CTS_HMAC_SHA1_96)
        } else if v == 19 {
            Ok(EncryptionType::AES128_CTS_HMAC_SHA256_128)
        } else if v == 20 {
            Ok(EncryptionType::AES256_CTS_HMAC_SHA384_192)
        } else if v == 23 {
            Ok(EncryptionType::RC4_HMAC)
        } else {
            Err(KrbError::InvalidEnumValue("EncryptionType".to_owned(), v))
        }
    }

    /// Whether this client can encrypt and decrypt with the type.
    pub fn is_supported(&self) -> (b: bool)
        ensures
            b == (*self == EncryptionType::AES256_CTS_HMAC_SHA1_96),
            b == code_is_supported(etype_code(*self)),
    {
        match self {
            EncryptionType::AES256_CTS_HMAC_SHA1_96 => true,
            _ => false,
        }
    }
}

/// The identity of a client or of a service, always within a realm.
#[derive(Debug, Clone, PartialEq, Eq)]
pub enum Name {
    Principal { name: String, realm: String },
    SrvInst { service: String, realm: String },
    SrvHst { service: String, host: String, realm: String },
}

/// A name as contracts speak of it.
pub ghost enum NameView {
    Principal { name: Seq<char>, realm: Seq<char> },
    SrvInst { service: Seq<char>, realm: Seq<char> },
    SrvHst { service: Seq<char>, host: Seq<char>, realm: Seq<char> },
}

impl View for Name {
    type V = NameView;

    open spec fn view(&self) -> NameView {
        match self {
            Name::Principal { name, realm } => NameView::Principal { name: name@, realm: realm@ },
            Name::SrvInst { service, realm } => NameView::SrvInst {
                service: service@,
                realm: realm@,
            },
            Name::SrvHst { service, host, realm } => NameView::SrvHst {
                service: service@,
                host: host@,
                realm: realm@,
            },
        }
    }
}

impl NameView {
    /// The realm is not empty.
    pub open spec fn wf(self) -> bool {
        self.realm().len() > 0
    }

    /// The realm of the name.
    pub open spec fn realm(self) -> Seq<char> {
        match self {
            NameView::Principal { realm, .. } => realm,
            NameView::SrvInst { realm, .. } => realm,
            NameView::SrvHst { realm, .. } => realm,
        }
    }

    /// The number of the name's kind on the wire.
    pub open spec fn name_type(self) -> int {
        match self {
            NameView::Principal { .. } => 1,
            NameView::SrvInst { .. } => 2,
            NameView::SrvHst { .. } => 3,
        }
    }

    /// The parts of the name without its realm.
    pub open spec fn components(self) -> Seq<Seq<char>> {
        match self {
            NameView::Principal { name, .. } => seq![name],
            NameView::SrvInst { service, .. } => seq![service],
            NameView::SrvHst { service, host, .. } => seq![service, host],
        }
    }
}

impl Name {
    /// The name of a user in a realm.
    pub fn principal(name: &str, realm: &str) -> (r: Name)
        ensures
            r@ == (NameView::Principal { name: name@, realm: realm@ }),
    {
        Name::Principal { name: name.to_owned(), realm: realm.to_owned() }
    }

    /// The name of a realm's ticket-granting service.
    pub fn service_krbtgt(realm: &str) -> (r: Name)
        ensures
            r@ == (NameView::SrvInst { service: "krbtgt"@, realm: realm@ }),
    {
        Name::SrvInst { service: "krbtgt".to_owned(), realm: realm.to_owned() }
    }

    /// The name of a service on a host.
    pub fn service(srvname: &str, hostname: &str, realm: &str) -> (r: Name)
        ensures
            r@ == (NameView::SrvHst { service: srvname@, host: hostname@, realm: realm@ }),
    {
        Name::SrvHst {
            service: srvname.to_owned(),
            host: hostname.to_owned(),
            realm: realm.to_owned(),
        }
    }

    /// The user's name and realm, where the name is that of a user.
    pub fn principal_name(&self) -> (r: Result<(&str, &str), KrbError>)
        ensures
            match self@ {
                NameView::Principal { name, realm } => r matches Ok((n, rl)) && n@ == name && rl@
                    == realm,
                _ => r == Err::<(&str, &str), KrbError>(KrbError::NameNotPrincipal),
            },
    {
        match self {
            Name::Principal { name, realm } => Ok((name.as_str(), realm.as_str())),
            _ => Err(KrbError::NameNotPrincipal),
        }
    }

    /// Whether the name has a realm, as every name that is sent must.
    pub fn is_well_formed(&self) -> (b: bool)
        ensures
            b == self@.wf(),
    {
        match self {
            Name::Principal { realm, .. } => !realm.as_str().is_empty(),
            Name::SrvInst { realm, .. } => !realm.as_str().is_empty(),
            Name::SrvHst { realm, .. } => !realm.as_str().is_empty(),
        }
    }
}

/// Ciphertext together with the algorithm that made it.
#[derive(Debug, Clone, PartialEq, Eq)]
pub enum EncryptedData {
    Aes256CtsHmacSha196 { kvno: Option<u32>, data: Vec<u8> },
}

/// Encrypted data as contracts speak of it.
pub ghost enum EncryptedDataView {
    Aes256CtsHmacSha196 { kvno: Option<u32>, data: Seq<u8> },
}

impl EncryptedDataView {
    /// The ciphertext with its tag.
    pub open spec fn data(self) -> Seq<u8> {
        match self {
            EncryptedDataView::Aes256CtsHmacSha196 { data, .. } => data,
        }
    }

    /// The version of the key, where one is named.
    pub open spec fn kvno(self) -> Option<u32> {
        match self {
            EncryptedDataView::Aes256CtsHmacSha196 { kvno, .. } => kvno,
        }
    }
}

impl View for EncryptedData {
    type V = EncryptedDataView;

    open spec fn view(&self) -> EncryptedDataView {
        match self {
            EncryptedData::Aes256CtsHmacSha196 { kvno, data } => {
                EncryptedDataView::Aes256CtsHmacSha196 { kvno: *kvno, data: data@ }
            },
        }
    }
}

impl EncryptedData {
    /// Derives the long-term key that this data was encrypted under from
    /// the passphrase of the principal `cname` in `realm`.
    pub fn derive_key(&self, passphrase: &[u8], realm: &[u8], cname: &[u8]) -> (r: Result<
        [u8; 32],
        KrbError,
    >)
        ensures
            key_result_is(r, string_to_key_spec(passphrase@, realm@ + cname@, None)),
    {
        match self {
            EncryptedData::Aes256CtsHmacSha196 { .. } => {
                derive_key_aes256_cts_hmac_sha1_96(passphrase, realm, cname, None)
            },
        }
    }

    /// Checks and decrypts the data under `base_key` for `key_usage`.
    pub fn decrypt_data(&self, base_key: &[u8; 32], key_usage: i32) -> (r: Result<
        Vec<u8>,
        KrbError,
    >)
        ensures
            bytes_result_is(r, decrypt_spec(base_key@, self@.data(), key_usage)),
    {
        match self {
            EncryptedData::Aes256CtsHmacSha196 { data, .. } => {
                decrypt_aes256_cts_hmac_sha1_96(base_key, data.as_slice(), key_usage)
            },
        }
    }
}

/// One encryption type that the server accepts for pre-authentication,
/// with the salt and the parameters of the key derivation that go with it.
#[derive(Debug, Clone, PartialEq, Eq)]
pub struct ETypeInfo2Entry {
    pub etype: EncryptionType,
    pub salt: Option<String>,
    pub s2kparams: Option<Vec<u8>>,
}

/// An entry as contracts speak of it.
pub ghost struct ETypeInfo2EntryView {
    pub etype: EncryptionType,
    pub salt: Option<Seq<char>>,
    pub s2kparams: Option<Seq<u8>>,
}

impl View for ETypeInfo2Entry {
    type V = ETypeInfo2EntryView;

    open spec fn view(&self) -> ETypeInfo2EntryView {
        ETypeInfo2EntryView {
            etype: self.etype,
            salt: self.salt.deep_view(),
            s2kparams: opt_bytes_view(self.s2kparams),
        }
    }
}

/// What the server says of pre-authentication: whether an encrypted
/// timestamp is accepted, for which encryption types, and the cookie to
/// send back.
#[derive(Debug, Clone, PartialEq, Eq)]
pub struct PreauthData {
    pub enc_timestamp: bool,
    pub etype_info2: Vec<ETypeInfo2Entry>,
    pub pa_fx_cookie: Option<Vec<u8>>,
}

/// The server's pre-authentication data as contracts speak of it.
pub ghost struct PreauthDataView {
    pub enc_timestamp: bool,
    pub etype_info2: Seq<ETypeInfo2EntryView>,
    pub pa_fx_cookie: Option<Seq<u8>>,
}

/// The views of a list of entries.
pub open spec fn entries_view(entries: Seq<ETypeInfo2Entry>) -> Seq<ETypeInfo2EntryView> {
    Seq::new(entries.len(), |i: int| entries[i]@)
}

impl View for PreauthData {
    type V = PreauthDataView;

    open spec fn view(&self) -> PreauthDataView {
        PreauthDataView {
            enc_timestamp: self.enc_timestamp,
            etype_info2: entries_view(self.etype_info2@),
            pa_fx_cookie: opt_bytes_view(self.pa_fx_cookie),
        }
    }
}

/// What the client attaches to a request to pre-authenticate.
#[derive(Debug, Clone, PartialEq, Eq)]
pub struct Preauth {
    pub enc_timestamp: Option<EncryptedData>,
    pub pa_fx_cookie: Option<Vec<u8>>,
}

/// The client's pre-authentication as contracts speak of it.
pub ghost struct PreauthView {
    pub enc_timestamp: Option<EncryptedDataView>,
    pub pa_fx_cookie: Option<Seq<u8>>,
}

impl PreauthView {
    /// No pre-authentication at all.
    pub open spec fn empty() -> PreauthView {
        PreauthView { enc_timestamp: None, pa_fx_cookie: None }
    }
}

impl View for Preauth {
    type V = PreauthView;

    open spec fn view(&self) -> PreauthView {
        PreauthView {
            enc_timestamp: match self.enc_timestamp {
                Some(e) => Some(e@),
                None => None,
            },
            pa_fx_cookie: opt_bytes_view(self.pa_fx_cookie),
        }
    }
}

impl Default for Preauth {
    fn default() -> (r: Preauth)
        ensures
            r@ == PreauthView::empty(),
    {
        Preauth { enc_timestamp: None, pa_fx_cookie: None }
    }
}

} // verus!
