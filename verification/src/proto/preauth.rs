//! Pre-authentication with an encrypted timestamp: the client proves that
//! it knows the passphrase by encrypting the time of day under the key
//! derived from it.

use crate::asn1::der::{
    encode_forest, encode_tree, lemma_forest_concat, lemma_forest_one, no_children, well_formed,
    DerTree, DerValue, MAX_DEPTH,
};
use crate::asn1::leaf::{
    int_content, int_value_of, lemma_int_round_trip, lemma_wrap_len, lemma_wrapped_well_formed,
    opt_field, push_field, seq_value_of, t_int, t_seq, t_wrap,
};
use crate::asn1::time::{t_time, time_content, time_value_of};
use crate::crypto::kdf::{
    derive_key_aes256_cts_hmac_sha1_96, derive_key_external_salt_aes256_cts_hmac_sha1_96,
    string_to_key_spec,
};
use crate::crypto::profile::{encrypt_aes256_cts_hmac_sha1_96, encrypt_spec};
use crate::error::KrbError;
use crate::proto::types::{
    copy_opt_bytes, opt_bytes_view, ETypeInfo2Entry, ETypeInfo2EntryView, EncryptedData, EncryptedDataView,
    EncryptionType, Name, NameView, Preauth, PreauthData, PreauthDataView, PreauthView,
};
use vstd::prelude::*;
use vstd::utf8::encode_utf8;

verus! {

/// The key usage of the encrypted timestamp of an authentication request.
pub const KEY_USAGE_PA_ENC_TIMESTAMP: i32 = 1;

/// The timestamp structure that is encrypted: the time, then the
/// microseconds within its second.
pub open spec fn pa_enc_ts_enc_tree(time: Seq<u8>, usecs: u32) -> DerTree {
    t_seq(opt_field(0, Some(t_time(time))) + opt_field(1, Some(t_int(usecs as int))))
}

/// The timestamp structure is well formed, and 24 to 34 octets long when
/// encoded.
pub proof fn lemma_pa_enc_ts_enc(time: Seq<u8>, usecs: u32)
    requires
        time.len() == 15,
    ensures
        well_formed(pa_enc_ts_enc_tree(time, usecs), MAX_DEPTH as nat),
        24 <= encode_tree(pa_enc_ts_enc_tree(time, usecs)).len() <= 34,
{
    let t0 = t_time(time);
    let t1 = t_int(usecs as int);
    lemma_int_round_trip(usecs as int);
    lemma_wrap_len(crate::asn1::leaf::TAG_GENERALIZED_TIME, time);
    lemma_wrap_len(crate::asn1::leaf::TAG_INTEGER, int_content(usecs as int));
    let w0 = t_wrap(0xa0u8, t0);
    let w1 = t_wrap(0xa1u8, t1);
    lemma_wrapped_well_formed(0xa0u8, t0, 31);
    lemma_wrapped_well_formed(0xa1u8, t1, 31);
    lemma_wrap_len(0xa0u8, encode_tree(t0));
    lemma_wrap_len(0xa1u8, encode_tree(t1));
    let fields = opt_field(0, Some(t0)) + opt_field(1, Some(t1));
    assert(opt_field(0, Some(t0)) =~= seq![w0]);
    assert(opt_field(1, Some(t1)) =~= seq![w1]);
    lemma_forest_concat(seq![w0], seq![w1], 0);
    lemma_forest_one(w0);
    lemma_forest_one(w1);
    assert(encode_forest(fields, 0) == encode_tree(w0) + encode_tree(w1));
    lemma_wrap_len(crate::asn1::leaf::TAG_SEQUENCE, encode_forest(fields, 0));
    assert forall|i: int| 0 <= i < fields.len() implies well_formed(#[trigger] fields[i], 31) by {
        if i == 0 {
            assert(fields[0] == w0);
        } else {
            assert(fields[1] == w1);
        }
    }
}

/// Builds and encodes the timestamp structure. `None` where the time
/// cannot be written in the wire format.
pub fn pa_enc_ts_enc_der(epoch_secs: u64, usecs: u32) -> (r: Option<Vec<u8>>)
    ensures
        match r {
            Some(b) => time_content(epoch_secs) is Some && b@ == encode_tree(
                pa_enc_ts_enc_tree(time_content(epoch_secs)->0, usecs),
            ) && 24 <= b.len() <= 34,
            None => time_content(epoch_secs) is None,
        },
{
    match time_value_of(epoch_secs) {
        None => None,
        Some(time) => {
            let mut fields: Vec<DerValue> = no_children();
            push_field(&mut fields, 0, time);
            push_field(&mut fields, 1, int_value_of(usecs as i64));
            let tree = seq_value_of(fields);
            proof {
                let tc = time_content(epoch_secs)->0;
                assert(Seq::<DerTree>::empty() + opt_field(0, Some(t_time(tc))) =~= opt_field(
                    0,
                    Some(t_time(tc)),
                ));
                lemma_pa_enc_ts_enc(tc, usecs);
            }
            tree.encode()
        },
    }
}

/// The last entry that names the encryption type this client can use.
pub open spec fn select_entry(entries: Seq<ETypeInfo2EntryView>) -> Option<ETypeInfo2EntryView>
    decreases entries.len(),
{
    if entries.len() == 0 {
        None
    } else if entries.last().etype == EncryptionType::AES256_CTS_HMAC_SHA1_96 {
        Some(entries.last())
    } else {
        select_entry(entries.drop_last())
    }
}

/// The iteration count that the parameters of an entry name: none where
/// there are no parameters, else the four octets as a big-endian number.
pub open spec fn s2k_iterations(params: Option<Seq<u8>>) -> Result<Option<u32>, KrbError> {
    match params {
        None => Ok(None),
        Some(p) => {
            if p.len() != 4 {
                Err(KrbError::PreAuthInvalidS2KParams)
            } else {
                Ok(
                    Some(
                        (p[0] * 0x100_0000 + p[1] * 0x1_0000 + p[2] * 0x100 + p[3]) as u32,
                    ),
                )
            }
        },
    }
}

/// The key that an entry asks for: from the entry's own salt where it has
/// one, else from the realm and name of the client, who must be a user.
pub open spec fn preauth_key_spec(
    entry: ETypeInfo2EntryView,
    passphrase: Seq<char>,
    client: NameView,
) -> Result<Seq<u8>, KrbError> {
    match s2k_iterations(entry.s2kparams) {
        Err(e) => Err(e),
        Ok(iter_count) => match entry.salt {
            Some(salt) => string_to_key_spec(
                encode_utf8(passphrase),
                encode_utf8(salt),
                iter_count,
            ),
            None => match client {
                NameView::Principal { name, realm } => string_to_key_spec(
                    encode_utf8(passphrase),
                    encode_utf8(realm) + encode_utf8(name),
                    iter_count,
                ),
                _ => Err(KrbError::NameNotPrincipal),
            },
        },
    }
}

/// The pre-authentication that answers `pa`: the timestamp of `epoch_secs`
/// and `usecs`, encrypted for key usage 1 under the key of the last usable
/// entry, and the server's cookie.
pub open spec fn enc_timestamp_spec(
    pa: PreauthDataView,
    passphrase: Seq<char>,
    client: NameView,
    epoch_secs: u64,
    usecs: u32,
) -> Result<PreauthView, KrbError> {
    if !pa.enc_timestamp {
        Err(KrbError::PreauthUnsupported)
    } else if pa.etype_info2.len() == 0 {
        Err(KrbError::PreauthMissingEtypeInfo2)
    } else {
        match time_content(epoch_secs) {
            None => Err(KrbError::PreAuthInvalidUnixTs),
            Some(time) => match select_entry(pa.etype_info2) {
                None => Err(KrbError::UnsupportedEncryption),
                Some(entry) => match preauth_key_spec(entry, passphrase, client) {
                    Err(e) => Err(e),
                    Ok(key) => match encrypt_spec(
                        key,
                        encode_tree(pa_enc_ts_enc_tree(time, usecs)),
                        KEY_USAGE_PA_ENC_TIMESTAMP,
                    ) {
                        Err(e) => Err(e),
                        Ok(data) => Ok(
                            PreauthView {
                                enc_timestamp: Some(
                                    EncryptedDataView::Aes256CtsHmacSha196 { kvno: None, data },
                                ),
                                pa_fx_cookie: pa.pa_fx_cookie,
                            },
                        ),
                    },
                },
            },
        }
    }
}

/// Relates the outcome of the computation to what the model says it is.
pub open spec fn preauth_result_is(r: Result<Preauth, KrbError>, model: Result<
    PreauthView,
    KrbError,
>) -> bool {
    match r {
        Ok(p) => model == Ok::<PreauthView, KrbError>(p@),
        Err(e) => model == Err::<PreauthView, KrbError>(e),
    }
}

fn find_entry(entries: &Vec<ETypeInfo2Entry>) -> (r: Option<&ETypeInfo2Entry>)
    ensures
        match r {
            Some(e) => select_entry(crate::proto::types::entries_view(entries@)) == Some(e@),
            None => select_entry(crate::proto::types::entries_view(entries@)) is None,
        },
{
    let ghost all = crate::proto::types::entries_view(entries@);
    let mut i: usize = entries.len();
    assert(all.subrange(0, i as int) =~= all);
    while i > 0
        invariant
            i <= entries.len(),
            all == crate::proto::types::entries_view(entries@),
            select_entry(all) == select_entry(all.subrange(0, i as int)),
        decreases i,
    {
        let ghost prefix = all.subrange(0, i as int);
        assert(prefix.last() == entries[i - 1]@);
        assert(prefix.drop_last() =~= all.subrange(0, i - 1));
        if entries[i - 1].etype.is_supported() {
            return Some(&entries[i - 1]);
        }
        i -= 1;
    }
    assert(all.subrange(0, 0).len() == 0);
    None
}

fn iterations_of(params: &Option<Vec<u8>>) -> (r: Result<Option<u32>, KrbError>)
    ensures
        r == s2k_iterations(opt_bytes_view(*params)),
{
    match params {
        None => Ok(None),
        Some(p) => {
            if p.len() != 4 {
                Err(KrbError::PreAuthInvalidS2KParams)
            } else {
                Ok(
                    Some(
                        p[0] as u32 * 0x100_0000 + p[1] as u32 * 0x1_0000 + p[2] as u32 * 0x100
                            + p[3] as u32,
                    ),
                )
            }
        },
    }
}

/// Computes the pre-authentication that answers `pa_data` for the client
/// `client_name`, at the time `epoch_secs` seconds and `usecs` microseconds
/// after the Unix epoch.
pub fn compute_enc_timestamp(
    pa_data: &PreauthData,
    passphrase: &str,
    client_name: &Name,
    epoch_secs: u64,
    usecs: u32,
) -> (r: Result<Preauth, KrbError>)
    ensures
        preauth_result_is(
            r,
            enc_timestamp_spec(pa_data@, passphrase@, client_name@, epoch_secs, usecs),
        ),
        r matches Ok(p) ==> p@.enc_timestamp is Some && p@.enc_timestamp->0.data().len()
            == encode_tree(pa_enc_ts_enc_tree(time_content(epoch_secs)->0, usecs)).len() + 12,
{
    if !pa_data.enc_timestamp {
        return Err(KrbError::PreauthUnsupported);
    }
    if pa_data.etype_info2.len() == 0 {
        return Err(KrbError::PreauthMissingEtypeInfo2);
    }
    let plain: Vec<u8> = match pa_enc_ts_enc_der(epoch_secs, usecs) {
        None => {
            return Err(KrbError::PreAuthInvalidUnixTs);
        },
        Some(b) => b,
    };
    let entry: &ETypeInfo2Entry = match find_entry(&pa_data.etype_info2) {
        None => {
            return Err(KrbError::UnsupportedEncryption);
        },
        Some(e) => e,
    };
    let iter_count: Option<u32> = match iterations_of(&entry.s2kparams) {
        Err(e) => {
            return Err(e);
        },
        Ok(n) => n,
    };
    let derived = match &entry.salt {
        Some(salt) => derive_key_external_salt_aes256_cts_hmac_sha1_96(
            passphrase.as_bytes(),
            salt.as_str().as_bytes(),
            iter_count,
        ),
        None => match client_name.principal_name() {
            Err(e) => {
                return Err(e);
            },
            Ok((cname, realm)) => derive_key_aes256_cts_hmac_sha1_96(
                passphrase.as_bytes(),
                realm.as_bytes(),
                cname.as_bytes(),
                iter_count,
            ),
        },
    };
    let base_key: [u8; 32] = match derived {
        Err(e) => {
            return Err(e);
        },
        Ok(k) => k,
    };
    match encrypt_aes256_cts_hmac_sha1_96(&base_key, plain.as_slice(), KEY_USAGE_PA_ENC_TIMESTAMP) {
        Err(e) => Err(e),
        Ok(data) => Ok(
            Preauth {
                enc_timestamp: Some(EncryptedData::Aes256CtsHmacSha196 { kvno: None, data }),
                pa_fx_cookie: copy_opt_bytes(&pa_data.pa_fx_cookie),
            },
        ),
    }
}

} // verus!
