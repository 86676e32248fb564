//! The transport codec: one DER message per record, records marked as in
//! RFC 1831. A record is a run of fragments; each fragment starts with
//! four octets that hold, most significant first, a flag for the last
//! fragment of the record in the top bit and the length of the fragment's
//! data in the other 31.
//!
//! The codec keeps no bytes of its own. What has arrived and is not yet a
//! whole record stays in the caller's buffer, so a later call goes on where
//! an earlier one had too little to go by. A buffer that holds nothing at
//! all has no record to give: decoding it reports the end of the input.

use crate::constants::{DEFAULT_IO_MAX_SIZE, MAX_FRAGMENT_LEN};
use crate::crypto::kdf::be32;
use crate::error::KrbError;
use crate::proto::request::KerberosRequest;
use crate::proto::response::{
    response_of_der, KerberosResponse, KerberosResponseView,
};
use crate::proto::transcode::request_der;
use bytes::{Buf, BufMut, BytesMut};
use std::io::Write;
use vstd::prelude::*;
use xdr_codec::record::{XdrRecordReader, XdrRecordWriter};

verus! {

/// The byte buffer of the `bytes` crate, taken as it is.
#[verifier::external_type_specification]
#[verifier::external_body]
pub struct ExBytesMut(BytesMut);

/// The bytes that a buffer holds, in order.
pub uninterp spec fn buffered(buf: BytesMut) -> Seq<u8>;

/// Why the codec gave no message.
#[derive(Debug, PartialEq, Eq)]
pub enum CodecError {
    /// The buffer holds nothing: no record is there to be read.
    UnexpectedEof,
    /// A message is larger than the codec's limit.
    MessageTooLarge,
    /// A record arrived that does not hold a response.
    InvalidData(KrbError),
    /// A request cannot be put on the wire.
    InvalidInput(KrbError),
}

/// The number that the four octets at the start of `d` hold.
pub open spec fn header_value(d: Seq<u8>) -> nat {
    (d[0] * 0x100_0000 + d[1] * 0x1_0000 + d[2] * 0x100 + d[3]) as nat
}

/// The length that a fragment header announces.
pub open spec fn header_len(d: Seq<u8>) -> nat {
    if header_value(d) >= 0x8000_0000 {
        (header_value(d) - 0x8000_0000) as nat
    } else {
        header_value(d)
    }
}

/// Whether a fragment header marks the last fragment of its record.
pub open spec fn header_last(d: Seq<u8>) -> bool {
    header_value(d) >= 0x8000_0000
}

/// A message as one record of one fragment.
pub open spec fn record_of(payload: Seq<u8>) -> Seq<u8> {
    be32((payload.len() + 0x8000_0000) as int) + payload
}

/// A record found at the start of some bytes: the data of its fragments
/// put together, and the number of bytes that the record takes.
pub ghost struct Record {
    pub payload: Seq<u8>,
    pub consumed: nat,
}

/// The first record of `data`, where `data` holds a whole one.
pub open spec fn first_record(data: Seq<u8>) -> Option<Record>
    decreases data.len(),
{
    if data.len() < 4 {
        None
    } else {
        let len = header_len(data);
        if data.len() < 4 + len {
            None
        } else if header_last(data) {
            Some(Record { payload: data.subrange(4, (4 + len) as int), consumed: 4 + len })
        } else {
            match first_record(data.skip((4 + len) as int)) {
                None => None,
                Some(rest) => Some(
                    Record {
                        payload: data.subrange(4, (4 + len) as int) + rest.payload,
                        consumed: 4 + len + rest.consumed,
                    },
                ),
            }
        }
    }
}

/// What a look at the buffered bytes finds.
pub ghost enum Scan {
    /// The bytes end before the first record does.
    Incomplete,
    /// The first record announces more data than is allowed.
    TooLarge,
    /// The first record is whole: so many bytes hold so much data.
    Complete { consumed: nat, payload_len: nat },
}

/// Looks at `data` for a first record of at most `budget` bytes of data.
pub open spec fn scan_record(data: Seq<u8>, budget: nat) -> Scan
    decreases data.len(),
{
    if data.len() < 4 {
        Scan::Incomplete
    } else {
        let len = header_len(data);
        if len > budget {
            Scan::TooLarge
        } else if data.len() < 4 + len {
            Scan::Incomplete
        } else if header_last(data) {
            Scan::Complete { consumed: 4 + len, payload_len: len }
        } else {
            match scan_record(data.skip((4 + len) as int), (budget - len) as nat) {
                Scan::Complete { consumed, payload_len } => Scan::Complete {
                    consumed: 4 + len + consumed,
                    payload_len: len + payload_len,
                },
                other => other,
            }
        }
    }
}

/// Where a scan finds a whole record, it is the first record of the data;
/// where it finds the data incomplete, there is no first record yet.
pub proof fn lemma_scan_first_record(data: Seq<u8>, budget: nat)
    ensures
        match scan_record(data, budget) {
            Scan::Complete { consumed, payload_len } => {
                &&& first_record(data) is Some
                &&& first_record(data)->0.consumed == consumed
                &&& first_record(data)->0.payload.len() == payload_len
                &&& payload_len <= budget
                &&& consumed <= data.len()
            },
            Scan::Incomplete => first_record(data) is None,
            Scan::TooLarge => true,
        },
    decreases data.len(),
{
    if data.len() >= 4 {
        let len = header_len(data);
        if len <= budget && data.len() >= 4 + len && !header_last(data) {
            lemma_scan_first_record(data.skip((4 + len) as int), (budget - len) as nat);
        }
    }
}

/// What a look at the buffered bytes finds, as the program holds it.
#[derive(Debug, Clone, Copy, PartialEq, Eq)]
pub enum RecordScan {
    Incomplete,
    TooLarge,
    Complete { consumed: usize, payload_len: usize },
}

impl View for RecordScan {
    type V = Scan;

    open spec fn view(&self) -> Scan {
        match self {
            RecordScan::Incomplete => Scan::Incomplete,
            RecordScan::TooLarge => Scan::TooLarge,
            RecordScan::Complete { consumed, payload_len } => Scan::Complete {
                consumed: *consumed as nat,
                payload_len: *payload_len as nat,
            },
        }
    }
}

/// A scan of the bytes behind `pos`, told from the start of the data:
/// `pos` more bytes taken and `total` more bytes of data.
pub open spec fn shifted(s: Scan, pos: nat, total: nat) -> Scan {
    match s {
        Scan::Complete { consumed, payload_len } => Scan::Complete {
            consumed: pos + consumed,
            payload_len: total + payload_len,
        },
        other => other,
    }
}

/// Looks at `data` for a first record of at most `max_size` bytes of data.
pub fn scan(data: &[u8], max_size: usize) -> (r: RecordScan)
    ensures
        r@ == scan_record(data@, max_size as nat),
{
    let mut pos: usize = 0;
    let mut total: usize = 0;
    assert(data@.skip(0) =~= data@);
    loop
        invariant
            pos <= data.len(),
            total <= max_size,
            scan_record(data@, max_size as nat) == shifted(
                scan_record(data@.skip(pos as int), (max_size - total) as nat),
                pos as nat,
                total as nat,
            ),
        decreases data.len() - pos,
    {
        let ghost rest = data@.skip(pos as int);
        if data.len() - pos < 4 {
            return RecordScan::Incomplete;
        }
        assert(rest[0] == data[pos as int] && rest[1] == data[pos + 1] && rest[2] == data[pos
            + 2] && rest[3] == data[pos + 3]);
        let h: u32 = data[pos] as u32 * 0x100_0000 + data[pos + 1] as u32 * 0x1_0000 + data[pos
            + 2] as u32 * 0x100 + data[pos + 3] as u32;
        let last: bool = h >= 0x8000_0000;
        let len: usize = if last {
            (h - 0x8000_0000) as usize
        } else {
            h as usize
        };
        assert(len == header_len(rest) && last == header_last(rest));
        if len > max_size - total {
            return RecordScan::TooLarge;
        }
        if data.len() - pos - 4 < len {
            return RecordScan::Incomplete;
        }
        if last {
            return RecordScan::Complete { consumed: pos + 4 + len, payload_len: total + len };
        }
        assert(rest.skip(4 + len) =~= data@.skip(pos + 4 + len));
        pos = pos + 4 + len;
        total = total + len;
    }
}

/// `Deref` of `BytesMut` in the `bytes` crate: the bytes of the buffer as
/// a slice.
#[verifier::external_body]
fn buffer_bytes(buf: &BytesMut) -> (r: &[u8])
    ensures
        r@ == buffered(*buf),
{
    &buf[..]
}

/// `XdrRecordWriter` of the `xdr-codec` crate over `BytesMut::writer`:
/// made with a fragment buffer that holds all of `payload`, written to
/// once and dropped, which flushes one fragment marked as the last. The
/// bytes go behind what the buffer held.
#[verifier::external_body]
fn write_record(buf: &mut BytesMut, payload: &[u8], fragment_size: usize)
    requires
        1 <= fragment_size,
        payload.len() <= fragment_size,
        payload.len() <= MAX_FRAGMENT_LEN,
        buffered(*old(buf)).len() + payload.len() + 4 <= isize::MAX,
    ensures
        buffered(*final(buf)) == buffered(*old(buf)) + record_of(payload@),
{
    let mut writer = XdrRecordWriter::with_buffer(buf.writer(), fragment_size);
    let _ = writer.write_all(payload);
}

/// The record iterator of `XdrRecordReader` in the `xdr-codec` crate over
/// `BytesMut::reader`, asked for one record. Where the buffer starts with
/// a whole record, the data of its fragments comes back and the buffer
/// loses the bytes of that record and no others.
#[verifier::external_body]
fn read_record(buf: &mut BytesMut) -> (r: Option<Vec<u8>>)
    requires
        first_record(buffered(*old(buf))) is Some,
    ensures
        r is Some,
        r->0@ == first_record(buffered(*old(buf)))->0.payload,
        buffered(*final(buf)) == buffered(*old(buf)).skip(
            first_record(buffered(*old(buf)))->0.consumed as int,
        ),
{
    match XdrRecordReader::new(buf.reader()).into_iter().next() {
        Some(Ok(record)) => Some(record),
        _ => None,
    }
}

/// Frames requests and unframes responses. Its only state is the largest
/// message that it lets through.
pub struct KerberosTcpCodec {
    max_size: usize,
}

/// What a call to decode gives, and what it leaves in the buffer.
pub open spec fn decode_spec(data: Seq<u8>, max_size: nat) -> (
    Result<Option<KerberosResponseView>, CodecError>,
    Seq<u8>,
) {
    match scan_record(data, max_size) {
        Scan::Incomplete => if data.len() == 0 {
            (Err(CodecError::UnexpectedEof), data)
        } else {
            (Ok(None), data)
        },
        Scan::TooLarge => (Err(CodecError::MessageTooLarge), data),
        Scan::Complete { consumed, .. } => (
            match response_of_der(first_record(data)->0.payload) {
                Ok(response) => Ok(Some(response)),
                Err(e) => Err(CodecError::InvalidData(e)),
            },
            data.skip(consumed as int),
        ),
    }
}

/// Relates the outcome of a call to decode to what the model says it is.
pub open spec fn decode_result_is(
    r: Result<Option<KerberosResponse>, CodecError>,
    model: Result<Option<KerberosResponseView>, CodecError>,
) -> bool {
    match r {
        Ok(Some(response)) => model == Ok::<Option<KerberosResponseView>, CodecError>(
            Some(response@),
        ),
        Ok(None) => model == Ok::<Option<KerberosResponseView>, CodecError>(None),
        Err(e) => model == Err::<Option<KerberosResponseView>, CodecError>(e),
    }
}

/// What a scan finds of a record of one fragment: nothing whole while any
/// of its bytes are missing, the record once all are there.
proof fn lemma_one_fragment(payload: Seq<u8>, max_size: nat, arrived: nat)
    requires
        payload.len() <= max_size,
        payload.len() <= MAX_FRAGMENT_LEN,
        arrived < record_of(payload).len(),
    ensures
        scan_record(record_of(payload).subrange(0, arrived as int), max_size) == Scan::Incomplete,
        scan_record(record_of(payload), max_size) == (Scan::Complete {
            consumed: record_of(payload).len(),
            payload_len: payload.len(),
        }),
        first_record(record_of(payload)) == Some(
            Record { payload, consumed: record_of(payload).len() },
        ),
{
    let n = payload.len();
    let whole = record_of(payload);
    let head = be32((n + 0x8000_0000) as int);
    assert(head.len() == 4);
    assert(whole[0] == head[0] && whole[1] == head[1] && whole[2] == head[2] && whole[3]
        == head[3]);
    assert(header_value(whole) == n + 0x8000_0000);
    assert(whole.subrange(4, (4 + n) as int) =~= payload);
    let part = whole.subrange(0, arrived as int);
    if arrived >= 4 {
        assert(part[0] == whole[0] && part[1] == whole[1] && part[2] == whole[2] && part[3]
            == whole[3]);
        assert(header_value(part) == n + 0x8000_0000);
    }
}

/// A record of one fragment is whole only when all of it is there. While
/// some but not all of its bytes have arrived, decoding gives nothing and
/// takes nothing. Once all have arrived, decoding gives the one response
/// that the message stands for and leaves nothing behind.
pub proof fn lemma_partial_delivery(payload: Seq<u8>, max_size: nat, arrived: nat)
    requires
        payload.len() <= max_size,
        payload.len() <= MAX_FRAGMENT_LEN,
        0 < arrived < record_of(payload).len(),
    ensures
        decode_spec(record_of(payload).subrange(0, arrived as int), max_size) == (
            Ok::<Option<KerberosResponseView>, CodecError>(None),
            record_of(payload).subrange(0, arrived as int),
        ),
        decode_spec(record_of(payload), max_size) == (
            match response_of_der(payload) {
                Ok(response) => Ok::<Option<KerberosResponseView>, CodecError>(Some(response)),
                Err(e) => Err::<Option<KerberosResponseView>, CodecError>(
                    CodecError::InvalidData(e),
                ),
            },
            Seq::<u8>::empty(),
        ),
{
    lemma_one_fragment(payload, max_size, arrived);
    let whole = record_of(payload);
    assert(whole.skip(whole.len() as int) =~= Seq::<u8>::empty());
}

/// The message fits the limit, one fragment, and the buffer behind what
/// it holds.
pub open spec fn encodable(held: nat, len: nat, max_size: nat) -> bool {
    len <= max_size && len <= MAX_FRAGMENT_LEN && held + len + 4 <= isize::MAX
}

/// What a call to encode gives, and what it leaves in the buffer.
pub open spec fn encode_spec(
    request: Result<Seq<u8>, KrbError>,
    held: Seq<u8>,
    max_size: nat,
) -> (Result<(), CodecError>, Seq<u8>) {
    match request {
        Err(e) => (Err(CodecError::InvalidInput(e)), held),
        Ok(der) => if encodable(held.len(), der.len(), max_size) {
            (Ok(()), held + record_of(der))
        } else {
            (Err(CodecError::MessageTooLarge), held)
        },
    }
}

impl KerberosTcpCodec {
    /// The largest message, in bytes, that the codec lets through.
    pub closed spec fn limit(&self) -> nat {
        self.max_size as nat
    }

    /// A codec that lets messages of up to `max_size` bytes through.
    pub fn new(max_size: usize) -> (r: KerberosTcpCodec)
        ensures
            r.limit() == max_size,
    {
        KerberosTcpCodec { max_size }
    }

    /// The largest message, in bytes, that the codec lets through.
    pub fn max_size(&self) -> (r: usize)
        ensures
            r == self.limit(),
    {
        self.max_size
    }

    /// Takes the first record out of `buf`, where `buf` holds a whole one,
    /// and reads it as a response. Where `buf` holds the start of a record
    /// and not yet its end, nothing is taken and `None` comes back: the
    /// call can be made again once more bytes have arrived. An empty buffer
    /// is reported as the unexpected end of the input, and a record that
    /// announces more than the limit as too large.
    pub fn decode(&mut self, buf: &mut BytesMut) -> (r: Result<
        Option<KerberosResponse>,
        CodecError,
    >)
        ensures
            final(self).limit() == old(self).limit(),
            decode_result_is(r, decode_spec(buffered(*old(buf)), old(self).limit()).0),
            buffered(*final(buf)) == decode_spec(buffered(*old(buf)), old(self).limit()).1,
    {
        let held: &[u8] = buffer_bytes(buf);
        let nothing_held: bool = held.len() == 0;
        let found: RecordScan = scan(held, self.max_size);
        proof {
            lemma_scan_first_record(buffered(*buf), self.max_size as nat);
        }
        match found {
            RecordScan::Incomplete => {
                if nothing_held {
                    Err(CodecError::UnexpectedEof)
                } else {
                    Ok(None)
                }
            },
            RecordScan::TooLarge => Err(CodecError::MessageTooLarge),
            RecordScan::Complete { .. } => {
                match read_record(buf) {
                    None => Err(CodecError::UnexpectedEof),
                    Some(record) => match KerberosResponse::from_der(record.as_slice()) {
                        Ok(response) => Ok(Some(response)),
                        Err(e) => Err(CodecError::InvalidData(e)),
                    },
                }
            },
        }
    }

    /// Puts the DER octets of `msg` behind what `buf` holds, as one record
    /// of one fragment. A message over the limit is refused and nothing is
    /// written.
    pub fn encode(&mut self, msg: KerberosRequest, buf: &mut BytesMut) -> (r: Result<
        (),
        CodecError,
    >)
        ensures
            final(self).limit() == old(self).limit(),
            r == encode_spec(request_der(msg@), buffered(*old(buf)), old(self).limit()).0,
            buffered(*final(buf)) == encode_spec(
                request_der(msg@),
                buffered(*old(buf)),
                old(self).limit(),
            ).1,
    {
        let der: Vec<u8> = match msg.to_der() {
            Err(e) => {
                return Err(CodecError::InvalidInput(e));
            },
            Ok(b) => b,
        };
        let held: usize = buffer_bytes(buf).len();
        let room: usize = isize::MAX as usize;
        if der.len() > self.max_size || der.len() > MAX_FRAGMENT_LEN || held > room - 4
            || der.len() > room - 4 - held {
            return Err(CodecError::MessageTooLarge);
        }
        let fragment_size: usize = if der.len() == 0 {
            1
        } else {
            der.len()
        };
        write_record(buf, der.as_slice(), fragment_size);
        Ok(())
    }
}

impl Default for KerberosTcpCodec {
    fn default() -> (r: KerberosTcpCodec)
        ensures
            r.limit() == DEFAULT_IO_MAX_SIZE,
    {
        KerberosTcpCodec { max_size: DEFAULT_IO_MAX_SIZE }
    }
}

} // verus!
