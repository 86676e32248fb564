//! The basic types that the messages are made of, as DER values: integers,
//! octet strings, 7-bit strings, bit strings, sequences and tagged fields.

use crate::asn1::der::{
    encode_forest, lemma_forest_one, encode_tree, forest, lemma_forest_of, no_children, push_child,
    tag_is_constructed, tag_is_short, well_formed, wrap, DerTree, DerValue, MAX_CONTENT_LEN,
};
use vstd::prelude::*;
use vstd::string::StrSliceExecFns;

verus! {

/// The tag of an integer.
pub const TAG_INTEGER: u8 = 0x02;

/// The tag of a bit string.
pub const TAG_BIT_STRING: u8 = 0x03;

/// The tag of an octet string.
pub const TAG_OCTET_STRING: u8 = 0x04;

/// The tag of a time.
pub const TAG_GENERALIZED_TIME: u8 = 0x18;

/// The tag of a string of the protocol.
pub const TAG_GENERAL_STRING: u8 = 0x1b;

/// The tag of a sequence.
pub const TAG_SEQUENCE: u8 = 0x30;

/// The tag of the context-specific field number `n`.
pub open spec fn ctx_tag(n: u8) -> u8 {
    (0xa0 + n) as u8
}

/// The low octet of `v` in two's complement.
pub open spec fn low8(v: int) -> u8 {
    (v % 256) as u8
}

/// `v` without its low octet.
pub open spec fn shr8(v: int) -> int {
    v / 256
}

/// 256 to the power `k`, for `k` up to 8.
pub open spec fn pow256(k: nat) -> int {
    if k == 0 {
        1
    } else if k == 1 {
        0x100
    } else if k == 2 {
        0x1_0000
    } else if k == 3 {
        0x100_0000
    } else if k == 4 {
        0x1_0000_0000
    } else if k == 5 {
        0x100_0000_0000
    } else if k == 6 {
        0x1_0000_0000_0000
    } else if k == 7 {
        0x100_0000_0000_0000
    } else {
        0x1_0000_0000_0000_0000
    }
}

/// `v` fits the two's-complement form of `n` octets.
pub open spec fn fits_octets(v: int, n: nat) -> bool {
    -pow256(n) <= 2 * v < pow256(n)
}

/// Octets that the two's-complement form of `v` needs.
pub open spec fn int_len(v: int) -> nat {
    if fits_octets(v, 1) {
        1
    } else if fits_octets(v, 2) {
        2
    } else if fits_octets(v, 3) {
        3
    } else if fits_octets(v, 4) {
        4
    } else if fits_octets(v, 5) {
        5
    } else if fits_octets(v, 6) {
        6
    } else if fits_octets(v, 7) {
        7
    } else {
        8
    }
}

/// Octet `k` of `v` in two's complement, counted from the low end.
pub open spec fn octet(v: int, k: nat) -> u8
    decreases k,
{
    if k == 0 {
        low8(v)
    } else {
        octet(shr8(v), (k - 1) as nat)
    }
}

/// The content octets of the integer `v`: two's complement, most
/// significant octet first, as short as the value allows.
pub open spec fn int_content(v: int) -> Seq<u8> {
    let n = int_len(v);
    Seq::new(n, |i: int| octet(v, (n - 1 - i) as nat))
}

/// The first `n` octets of `c` read as one unsigned number.
pub open spec fn unsigned_value(c: Seq<u8>, n: nat) -> int
    decreases n,
{
    if n == 0 {
        0
    } else {
        unsigned_value(c, (n - 1) as nat) * 256 + c[n - 1]
    }
}

/// The integer that content octets stand for. Contents of more than eight
/// octets, and contents with an octet that could be left out, stand for
/// none.
pub open spec fn int_value(c: Seq<u8>) -> Option<int> {
    let n = c.len();
    if n == 0 || n > 8 {
        None
    } else if n > 1 && ((c[0] == 0 && c[1] < 0x80) || (c[0] == 0xff && c[1] >= 0x80)) {
        None
    } else if c[0] >= 0x80 {
        Some(unsigned_value(c, n) - pow256(n))
    } else {
        Some(unsigned_value(c, n))
    }
}

/// The octets of `v`, low octet first, add up to `v`.
proof fn lemma_octets(v: int)
    ensures
        v == 256 * shr8(v) + low8(v),
        forall|n: nat| 1 <= n <= 7 ==> (#[trigger] fits_octets(v, n + 1) <==> fits_octets(shr8(v), n)),
        fits_octets(v, 1) <==> (shr8(v) == 0 && low8(v) < 0x80) || (shr8(v) == -1 && low8(v)
            >= 0x80),
{
    assert forall|n: nat| 1 <= n <= 7 implies (#[trigger] fits_octets(v, n + 1) <==> fits_octets(
        shr8(v),
        n,
    )) by {
        assert(pow256(n + 1) == 256 * pow256(n));
    }
}

/// The `n` octets of a number that fits `n` octets stand for it: as an
/// unsigned number they are the number itself or, where it is negative,
/// the number plus 256 to the power `n`; the top octet has its top bit set
/// exactly where the number is negative; and the top octet can be left out
/// exactly where the number fits `n - 1` octets.
proof fn lemma_octets_value(v: int, n: nat)
    requires
        1 <= n <= 8,
        fits_octets(v, n),
    ensures
        ({
            let c = Seq::new(n, |i: int| octet(v, (n - 1 - i) as nat));
            &&& unsigned_value(c, n) == if v < 0 {
                v + pow256(n)
            } else {
                v
            }
            &&& (c[0] >= 0x80 <==> v < 0)
            &&& n > 1 ==> (fits_octets(v, (n - 1) as nat) <==> ((c[0] == 0 && c[1] < 0x80) || (c[0]
                == 0xff && c[1] >= 0x80)))
        }),
    decreases n,
{
    let c = Seq::new(n, |i: int| octet(v, (n - 1 - i) as nat));
    lemma_octets(v);
    if n == 1 {
        assert(c[0] == low8(v));
        assert(unsigned_value(c, 1) == unsigned_value(c, 0) * 256 + c[0]);
    } else {
        let m = (n - 1) as nat;
        let hi = shr8(v);
        let d = Seq::new(m, |i: int| octet(hi, (m - 1 - i) as nat));
        assert(fits_octets(hi, m));
        lemma_octets_value(hi, m);
        assert forall|i: int| 0 <= i < m implies c[i] == d[i] by {
            assert((n - 1 - i) as nat == ((m - 1 - i) as nat) + 1);
        }
        assert(c[n - 1] == low8(v));
        lemma_unsigned_prefix(c, d, m);
        assert(unsigned_value(c, n) == unsigned_value(c, m) * 256 + c[n - 1]);
        assert(pow256(n) == 256 * pow256(m));
        lemma_octets(hi);
        if m == 1 {
            assert(c[1] == low8(v));
            assert(d[0] == low8(hi));
        } else {
            assert(c[1] == d[1]);
            assert(fits_octets(v, m) <==> fits_octets(hi, (m - 1) as nat));
        }
    }
}

/// Sequences that agree on their first `n` octets stand for the same
/// unsigned number there.
proof fn lemma_unsigned_prefix(a: Seq<u8>, b: Seq<u8>, n: nat)
    requires
        forall|i: int| 0 <= i < n ==> a[i] == b[i],
    ensures
        unsigned_value(a, n) == unsigned_value(b, n),
    decreases n,
{
    if n > 0 {
        lemma_unsigned_prefix(a, b, (n - 1) as nat);
    }
}

/// An integer's content octets stand for that integer.
pub proof fn lemma_int_round_trip(v: int)
    requires
        i64::MIN <= v <= i64::MAX,
    ensures
        1 <= int_content(v).len() <= 8,
        int_value(int_content(v)) == Some(v),
{
    let n = int_len(v);
    assert(fits_octets(v, 8));
    lemma_octets_value(v, n);
    if n > 1 {
        assert(!fits_octets(v, (n - 1) as nat));
    }
}

/// The content octets of `v`.
pub fn encode_int(v: i64) -> (out: Vec<u8>)
    ensures
        out@ == int_content(v as int),
{
    let n: usize = if -0x80 <= v && v < 0x80 {
        1
    } else if -0x8000 <= v && v < 0x8000 {
        2
    } else if -0x80_0000 <= v && v < 0x80_0000 {
        3
    } else if -0x8000_0000 <= v && v < 0x8000_0000 {
        4
    } else if -0x80_0000_0000 <= v && v < 0x80_0000_0000 {
        5
    } else if -0x8000_0000_0000 <= v && v < 0x8000_0000_0000 {
        6
    } else if -0x80_0000_0000_0000 <= v && v < 0x80_0000_0000_0000 {
        7
    } else {
        8
    };
    assert(n == int_len(v as int));
    let mut rest: u64 = if v >= 0 {
        v as u64
    } else {
        ((v + 0x7fff_ffff_ffff_ffff) + 1) as u64 + 0x8000_0000_0000_0000u64
    };
    let mut low_first: Vec<u8> = Vec::new();
    let ghost mut shifted: int = v as int;
    let mut k: usize = 0;
    while k < n
        invariant
            k <= n <= 8,
            low_first.len() == k,
            rest == if v >= 0 {
                shifted
            } else {
                shifted + pow256((8 - k) as nat)
            },
            forall|j: nat| #![trigger octet(v as int, j)] k <= j < 8 ==> octet(v as int, j) == octet(shifted, (j - k) as nat),
            forall|j: int| 0 <= j < k ==> low_first[j] == octet(v as int, j as nat),
        decreases n - k,
    {
        assert(pow256((8 - k) as nat) == 256 * pow256((8 - k - 1) as nat));
        assert(octet(v as int, k as nat) == low8(shifted));
        low_first.push((rest % 256) as u8);
        assert forall|j: nat| #![trigger octet(v as int, j)] k + 1 <= j < 8 implies octet(
            v as int,
            j,
        ) == octet(shr8(shifted), (j - (k + 1)) as nat) by {
            assert(octet(v as int, j) == octet(shifted, (j - k) as nat));
        }
        rest = rest / 256;
        proof {
            shifted = shr8(shifted);
        }
        k += 1;
    }
    let mut out: Vec<u8> = Vec::new();
    let mut i: usize = 0;
    while i < n
        invariant
            i <= n,
            low_first.len() == n,
            out.len() == i,
            forall|j: int| 0 <= j < n ==> low_first[j] == octet(v as int, j as nat),
            forall|j: int| 0 <= j < i ==> out[j] == octet(v as int, (n - 1 - j) as nat),
        decreases n - i,
    {
        out.push(low_first[n - 1 - i]);
        i += 1;
    }
    assert(out@ =~= int_content(v as int));
    out
}

/// The integer that the content octets `c` stand for.
pub fn decode_int(c: &[u8]) -> (r: Option<i64>)
    ensures
        match r {
            Some(v) => int_value(c@) == Some(v as int),
            None => int_value(c@) is None,
        },
{
    let n: usize = c.len();
    if n == 0 || n > 8 {
        return None;
    }
    if n > 1 && ((c[0] == 0 && c[1] < 0x80) || (c[0] == 0xff && c[1] >= 0x80)) {
        return None;
    }
    let mut u: u64 = 0;
    let mut i: usize = 0;
    while i < n
        invariant
            i <= n <= 8,
            n == c.len(),
            0 <= u < pow256(i as nat),
            u == unsigned_value(c@, i as nat),
        decreases n - i,
    {
        assert(pow256((i + 1) as nat) == 256 * pow256(i as nat));
        u = u * 256 + c[i] as u64;
        i += 1;
    }
    proof {
        lemma_unsigned_top(c@, n as nat);
    }
    if c[0] >= 0x80 {
        if n == 8 {
            Some(((u - 0x8000_0000_0000_0000u64) as i64 - 0x7fff_ffff_ffff_ffff) - 1)
        } else {
            let mut span: u64 = 1;
            let mut j: usize = 0;
            while j < n
                invariant
                    j <= n < 8,
                    span == pow256(j as nat),
                decreases n - j,
            {
                span = span * 256;
                j += 1;
            }
            Some(u as i64 - span as i64)
        }
    } else {
        Some(u as i64)
    }
}

/// The unsigned number of `n` octets is at least the top octet's share of
/// it and less than one more than that.
proof fn lemma_unsigned_top(c: Seq<u8>, n: nat)
    requires
        1 <= n <= 8,
        n <= c.len(),
    ensures
        c[0] * pow256((n - 1) as nat) <= unsigned_value(c, n) < (c[0] + 1) * pow256(
            (n - 1) as nat,
        ),
    decreases n,
{
    if n == 1 {
        assert(unsigned_value(c, 1) == unsigned_value(c, 0) * 256 + c[0]);
    } else {
        lemma_unsigned_top(c, (n - 1) as nat);
        assert(pow256((n - 1) as nat) == 256 * pow256((n - 2) as nat));
        let p = pow256((n - 2) as nat);
        let u = unsigned_value(c, (n - 1) as nat);
        let top = c[0] as int;
        assert(top * (256 * p) == 256 * (top * p)) by (nonlinear_arith);
        assert((top + 1) * (256 * p) == 256 * ((top + 1) * p)) by (nonlinear_arith);
    }
}

/// The content octets of a string of 7-bit characters.
pub open spec fn string_content(s: Seq<char>) -> Seq<u8> {
    Seq::new(s.len(), |i: int| s[i] as u8)
}

/// Every octet is a 7-bit character.
pub open spec fn content_is_ia5(b: Seq<u8>) -> bool {
    forall|i: int| 0 <= i < b.len() ==> #[trigger] b[i] < 128
}

/// The characters that content octets stand for.
pub open spec fn content_string(b: Seq<u8>) -> Seq<char> {
    Seq::new(b.len(), |i: int| b[i] as char)
}

/// The content of a 7-bit string stands for that string.
pub proof fn lemma_string_round_trip(s: Seq<char>)
    requires
        vstd::utf8::is_ascii_chars(s),
    ensures
        content_is_ia5(string_content(s)),
        content_string(string_content(s)) == s,
{
    assert forall|i: int| 0 <= i < s.len() implies (#[trigger] string_content(s)[i]) < 128 && (
    string_content(s)[i] as char) == s[i] by {
        let c = s[i];
        assert('\0' <= c <= '\u{7f}');
    }
    assert(content_string(string_content(s)) =~= s);
}

/// The octets of `s`, where all of its characters are 7-bit characters.
pub fn ia5_bytes(s: &str) -> (r: Option<Vec<u8>>)
    ensures
        match r {
            Some(b) => vstd::utf8::is_ascii_chars(s@) && b@ == string_content(s@),
            None => !vstd::utf8::is_ascii_chars(s@),
        },
{
    if s.is_ascii() {
        let b = s.as_bytes_vec();
        assert(b@ =~= string_content(s@));
        Some(b)
    } else {
        None
    }
}

/// `String::from_utf8` of std, on octets below 128. Such octets are valid
/// UTF-8 in which every octet is one character with the octet's number, so
/// a string always comes back, and it holds those characters.
#[verifier::external_body]
fn string_from_ascii(bytes: Vec<u8>) -> (r: Option<String>)
    requires
        content_is_ia5(bytes@),
    ensures
        r is Some,
        r->0@ == content_string(bytes@),
{
    String::from_utf8(bytes).ok()
}

/// The string that the octets `b` stand for, where all are 7-bit characters.
pub fn ia5_string(b: &[u8]) -> (r: Option<String>)
    ensures
        match r {
            Some(s) => content_is_ia5(b@) && s@ == content_string(b@),
            None => !content_is_ia5(b@),
        },
{
    let mut copy: Vec<u8> = Vec::new();
    let mut i: usize = 0;
    while i < b.len()
        invariant
            i <= b.len(),
            copy@ == b@.subrange(0, i as int),
            content_is_ia5(copy@),
        decreases b.len() - i,
    {
        if b[i] >= 128 {
            return None;
        }
        copy.push(b[i]);
        assert(copy@ =~= b@.subrange(0, i + 1));
        i += 1;
    }
    assert(copy@ =~= b@);
    string_from_ascii(copy)
}

/// The value of an integer.
pub open spec fn t_int(v: int) -> DerTree {
    DerTree::Primitive { tag: TAG_INTEGER, content: int_content(v) }
}

/// The value of an octet string.
pub open spec fn t_octets(b: Seq<u8>) -> DerTree {
    DerTree::Primitive { tag: TAG_OCTET_STRING, content: b }
}

/// The value of a 7-bit string.
pub open spec fn t_string(s: Seq<char>) -> DerTree {
    DerTree::Primitive { tag: TAG_GENERAL_STRING, content: string_content(s) }
}

/// A bit string of whole octets.
pub open spec fn t_bits(b: Seq<u8>) -> DerTree {
    DerTree::Primitive { tag: TAG_BIT_STRING, content: seq![0u8] + b }
}

/// The sequence of the given values.
pub open spec fn t_seq(children: Seq<DerTree>) -> DerTree {
    DerTree::Constructed { tag: TAG_SEQUENCE, children }
}

/// `inner` under an explicit tag.
pub open spec fn t_wrap(tag: u8, inner: DerTree) -> DerTree {
    DerTree::Constructed { tag, children: seq![inner] }
}

/// The tag of a value.
pub open spec fn tag_of(t: DerTree) -> u8 {
    match t {
        DerTree::Primitive { tag, .. } => tag,
        DerTree::Constructed { tag, .. } => tag,
    }
}

/// The content of a primitive value with the given tag.
pub open spec fn as_primitive(t: DerTree, tag: u8) -> Option<Seq<u8>> {
    match t {
        DerTree::Primitive { tag: found, content } => if found == tag {
            Some(content)
        } else {
            None
        },
        DerTree::Constructed { .. } => None,
    }
}

/// The integer that a value holds, where it holds one.
pub open spec fn as_int(t: DerTree) -> Option<int> {
    match as_primitive(t, TAG_INTEGER) {
        Some(c) => int_value(c),
        None => None,
    }
}

/// The octets that a value holds, where it is an octet string.
pub open spec fn as_octets(t: DerTree) -> Option<Seq<u8>> {
    as_primitive(t, TAG_OCTET_STRING)
}

/// The 7-bit string that a value holds, where it holds one.
pub open spec fn as_string(t: DerTree) -> Option<Seq<char>> {
    match as_primitive(t, TAG_GENERAL_STRING) {
        Some(c) => if content_is_ia5(c) {
            Some(content_string(c))
        } else {
            None
        },
        None => None,
    }
}

/// The children of a constructed value with the given tag.
pub open spec fn as_constructed(t: DerTree, tag: u8) -> Option<Seq<DerTree>> {
    match t {
        DerTree::Constructed { tag: found, children } => if found == tag {
            Some(children)
        } else {
            None
        },
        DerTree::Primitive { .. } => None,
    }
}

/// The values of a sequence.
pub open spec fn as_seq(t: DerTree) -> Option<Seq<DerTree>> {
    as_constructed(t, TAG_SEQUENCE)
}

/// The one value under an explicit tag.
pub open spec fn as_wrapped(t: DerTree, tag: u8) -> Option<DerTree> {
    match as_constructed(t, tag) {
        Some(children) => if children.len() == 1 {
            Some(children[0])
        } else {
            None
        },
        None => None,
    }
}

/// Takes field number `n` from the front of the fields that are left of a
/// sequence: the field's value, if it is next, and the fields after it.
pub open spec fn take_field(fs: Seq<DerTree>, n: u8) -> (Option<DerTree>, Seq<DerTree>) {
    if fs.len() > 0 && as_wrapped(fs[0], ctx_tag(n)) is Some {
        (as_wrapped(fs[0], ctx_tag(n)), fs.skip(1))
    } else {
        (None, fs)
    }
}

/// The fields of a sequence that an optional field number `n` adds.
pub open spec fn opt_field(n: u8, value: Option<DerTree>) -> Seq<DerTree> {
    match value {
        Some(t) => seq![t_wrap(ctx_tag(n), t)],
        None => Seq::empty(),
    }
}

/// No field numbered `n` or below is next in `fs`.
pub open spec fn starts_above(fs: Seq<DerTree>, n: u8) -> bool {
    fs.len() == 0 || tag_of(fs[0]) > ctx_tag(n)
}

/// Taking a field that was put, or left out, at the front of the fields
/// gives it back, or nothing, and leaves the rest.
pub proof fn lemma_take_field(n: u8, value: Option<DerTree>, rest: Seq<DerTree>)
    requires
        n <= 30,
        starts_above(rest, n),
    ensures
        take_field(opt_field(n, value) + rest, n) == (value, rest),
        n > 0 ==> starts_above(opt_field(n, value) + rest, (n - 1) as u8),
{
    let fs = opt_field(n, value) + rest;
    match value {
        Some(t) => {
            assert(fs[0] == t_wrap(ctx_tag(n), t));
            assert(fs.skip(1) =~= rest);
        },
        None => {
            assert(fs =~= rest);
        },
    }
}

/// Where no field numbered `n` or below is next, field `n` is not there.
pub proof fn lemma_take_absent(n: u8, rest: Seq<DerTree>)
    requires
        n <= 30,
        starts_above(rest, n),
    ensures
        take_field(rest, n) == (None::<DerTree>, rest),
{
}

/// The value of the integer `v`.
pub fn int_value_of(v: i64) -> (out: DerValue)
    ensures
        out@ == t_int(v as int),
{
    DerValue::primitive(TAG_INTEGER, encode_int(v))
}

/// The value of the octet string `b`.
pub fn octets_value_of(b: Vec<u8>) -> (out: DerValue)
    ensures
        out@ == t_octets(b@),
{
    DerValue::primitive(TAG_OCTET_STRING, b)
}

/// The value of a 7-bit string, or `None` where `s` holds another character.
pub fn string_value_of(s: &str) -> (r: Option<DerValue>)
    ensures
        match r {
            Some(out) => vstd::utf8::is_ascii_chars(s@) && out@ == t_string(s@),
            None => !vstd::utf8::is_ascii_chars(s@),
        },
{
    match ia5_bytes(s) {
        Some(b) => Some(DerValue::primitive(TAG_GENERAL_STRING, b)),
        None => None,
    }
}

/// The sequence of the values `children`.
pub fn seq_value_of(children: Vec<DerValue>) -> (out: DerValue)
    ensures
        out@ == t_seq(forest(children)),
{
    DerValue::constructed(TAG_SEQUENCE, children)
}

/// Puts `inner` under an explicit tag.
pub fn wrap_value(tag: u8, inner: DerValue) -> (out: DerValue)
    ensures
        out@ == t_wrap(tag, inner@),
{
    let ghost tree = inner@;
    let mut children: Vec<DerValue> = no_children();
    push_child(&mut children, inner);
    assert(forest(children) =~= seq![tree]);
    DerValue::constructed(tag, children)
}

/// Appends field number `n` with the value `inner`.
pub fn push_field(fields: &mut Vec<DerValue>, n: u8, inner: DerValue)
    requires
        n <= 30,
    ensures
        forest(*final(fields)) == forest(*old(fields)) + opt_field(n, Some(inner@)),
{
    let ghost before = forest(*fields);
    let ghost tree = inner@;
    push_child(fields, wrap_value(0xa0 + n, inner));
    assert(forest(*fields) =~= before + opt_field(n, Some(tree)));
}

/// The tree of a value that may be absent.
pub open spec fn opt_tree(v: Option<&DerValue>) -> Option<DerTree> {
    match v {
        Some(x) => Some(x@),
        None => None,
    }
}

/// The content of `v`, where `v` is a primitive value tagged `tag`.
pub fn read_primitive(v: &DerValue, tag: u8) -> (r: Option<&Vec<u8>>)
    ensures
        match r {
            Some(c) => as_primitive(v@, tag) == Some(c@),
            None => as_primitive(v@, tag) is None,
        },
{
    match v {
        DerValue::Primitive { tag: found, content } => {
            if *found == tag {
                Some(content)
            } else {
                None
            }
        },
        DerValue::Constructed { .. } => None,
    }
}

/// The integer that `v` holds, where it holds one that fits 64 bits.
pub fn read_int(v: &DerValue) -> (r: Option<i64>)
    ensures
        match r {
            Some(x) => as_int(v@) == Some(x as int),
            None => as_int(v@) is None,
        },
{
    match read_primitive(v, TAG_INTEGER) {
        Some(c) => decode_int(c.as_slice()),
        None => None,
    }
}

/// The octets that `v` holds, where it is an octet string.
pub fn read_octets(v: &DerValue) -> (r: Option<&Vec<u8>>)
    ensures
        match r {
            Some(c) => as_octets(v@) == Some(c@),
            None => as_octets(v@) is None,
        },
{
    read_primitive(v, TAG_OCTET_STRING)
}

/// The 7-bit string that `v` holds, where it holds one.
pub fn read_string(v: &DerValue) -> (r: Option<String>)
    ensures
        match r {
            Some(s) => as_string(v@) == Some(s@),
            None => as_string(v@) is None,
        },
{
    match read_primitive(v, TAG_GENERAL_STRING) {
        Some(c) => ia5_string(c.as_slice()),
        None => None,
    }
}

/// The children of `v`, where `v` is a constructed value tagged `tag`.
pub fn read_constructed(v: &DerValue, tag: u8) -> (r: Option<&Vec<DerValue>>)
    ensures
        match r {
            Some(cs) => as_constructed(v@, tag) == Some(forest(*cs)),
            None => as_constructed(v@, tag) is None,
        },
{
    match v {
        DerValue::Constructed { tag: found, children } => {
            if *found == tag {
                Some(children)
            } else {
                None
            }
        },
        DerValue::Primitive { .. } => None,
    }
}

/// The values of `v`, where `v` is a sequence.
pub fn read_seq(v: &DerValue) -> (r: Option<&Vec<DerValue>>)
    ensures
        match r {
            Some(cs) => as_seq(v@) == Some(forest(*cs)),
            None => as_seq(v@) is None,
        },
{
    read_constructed(v, TAG_SEQUENCE)
}

/// The one value under the explicit tag `tag`, where `v` is such a value.
pub fn read_wrapped(v: &DerValue, tag: u8) -> (r: Option<&DerValue>)
    ensures
        opt_tree(r) == as_wrapped(v@, tag),
{
    match read_constructed(v, tag) {
        Some(cs) => {
            if cs.len() == 1 {
                proof {
                    lemma_forest_of(*cs, 1);
                }
                Some(&cs[0])
            } else {
                proof {
                    lemma_forest_of(*cs, cs.len() as nat);
                }
                None
            }
        },
        None => None,
    }
}

/// Takes field number `n` where it is next at `pos`: its value, if it is
/// there, and the place of the field after it.
pub fn next_field(children: &Vec<DerValue>, pos: usize, n: u8) -> (r: (Option<&DerValue>, usize))
    requires
        pos <= children.len(),
        n <= 30,
    ensures
        pos <= r.1 <= children.len(),
        take_field(forest(*children).skip(pos as int), n) == (
            opt_tree(r.0),
            forest(*children).skip(r.1 as int),
        ),
{
    proof {
        lemma_forest_of(*children, children.len() as nat);
    }
    if pos < children.len() {
        let found = read_wrapped(&children[pos], 0xa0 + n);
        assert(forest(*children).skip(pos as int)[0] == children[pos as int]@);
        match found {
            Some(inner) => {
                assert(forest(*children).skip(pos as int).skip(1) =~= forest(*children).skip(
                    pos + 1,
                ));
                (Some(inner), pos + 1)
            },
            None => (None, pos),
        }
    } else {
        (None, pos)
    }
}

/// The encoding of a value is at most six octets longer than its content.
pub proof fn lemma_wrap_len(tag: u8, content: Seq<u8>)
    requires
        content.len() <= MAX_CONTENT_LEN,
    ensures
        content.len() + 2 <= wrap(tag, content).len() <= content.len() + 6,
{
}

/// A value under an explicit tag is well formed where the value is, and
/// its encoding is at most six octets longer.
pub proof fn lemma_wrapped_well_formed(tag: u8, inner: DerTree, depth: nat)
    requires
        tag_is_short(tag),
        tag_is_constructed(tag),
        depth > 0,
        well_formed(inner, (depth - 1) as nat),
        encode_tree(inner).len() <= MAX_CONTENT_LEN,
    ensures
        well_formed(t_wrap(tag, inner), depth),
        encode_tree(t_wrap(tag, inner)) == wrap(tag, encode_tree(inner)),
        encode_tree(t_wrap(tag, inner)).len() <= encode_tree(inner).len() + 6,
{
    lemma_forest_one(inner);
    lemma_wrap_len(tag, encode_tree(inner));
}

} // verus!
