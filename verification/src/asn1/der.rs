//! DER values as trees, and their one encoding as bytes.
//!
//! A value is a tag byte, a length in the shortest form, and a content
//! that is either raw bytes or, where the tag says "constructed", the
//! encodings of its children one after another. Tags of more than one byte
//! and lengths of more than four bytes are not used by the protocol and
//! are not accepted.

use vstd::prelude::*;
use vstd::slice::slice_subrange;

verus! {

/// Deepest nesting of values that is encoded or parsed.
pub const MAX_DEPTH: usize = 32;

/// Longest content of one value, in bytes.
pub const MAX_CONTENT_LEN: usize = 0x7fff_ffff;

/// A DER value as the program holds it.
#[derive(Debug, PartialEq, Eq)]
pub enum DerValue {
    Primitive { tag: u8, content: Vec<u8> },
    Constructed { tag: u8, children: Vec<DerValue> },
}

/// A DER value as contracts speak of it.
pub ghost enum DerTree {
    Primitive { tag: u8, content: Seq<u8> },
    Constructed { tag: u8, children: Seq<DerTree> },
}

/// The tree that a value stands for.
pub open spec fn tree_of(v: DerValue) -> DerTree
    decreases v, 0nat,
{
    match v {
        DerValue::Primitive { tag, content } => DerTree::Primitive { tag, content: content@ },
        DerValue::Constructed { tag, children } => DerTree::Constructed {
            tag,
            children: forest_of(children, children.len() as nat),
        },
    }
}

/// The trees of the first `n` values of `vs`.
pub open spec fn forest_of(vs: Vec<DerValue>, n: nat) -> Seq<DerTree>
    decreases vs, n,
{
    if n == 0 || n > vs.len() {
        Seq::empty()
    } else {
        forest_of(vs, (n - 1) as nat).push(tree_of(vs[n - 1]))
    }
}

impl View for DerValue {
    type V = DerTree;

    open spec fn view(&self) -> DerTree {
        tree_of(*self)
    }
}

/// The tag fits in one byte.
pub open spec fn tag_is_short(tag: u8) -> bool {
    tag % 32 != 31
}

/// The tag announces nested values.
pub open spec fn tag_is_constructed(tag: u8) -> bool {
    (tag / 32) % 2 == 1
}

/// The length octets of a content of `n` bytes.
pub open spec fn der_len(n: nat) -> Seq<u8> {
    if n < 0x80 {
        seq![n as u8]
    } else if n < 0x100 {
        seq![0x81u8, n as u8]
    } else if n < 0x1_0000 {
        seq![0x82u8, (n / 0x100) as u8, (n % 0x100) as u8]
    } else if n < 0x100_0000 {
        seq![0x83u8, (n / 0x1_0000) as u8, ((n / 0x100) % 0x100) as u8, (n % 0x100) as u8]
    } else {
        seq![
            0x84u8,
            ((n / 0x100_0000) % 0x100) as u8,
            ((n / 0x1_0000) % 0x100) as u8,
            ((n / 0x100) % 0x100) as u8,
            (n % 0x100) as u8,
        ]
    }
}

/// Tag, length octets and content put together.
pub open spec fn wrap(tag: u8, content: Seq<u8>) -> Seq<u8> {
    seq![tag] + der_len(content.len()) + content
}

/// The DER encoding of a tree.
pub open spec fn encode_tree(t: DerTree) -> Seq<u8>
    decreases t, 0nat,
{
    match t {
        DerTree::Primitive { tag, content } => wrap(tag, content),
        DerTree::Constructed { tag, children } => wrap(tag, encode_forest(children, 0)),
    }
}

/// The encodings of `ts[i..]`, one after another.
pub open spec fn encode_forest(ts: Seq<DerTree>, i: nat) -> Seq<u8>
    decreases ts, ts.len() - i,
{
    if i >= ts.len() {
        Seq::empty()
    } else {
        encode_tree(ts[i as int]) + encode_forest(ts, i + 1)
    }
}

/// The tree can be encoded and read back: tags fit one byte and agree with
/// the kind of content, no content is longer than `MAX_CONTENT_LEN`, and
/// values nest at most `depth` deep below this one.
pub open spec fn well_formed(t: DerTree, depth: nat) -> bool
    decreases t,
{
    match t {
        DerTree::Primitive { tag, content } => {
            &&& tag_is_short(tag)
            &&& !tag_is_constructed(tag)
            &&& content.len() <= MAX_CONTENT_LEN
        },
        DerTree::Constructed { tag, children } => {
            &&& tag_is_short(tag)
            &&& tag_is_constructed(tag)
            &&& depth > 0
            &&& encode_forest(children, 0).len() <= MAX_CONTENT_LEN
            &&& forall|i: int|
                0 <= i < children.len() ==> well_formed(#[trigger] children[i], (depth - 1) as nat)
        },
    }
}

/// Reads length octets at the start of `b`: the length and the number of
/// octets read. Only the shortest form of a length is accepted.
pub open spec fn parse_len(b: Seq<u8>) -> Option<(nat, nat)> {
    if b.len() == 0 {
        None
    } else if b[0] < 0x80 {
        Some((b[0] as nat, 1))
    } else if b[0] == 0x81 {
        if b.len() >= 2 && b[1] >= 0x80 {
            Some((b[1] as nat, 2))
        } else {
            None
        }
    } else if b[0] == 0x82 {
        if b.len() >= 3 && b[1] != 0 {
            Some(((b[1] * 0x100 + b[2]) as nat, 3))
        } else {
            None
        }
    } else if b[0] == 0x83 {
        if b.len() >= 4 && b[1] != 0 {
            Some(((b[1] * 0x1_0000 + b[2] * 0x100 + b[3]) as nat, 4))
        } else {
            None
        }
    } else if b[0] == 0x84 {
        if b.len() >= 5 && b[1] != 0 && b[1] < 0x80 {
            Some(((b[1] * 0x100_0000 + b[2] * 0x1_0000 + b[3] * 0x100 + b[4]) as nat, 5))
        } else {
            None
        }
    } else {
        None
    }
}

/// Reads one value at the start of `b`: the value and the number of bytes
/// it takes. Values may nest `depth` deep below it.
pub open spec fn parse_tree(b: Seq<u8>, depth: nat) -> Option<(DerTree, nat)>
    decreases depth, b.len(), 0nat,
{
    if b.len() < 2 || !tag_is_short(b[0]) {
        None
    } else {
        match parse_len(b.skip(1)) {
            None => None,
            Some((len, used)) => {
                let start = 1 + used;
                if b.len() < start + len {
                    None
                } else {
                    let content = b.subrange(start as int, (start + len) as int);
                    if !tag_is_constructed(b[0]) {
                        Some((DerTree::Primitive { tag: b[0], content }, start + len))
                    } else if depth == 0 {
                        None
                    } else {
                        match parse_forest(content, (depth - 1) as nat) {
                            None => None,
                            Some(children) => Some(
                                (DerTree::Constructed { tag: b[0], children }, start + len),
                            ),
                        }
                    }
                }
            },
        }
    }
}

/// Reads values from `b` until it is used up.
pub open spec fn parse_forest(b: Seq<u8>, depth: nat) -> Option<Seq<DerTree>>
    decreases depth, b.len(), 1nat,
{
    if b.len() == 0 {
        Some(Seq::empty())
    } else {
        match parse_tree(b, depth) {
            None => None,
            Some((t, used)) => {
                if used == 0 || used > b.len() {
                    None
                } else {
                    match parse_forest(b.skip(used as int), depth) {
                        None => None,
                        Some(rest) => Some(seq![t] + rest),
                    }
                }
            },
        }
    }
}

/// Reads `b` as exactly one value.
pub open spec fn parse_der(b: Seq<u8>) -> Option<DerTree> {
    match parse_tree(b, MAX_DEPTH as nat) {
        Some((t, used)) => if used == b.len() {
            Some(t)
        } else {
            None
        },
        None => None,
    }
}

/// Length octets are read back as the length they were written for.
pub proof fn lemma_der_len(n: nat, rest: Seq<u8>)
    requires
        n <= MAX_CONTENT_LEN,
    ensures
        1 <= der_len(n).len() <= 5,
        parse_len(der_len(n) + rest) == Some((n, der_len(n).len())),
{
    let b = der_len(n) + rest;
    if n < 0x80 {
        assert(b[0] == n as u8);
    } else if n < 0x100 {
        assert(b[0] == 0x81u8 && b[1] == n as u8);
    } else if n < 0x1_0000 {
        assert(b[0] == 0x82u8 && b[1] == (n / 0x100) as u8 && b[2] == (n % 0x100) as u8);
    } else if n < 0x100_0000 {
        assert(b[0] == 0x83u8 && b[1] == (n / 0x1_0000) as u8 && b[2] == ((n / 0x100)
            % 0x100) as u8 && b[3] == (n % 0x100) as u8);
    } else {
        assert(b[0] == 0x84u8 && b[1] == ((n / 0x100_0000) % 0x100) as u8 && b[2] == ((n
            / 0x1_0000) % 0x100) as u8 && b[3] == ((n / 0x100) % 0x100) as u8 && b[4] == (n
            % 0x100) as u8);
    }
}

/// What `wrap` puts together comes apart again.
pub proof fn lemma_wrap(tag: u8, content: Seq<u8>, rest: Seq<u8>)
    requires
        content.len() <= MAX_CONTENT_LEN,
    ensures
        wrap(tag, content).len() == 1 + der_len(content.len()).len() + content.len(),
        (wrap(tag, content) + rest)[0] == tag,
        parse_len((wrap(tag, content) + rest).skip(1)) == Some(
            (content.len(), der_len(content.len()).len()),
        ),
        (wrap(tag, content) + rest).subrange(
            (1 + der_len(content.len()).len()) as int,
            (1 + der_len(content.len()).len() + content.len()) as int,
        ) == content,
        (wrap(tag, content) + rest).skip(wrap(tag, content).len() as int) == rest,
{
    let n = content.len();
    let b = wrap(tag, content) + rest;
    lemma_der_len(n, content + rest);
    assert(b.skip(1) =~= der_len(n) + (content + rest));
    assert(b.subrange((1 + der_len(n).len()) as int, (1 + der_len(n).len() + n) as int) =~= content);
    assert(b.skip(wrap(tag, content).len() as int) =~= rest);
}

/// Parsing the encoding of a well-formed tree, whatever follows it, gives
/// the tree back and stops where its encoding ends.
pub proof fn lemma_parse_encode_tree(t: DerTree, rest: Seq<u8>, depth: nat)
    requires
        well_formed(t, depth),
    ensures
        encode_tree(t).len() >= 2,
        parse_tree(encode_tree(t) + rest, depth) == Some((t, encode_tree(t).len())),
    decreases t, 0nat,
{
    match t {
        DerTree::Primitive { tag, content } => {
            lemma_wrap(tag, content, rest);
        },
        DerTree::Constructed { tag, children } => {
            let body = encode_forest(children, 0);
            lemma_wrap(tag, body, rest);
            lemma_parse_encode_forest(children, 0, (depth - 1) as nat);
            assert(children.skip(0) =~= children);
        },
    }
}

/// Parsing the encodings of well-formed trees gives the trees back.
pub proof fn lemma_parse_encode_forest(ts: Seq<DerTree>, i: nat, depth: nat)
    requires
        i <= ts.len(),
        forall|k: int| 0 <= k < ts.len() ==> well_formed(#[trigger] ts[k], depth),
    ensures
        parse_forest(encode_forest(ts, i), depth) == Some(ts.skip(i as int)),
    decreases ts, ts.len() - i,
{
    if i >= ts.len() {
        assert(ts.skip(i as int) =~= Seq::<DerTree>::empty());
    } else {
        let head = encode_tree(ts[i as int]);
        let tail = encode_forest(ts, i + 1);
        lemma_parse_encode_tree(ts[i as int], tail, depth);
        lemma_parse_encode_forest(ts, i + 1, depth);
        assert((head + tail).skip(head.len() as int) =~= tail);
        assert(seq![ts[i as int]] + ts.skip((i + 1) as int) =~= ts.skip(i as int));
    }
}

/// Reading back what was encoded gives the value that was encoded.
pub proof fn lemma_parse_der_encode(t: DerTree)
    requires
        well_formed(t, MAX_DEPTH as nat),
    ensures
        parse_der(encode_tree(t)) == Some(t),
{
    lemma_parse_encode_tree(t, Seq::empty(), MAX_DEPTH as nat);
    assert(encode_tree(t) + Seq::<u8>::empty() =~= encode_tree(t));
}

/// The encodings of two lists, one after the other, encode the joined list.
pub proof fn lemma_forest_concat(xs: Seq<DerTree>, ys: Seq<DerTree>, i: nat)
    requires
        i <= xs.len(),
    ensures
        encode_forest(xs + ys, i) == encode_forest(xs, i) + encode_forest(ys, 0),
    decreases xs.len() - i,
{
    if i < xs.len() {
        lemma_forest_concat(xs, ys, i + 1);
        assert((xs + ys)[i as int] == xs[i as int]);
        assert(encode_forest(xs + ys, i) =~= encode_forest(xs, i) + encode_forest(ys, 0));
    } else {
        lemma_forest_shift(xs, ys, 0);
        assert(encode_forest(xs, i) =~= Seq::<u8>::empty());
        assert(encode_forest(xs + ys, i) =~= encode_forest(xs, i) + encode_forest(ys, 0));
    }
}

/// Encoding a list from a place behind a prefix is encoding the rest alone.
proof fn lemma_forest_shift(xs: Seq<DerTree>, ys: Seq<DerTree>, j: nat)
    requires
        j <= ys.len(),
    ensures
        encode_forest(xs + ys, xs.len() + j) == encode_forest(ys, j),
    decreases ys.len() - j,
{
    if j < ys.len() {
        lemma_forest_shift(xs, ys, j + 1);
        assert((xs + ys)[(xs.len() + j) as int] == ys[j as int]);
    }
}

/// A list of one value is encoded as that value.
pub proof fn lemma_forest_one(a: DerTree)
    ensures
        encode_forest(seq![a], 0) == encode_tree(a),
{
    reveal_with_fuel(encode_forest, 3);
    assert(encode_forest(seq![a], 0) =~= encode_tree(a));
}

/// Length octets that are accepted are the length octets of the length
/// they are read as: no length has two forms.
pub proof fn lemma_parse_len_canonical(b: Seq<u8>)
    requires
        parse_len(b) is Some,
    ensures
        ({
            let (len, used) = parse_len(b)->0;
            &&& len <= MAX_CONTENT_LEN
            &&& used <= b.len()
            &&& der_len(len) == b.subrange(0, used as int)
        }),
{
    let (len, used) = parse_len(b)->0;
    assert(der_len(len) =~= b.subrange(0, used as int));
}

/// A value is parsed only from its own encoding: where bytes parse as a
/// value, the value is well formed and the bytes that were taken are its
/// encoding. So no value has two encodings that are accepted.
pub proof fn lemma_encode_parse_tree(b: Seq<u8>, depth: nat)
    requires
        parse_tree(b, depth) is Some,
    ensures
        ({
            let (t, used) = parse_tree(b, depth)->0;
            &&& used <= b.len()
            &&& well_formed(t, depth)
            &&& encode_tree(t) == b.subrange(0, used as int)
        }),
    decreases depth, b.len(), 0nat,
{
    let tail = b.skip(1);
    lemma_parse_len_canonical(tail);
    let (len, used) = parse_len(tail)->0;
    let start = 1 + used;
    let content = b.subrange(start as int, (start + len) as int);
    assert(tail.subrange(0, used as int) =~= b.subrange(1, start as int));
    if tag_is_constructed(b[0]) {
        lemma_encode_parse_forest(content, (depth - 1) as nat);
    }
    assert(seq![b[0]] + b.subrange(1, start as int) + content =~= b.subrange(
        0,
        (start + len) as int,
    ));
}

/// A list of values is parsed only from the encodings of its values, one
/// after another.
pub proof fn lemma_encode_parse_forest(b: Seq<u8>, depth: nat)
    requires
        parse_forest(b, depth) is Some,
    ensures
        ({
            let ts = parse_forest(b, depth)->0;
            &&& forall|i: int| 0 <= i < ts.len() ==> well_formed(#[trigger] ts[i], depth)
            &&& encode_forest(ts, 0) == b
        }),
    decreases depth, b.len(), 1nat,
{
    if b.len() == 0 {
        assert(encode_forest(Seq::<DerTree>::empty(), 0) =~= b);
    } else {
        lemma_encode_parse_tree(b, depth);
        let (t, used) = parse_tree(b, depth)->0;
        let rest_bytes = b.skip(used as int);
        lemma_encode_parse_forest(rest_bytes, depth);
        let rest = parse_forest(rest_bytes, depth)->0;
        let ts = seq![t] + rest;
        lemma_forest_concat(seq![t], rest, 0);
        lemma_forest_one(t);
        assert(b.subrange(0, used as int) + rest_bytes =~= b);
        assert forall|i: int| 0 <= i < ts.len() implies well_formed(#[trigger] ts[i], depth) by {
            if i > 0 {
                assert(ts[i] == rest[i - 1]);
            }
        }
    }
}

/// Bytes that are read as a value are that value's encoding.
pub proof fn lemma_encode_parse_der(b: Seq<u8>)
    requires
        parse_der(b) is Some,
    ensures
        well_formed(parse_der(b)->0, MAX_DEPTH as nat),
        encode_tree(parse_der(b)->0) == b,
{
    lemma_encode_parse_tree(b, MAX_DEPTH as nat);
    assert(b.subrange(0, b.len() as int) =~= b);
}

/// The trees of all values of `vs`.
pub open spec fn forest(vs: Vec<DerValue>) -> Seq<DerTree> {
    forest_of(vs, vs.len() as nat)
}

/// `forest_of` takes the values one by one, in order.
pub proof fn lemma_forest_of(vs: Vec<DerValue>, n: nat)
    requires
        n <= vs.len(),
    ensures
        forest_of(vs, n).len() == n,
        forall|k: int| 0 <= k < n ==> (#[trigger] forest_of(vs, n)[k]) == tree_of(vs[k]),
    decreases n,
{
    if n > 0 {
        lemma_forest_of(vs, (n - 1) as nat);
    }
}

/// Appends a value to a list of children.
pub fn push_child(vs: &mut Vec<DerValue>, v: DerValue)
    ensures
        forest(*final(vs)) == forest(*old(vs)).push(v@),
        final(vs).len() == old(vs).len() + 1,
{
    let ghost before = *vs;
    vs.push(v);
    proof {
        lemma_forest_of(before, before.len() as nat);
        lemma_forest_of(*vs, vs.len() as nat);
        assert(forest(*vs) =~= forest(before).push(v@));
    }
}

/// A list of no children.
pub fn no_children() -> (vs: Vec<DerValue>)
    ensures
        forest(vs) == Seq::<DerTree>::empty(),
        vs.len() == 0,
{
    Vec::new()
}

fn put_len(out: &mut Vec<u8>, n: usize)
    requires
        n <= MAX_CONTENT_LEN,
    ensures
        final(out)@ == old(out)@ + der_len(n as nat),
{
    let ghost before = out@;
    if n < 0x80 {
        out.push(n as u8);
    } else if n < 0x100 {
        out.push(0x81u8);
        out.push(n as u8);
    } else if n < 0x1_0000 {
        out.push(0x82u8);
        out.push((n / 0x100) as u8);
        out.push((n % 0x100) as u8);
    } else if n < 0x100_0000 {
        out.push(0x83u8);
        out.push((n / 0x1_0000) as u8);
        out.push(((n / 0x100) % 0x100) as u8);
        out.push((n % 0x100) as u8);
    } else {
        out.push(0x84u8);
        out.push(((n / 0x100_0000) % 0x100) as u8);
        out.push(((n / 0x1_0000) % 0x100) as u8);
        out.push(((n / 0x100) % 0x100) as u8);
        out.push((n % 0x100) as u8);
    }
    assert(out@ =~= before + der_len(n as nat));
}

/// Puts a tag and length octets before `content`.
pub fn wrap_bytes(tag: u8, content: &[u8]) -> (out: Vec<u8>)
    requires
        content.len() <= MAX_CONTENT_LEN,
    ensures
        out@ == wrap(tag, content@),
{
    let mut out: Vec<u8> = Vec::new();
    out.push(tag);
    put_len(&mut out, content.len());
    out.extend_from_slice(content);
    assert(out@ =~= wrap(tag, content@));
    out
}

#[verifier::loop_isolation(false)]
fn encode_value(v: &DerValue, depth: usize) -> (r: Option<Vec<u8>>)
    ensures
        match r {
            Some(b) => well_formed(v@, depth as nat) && b@ == encode_tree(v@),
            None => !well_formed(v@, depth as nat),
        },
    decreases v,
{
    match v {
        DerValue::Primitive { tag, content } => {
            if *tag % 32 == 31 || (*tag / 32) % 2 == 1 || content.len() > MAX_CONTENT_LEN {
                None
            } else {
                Some(wrap_bytes(*tag, content.as_slice()))
            }
        },
        DerValue::Constructed { tag, children } => {
            if *tag % 32 == 31 || (*tag / 32) % 2 != 1 || depth == 0 {
                return None;
            }
            let ghost ts = forest(*children);
            proof {
                lemma_forest_of(*children, children.len() as nat);
            }
            let mut body: Vec<u8> = Vec::new();
            let mut i: usize = 0;
            while i < children.len()
                invariant
                    i <= children.len(),
                    depth > 0,
                    ts == forest(*children),
                    ts.len() == children.len(),
                    forall|k: int| 0 <= k < ts.len() ==> (#[trigger] ts[k]) == tree_of(children[k]),
                    forall|k: int| 0 <= k < i ==> well_formed(#[trigger] ts[k], (depth - 1) as nat),
                    body@ + encode_forest(ts, i as nat) == encode_forest(ts, 0),
                decreases children.len() - i,
            {
                match encode_value(&children[i], depth - 1) {
                    None => {
                        assert(!well_formed(ts[i as int], (depth - 1) as nat));
                        return None;
                    },
                    Some(piece) => {
                        let ghost before = body@;
                        body.extend_from_slice(piece.as_slice());
                        assert(body@ + encode_forest(ts, (i + 1) as nat) =~= before + encode_forest(
                            ts,
                            i as nat,
                        ));
                    },
                }
                i += 1;
            }
            assert(body@ =~= encode_forest(ts, 0));
            if body.len() > MAX_CONTENT_LEN {
                None
            } else {
                Some(wrap_bytes(*tag, body.as_slice()))
            }
        },
    }
}

fn parse_length(b: &[u8]) -> (r: Option<(usize, usize)>)
    ensures
        match r {
            Some((len, used)) => parse_len(b@) == Some((len as nat, used as nat)) && len
                <= MAX_CONTENT_LEN && 1 <= used <= 5 && used <= b.len(),
            None => parse_len(b@) is None,
        },
{
    if b.len() == 0 {
        return None;
    }
    let first: u8 = b[0];
    if first < 0x80 {
        Some((first as usize, 1))
    } else if first == 0x81 {
        if b.len() >= 2 && b[1] >= 0x80 {
            Some((b[1] as usize, 2))
        } else {
            None
        }
    } else if first == 0x82 {
        if b.len() >= 3 && b[1] != 0 {
            Some((b[1] as usize * 0x100 + b[2] as usize, 3))
        } else {
            None
        }
    } else if first == 0x83 {
        if b.len() >= 4 && b[1] != 0 {
            Some((b[1] as usize * 0x1_0000 + b[2] as usize * 0x100 + b[3] as usize, 4))
        } else {
            None
        }
    } else if first == 0x84 {
        if b.len() >= 5 && b[1] != 0 && b[1] < 0x80 {
            Some(
                (
                    b[1] as usize * 0x100_0000 + b[2] as usize * 0x1_0000 + b[3] as usize * 0x100
                        + b[4] as usize,
                    5,
                ),
            )
        } else {
            None
        }
    } else {
        None
    }
}

fn parse_value(b: &[u8], depth: usize) -> (r: Option<(DerValue, usize)>)
    ensures
        match r {
            Some((v, used)) => parse_tree(b@, depth as nat) == Some((v@, used as nat)) && 2 <= used
                <= b.len(),
            None => parse_tree(b@, depth as nat) is None,
        },
    decreases depth, b.len(), 0nat,
{
    if b.len() < 2 || b[0] % 32 == 31 {
        return None;
    }
    let tag: u8 = b[0];
    let after_tag: &[u8] = slice_subrange(b, 1, b.len());
    assert(after_tag@ =~= b@.skip(1));
    match parse_length(after_tag) {
        None => None,
        Some((len, used)) => {
            let start: usize = 1 + used;
            if b.len() - start < len {
                return None;
            }
            let content: &[u8] = slice_subrange(b, start, start + len);
            if (tag / 32) % 2 != 1 {
                let mut bytes: Vec<u8> = Vec::new();
                bytes.extend_from_slice(content);
                assert(bytes@ =~= content@);
                Some((DerValue::Primitive { tag, content: bytes }, start + len))
            } else if depth == 0 {
                None
            } else {
                match parse_values(content, depth - 1) {
                    None => None,
                    Some(children) => Some((DerValue::Constructed { tag, children }, start + len)),
                }
            }
        },
    }
}

fn parse_values(b: &[u8], depth: usize) -> (r: Option<Vec<DerValue>>)
    ensures
        match r {
            Some(vs) => parse_forest(b@, depth as nat) == Some(forest(vs)),
            None => parse_forest(b@, depth as nat) is None,
        },
    decreases depth, b.len(), 1nat,
{
    let mut found: Vec<DerValue> = no_children();
    let mut rest: &[u8] = b;
    while rest.len() > 0
        invariant
            rest.len() <= b.len(),
            parse_forest(b@, depth as nat) == match parse_forest(rest@, depth as nat) {
                Some(more) => Some(forest(found) + more),
                None => None,
            },
        decreases rest.len(),
    {
        match parse_value(rest, depth) {
            None => {
                return None;
            },
            Some((v, used)) => {
                let ghost before = forest(found);
                let ghost tree = v@;
                let ghost old_rest = rest@;
                push_child(&mut found, v);
                rest = slice_subrange(rest, used, rest.len());
                assert(rest@ =~= old_rest.skip(used as int));
                proof {
                    match parse_forest(rest@, depth as nat) {
                        Some(more) => {
                            assert(before + (seq![tree] + more) =~= before.push(tree) + more);
                        },
                        None => {},
                    }
                }
            },
        }
    }
    assert(forest(found) + Seq::<DerTree>::empty() =~= forest(found));
    Some(found)
}

impl DerValue {
    /// A value that holds raw bytes.
    pub fn primitive(tag: u8, content: Vec<u8>) -> (v: DerValue)
        ensures
            v@ == (DerTree::Primitive { tag, content: content@ }),
    {
        DerValue::Primitive { tag, content }
    }

    /// A value that holds other values.
    pub fn constructed(tag: u8, children: Vec<DerValue>) -> (v: DerValue)
        ensures
            v@ == (DerTree::Constructed { tag, children: forest(children) }),
    {
        DerValue::Constructed { tag, children }
    }

    /// The DER encoding of the value, where it has one: `None` comes back
    /// for a tag that does not fit its content or one byte, for a content
    /// over `MAX_CONTENT_LEN` and for nesting deeper than `MAX_DEPTH`.
    pub fn encode(&self) -> (r: Option<Vec<u8>>)
        ensures
            match r {
                Some(b) => well_formed(self@, MAX_DEPTH as nat) && b@ == encode_tree(self@),
                None => !well_formed(self@, MAX_DEPTH as nat),
            },
    {
        encode_value(self, MAX_DEPTH)
    }

    /// Reads `b` as the DER encoding of exactly one value.
    pub fn parse(b: &[u8]) -> (r: Option<DerValue>)
        ensures
            match r {
                Some(v) => parse_der(b@) == Some(v@),
                None => parse_der(b@) is None,
            },
    {
        match parse_value(b, MAX_DEPTH) {
            None => None,
            Some((v, used)) => {
                if used == b.len() {
                    Some(v)
                } else {
                    None
                }
            },
        }
    }
}

} // verus!
