//! Fixed-endianness payload codec.
//!
//! The engine treats a payload as opaque bytes; this module gives the
//! supported value type — a version number together with a list of byte
//! strings — and its encoding: a 4-byte little-endian version header
//! followed by each item as an 8-byte little-endian length prefix and the
//! item's bytes.  Encoding and decoding are verified against the spec-level
//! `encode_spec` / `decode_spec`, and decoding an encoding is proved to give
//! back the original value.

use vstd::prelude::*;

verus! {

/// The supported payload value: a version tag and a list of messages,
/// each an uninterpreted byte string.
#[derive(Debug, PartialEq)]
pub struct Message {
    pub version: u32,
    pub messages: Vec<Vec<u8>>,
}

/// Mathematical model of a `Message`.
pub struct MessageModel {
    pub version: u32,
    pub messages: Seq<Seq<u8>>,
}

pub open spec fn messages_model(v: Seq<Vec<u8>>) -> Seq<Seq<u8>> {
    v.map_values(|x: Vec<u8>| x@)
}

impl View for Message {
    type V = MessageModel;

    open spec fn view(&self) -> MessageModel {
        MessageModel { version: self.version, messages: messages_model(self.messages@) }
    }
}

/// A model value the encoding can represent: each item's length fits in the
/// 8-byte length prefix.
pub open spec fn model_encodable(m: MessageModel) -> bool {
    forall|i: int| 0 <= i < m.messages.len() ==> #[trigger] m.messages[i].len() < 0x10000000000000000
}

/// The four little-endian bytes of a 32-bit value.
pub open spec fn u32_le(x: u32) -> Seq<u8> {
    seq![
        (x & 0xff) as u8,
        ((x >> 8) & 0xff) as u8,
        ((x >> 16) & 0xff) as u8,
        ((x >> 24) & 0xff) as u8,
    ]
}

/// The eight little-endian bytes of a 64-bit value.
pub open spec fn u64_le(x: u64) -> Seq<u8> {
    seq![
        (x & 0xff) as u8,
        ((x >> 8) & 0xff) as u8,
        ((x >> 16) & 0xff) as u8,
        ((x >> 24) & 0xff) as u8,
        ((x >> 32) & 0xff) as u8,
        ((x >> 40) & 0xff) as u8,
        ((x >> 48) & 0xff) as u8,
        ((x >> 56) & 0xff) as u8,
    ]
}

/// The 32-bit value whose little-endian bytes are `b0..b3`.
pub open spec fn u32_from_le(b0: u8, b1: u8, b2: u8, b3: u8) -> u32 {
    (b0 as u32) | ((b1 as u32) << 8) | ((b2 as u32) << 16) | ((b3 as u32) << 24)
}

/// The 64-bit value whose little-endian bytes are `b0..b7`.
pub open spec fn u64_from_le(b0: u8, b1: u8, b2: u8, b3: u8, b4: u8, b5: u8, b6: u8, b7: u8) -> u64 {
    (b0 as u64) | ((b1 as u64) << 8) | ((b2 as u64) << 16) | ((b3 as u64) << 24)
        | ((b4 as u64) << 32) | ((b5 as u64) << 40) | ((b6 as u64) << 48) | ((b7 as u64) << 56)
}

pub proof fn lemma_u32_le_round(x: u32)
    ensures
        u32_from_le(u32_le(x)[0], u32_le(x)[1], u32_le(x)[2], u32_le(x)[3]) == x,
{
    assert(((x & 0xff) as u8 as u32) | (((x >> 8) & 0xff) as u8 as u32) << 8
        | (((x >> 16) & 0xff) as u8 as u32) << 16 | (((x >> 24) & 0xff) as u8 as u32) << 24
        == x) by (bit_vector);
}

pub proof fn lemma_u64_le_round(x: u64)
    ensures
        u64_from_le(
            u64_le(x)[0], u64_le(x)[1], u64_le(x)[2], u64_le(x)[3],
            u64_le(x)[4], u64_le(x)[5], u64_le(x)[6], u64_le(x)[7],
        ) == x,
{
    assert(((x & 0xff) as u8 as u64) | (((x >> 8) & 0xff) as u8 as u64) << 8
        | (((x >> 16) & 0xff) as u8 as u64) << 16 | (((x >> 24) & 0xff) as u8 as u64) << 24
        | (((x >> 32) & 0xff) as u8 as u64) << 32 | (((x >> 40) & 0xff) as u8 as u64) << 40
        | (((x >> 48) & 0xff) as u8 as u64) << 48 | (((x >> 56) & 0xff) as u8 as u64) << 56
        == x) by (bit_vector);
}

/// Encoding of the message list: each item as an 8-byte length prefix
/// followed by the item's bytes, in order.
pub open spec fn encode_items(ms: Seq<Seq<u8>>) -> Seq<u8>
    decreases ms.len(),
{
    if ms.len() == 0 {
        Seq::<u8>::empty()
    } else {
        u64_le(ms[0].len() as u64) + ms[0] + encode_items(ms.drop_first())
    }
}

/// Encoding of a whole message: 4-byte version header, then the items.
pub open spec fn encode_spec(m: MessageModel) -> Seq<u8> {
    u32_le(m.version) + encode_items(m.messages)
}

/// Parses a list of length-prefixed items, consuming all of `b`.
pub open spec fn parse_items(b: Seq<u8>) -> Option<Seq<Seq<u8>>>
    decreases b.len(),
{
    if b.len() == 0 {
        Some(Seq::<Seq<u8>>::empty())
    } else if b.len() < 8 {
        None::<Seq<Seq<u8>>>
    } else {
        let l = u64_from_le(b[0], b[1], b[2], b[3], b[4], b[5], b[6], b[7]) as int;
        if b.len() - 8 < l {
            None::<Seq<Seq<u8>>>
        } else {
            let item = b.subrange(8, 8 + l);
            match parse_items(b.skip(8 + l)) {
                Some(rest) => Some(seq![item] + rest),
                None => None::<Seq<Seq<u8>>>,
            }
        }
    }
}

/// Parses a whole encoded message.
pub open spec fn decode_spec(b: Seq<u8>) -> Option<MessageModel> {
    if b.len() < 4 {
        None::<MessageModel>
    } else {
        match parse_items(b.skip(4)) {
            Some(items) => Some(
                MessageModel { version: u32_from_le(b[0], b[1], b[2], b[3]), messages: items },
            ),
            None => None::<MessageModel>,
        }
    }
}

pub proof fn lemma_encode_items_push(ms: Seq<Seq<u8>>, x: Seq<u8>)
    ensures
        encode_items(ms.push(x)) == encode_items(ms) + u64_le(x.len() as u64) + x,
    decreases ms.len(),
{
    if ms.len() == 0 {
        assert(ms.push(x)[0] == x);
        assert(ms.push(x).drop_first() =~= ms);
        assert(encode_items(ms) == Seq::<u8>::empty());
        assert(encode_items(ms.push(x)) == u64_le(x.len() as u64) + x + encode_items(ms));
        assert(encode_items(ms.push(x)) =~= encode_items(ms) + u64_le(x.len() as u64) + x);
    } else {
        assert(ms.push(x).drop_first() =~= ms.drop_first().push(x));
        lemma_encode_items_push(ms.drop_first(), x);
        assert(ms.push(x)[0] == ms[0]);
        assert(encode_items(ms.push(x)) =~= encode_items(ms) + u64_le(x.len() as u64) + x);
    }
}

/// Parsing the encoding of a message list gives back exactly that list.
pub proof fn lemma_parse_items_round(ms: Seq<Seq<u8>>)
    requires
        forall|i: int| 0 <= i < ms.len() ==> #[trigger] ms[i].len() < 0x10000000000000000,
    ensures
        parse_items(encode_items(ms)) == Some(ms),
    decreases ms.len(),
{
    if ms.len() == 0 {
        assert(parse_items(encode_items(ms)) =~= Some(Seq::<Seq<u8>>::empty()));
        assert(Seq::<Seq<u8>>::empty() =~= ms);
    } else {
        let head = ms[0];
        let l = head.len() as u64;
        let b = encode_items(ms);
        assert(b =~= u64_le(l) + head + encode_items(ms.drop_first()));
        assert(b.len() >= 8 + head.len());
        assert(b[0] == u64_le(l)[0]);
        assert(b[1] == u64_le(l)[1]);
        assert(b[2] == u64_le(l)[2]);
        assert(b[3] == u64_le(l)[3]);
        assert(b[4] == u64_le(l)[4]);
        assert(b[5] == u64_le(l)[5]);
        assert(b[6] == u64_le(l)[6]);
        assert(b[7] == u64_le(l)[7]);
        lemma_u64_le_round(l);
        assert(u64_from_le(b[0], b[1], b[2], b[3], b[4], b[5], b[6], b[7]) == l);
        assert(b.subrange(8, 8 + head.len() as int) =~= head);
        assert(b.skip(8 + head.len() as int) =~= encode_items(ms.drop_first()));
        assert(forall|i: int|
            0 <= i < ms.drop_first().len() ==> #[trigger] ms.drop_first()[i].len()
                < 0x10000000000000000);
        lemma_parse_items_round(ms.drop_first());
        assert(seq![head] + ms.drop_first() =~= ms);
    }
}

/// Decoding is a left inverse of encoding: any encodable value is
/// recovered exactly from its own encoding.
pub proof fn lemma_round_trip(m: MessageModel)
    requires
        model_encodable(m),
    ensures
        decode_spec(encode_spec(m)) == Some(m),
{
    let b = encode_spec(m);
    assert(b[0] == u32_le(m.version)[0]);
    assert(b[1] == u32_le(m.version)[1]);
    assert(b[2] == u32_le(m.version)[2]);
    assert(b[3] == u32_le(m.version)[3]);
    lemma_u32_le_round(m.version);
    assert(b.skip(4) =~= encode_items(m.messages));
    lemma_parse_items_round(m.messages);
}

pub proof fn lemma_u32_le_bytes_round(b0: u8, b1: u8, b2: u8, b3: u8)
    ensures
        u32_le(u32_from_le(b0, b1, b2, b3)) =~= seq![b0, b1, b2, b3],
{
    let x = u32_from_le(b0, b1, b2, b3);
    assert((x & 0xff) as u8 == b0 && ((x >> 8) & 0xff) as u8 == b1 && ((x >> 16) & 0xff) as u8
        == b2 && ((x >> 24) & 0xff) as u8 == b3) by (bit_vector)
        requires
            x == (b0 as u32) | ((b1 as u32) << 8) | ((b2 as u32) << 16) | ((b3 as u32) << 24),
    ;
}

pub proof fn lemma_u64_le_bytes_round(
    b0: u8,
    b1: u8,
    b2: u8,
    b3: u8,
    b4: u8,
    b5: u8,
    b6: u8,
    b7: u8,
)
    ensures
        u64_le(u64_from_le(b0, b1, b2, b3, b4, b5, b6, b7)) =~= seq![b0, b1, b2, b3, b4, b5, b6, b7],
{
    let x = u64_from_le(b0, b1, b2, b3, b4, b5, b6, b7);
    assert((x & 0xff) as u8 == b0 && ((x >> 8) & 0xff) as u8 == b1 && ((x >> 16) & 0xff) as u8
        == b2 && ((x >> 24) & 0xff) as u8 == b3 && ((x >> 32) & 0xff) as u8 == b4 && ((x >> 40)
        & 0xff) as u8 == b5 && ((x >> 48) & 0xff) as u8 == b6 && ((x >> 56) & 0xff) as u8 == b7)
        by (bit_vector)
        requires
            x == (b0 as u64) | ((b1 as u64) << 8) | ((b2 as u64) << 16) | ((b3 as u64) << 24) | ((
            b4 as u64) << 32) | ((b5 as u64) << 40) | ((b6 as u64) << 48) | ((b7 as u64) << 56),
    ;
}

/// A parsed item list re-encodes to exactly the bytes it was parsed
/// from, and every item fits its length prefix.
pub proof fn lemma_parse_items_canonical(b: Seq<u8>, ms: Seq<Seq<u8>>)
    requires
        parse_items(b) == Some(ms),
    ensures
        encode_items(ms) == b,
        forall|i: int| 0 <= i < ms.len() ==> #[trigger] ms[i].len() < 0x10000000000000000,
    decreases b.len(),
{
    if b.len() == 0 {
        assert(encode_items(ms) =~= b);
    } else {
        let l = u64_from_le(b[0], b[1], b[2], b[3], b[4], b[5], b[6], b[7]);
        let item = b.subrange(8, 8 + l as int);
        let rest = b.skip(8 + l as int);
        let rest_ms = parse_items(rest)->Some_0;
        lemma_parse_items_canonical(rest, rest_ms);
        lemma_u64_le_bytes_round(b[0], b[1], b[2], b[3], b[4], b[5], b[6], b[7]);
        assert(ms == seq![item] + rest_ms);
        assert(ms[0] == item);
        assert(ms.drop_first() =~= rest_ms);
        assert(item.len() as u64 == l);
        assert(u64_le(l) =~= b.take(8));
        assert(encode_items(ms) == u64_le(l) + item + encode_items(rest_ms));
        assert(encode_items(ms) =~= b);
        assert(forall|i: int|
            0 <= i < ms.len() ==> #[trigger] ms[i].len() < 0x10000000000000000);
    }
}

/// Decoding is canonical: a byte sequence that decodes to a value is that
/// value's own encoding — the format is unambiguous, and with
/// `lemma_round_trip` the encoding is the value's unique representation.
pub proof fn lemma_decode_canonical(b: Seq<u8>, m: MessageModel)
    requires
        decode_spec(b) == Some(m),
    ensures
        encode_spec(m) == b,
        model_encodable(m),
{
    lemma_parse_items_canonical(b.skip(4), m.messages);
    lemma_u32_le_bytes_round(b[0], b[1], b[2], b[3]);
    assert(u32_le(m.version) =~= b.take(4));
    assert(encode_spec(m) =~= b);
}

/// Errors of the codec: a byte sequence that is not a valid encoding.
#[derive(Debug, PartialEq, Eq, Structural)]
pub enum CodecError {
    DecodeError,
}

impl Message {
    /// Encodes this message, producing exactly `encode_spec` of its model.
    pub fn encode(&self) -> (out: Vec<u8>)
        ensures
            out@ == encode_spec(self@),
    {
        let mut out: Vec<u8> = Vec::new();
        let v = self.version;
        out.push((v & 0xff) as u8);
        out.push(((v >> 8) & 0xff) as u8);
        out.push(((v >> 16) & 0xff) as u8);
        out.push(((v >> 24) & 0xff) as u8);
        proof {
            assert(out@ =~= u32_le(v));
        }
        let mut i: usize = 0;
        while i < self.messages.len()
            invariant
                i <= self.messages.len(),
                out@ == u32_le(self.version) + encode_items(self@.messages.take(i as int)),
            decreases self.messages.len() - i,
        {
            let ghost pre = out@;
            let item_len: u64 = self.messages[i].len() as u64;
            out.push((item_len & 0xff) as u8);
            out.push(((item_len >> 8) & 0xff) as u8);
            out.push(((item_len >> 16) & 0xff) as u8);
            out.push(((item_len >> 24) & 0xff) as u8);
            out.push(((item_len >> 32) & 0xff) as u8);
            out.push(((item_len >> 40) & 0xff) as u8);
            out.push(((item_len >> 48) & 0xff) as u8);
            out.push(((item_len >> 56) & 0xff) as u8);
            proof {
                assert(out@ =~= pre + u64_le(item_len));
            }
            let ghost pre2 = out@;
            let mut j: usize = 0;
            while j < self.messages[i].len()
                invariant
                    i < self.messages.len(),
                    j <= self@.messages[i as int].len(),
                    out@ == pre2 + self@.messages[i as int].take(j as int),
                decreases self@.messages[i as int].len() - j,
            {
                out.push(self.messages[i][j]);
                proof {
                    assert(self@.messages[i as int].take(j + 1) =~= self@.messages[i as int].take(
                        j as int,
                    ).push(self@.messages[i as int][j as int]));
                    assert(out@ =~= pre2 + self@.messages[i as int].take(j + 1));
                }
                j = j + 1;
            }
            proof {
                assert(self@.messages[i as int].take(self@.messages[i as int].len() as int)
                    =~= self@.messages[i as int]);
                assert(self@.messages.take(i + 1) =~= self@.messages.take(i as int).push(
                    self@.messages[i as int],
                ));
                lemma_encode_items_push(self@.messages.take(i as int), self@.messages[i as int]);
                assert(out@ =~= u32_le(self.version) + encode_items(self@.messages.take(i + 1)));
            }
            i = i + 1;
        }
        proof {
            assert(self@.messages.take(self.messages@.len() as int) =~= self@.messages);
        }
        out
    }
}

/// Copies `bytes[from..to]` into a fresh vector.
fn copy_range(bytes: &Vec<u8>, from: usize, to: usize) -> (r: Vec<u8>)
    requires
        from <= to <= bytes@.len(),
    ensures
        r@ == bytes@.subrange(from as int, to as int),
{
    let mut r: Vec<u8> = Vec::new();
    let mut i: usize = from;
    while i < to
        invariant
            from <= i <= to <= bytes@.len(),
            r@ == bytes@.subrange(from as int, i as int),
        decreases to - i,
    {
        r.push(bytes[i]);
        proof {
            assert(bytes@.subrange(from as int, i + 1) =~= bytes@.subrange(from as int, i as int)
                .push(bytes@[i as int]));
        }
        i = i + 1;
    }
    r
}

/// Parses length-prefixed items from `bytes[pos..]`, mirroring
/// `parse_items` on the remaining bytes.
fn parse_items_exec(bytes: &Vec<u8>, pos: usize) -> (r: Option<Vec<Vec<u8>>>)
    requires
        pos <= bytes@.len(),
    ensures
        match r {
            Some(v) => parse_items(bytes@.skip(pos as int)) == Some(messages_model(v@)),
            None => parse_items(bytes@.skip(pos as int)) is None,
        },
    decreases bytes@.len() - pos,
{
    let ghost b = bytes@.skip(pos as int);
    if pos == bytes.len() {
        let r: Vec<Vec<u8>> = Vec::new();
        proof {
            assert(b =~= Seq::<u8>::empty());
            assert(messages_model(r@) =~= Seq::<Seq<u8>>::empty());
        }
        return Some(r);
    }
    if bytes.len() - pos < 8 {
        return None;
    }
    let l: u64 = u64_from_le_exec(
        bytes[pos], bytes[pos + 1], bytes[pos + 2], bytes[pos + 3],
        bytes[pos + 4], bytes[pos + 5], bytes[pos + 6], bytes[pos + 7],
    );
    proof {
        assert(b[0] == bytes@[pos as int]);
        assert(b[1] == bytes@[pos + 1]);
        assert(b[2] == bytes@[pos + 2]);
        assert(b[3] == bytes@[pos + 3]);
        assert(b[4] == bytes@[pos + 4]);
        assert(b[5] == bytes@[pos + 5]);
        assert(b[6] == bytes@[pos + 6]);
        assert(b[7] == bytes@[pos + 7]);
    }
    if ((bytes.len() - pos - 8) as u64) < l {
        return None;
    }
    let l_us: usize = l as usize;
    let item = copy_range(bytes, pos + 8, pos + 8 + l_us);
    proof {
        assert(item@ =~= b.subrange(8, 8 + l as int));
        assert(bytes@.skip(pos + 8 + l_us) =~= b.skip(8 + l as int));
    }
    match parse_items_exec(bytes, pos + 8 + l_us) {
        Some(mut rest) => {
            let ghost rest_model = messages_model(rest@);
            rest.insert(0, item);
            proof {
                assert(messages_model(rest@) =~= seq![item@] + rest_model);
            }
            Some(rest)
        },
        None => None,
    }
}

/// Combines eight little-endian bytes, matching `u64_from_le`.
fn u64_from_le_exec(b0: u8, b1: u8, b2: u8, b3: u8, b4: u8, b5: u8, b6: u8, b7: u8) -> (r: u64)
    ensures
        r == u64_from_le(b0, b1, b2, b3, b4, b5, b6, b7),
{
    (b0 as u64) | ((b1 as u64) << 8) | ((b2 as u64) << 16) | ((b3 as u64) << 24)
        | ((b4 as u64) << 32) | ((b5 as u64) << 40) | ((b6 as u64) << 48) | ((b7 as u64) << 56)
}

/// Decodes a payload, succeeding exactly on the byte sequences that are
/// valid encodings, and then returning the encoded value.
pub fn decode(bytes: &Vec<u8>) -> (r: Result<Message, CodecError>)
    ensures
        match r {
            Ok(m) => decode_spec(bytes@) == Some(m@),
            Err(e) => decode_spec(bytes@) is None && e == CodecError::DecodeError,
        },
{
    if bytes.len() < 4 {
        return Err(CodecError::DecodeError);
    }
    let version: u32 = (bytes[0] as u32) | ((bytes[1] as u32) << 8) | ((bytes[2] as u32) << 16)
        | ((bytes[3] as u32) << 24);
    match parse_items_exec(bytes, 4) {
        Some(items) => {
            Ok(Message { version, messages: items })
        },
        None => Err(CodecError::DecodeError),
    }
}

} // verus!
