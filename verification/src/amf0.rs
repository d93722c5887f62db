//! The AMF0 value codec used on the RTMP command channel: a dynamic-typed
//! value enum, a tolerant decoder, and the encoder subset needed to build
//! responses. Numbers carry the IEEE 754 bit pattern of the wire double.

use vstd::prelude::*;
use vstd::utf8::{valid_utf8, decode_utf8, encode_utf8};
use crate::bytes::{
    be16, be32, be64, be16_bytes, be32_bytes, be64_bytes, read_be16, read_be32, read_be64,
    push_be16, push_be32, push_be64,
};

verus! {

/// An AMF0 value. `Number` holds the 8-byte big-endian IEEE 754 bit
/// pattern exactly as it crosses the wire; object and array bodies keep
/// insertion order and may repeat keys.
pub enum Amf0Value {
    Number(u64),
    Boolean(bool),
    Str(String),
    Object(Vec<(String, Amf0Value)>),
    Null,
    Undefined,
    EcmaArray(Vec<(String, Amf0Value)>),
    StrictArray(Vec<Amf0Value>),
}

/// The mathematical content of an [`Amf0Value`].
#[verifier::ext_equal]
pub enum Amf0 {
    Number(u64),
    Boolean(bool),
    Str(Seq<char>),
    Object(Seq<(Seq<char>, Amf0)>),
    Null,
    Undefined,
    EcmaArray(Seq<(Seq<char>, Amf0)>),
    StrictArray(Seq<Amf0>),
}

impl Amf0Value {
    /// The value's mathematical content.
    pub open spec fn model(self) -> Amf0
        decreases self,
    {
        match self {
            Amf0Value::Number(bits) => Amf0::Number(bits),
            Amf0Value::Boolean(b) => Amf0::Boolean(b),
            Amf0Value::Str(s) => Amf0::Str(s@),
            Amf0Value::Object(pairs) => Amf0::Object(pairs_model(pairs@)),
            Amf0Value::Null => Amf0::Null,
            Amf0Value::Undefined => Amf0::Undefined,
            Amf0Value::EcmaArray(pairs) => Amf0::EcmaArray(pairs_model(pairs@)),
            Amf0Value::StrictArray(items) => Amf0::StrictArray(items_model(items@)),
        }
    }
}

/// The mathematical content of a key-value pair sequence.
pub open spec fn pairs_model(ps: Seq<(String, Amf0Value)>) -> Seq<(Seq<char>, Amf0)>
    decreases ps,
{
    if ps.len() == 0 {
        Seq::<(Seq<char>, Amf0)>::empty()
    } else {
        seq![(ps[0].0@, ps[0].1.model())] + pairs_model(ps.drop_first())
    }
}

/// The mathematical content of a value sequence.
pub open spec fn items_model(items: Seq<Amf0Value>) -> Seq<Amf0>
    decreases items,
{
    if items.len() == 0 {
        Seq::<Amf0>::empty()
    } else {
        seq![items[0].model()] + items_model(items.drop_first())
    }
}

impl View for Amf0Value {
    type V = Amf0;

    open spec fn view(&self) -> Amf0 {
        self.model()
    }
}

// ─── Encoding, as a mathematical function ───

/// The body of an encoded string: 16-bit length then UTF-8 bytes, both
/// truncated at 65535 bytes as the encoder does.
pub open spec fn enc_str_body(s: Seq<char>) -> Seq<u8> {
    let b = encode_utf8(s);
    let n: int = if b.len() <= 0xFFFF {
        b.len() as int
    } else {
        0xFFFF
    };
    be16_bytes(n as u32) + b.take(n)
}

/// The bytes the encoder emits for a value. `Undefined` is written as
/// Null and an ECMA array as an object, mirroring the response encoder.
pub open spec fn enc_value(m: Amf0) -> Seq<u8>
    decreases m,
{
    match m {
        Amf0::Number(bits) => seq![0x00u8] + be64_bytes(bits),
        Amf0::Boolean(b) => seq![0x01u8, if b { 1u8 } else { 0u8 }],
        Amf0::Str(s) => seq![0x02u8] + enc_str_body(s),
        Amf0::Object(ps) => seq![0x03u8] + enc_props(ps) + seq![0x00u8, 0x00u8, 0x09u8],
        Amf0::Null => seq![0x05u8],
        Amf0::Undefined => seq![0x05u8],
        Amf0::EcmaArray(ps) => seq![0x03u8] + enc_props(ps) + seq![0x00u8, 0x00u8, 0x09u8],
        Amf0::StrictArray(items) => seq![0x0Au8] + be32_bytes(items.len() as u32) + enc_items(
            items,
        ),
    }
}

/// The bytes of an object body: each pair as key then value.
pub open spec fn enc_props(ps: Seq<(Seq<char>, Amf0)>) -> Seq<u8>
    decreases ps,
{
    if ps.len() == 0 {
        Seq::<u8>::empty()
    } else {
        enc_str_body(ps[0].0) + enc_value(ps[0].1) + enc_props(ps.drop_first())
    }
}

/// The bytes of a strict array body: the items in order.
pub open spec fn enc_items(items: Seq<Amf0>) -> Seq<u8>
    decreases items,
{
    if items.len() == 0 {
        Seq::<u8>::empty()
    } else {
        enc_value(items[0]) + enc_items(items.drop_first())
    }
}

/// The encoder's supported value set: no `Undefined` (written as Null) or
/// ECMA array (written as an object), strings and keys that fit the
/// 16-bit length prefix, arrays that fit the 32-bit count.
pub open spec fn encodable(m: Amf0) -> bool
    decreases m,
{
    match m {
        Amf0::Number(_) => true,
        Amf0::Boolean(_) => true,
        Amf0::Str(s) => encode_utf8(s).len() < 0x10000,
        Amf0::Object(ps) => encodable_props(ps),
        Amf0::Null => true,
        Amf0::Undefined => false,
        Amf0::EcmaArray(_) => false,
        Amf0::StrictArray(items) => items.len() < 0x1_0000_0000 && encodable_items(items),
    }
}

/// Every key fits the 16-bit length prefix and every value is encodable.
pub open spec fn encodable_props(ps: Seq<(Seq<char>, Amf0)>) -> bool
    decreases ps,
{
    if ps.len() == 0 {
        true
    } else {
        encode_utf8(ps[0].0).len() < 0x10000 && encodable(ps[0].1) && encodable_props(
            ps.drop_first(),
        )
    }
}

/// Every item of a strict array is encodable.
pub open spec fn encodable_items(items: Seq<Amf0>) -> bool
    decreases items,
{
    if items.len() == 0 {
        true
    } else {
        encodable(items[0]) && encodable_items(items.drop_first())
    }
}

/// An encodable value's encoding is nonempty and starts with one of the
/// emitted markers — never the object-end byte 0x09.
pub proof fn lemma_enc_first_byte(m: Amf0)
    requires
        encodable(m),
    ensures
        enc_value(m).len() >= 1,
        enc_value(m)[0] == 0x00 || enc_value(m)[0] == 0x01 || enc_value(m)[0] == 0x02 || enc_value(
            m,
        )[0] == 0x03 || enc_value(m)[0] == 0x05 || enc_value(m)[0] == 0x0A,
{
}


/// `pairs_model` maps index-wise.
pub proof fn lemma_pairs_model_index(ps: Seq<(String, Amf0Value)>)
    ensures
        pairs_model(ps).len() == ps.len(),
        forall|i: int|
            0 <= i < ps.len() ==> #[trigger] pairs_model(ps)[i] == (ps[i].0@, ps[i].1.model()),
    decreases ps.len(),
{
    if ps.len() > 0 {
        lemma_pairs_model_index(ps.drop_first());
    }
}

/// `items_model` maps index-wise.
pub proof fn lemma_items_model_index(items: Seq<Amf0Value>)
    ensures
        items_model(items).len() == items.len(),
        forall|i: int|
            0 <= i < items.len() ==> #[trigger] items_model(items)[i] == items[i].model(),
    decreases items.len(),
{
    if items.len() > 0 {
        lemma_items_model_index(items.drop_first());
    }
}

/// Property bytes concatenate over pair-sequence concatenation.
pub proof fn lemma_enc_props_app(a: Seq<(Seq<char>, Amf0)>, b: Seq<(Seq<char>, Amf0)>)
    ensures
        enc_props(a + b) == enc_props(a) + enc_props(b),
    decreases a.len(),
{
    if a.len() == 0 {
        assert(a + b =~= b);
        assert(enc_props(a) + enc_props(b) =~= enc_props(b));
    } else {
        assert((a + b).drop_first() =~= a.drop_first() + b);
        lemma_enc_props_app(a.drop_first(), b);
        assert(enc_props(a + b) =~= enc_props(a) + enc_props(b));
    }
}

/// Item bytes concatenate over item-sequence concatenation.
pub proof fn lemma_enc_items_app(a: Seq<Amf0>, b: Seq<Amf0>)
    ensures
        enc_items(a + b) == enc_items(a) + enc_items(b),
    decreases a.len(),
{
    if a.len() == 0 {
        assert(a + b =~= b);
        assert(enc_items(a) + enc_items(b) =~= enc_items(b));
    } else {
        assert((a + b).drop_first() =~= a.drop_first() + b);
        lemma_enc_items_app(a.drop_first(), b);
        assert(enc_items(a + b) =~= enc_items(a) + enc_items(b));
    }
}

// ─── Encoder ───

/// Builds AMF0-encoded byte buffers for responses.
pub struct Amf0Encoder {
    buf: Vec<u8>,
}

impl Amf0Encoder {
    /// The bytes written so far.
    pub closed spec fn bytes(&self) -> Seq<u8> {
        self.buf@
    }

    pub fn new() -> (r: Amf0Encoder)
        ensures
            r.bytes() == Seq::<u8>::empty(),
    {
        Amf0Encoder { buf: Vec::new() }
    }

    /// Hand over the encoded bytes.
    pub fn into_bytes(self) -> (r: Vec<u8>)
        ensures
            r@ == self.bytes(),
    {
        self.buf
    }

    /// Write a Number from its IEEE 754 bit pattern.
    pub fn write_number(&mut self, bits: u64)
        ensures
            final(self).bytes() == old(self).bytes() + enc_value(Amf0::Number(bits)),
    {
        self.buf.push(0x00);
        push_be64(&mut self.buf, bits);
        assert(final(self).bytes() =~= old(self).bytes() + enc_value(Amf0::Number(bits)));
    }

    pub fn write_boolean(&mut self, val: bool)
        ensures
            final(self).bytes() == old(self).bytes() + enc_value(Amf0::Boolean(val)),
    {
        self.buf.push(0x01);
        self.buf.push(if val {
            1
        } else {
            0
        });
        assert(final(self).bytes() =~= old(self).bytes() + enc_value(Amf0::Boolean(val)));
    }

    /// Write a 16-bit length prefix and the string bytes, truncating at
    /// 65535 bytes.
    fn write_utf8(&mut self, val: &str)
        ensures
            final(self).bytes() == old(self).bytes() + enc_str_body(val@),
    {
        let bytes = val.as_bytes();
        let n: usize = if bytes.len() <= 0xFFFF {
            bytes.len()
        } else {
            0xFFFF
        };
        push_be16(&mut self.buf, n as u32);
        self.buf.extend_from_slice(&bytes[0..n]);
        assert(final(self).bytes() =~= old(self).bytes() + enc_str_body(val@));
    }

    pub fn write_string(&mut self, val: &str)
        ensures
            final(self).bytes() == old(self).bytes() + enc_value(Amf0::Str(val@)),
    {
        self.buf.push(0x02);
        self.write_utf8(val);
        assert(final(self).bytes() =~= old(self).bytes() + enc_value(Amf0::Str(val@)));
    }

    pub fn write_null(&mut self)
        ensures
            final(self).bytes() == old(self).bytes() + enc_value(Amf0::Null),
    {
        self.buf.push(0x05);
        assert(final(self).bytes() =~= old(self).bytes() + enc_value(Amf0::Null));
    }

    /// Write a value. `Undefined` is written as Null and an ECMA array as
    /// an object: exactly the bytes of `enc_value` of the value's model.
    pub fn write_value(&mut self, val: &Amf0Value)
        ensures
            final(self).bytes() == old(self).bytes() + enc_value(val.model()),
        decreases val,
    {
        match val {
            Amf0Value::Number(bits) => {
                self.write_number(*bits);
            },
            Amf0Value::Boolean(b) => {
                self.write_boolean(*b);
            },
            Amf0Value::Str(sv) => {
                self.buf.push(0x02);
                self.write_utf8(sv.as_str());
                assert(final(self).bytes() =~= old(self).bytes() + enc_value(val.model()));
            },
            Amf0Value::Null => {
                self.write_null();
            },
            Amf0Value::Undefined => {
                self.write_null();
            },
            Amf0Value::Object(pairs) => {
                proof {
                    assert(val->Object_0 == *pairs);
                    assert(decreases_to!(*val => val->Object_0));
                }
                self.write_pairs_body(pairs);
                proof {
                    lemma_pairs_model_index(pairs@);
                }
                assert(final(self).bytes() =~= old(self).bytes() + enc_value(val.model()));
            },
            Amf0Value::EcmaArray(pairs) => {
                proof {
                    assert(val->EcmaArray_0 == *pairs);
                    assert(decreases_to!(*val => val->EcmaArray_0));
                }
                self.write_pairs_body(pairs);
                proof {
                    lemma_pairs_model_index(pairs@);
                }
                assert(final(self).bytes() =~= old(self).bytes() + enc_value(val.model()));
            },
            Amf0Value::StrictArray(items) => {
                self.buf.push(0x0A);
                push_be32(&mut self.buf, items.len() as u32);
                let ghost base = self.buf@;
                let mut i: usize = 0;
                while i < items.len()
                    invariant
                        val is StrictArray,
                        val->StrictArray_0 == *items,
                        i <= items@.len(),
                        self.buf@ == base + enc_items(items_model(items@).take(i as int)),
                    decreases items@.len() - i,
                {
                    proof {
                        assert(val->StrictArray_0 == *items);
                        assert(decreases_to!(*val => val->StrictArray_0));
                        assert(decreases_to!(*items => items@));
                        assert(decreases_to!(items@ => items@[i as int]));
                    }
                    self.write_value(&items[i]);
                    proof {
                        lemma_items_model_index(items@);
                        let im = items_model(items@);
                        assert(im.take(i + 1) =~= im.take(i as int) + seq![im[i as int]]);
                        lemma_enc_items_app(im.take(i as int), seq![im[i as int]]);
                        assert(seq![im[i as int]].drop_first() =~= Seq::<Amf0>::empty());
                        assert(enc_items(Seq::<Amf0>::empty()) =~= Seq::<u8>::empty());
                        assert(enc_items(seq![im[i as int]]) =~= enc_value(im[i as int]));
                        assert(self.buf@ =~= base + enc_items(im.take(i + 1)));
                    }
                    i = i + 1;
                }
                proof {
                    lemma_items_model_index(items@);
                    assert(items_model(items@).take(items@.len() as int) =~= items_model(
                        items@,
                    ));
                }
                assert(final(self).bytes() =~= old(self).bytes() + enc_value(val.model()));
            },
        }
    }

    /// Write an object body: marker, each pair, then the end marker.
    fn write_pairs_body(&mut self, pairs: &Vec<(String, Amf0Value)>)
        ensures
            final(self).bytes() == old(self).bytes() + seq![0x03u8] + enc_props(
                pairs_model(pairs@),
            ) + seq![0x00u8, 0x00u8, 0x09u8],
        decreases pairs,
    {
        self.buf.push(0x03);
        let ghost base = self.buf@;
        let mut i: usize = 0;
        while i < pairs.len()
            invariant
                i <= pairs@.len(),
                self.buf@ == base + enc_props(pairs_model(pairs@).take(i as int)),
            decreases pairs@.len() - i,
        {
            self.write_utf8(pairs[i].0.as_str());
            proof {
                assert(decreases_to!(*pairs => pairs@));
                assert(decreases_to!(pairs@ => pairs@[i as int]));
                assert(decreases_to!(pairs@[i as int] => pairs@[i as int].1));
            }
            self.write_value(&pairs[i].1);
            proof {
                lemma_pairs_model_index(pairs@);
                let pm = pairs_model(pairs@);
                assert(pm.take(i + 1) =~= pm.take(i as int) + seq![pm[i as int]]);
                lemma_enc_props_app(pm.take(i as int), seq![pm[i as int]]);
                assert(seq![pm[i as int]].drop_first() =~= Seq::<(Seq<char>, Amf0)>::empty());
                assert(enc_props(Seq::<(Seq<char>, Amf0)>::empty()) =~= Seq::<u8>::empty());
                assert(enc_props(seq![pm[i as int]]) =~= enc_str_body(pm[i as int].0) + enc_value(
                    pm[i as int].1,
                ));
                assert(self.buf@ =~= base + enc_props(pm.take(i + 1)));
            }
            i = i + 1;
        }
        proof {
            lemma_pairs_model_index(pairs@);
            assert(pairs_model(pairs@).take(pairs@.len() as int) =~= pairs_model(pairs@));
        }
        self.buf.push(0x00);
        self.buf.push(0x00);
        self.buf.push(0x09);
        assert(final(self).bytes() =~= old(self).bytes() + seq![0x03u8] + enc_props(
            pairs_model(pairs@),
        ) + seq![0x00u8, 0x00u8, 0x09u8]);
    }

    /// Write an object from borrowed keys, in the given order.
    pub fn write_object(&mut self, pairs: &[(&str, Amf0Value)])
        ensures
            final(self).bytes() == old(self).bytes() + seq![0x03u8] + enc_props(
                ref_pairs_model(pairs@),
            ) + seq![0x00u8, 0x00u8, 0x09u8],
    {
        self.buf.push(0x03);
        let ghost base = self.buf@;
        let mut i: usize = 0;
        while i < pairs.len()
            invariant
                i <= pairs@.len(),
                self.buf@ == base + enc_props(ref_pairs_model(pairs@).take(i as int)),
            decreases pairs@.len() - i,
        {
            self.write_utf8(pairs[i].0);
            self.write_value(&pairs[i].1);
            proof {
                lemma_ref_pairs_model_index(pairs@);
                let pm = ref_pairs_model(pairs@);
                assert(pm.take(i + 1) =~= pm.take(i as int) + seq![pm[i as int]]);
                lemma_enc_props_app(pm.take(i as int), seq![pm[i as int]]);
                assert(seq![pm[i as int]].drop_first() =~= Seq::<(Seq<char>, Amf0)>::empty());
                assert(enc_props(Seq::<(Seq<char>, Amf0)>::empty()) =~= Seq::<u8>::empty());
                assert(enc_props(seq![pm[i as int]]) =~= enc_str_body(pm[i as int].0) + enc_value(
                    pm[i as int].1,
                ));
                assert(self.buf@ =~= base + enc_props(pm.take(i + 1)));
            }
            i = i + 1;
        }
        proof {
            lemma_ref_pairs_model_index(pairs@);
            assert(ref_pairs_model(pairs@).take(pairs@.len() as int) =~= ref_pairs_model(pairs@));
        }
        self.buf.push(0x00);
        self.buf.push(0x00);
        self.buf.push(0x09);
        assert(final(self).bytes() =~= old(self).bytes() + seq![0x03u8] + enc_props(
            ref_pairs_model(pairs@),
        ) + seq![0x00u8, 0x00u8, 0x09u8]);
    }
}

/// The mathematical content of a borrowed key-value pair sequence.
pub open spec fn ref_pairs_model(ps: Seq<(&str, Amf0Value)>) -> Seq<(Seq<char>, Amf0)>
    decreases ps,
{
    if ps.len() == 0 {
        Seq::<(Seq<char>, Amf0)>::empty()
    } else {
        seq![(ps[0].0@, ps[0].1.model())] + ref_pairs_model(ps.drop_first())
    }
}

/// `ref_pairs_model` maps index-wise.
pub proof fn lemma_ref_pairs_model_index(ps: Seq<(&str, Amf0Value)>)
    ensures
        ref_pairs_model(ps).len() == ps.len(),
        forall|i: int|
            0 <= i < ps.len() ==> #[trigger] ref_pairs_model(ps)[i] == (
                ps[i].0@,
                ps[i].1.model(),
            ),
    decreases ps.len(),
{
    if ps.len() > 0 {
        lemma_ref_pairs_model_index(ps.drop_first());
    }
}


// ─── Decoding, as a mathematical function ───

/// What `String::from_utf8_lossy` yields on bytes that are not valid
/// UTF-8: determined by the bytes alone.
pub uninterp spec fn lossy_chars(b: Seq<u8>) -> Seq<char>;

/// The characters a byte sequence decodes to, with invalid sequences
/// replaced as `String::from_utf8_lossy` replaces them.
pub open spec fn lossy_decode(b: Seq<u8>) -> Seq<char> {
    if valid_utf8(b) {
        decode_utf8(b)
    } else {
        lossy_chars(b)
    }
}

/// Relies on String::from_utf8_lossy: valid UTF-8 decodes to exactly its
/// characters, and the replacement of invalid sequences depends on the
/// bytes alone.
#[verifier::external_body]
fn bytes_to_string_lossy(bytes: &[u8]) -> (r: String)
    ensures
        r@ == lossy_decode(bytes@),
        !valid_utf8(bytes@) ==> r@ == lossy_chars(bytes@),
{
    String::from_utf8_lossy(bytes).into_owned()
}

/// Decode a 16-bit-length-prefixed string at `pos`: the characters and
/// the position after them, or the position reached when the buffer is
/// too short.
pub open spec fn dec_utf8(data: Seq<u8>, pos: int) -> (Option<Seq<char>>, int) {
    if pos + 2 > data.len() {
        (None, pos)
    } else {
        let n = be16(data[pos], data[pos + 1]);
        if pos + 2 + n > data.len() {
            (None, pos + 2)
        } else {
            (Some(lossy_decode(data.subrange(pos + 2, pos + 2 + n))), pos + 2 + n)
        }
    }
}

/// Decode one AMF0 value at `pos`. Returns the value (or `None` at an
/// unknown marker or truncation) and the position reached either way.
/// `fuel` only bounds recursion; every contract supplies enough of it.
pub open spec fn dec_value(data: Seq<u8>, pos: int, fuel: nat) -> (Option<Amf0>, int)
    decreases fuel,
{
    if fuel == 0 {
        (None, pos)
    } else if pos >= data.len() {
        (None, pos)
    } else {
        let marker = data[pos];
        let q = pos + 1;
        if marker == 0x00 {
            if q + 8 > data.len() {
                (None, q)
            } else {
                (
                    Some(
                        Amf0::Number(
                            be64(
                                data[q],
                                data[q + 1],
                                data[q + 2],
                                data[q + 3],
                                data[q + 4],
                                data[q + 5],
                                data[q + 6],
                                data[q + 7],
                            ) as u64,
                        ),
                    ),
                    q + 8,
                )
            }
        } else if marker == 0x01 {
            if q + 1 > data.len() {
                (None, q)
            } else {
                (Some(Amf0::Boolean(data[q] != 0)), q + 1)
            }
        } else if marker == 0x02 {
            let (s, q2) = dec_utf8(data, q);
            match s {
                None => (None, q2),
                Some(chars) => (Some(Amf0::Str(chars)), q2),
            }
        } else if marker == 0x03 {
            let (ps, q2) = dec_props(data, q, (fuel - 1) as nat);
            match ps {
                None => (None, q2),
                Some(pairs) => (Some(Amf0::Object(pairs)), q2),
            }
        } else if marker == 0x05 {
            (Some(Amf0::Null), q)
        } else if marker == 0x06 {
            (Some(Amf0::Undefined), q)
        } else if marker == 0x08 {
            if q + 4 > data.len() {
                (None, q)
            } else {
                // the 4-byte count is advisory and skipped
                let (ps, q2) = dec_props(data, q + 4, (fuel - 1) as nat);
                match ps {
                    None => (None, q2),
                    Some(pairs) => (Some(Amf0::EcmaArray(pairs)), q2),
                }
            }
        } else if marker == 0x0A {
            if q + 4 > data.len() {
                (None, q)
            } else {
                let count = be32(data[q], data[q + 1], data[q + 2], data[q + 3]);
                let r = dec_items(data, q + 4, count, (fuel - 1) as nat);
                (Some(Amf0::StrictArray(r.0)), r.1)
            }
        } else if marker == 0x0C {
            if q + 4 > data.len() {
                (None, q)
            } else {
                let n = be32(data[q], data[q + 1], data[q + 2], data[q + 3]);
                if q + 4 + n > data.len() {
                    (None, q + 4)
                } else {
                    (Some(Amf0::Str(lossy_decode(data.subrange(q + 4, q + 4 + n)))), q + 4 + n)
                }
            }
        } else {
            (None, q)
        }
    }
}

/// Decode object properties until the end marker `00 00 09` (or an empty
/// key directly followed by `09`).
pub open spec fn dec_props(data: Seq<u8>, pos: int, fuel: nat) -> (
    Option<Seq<(Seq<char>, Amf0)>>,
    int,
)
    decreases fuel,
{
    if fuel == 0 {
        (None, pos)
    } else if pos + 3 <= data.len() && data[pos] == 0 && data[pos + 1] == 0 && data[pos + 2]
        == 9 {
        (Some(Seq::<(Seq<char>, Amf0)>::empty()), pos + 3)
    } else {
        let (k, q) = dec_utf8(data, pos);
        match k {
            None => (None, q),
            Some(key) => {
                if key.len() == 0 && q < data.len() && data[q] == 9 {
                    (Some(Seq::<(Seq<char>, Amf0)>::empty()), q + 1)
                } else {
                    let (v, q2) = dec_value(data, q, (fuel - 1) as nat);
                    match v {
                        None => (None, q2),
                        Some(val) => {
                            let (ps, q3) = dec_props(data, q2, (fuel - 1) as nat);
                            match ps {
                                None => (None, q3),
                                Some(rest) => (Some(seq![(key, val)] + rest), q3),
                            }
                        },
                    }
                }
            },
        }
    }
}

/// Decode up to `count` strict-array items, stopping early where a value
/// fails to decode (the partial list still stands).
pub open spec fn dec_items(data: Seq<u8>, pos: int, count: int, fuel: nat) -> (Seq<Amf0>, int)
    decreases fuel,
{
    if fuel == 0 || count <= 0 {
        (Seq::<Amf0>::empty(), pos)
    } else {
        let (v, q) = dec_value(data, pos, (fuel - 1) as nat);
        match v {
            None => (Seq::<Amf0>::empty(), q),
            Some(val) => {
                let r = dec_items(data, q, count - 1, (fuel - 1) as nat);
                (seq![val] + r.0, r.1)
            },
        }
    }
}

/// Decode values from `pos` until one fails; the prefix decoded so far.
pub open spec fn dec_all(data: Seq<u8>, pos: int, fuel: nat) -> Seq<Amf0>
    decreases fuel,
{
    if fuel == 0 {
        Seq::<Amf0>::empty()
    } else {
        let (v, q) = dec_value(data, pos, (fuel - 1) as nat);
        match v {
            None => Seq::<Amf0>::empty(),
            Some(val) => seq![val] + dec_all(data, q, (fuel - 1) as nat),
        }
    }
}


/// The model of an optional decoded value.
pub open spec fn opt_value_model(r: Option<Amf0Value>) -> Option<Amf0> {
    match r {
        None => None,
        Some(x) => Some(x.model()),
    }
}

/// A string's UTF-8 encoding is empty exactly when the string is.
pub proof fn lemma_encode_utf8_empty(s: Seq<char>)
    ensures
        encode_utf8(s).len() == 0 <==> s.len() == 0,
{
    if s.len() > 0 {
        vstd::utf8::char_is_scalar(s[0]);
        assert(encode_utf8(s) == vstd::utf8::encode_scalar(s[0] as u32) + encode_utf8(
            s.drop_first(),
        ));
        assert(vstd::utf8::encode_scalar(s[0] as u32).len() >= 1);
    }
}

// ─── Decoder ───

/// Reads AMF0 values from a byte buffer, tolerating truncation and
/// unknown markers by stopping where they occur.
pub struct Amf0Decoder<'a> {
    data: &'a [u8],
    pos: usize,
}

impl<'a> Amf0Decoder<'a> {
    /// The bytes being decoded.
    pub closed spec fn data_view(&self) -> Seq<u8> {
        self.data@
    }

    /// The current read position.
    pub closed spec fn pos_view(&self) -> int {
        self.pos as int
    }

    /// The position never passes the end of the buffer.
    pub closed spec fn wf(&self) -> bool {
        self.pos <= self.data@.len()
    }

    pub fn new(data: &'a [u8]) -> (r: Amf0Decoder<'a>)
        ensures
            r.wf(),
            r.data_view() == data@,
            r.pos_view() == 0,
    {
        Amf0Decoder { data, pos: 0 }
    }

    /// How many bytes are left to decode.
    pub fn remaining(&self) -> (r: usize)
        requires
            self.wf(),
        ensures
            r == self.data_view().len() - self.pos_view(),
    {
        self.data.len() - self.pos
    }

    /// Decode one value: `None` at an unknown marker or truncated input.
    pub fn decode(&mut self) -> (r: Option<Amf0Value>)
        requires
            old(self).wf(),
        ensures
            final(self).wf(),
            final(self).data_view() == old(self).data_view(),
            final(self).pos_view() >= old(self).pos_view(),
            r is Some ==> final(self).pos_view() >= old(self).pos_view() + 1,
            forall|f: nat|
                f >= 2 * (old(self).data_view().len() - old(self).pos_view()) + 2
                    ==> #[trigger] dec_value(old(self).data_view(), old(self).pos_view(), f) == (
                    opt_value_model(r),
                    final(self).pos_view(),
                ),
        decreases old(self).data_view().len() - old(self).pos_view(), 1nat,
    {
        let ghost data = self.data@;
        let ghost p0 = self.pos as int;
        if self.pos >= self.data.len() {
            return None;
        }
        let marker = self.data[self.pos];
        self.pos = self.pos + 1;
        let r = if marker == 0x00 {
            self.read_number()
        } else if marker == 0x01 {
            self.read_boolean()
        } else if marker == 0x02 {
            self.read_string()
        } else if marker == 0x03 {
            self.read_object()
        } else if marker == 0x05 {
            Some(Amf0Value::Null)
        } else if marker == 0x06 {
            Some(Amf0Value::Undefined)
        } else if marker == 0x08 {
            self.read_ecma_array()
        } else if marker == 0x0A {
            self.read_strict_array()
        } else if marker == 0x0C {
            self.read_long_string()
        } else {
            None
        };
        proof {
            assert forall|f: nat| f >= 2 * (data.len() - p0) + 2 implies #[trigger] dec_value(
                data,
                p0,
                f,
            ) == (opt_value_model(r), self.pos as int) by {
                let f1 = (f - 1) as nat;
                if marker == 0x03 {
                    assert(f1 >= 2 * (data.len() - (p0 + 1)) + 2);
                    let dp = dec_props(data, p0 + 1, f1);
                    assert(self.pos as int == dp.1);
                } else if marker == 0x08 {
                    if p0 + 5 <= data.len() {
                        assert(f1 >= 2 * (data.len() - (p0 + 5)) + 2);
                        let dp = dec_props(data, p0 + 5, f1);
                        assert(self.pos as int == dp.1);
                    }
                } else if marker == 0x0A {
                    if p0 + 5 <= data.len() {
                        let count = be32(data[p0 + 1], data[p0 + 2], data[p0 + 3], data[p0 + 4]);
                        assert(f1 >= 2 * (data.len() - (p0 + 5)) + 3);
                        let di = dec_items(data, p0 + 5, count, f1);
                        assert(self.pos as int == di.1);
                    }
                }
            }
        }
        r
    }

    /// Decode values until one fails; the prefix decoded so far.
    pub fn decode_all(&mut self) -> (r: Vec<Amf0Value>)
        requires
            old(self).wf(),
        ensures
            final(self).wf(),
            final(self).data_view() == old(self).data_view(),
            final(self).pos_view() >= old(self).pos_view(),
            forall|f: nat|
                f >= 2 * (old(self).data_view().len() - old(self).pos_view()) + 3
                    ==> #[trigger] dec_all(old(self).data_view(), old(self).pos_view(), f)
                    == items_model(r@),
        decreases old(self).data_view().len() - old(self).pos_view(), 2nat,
    {
        let ghost data = self.data@;
        let ghost p0 = self.pos as int;
        let v = match self.decode() {
            None => {
                let r: Vec<Amf0Value> = Vec::new();
                proof {
                    assert(items_model(r@) =~= Seq::<Amf0>::empty());
                    assert forall|f: nat| f >= 2 * (data.len() - p0) + 3 implies #[trigger] dec_all(
                        data,
                        p0,
                        f,
                    ) == items_model(r@) by {
                        let f1 = (f - 1) as nat;
                        assert(dec_value(data, p0, f1) == (
                            opt_value_model(None::<Amf0Value>),
                            self.pos as int,
                        ));
                    }
                }
                return r;
            },
            Some(v) => v,
        };
        let ghost q1 = self.pos as int;
        let mut rest = self.decode_all();
        let ghost q2 = self.pos as int;
        let ghost rest0 = rest@;
        rest.insert(0, v);
        proof {
            assert(rest@.drop_first() =~= rest0);
            assert(items_model(rest@) =~= seq![v.model()] + items_model(rest0));
            assert forall|f: nat| f >= 2 * (data.len() - p0) + 3 implies #[trigger] dec_all(
                data,
                p0,
                f,
            ) == items_model(rest@) by {
                let f1 = (f - 1) as nat;
                assert(dec_value(data, p0, f1) == (opt_value_model(Some(v)), q1));
                assert(f1 >= 2 * (data.len() - q1) + 3);
                assert(dec_all(data, q1, f1) == items_model(rest0));
            }
        }
        rest
    }

    fn read_number(&mut self) -> (r: Option<Amf0Value>)
        requires
            old(self).wf(),
        ensures
            final(self).wf(),
            final(self).data_view() == old(self).data_view(),
            ({
                let data = old(self).data_view();
                let p = old(self).pos_view();
                if p + 8 <= data.len() {
                    &&& final(self).pos_view() == p + 8
                    &&& opt_value_model(r) == Some(
                        Amf0::Number(
                            be64(
                                data[p],
                                data[p + 1],
                                data[p + 2],
                                data[p + 3],
                                data[p + 4],
                                data[p + 5],
                                data[p + 6],
                                data[p + 7],
                            ) as u64,
                        ),
                    )
                } else {
                    &&& final(self).pos_view() == p
                    &&& r is None
                }
            }),
    {
        if self.data.len() - self.pos < 8 {
            return None;
        }
        let p = self.pos;
        let bits = read_be64(
            self.data[p],
            self.data[p + 1],
            self.data[p + 2],
            self.data[p + 3],
            self.data[p + 4],
            self.data[p + 5],
            self.data[p + 6],
            self.data[p + 7],
        );
        self.pos = p + 8;
        Some(Amf0Value::Number(bits))
    }

    fn read_boolean(&mut self) -> (r: Option<Amf0Value>)
        requires
            old(self).wf(),
        ensures
            final(self).wf(),
            final(self).data_view() == old(self).data_view(),
            ({
                let data = old(self).data_view();
                let p = old(self).pos_view();
                if p + 1 <= data.len() {
                    &&& final(self).pos_view() == p + 1
                    &&& opt_value_model(r) == Some(Amf0::Boolean(data[p] != 0))
                } else {
                    &&& final(self).pos_view() == p
                    &&& r is None
                }
            }),
    {
        if self.pos >= self.data.len() {
            return None;
        }
        let val = self.data[self.pos] != 0;
        self.pos = self.pos + 1;
        Some(Amf0Value::Boolean(val))
    }

    /// Read a 16-bit-length-prefixed string, replacing invalid UTF-8.
    fn read_utf8(&mut self) -> (r: Option<String>)
        requires
            old(self).wf(),
        ensures
            final(self).wf(),
            final(self).data_view() == old(self).data_view(),
            ({
                let du = dec_utf8(old(self).data_view(), old(self).pos_view());
                &&& final(self).pos_view() == du.1
                &&& match (r, du.0) {
                    (Some(x), Some(cs)) => x@ == cs,
                    (None, None) => true,
                    _ => false,
                }
            }),
    {
        if self.data.len() - self.pos < 2 {
            return None;
        }
        let len = read_be16(self.data[self.pos], self.data[self.pos + 1]) as usize;
        self.pos = self.pos + 2;
        if len > self.data.len() - self.pos {
            return None;
        }
        let s = bytes_to_string_lossy(&self.data[self.pos..self.pos + len]);
        self.pos = self.pos + len;
        Some(s)
    }

    fn read_string(&mut self) -> (r: Option<Amf0Value>)
        requires
            old(self).wf(),
        ensures
            final(self).wf(),
            final(self).data_view() == old(self).data_view(),
            ({
                let du = dec_utf8(old(self).data_view(), old(self).pos_view());
                &&& final(self).pos_view() == du.1
                &&& match (r, du.0) {
                    (Some(x), Some(cs)) => x.model() == Amf0::Str(cs),
                    (None, None) => true,
                    _ => false,
                }
            }),
    {
        match self.read_utf8() {
            None => None,
            Some(s) => Some(Amf0Value::Str(s)),
        }
    }

    fn read_long_string(&mut self) -> (r: Option<Amf0Value>)
        requires
            old(self).wf(),
        ensures
            final(self).wf(),
            final(self).data_view() == old(self).data_view(),
            ({
                let data = old(self).data_view();
                let p = old(self).pos_view();
                if p + 4 > data.len() {
                    &&& final(self).pos_view() == p
                    &&& r is None
                } else {
                    let n = be32(data[p], data[p + 1], data[p + 2], data[p + 3]);
                    if p + 4 + n > data.len() {
                        &&& final(self).pos_view() == p + 4
                        &&& r is None
                    } else {
                        &&& final(self).pos_view() == p + 4 + n
                        &&& opt_value_model(r) == Some(
                            Amf0::Str(lossy_decode(data.subrange(p + 4, p + 4 + n))),
                        )
                    }
                }
            }),
    {
        if self.data.len() - self.pos < 4 {
            return None;
        }
        let len = read_be32(
            self.data[self.pos],
            self.data[self.pos + 1],
            self.data[self.pos + 2],
            self.data[self.pos + 3],
        ) as usize;
        self.pos = self.pos + 4;
        if len > self.data.len() - self.pos {
            return None;
        }
        let s = bytes_to_string_lossy(&self.data[self.pos..self.pos + len]);
        self.pos = self.pos + len;
        Some(Amf0Value::Str(s))
    }

    /// Read object properties until the end marker.
    fn read_object_properties(&mut self) -> (r: Option<Vec<(String, Amf0Value)>>)
        requires
            old(self).wf(),
        ensures
            final(self).wf(),
            final(self).data_view() == old(self).data_view(),
            final(self).pos_view() >= old(self).pos_view(),
            forall|f: nat|
                f >= 2 * (old(self).data_view().len() - old(self).pos_view()) + 2 ==> ({
                    let dp = #[trigger] dec_props(old(self).data_view(), old(self).pos_view(), f);
                    &&& final(self).pos_view() == dp.1
                    &&& match (r, dp.0) {
                        (Some(x), Some(ps)) => pairs_model(x@) == ps,
                        (None, None) => true,
                        _ => false,
                    }
                }),
        decreases old(self).data_view().len() - old(self).pos_view(), 2nat,
    {
        let ghost data = self.data@;
        let ghost p0 = self.pos as int;
        // end marker 00 00 09
        if self.data.len() - self.pos >= 3 && self.data[self.pos] == 0 && self.data[self.pos + 1]
            == 0 && self.data[self.pos + 2] == 9 {
            self.pos = self.pos + 3;
            let r: Vec<(String, Amf0Value)> = Vec::new();
            assert(pairs_model(r@) =~= Seq::<(Seq<char>, Amf0)>::empty());
            return Some(r);
        }
        let key = match self.read_utf8() {
            None => {
                proof {
                    assert forall|f: nat| f >= 2 * (data.len() - p0) + 2 implies ({
                        let dp = #[trigger] dec_props(data, p0, f);
                        dp.0 is None && dp.1 == self.pos as int
                    }) by {
                        assert(dec_utf8(data, p0).0 is None);
                    }
                }
                return None;
            },
            Some(k) => k,
        };
        let ghost q1 = self.pos as int;
        proof {
            lemma_encode_utf8_empty(key@);
        }
        if key.as_str().is_empty() {
            // some encoders end an object with an empty key and a bare 0x09
            if self.pos < self.data.len() && self.data[self.pos] == 9 {
                self.pos = self.pos + 1;
                let r: Vec<(String, Amf0Value)> = Vec::new();
                assert(pairs_model(r@) =~= Seq::<(Seq<char>, Amf0)>::empty());
                return Some(r);
            }
        }
        let value = match self.decode() {
            None => {
                proof {
                    assert forall|f: nat| f >= 2 * (data.len() - p0) + 2 implies ({
                        let dp = #[trigger] dec_props(data, p0, f);
                        dp.0 is None && dp.1 == self.pos as int
                    }) by {
                        let f1 = (f - 1) as nat;
                        assert(f1 >= 2 * (data.len() - q1) + 2);
                        assert(dec_value(data, q1, f1) == (
                            opt_value_model(None::<Amf0Value>),
                            self.pos as int,
                        ));
                    }
                }
                return None;
            },
            Some(v) => v,
        };
        let ghost q2 = self.pos as int;
        let mut rest = match self.read_object_properties() {
            None => {
                proof {
                    assert forall|f: nat| f >= 2 * (data.len() - p0) + 2 implies ({
                        let dp = #[trigger] dec_props(data, p0, f);
                        dp.0 is None && dp.1 == self.pos as int
                    }) by {
                        let f1 = (f - 1) as nat;
                        assert(dec_value(data, q1, f1) == (opt_value_model(Some(value)), q2));
                        assert(f1 >= 2 * (data.len() - q2) + 2);
                        let dpr = dec_props(data, q2, f1);
                        assert(dpr.0 is None && dpr.1 == self.pos as int);
                    }
                }
                return None;
            },
            Some(ps) => ps,
        };
        let ghost q3 = self.pos as int;
        let ghost rest0 = rest@;
        rest.insert(0, (key, value));
        proof {
            assert(rest@.drop_first() =~= rest0);
            assert(pairs_model(rest@) =~= seq![(rest@[0].0@, rest@[0].1.model())] + pairs_model(
                rest0,
            ));
            assert forall|f: nat| f >= 2 * (data.len() - p0) + 2 implies ({
                let dp = #[trigger] dec_props(data, p0, f);
                dp.0 == Some(pairs_model(rest@)) && dp.1 == self.pos as int
            }) by {
                let f1 = (f - 1) as nat;
                assert(dec_value(data, q1, f1) == (opt_value_model(Some(value)), q2));
                assert(f1 >= 2 * (data.len() - q2) + 2);
                let dpr = dec_props(data, q2, f1);
                assert(dpr.0 == Some(pairs_model(rest0)) && dpr.1 == q3);
            }
        }
        Some(rest)
    }

    fn read_object(&mut self) -> (r: Option<Amf0Value>)
        requires
            old(self).wf(),
        ensures
            final(self).wf(),
            final(self).data_view() == old(self).data_view(),
            final(self).pos_view() >= old(self).pos_view(),
            forall|f: nat|
                f >= 2 * (old(self).data_view().len() - old(self).pos_view()) + 2 ==> ({
                    let dp = #[trigger] dec_props(old(self).data_view(), old(self).pos_view(), f);
                    &&& final(self).pos_view() == dp.1
                    &&& match (r, dp.0) {
                        (Some(x), Some(ps)) => x.model() == Amf0::Object(ps),
                        (None, None) => true,
                        _ => false,
                    }
                }),
        decreases old(self).data_view().len() - old(self).pos_view(), 3nat,
    {
        match self.read_object_properties() {
            None => None,
            Some(ps) => Some(Amf0Value::Object(ps)),
        }
    }

    fn read_ecma_array(&mut self) -> (r: Option<Amf0Value>)
        requires
            old(self).wf(),
        ensures
            final(self).wf(),
            final(self).data_view() == old(self).data_view(),
            final(self).pos_view() >= old(self).pos_view(),
            ({
                let data = old(self).data_view();
                let p = old(self).pos_view();
                if p + 4 > data.len() {
                    &&& final(self).pos_view() == p
                    &&& r is None
                } else {
                    forall|f: nat|
                        f >= 2 * (data.len() - (p + 4)) + 2 ==> ({
                            let dp = #[trigger] dec_props(data, p + 4, f);
                            &&& final(self).pos_view() == dp.1
                            &&& match (r, dp.0) {
                                (Some(x), Some(ps)) => x.model() == Amf0::EcmaArray(ps),
                                (None, None) => true,
                                _ => false,
                            }
                        })
                }
            }),
        decreases old(self).data_view().len() - old(self).pos_view(), 3nat,
    {
        if self.data.len() - self.pos < 4 {
            return None;
        }
        // the advisory count is not trusted
        self.pos = self.pos + 4;
        match self.read_object_properties() {
            None => None,
            Some(ps) => Some(Amf0Value::EcmaArray(ps)),
        }
    }

    /// Read up to `count` strict-array items, stopping early where one
    /// fails to decode.
    fn read_items(&mut self, count: u32) -> (r: Vec<Amf0Value>)
        requires
            old(self).wf(),
        ensures
            final(self).wf(),
            final(self).data_view() == old(self).data_view(),
            final(self).pos_view() >= old(self).pos_view(),
            forall|f: nat|
                f >= 2 * (old(self).data_view().len() - old(self).pos_view()) + 3
                    ==> #[trigger] dec_items(
                    old(self).data_view(),
                    old(self).pos_view(),
                    count as int,
                    f,
                ) == (items_model(r@), final(self).pos_view()),
        decreases old(self).data_view().len() - old(self).pos_view(), 2nat,
    {
        if count == 0 {
            let r: Vec<Amf0Value> = Vec::new();
            assert(items_model(r@) =~= Seq::<Amf0>::empty());
            return r;
        }
        let ghost data = self.data@;
        let ghost p0 = self.pos as int;
        let v = match self.decode() {
            None => {
                let r: Vec<Amf0Value> = Vec::new();
                proof {
                    assert(items_model(r@) =~= Seq::<Amf0>::empty());
                    assert forall|f: nat| f >= 2 * (data.len() - p0) + 3 implies #[trigger] dec_items(
                        data,
                        p0,
                        count as int,
                        f,
                    ) == (items_model(r@), self.pos as int) by {
                        let f1 = (f - 1) as nat;
                        assert(f1 >= 2 * (data.len() - p0) + 2);
                        assert(dec_value(data, p0, f1) == (
                            opt_value_model(None::<Amf0Value>),
                            self.pos as int,
                        ));
                    }
                }
                return r;
            },
            Some(v) => v,
        };
        let ghost q1 = self.pos as int;
        let mut rest = self.read_items(count - 1);
        let ghost q2 = self.pos as int;
        let ghost rest0 = rest@;
        rest.insert(0, v);
        proof {
            assert(rest@.drop_first() =~= rest0);
            assert(items_model(rest@) =~= seq![v.model()] + items_model(rest0));
            assert forall|f: nat| f >= 2 * (data.len() - p0) + 3 implies #[trigger] dec_items(
                data,
                p0,
                count as int,
                f,
            ) == (items_model(rest@), self.pos as int) by {
                let f1 = (f - 1) as nat;
                assert(dec_value(data, p0, f1) == (opt_value_model(Some(v)), q1));
                assert(f1 >= 2 * (data.len() - q1) + 3);
                assert(dec_items(data, q1, count as int - 1, f1) == (items_model(rest0), q2));
            }
        }
        rest
    }

    fn read_strict_array(&mut self) -> (r: Option<Amf0Value>)
        requires
            old(self).wf(),
        ensures
            final(self).wf(),
            final(self).data_view() == old(self).data_view(),
            final(self).pos_view() >= old(self).pos_view(),
            ({
                let data = old(self).data_view();
                let p = old(self).pos_view();
                if p + 4 > data.len() {
                    &&& final(self).pos_view() == p
                    &&& r is None
                } else {
                    let count = be32(data[p], data[p + 1], data[p + 2], data[p + 3]);
                    forall|f: nat|
                        f >= 2 * (data.len() - (p + 4)) + 3 ==> ({
                            let di = #[trigger] dec_items(data, p + 4, count, f);
                            &&& final(self).pos_view() == di.1
                            &&& match r {
                                Some(x) => x.model() == Amf0::StrictArray(di.0),
                                None => false,
                            }
                        })
                }
            }),
        decreases old(self).data_view().len() - old(self).pos_view(), 3nat,
    {
        if self.data.len() - self.pos < 4 {
            return None;
        }
        let count = read_be32(
            self.data[self.pos],
            self.data[self.pos + 1],
            self.data[self.pos + 2],
            self.data[self.pos + 3],
        );
        self.pos = self.pos + 4;
        let items = self.read_items(count);
        Some(Amf0Value::StrictArray(items))
    }
}


// ─── Round trip: decoding an encoded value yields the value ───

/// A 16-bit-length-prefixed string reads back as the string encoded.
pub proof fn lemma_roundtrip_utf8(data: Seq<u8>, pos: int, str_chars: Seq<char>)
    requires
        encode_utf8(str_chars).len() < 0x10000,
        0 <= pos,
        pos + 2 + encode_utf8(str_chars).len() <= data.len(),
        data.subrange(pos, pos + 2 + encode_utf8(str_chars).len()) == enc_str_body(str_chars),
    ensures
        dec_utf8(data, pos) == (Some(str_chars), pos + 2 + encode_utf8(str_chars).len()),
{
    broadcast use vstd::utf8::encode_utf8_valid_utf8, vstd::utf8::encode_utf8_decode_utf8;

    let b = encode_utf8(str_chars);
    let blen = b.len() as int;
    crate::bytes::lemma_be16_roundtrip(blen as u32);
    assert(data.subrange(pos, pos + 2 + blen)[0] == data[pos + 0]);
    assert(data.subrange(pos, pos + 2 + blen)[1] == data[pos + 1]);
    assert(enc_str_body(str_chars)[0] == be16_bytes(blen as u32)[0]);
    assert(enc_str_body(str_chars)[1] == be16_bytes(blen as u32)[1]);
    assert(data[pos] == be16_bytes(blen as u32)[0]);
    assert(data[pos + 1] == be16_bytes(blen as u32)[1]);
    assert(be16(data[pos], data[pos + 1]) == blen);
    assert(data.subrange(pos + 2, pos + 2 + blen) =~= b.take(blen)) by {
        assert forall|i: int| 0 <= i < blen implies data.subrange(pos + 2, pos + 2 + blen)[i]
            == b.take(blen)[i] by {
            assert(data[pos + 2 + i] == enc_str_body(str_chars)[2 + i]);
        }
    }
    assert(b.take(blen) =~= b);
    assert(lossy_decode(b) == str_chars);
}

/// Decoding the encoding of an encodable value yields the value and
/// stops exactly at its end.
#[verifier::rlimit(100)]
#[verifier::spinoff_prover]
pub proof fn lemma_roundtrip_value(data: Seq<u8>, pos: int, m: Amf0, f: nat)
    requires
        encodable(m),
        0 <= pos,
        pos + enc_value(m).len() <= data.len(),
        data.subrange(pos, pos + enc_value(m).len()) == enc_value(m),
        f >= 2 * (data.len() - pos) + 2,
    ensures
        dec_value(data, pos, f) == (Some(m), pos + enc_value(m).len()),
    decreases m,
{
    let e = enc_value(m);
    let q = pos + 1;
    assert(data[pos] == e[0]);
    match m {
        Amf0::Number(bits) => {
            crate::bytes::lemma_be64_roundtrip(bits);
            assert forall|i: int| 0 <= i < 8 implies data[q + i] == be64_bytes(bits)[i] by {
                assert(data[pos + (1 + i)] == e[1 + i]);
            }
            assert(be64(
                data[q],
                data[q + 1],
                data[q + 2],
                data[q + 3],
                data[q + 4],
                data[q + 5],
                data[q + 6],
                data[q + 7],
            ) == bits);
        },
        Amf0::Boolean(b) => {
            assert(data[pos + 1] == e[1]);
            assert((data[q] != 0) == b);
        },
        Amf0::Str(str_chars) => {
            assert(data.subrange(q, q + 2 + encode_utf8(str_chars).len()) =~= enc_str_body(
                str_chars,
            )) by {
                assert forall|i: int| 0 <= i < 2 + encode_utf8(str_chars).len() implies data[q + i]
                    == enc_str_body(str_chars)[i] by {
                    assert(data[pos + (1 + i)] == e[1 + i]);
                }
            }
            lemma_roundtrip_utf8(data, q, str_chars);
        },
        Amf0::Object(ps) => {
            let plen = enc_props(ps).len() as int;
            assert(data.subrange(q, q + plen + 3) =~= enc_props(ps) + seq![
                0x00u8,
                0x00u8,
                0x09u8,
            ]) by {
                assert forall|i: int| 0 <= i < plen + 3 implies data[q + i] == (enc_props(ps)
                    + seq![0x00u8, 0x00u8, 0x09u8])[i] by {
                    assert(data[pos + (1 + i)] == e[1 + i]);
                }
            }
            lemma_roundtrip_props(data, q, ps, (f - 1) as nat);
        },
        Amf0::Null => {
        },
        Amf0::Undefined => {
            assert(false);
        },
        Amf0::EcmaArray(_) => {
            assert(false);
        },
        Amf0::StrictArray(items) => {
            let count = items.len() as u32;
            crate::bytes::lemma_be32_roundtrip(count);
            assert forall|i: int| 0 <= i < 4 implies data[q + i] == be32_bytes(count)[i] by {
                assert(data[pos + (1 + i)] == e[1 + i]);
            }
            assert(be32(data[q], data[q + 1], data[q + 2], data[q + 3]) == count);
            let ilen = enc_items(items).len() as int;
            assert(data.subrange(q + 4, q + 4 + ilen) =~= enc_items(items)) by {
                assert forall|i: int| 0 <= i < ilen implies data[q + 4 + i] == enc_items(items)[i]
                    by {
                    assert(data[pos + (5 + i)] == e[5 + i]);
                }
            }
            lemma_roundtrip_items(data, q + 4, items, (f - 1) as nat);
            assert(count as int == items.len());
        },
    }
}

/// Decoding the encoding of encodable properties (closed by the object
/// end marker) yields the pairs and stops after the marker.
#[verifier::rlimit(100)]
#[verifier::spinoff_prover]
pub proof fn lemma_roundtrip_props(data: Seq<u8>, pos: int, ps: Seq<(Seq<char>, Amf0)>, f: nat)
    requires
        encodable_props(ps),
        0 <= pos,
        pos + enc_props(ps).len() + 3 <= data.len(),
        data.subrange(pos, pos + enc_props(ps).len() + 3) == enc_props(ps) + seq![
            0x00u8,
            0x00u8,
            0x09u8,
        ],
    f >= 2 * (data.len() - pos) + 2,
    ensures
        dec_props(data, pos, f) == (
            Some(ps),
            pos + enc_props(ps).len() + 3,
        ),
    decreases ps,
{
    if ps.len() == 0 {
        assert(data[pos] == 0 && data[pos + 1] == 0 && data[pos + 2] == 9) by {
            assert(data[pos + 0] == (enc_props(ps) + seq![0x00u8, 0x00u8, 0x09u8])[0]);
            assert(data[pos + 1] == (enc_props(ps) + seq![0x00u8, 0x00u8, 0x09u8])[1]);
            assert(data[pos + 2] == (enc_props(ps) + seq![0x00u8, 0x00u8, 0x09u8])[2]);
        }
    } else {
        let key = ps[0].0;
        let v = ps[0].1;
        let kb = encode_utf8(key);
        let klen = kb.len() as int;
        let vlen = enc_value(v).len() as int;
        let restb = enc_props(ps.drop_first());
        let whole = enc_props(ps) + seq![0x00u8, 0x00u8, 0x09u8];
        assert(enc_props(ps) == enc_str_body(key) + enc_value(v) + restb);
        assert(enc_str_body(key).len() == 2 + klen);
        // the first key's length prefix and the value marker rule out the
        // end-marker and empty-key terminations
        lemma_enc_first_byte(v);
        assert(data[pos + 0] == whole[0]);
        assert(data[pos + 1] == whole[1]);
        assert(data[pos + 2] == whole[2]);
        assert(whole[0] == be16_bytes(klen as u32)[0]);
        assert(whole[1] == be16_bytes(klen as u32)[1]);
        crate::bytes::lemma_be16_roundtrip(klen as u32);
        let q = pos + 2 + klen;
        assert(data.subrange(pos, q) =~= enc_str_body(key)) by {
            assert forall|i: int| 0 <= i < 2 + klen implies data[pos + i] == enc_str_body(key)[i]
                by {
                assert(data[pos + i] == whole[i]);
            }
        }
        lemma_roundtrip_utf8(data, pos, key);
        if klen == 0 {
            // an empty key is followed by the value's marker, never 0x09
            assert(data[pos + 2] == whole[2]);
            assert(whole[2] == enc_value(v)[0]);
            lemma_encode_utf8_empty(key);
        } else {
            assert(be16(whole[0], whole[1]) == klen);
            assert(!(data[pos] == 0 && data[pos + 1] == 0 && data[pos + 2] == 9)) by {
                if data[pos] == 0 && data[pos + 1] == 0 {
                    assert(be16(whole[0], whole[1]) == 0);
                }
            }
            lemma_encode_utf8_empty(key);
        }
        assert(data.subrange(q, q + vlen) =~= enc_value(v)) by {
            assert forall|i: int| 0 <= i < vlen implies data[q + i] == enc_value(v)[i] by {
                assert(data[pos + (2 + klen + i)] == whole[2 + klen + i]);
            }
        }
        lemma_roundtrip_value(data, q, v, (f - 1) as nat);
        let q2 = q + vlen;
        assert(data.subrange(q2, q2 + restb.len() + 3) =~= restb + seq![0x00u8, 0x00u8, 0x09u8])
            by {
            assert forall|i: int| 0 <= i < restb.len() + 3 implies data[q2 + i] == (restb + seq![
                0x00u8,
                0x00u8,
                0x09u8,
            ])[i] by {
                assert(data[pos + (2 + klen + vlen + i)] == whole[2 + klen + vlen + i]);
            }
        }
        lemma_roundtrip_props(data, q2, ps.drop_first(), (f - 1) as nat);
        assert(seq![(key, v)] + ps.drop_first() =~= ps);
    }
}

/// Decoding the encoding of encodable items with their own count yields
/// the items and stops at their end.
#[verifier::rlimit(100)]
#[verifier::spinoff_prover]
pub proof fn lemma_roundtrip_items(data: Seq<u8>, pos: int, items: Seq<Amf0>, f: nat)
    requires
        encodable_items(items),
        0 <= pos,
        pos + enc_items(items).len() <= data.len(),
        data.subrange(pos, pos + enc_items(items).len()) == enc_items(items),
        f >= 2 * (data.len() - pos) + 3,
    ensures
        dec_items(data, pos, items.len() as int, f) == (items, pos + enc_items(items).len()),
    decreases items,
{
    if items.len() == 0 {
    } else {
        let v = items[0];
        let vlen = enc_value(v).len() as int;
        let restb = enc_items(items.drop_first());
        assert(enc_items(items) == enc_value(v) + restb);
        assert(data.subrange(pos, pos + vlen) =~= enc_value(v)) by {
            assert forall|i: int| 0 <= i < vlen implies data[pos + i] == enc_value(v)[i] by {
                assert(data[pos + i] == enc_items(items)[i]);
            }
        }
        lemma_roundtrip_value(data, pos, v, (f - 1) as nat);
        let q = pos + vlen;
        assert(data.subrange(q, q + restb.len()) =~= restb) by {
            assert forall|i: int| 0 <= i < restb.len() implies data[q + i] == restb[i] by {
                assert(data[pos + (vlen + i)] == enc_items(items)[vlen + i]);
            }
        }
        lemma_roundtrip_items(data, q, items.drop_first(), (f - 1) as nat);
        assert(seq![v] + items.drop_first() =~= items);
    }
}

/// AMF0 round trip on the encoder's supported value set: a value written
/// by the encoder and decoded again yields the value itself, with the
/// decoder stopping exactly at its end, whatever bytes follow.
pub proof fn lemma_amf0_roundtrip(m: Amf0, rest: Seq<u8>)
    requires
        encodable(m),
    ensures
        ({
            let data = enc_value(m) + rest;
            dec_value(data, 0, (2 * data.len() + 2) as nat) == (
                Some(m),
                enc_value(m).len() as int,
            )
        }),
{
    let data = enc_value(m) + rest;
    assert(data.subrange(0, enc_value(m).len() as int) =~= enc_value(m));
    lemma_roundtrip_value(data, 0, m, (2 * data.len() + 2) as nat);
}


/// First value recorded under `key`, scanning pairs in order.
pub open spec fn lookup_prop(ps: Seq<(Seq<char>, Amf0)>, key: Seq<char>) -> Option<Amf0>
    decreases ps.len(),
{
    if ps.len() == 0 {
        None
    } else if ps[0].0 == key {
        Some(ps[0].1)
    } else {
        lookup_prop(ps.drop_first(), key)
    }
}

impl Amf0Value {
    /// The borrowed string of a `Str` value.
    pub fn as_str(&self) -> (r: Option<&str>)
        ensures
            r is Some <==> self.model() is Str,
            r is Some ==> self.model() == Amf0::Str(r->Some_0@),
    {
        match self {
            Amf0Value::Str(s) => Some(s.as_str()),
            _ => None,
        }
    }

    /// The IEEE 754 bit pattern of a `Number` value.
    pub fn as_number(&self) -> (r: Option<u64>)
        ensures
            r is Some <==> self.model() is Number,
            r is Some ==> self.model() == Amf0::Number(r->Some_0),
    {
        match self {
            Amf0Value::Number(bits) => Some(*bits),
            _ => None,
        }
    }

    /// The borrowed pairs of an `Object` or `EcmaArray` value.
    pub fn as_object(&self) -> (r: Option<&Vec<(String, Amf0Value)>>)
        ensures
            r is Some <==> (self.model() is Object || self.model() is EcmaArray),
            r is Some ==> self.model() == Amf0::Object(pairs_model(r->Some_0@)) || self.model()
                == Amf0::EcmaArray(pairs_model(r->Some_0@)),
    {
        match self {
            Amf0Value::Object(pairs) => Some(pairs),
            Amf0Value::EcmaArray(pairs) => Some(pairs),
            _ => None,
        }
    }

    /// The first property recorded under `key` in an object or ECMA
    /// array; `None` for other variants or an absent key.
    pub fn get_property(&self, key: &str) -> (r: Option<&Amf0Value>)
        ensures
            ({
                let ps = match self.model() {
                    Amf0::Object(ps) => ps,
                    Amf0::EcmaArray(ps) => ps,
                    _ => Seq::<(Seq<char>, Amf0)>::empty(),
                };
                match r {
                    Some(v) => lookup_prop(ps, key@) == Some(v.model()),
                    None => lookup_prop(ps, key@) is None,
                }
            }),
    {
        let pairs = match self.as_object() {
            Some(ps) => ps,
            None => {
                return None;
            },
        };
        let ghost psm = pairs_model(pairs@);
        proof {
            lemma_pairs_model_index(pairs@);
        }
        let mut i: usize = 0;
        proof {
            assert(psm.skip(0int) =~= psm);
        }
        while i < pairs.len()
            invariant
                i <= pairs@.len(),
                psm == pairs_model(pairs@),
                self.model() == Amf0::Object(psm) || self.model() == Amf0::EcmaArray(psm),
                psm.len() == pairs@.len(),
                forall|j: int|
                    0 <= j < pairs@.len() ==> #[trigger] psm[j] == (
                        pairs@[j].0@,
                        pairs@[j].1.model(),
                    ),
                forall|j: int| 0 <= j < i ==> #[trigger] psm[j].0 != key@,
                lookup_prop(psm, key@) == lookup_prop(psm.skip(i as int), key@),
            decreases pairs@.len() - i,
        {
            if crate::strutil::str_eq(pairs[i].0.as_str(), key) {
                proof {
                    assert(psm.skip(i as int)[0] == psm[i as int]);
                    assert(psm.skip(i as int).len() > 0);
                    assert(psm[i as int].0 == key@);
                    assert(lookup_prop(psm.skip(i as int), key@) == Some(psm[i as int].1));
                }
                return Some(&pairs[i].1);
            }
            proof {
                assert(psm.skip(i as int).len() > 0);
                assert(psm.skip(i as int)[0] == psm[i as int]);
                assert(psm.skip(i as int).drop_first() =~= psm.skip(i + 1));
            }
            i = i + 1;
        }
        proof {
            assert(psm.skip(i as int).len() == 0);
        }
        None
    }
}


/// A value with no nested body.
pub open spec fn is_scalar_value(m: Amf0) -> bool {
    !(m is Object) && !(m is EcmaArray) && !(m is StrictArray)
}

/// A scalar value encodes into a bounded handful of bytes.
pub proof fn lemma_enc_value_scalar_len(m: Amf0)
    requires
        is_scalar_value(m),
    ensures
        enc_value(m).len() <= 0x10002,
{
    match m {
        Amf0::Str(str_chars) => {
            assert(enc_str_body(str_chars).len() <= 0x10001);
        },
        _ => {
        },
    }
}

/// Properties whose values are all scalars encode into bounded bytes.
pub proof fn lemma_enc_props_flat_len(ps: Seq<(Seq<char>, Amf0)>)
    requires
        forall|i: int| 0 <= i < ps.len() ==> is_scalar_value((#[trigger] ps[i]).1),
    ensures
        enc_props(ps).len() <= ps.len() * 0x20004,
    decreases ps.len(),
{
    if ps.len() > 0 {
        assert(enc_str_body(ps[0].0).len() <= 0x10001);
        lemma_enc_value_scalar_len(ps[0].1);
        assert(forall|i: int|
            0 <= i < ps.drop_first().len() ==> is_scalar_value(
                (#[trigger] ps.drop_first()[i]).1,
            ));
        lemma_enc_props_flat_len(ps.drop_first());
        assert(ps.len() * 0x20004 == (ps.len() - 1) * 0x20004 + 0x20004) by (nonlinear_arith);
    }
}

} // verus!
