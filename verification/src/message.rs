//! The RTMP message interpreter: protocol-control handling, the AMF0
//! command state machine that drives connect → createStream → publish,
//! and window-acknowledgement pacing.

use vstd::prelude::*;
use crate::amf0::{
    Amf0, Amf0Value, Amf0Decoder, Amf0Encoder, enc_value, enc_props, dec_all, lookup_prop,
    items_model, pairs_model, ref_pairs_model, lemma_ref_pairs_model_index,
};
use crate::bytes::{be16, be32, be32_bytes, read_be16, read_be32};
use crate::chunk::{ChunkWriter, RtmpMessage, message_bytes};
use crate::strutil::str_eq;

verus! {

/// IEEE 754 bit patterns of the doubles the responses carry.
pub const AMF_ZERO_BITS: u64 = 0;

pub const AMF_ONE_BITS: u64 = 0x3FF0_0000_0000_0000;

pub const AMF_THIRTYONE_BITS: u64 = 0x403F_0000_0000_0000;

/// Whether a double, given by its bit pattern, is strictly positive:
/// sign clear, not a zero, and not a NaN.
pub open spec fn amf_number_positive(bits: u64) -> bool {
    &&& bits < 0x8000_0000_0000_0000
    &&& bits != 0
    &&& !((bits / 0x10_0000_0000_0000) % 0x800 == 0x7FF && bits % 0x10_0000_0000_0000 != 0)
}

/// Test whether a double is strictly positive from its bit pattern.
pub fn number_is_positive(bits: u64) -> (r: bool)
    ensures
        r == amf_number_positive(bits),
{
    let sign_clear = bits < 0x8000_0000_0000_0000;
    let exponent = (bits / 0x10_0000_0000_0000) % 0x800;
    let mantissa = bits % 0x10_0000_0000_0000;
    sign_clear && bits != 0 && !(exponent == 0x7FF && mantissa != 0)
}

/// What a message handler hands back for one inbound message.
pub struct HandleResult {
    pub responses: Vec<Vec<u8>>,
    pub new_chunk_size: Option<u32>,
    pub event: Option<RtmpEvent>,
}

/// Events the session layer reacts to.
pub enum RtmpEvent {
    Connected { app_name: String },
    Publishing { app_name: String, stream_key: String },
    Metadata { properties: Vec<(String, Amf0Value)> },
    VideoData { timestamp: u32, data: Vec<u8> },
    AudioData { timestamp: u32, data: Vec<u8> },
    StreamEnded,
}

impl HandleResult {
    pub fn empty() -> (r: HandleResult)
        ensures
            r.responses@.len() == 0,
            r.new_chunk_size is None,
            r.event is None,
    {
        HandleResult { responses: Vec::new(), new_chunk_size: None, event: None }
    }

    pub fn response(data: Vec<u8>) -> (r: HandleResult)
        ensures
            r.responses@.len() == 1,
            r.responses@[0]@ == data@,
            r.new_chunk_size is None,
            r.event is None,
    {
        let mut responses: Vec<Vec<u8>> = Vec::new();
        responses.push(data);
        HandleResult { responses, new_chunk_size: None, event: None }
    }

    pub fn event(evt: RtmpEvent) -> (r: HandleResult)
        ensures
            r.responses@.len() == 0,
            r.new_chunk_size is None,
            r.event == Some(evt),
    {
        HandleResult { responses: Vec::new(), new_chunk_size: None, event: Some(evt) }
    }
}

/// The values decoded from an AMF0 payload.
pub open spec fn amf_values(payload: Seq<u8>) -> Seq<Amf0> {
    dec_all(payload, 0, (2 * payload.len() + 3) as nat)
}

/// The command name: the first decoded value, when it is a string.
pub open spec fn cmd_of(vals: Seq<Amf0>) -> Seq<char> {
    if vals.len() > 0 && vals[0] is Str {
        vals[0]->Str_0
    } else {
        Seq::empty()
    }
}

/// The transaction id bits: the second decoded value, when a number.
pub open spec fn txn_of(vals: Seq<Amf0>) -> u64 {
    if vals.len() > 1 && vals[1] is Number {
        vals[1]->Number_0
    } else {
        0
    }
}

/// The `_result(txn, null)` payload.
pub open spec fn result_null_payload(txn: u64) -> Seq<u8> {
    enc_value(Amf0::Str("_result"@)) + enc_value(Amf0::Number(txn)) + enc_value(Amf0::Null)
}

/// The `onFCPublish(0, null)` payload.
pub open spec fn fc_publish_payload() -> Seq<u8> {
    enc_value(Amf0::Str("onFCPublish"@)) + enc_value(Amf0::Number(AMF_ZERO_BITS)) + enc_value(
        Amf0::Null,
    )
}

/// The `_result(txn, null, 1.0)` payload answering createStream.
pub open spec fn create_stream_payload(txn: u64) -> Seq<u8> {
    result_null_payload(txn) + enc_value(Amf0::Number(AMF_ONE_BITS))
}

/// The properties object of the connect `_result`.
pub open spec fn connect_props() -> Seq<(Seq<char>, Amf0)> {
    seq![
        ("fmsVer"@, Amf0::Str("FMS/3,5,7,7009"@)),
        ("capabilities"@, Amf0::Number(AMF_THIRTYONE_BITS)),
        ("mode"@, Amf0::Number(AMF_ONE_BITS)),
    ]
}

/// The information object of the connect `_result`.
pub open spec fn connect_info() -> Seq<(Seq<char>, Amf0)> {
    seq![
        ("level"@, Amf0::Str("status"@)),
        ("code"@, Amf0::Str("NetConnection.Connect.Success"@)),
        ("description"@, Amf0::Str("Connection succeeded."@)),
        ("objectEncoding"@, Amf0::Number(AMF_ZERO_BITS)),
    ]
}

/// The connect `_result` payload.
pub open spec fn connect_result_payload(txn: u64) -> Seq<u8> {
    enc_value(Amf0::Str("_result"@)) + enc_value(Amf0::Number(txn)) + (seq![0x03u8] + enc_props(
        connect_props(),
    ) + seq![0x00u8, 0x00u8, 0x09u8]) + (seq![0x03u8] + enc_props(connect_info()) + seq![
        0x00u8,
        0x00u8,
        0x09u8,
    ])
}

/// The status object answering publish.
pub open spec fn publish_info() -> Seq<(Seq<char>, Amf0)> {
    seq![
        ("level"@, Amf0::Str("status"@)),
        ("code"@, Amf0::Str("NetStream.Publish.Start"@)),
        ("description"@, Amf0::Str("Publishing started."@)),
    ]
}

/// The `onStatus` payload answering publish.
pub open spec fn publish_status_payload() -> Seq<u8> {
    enc_value(Amf0::Str("onStatus"@)) + enc_value(Amf0::Number(AMF_ZERO_BITS)) + enc_value(
        Amf0::Null,
    ) + (seq![0x03u8] + enc_props(publish_info()) + seq![0x00u8, 0x00u8, 0x09u8])
}

/// Drives a publisher through connect → createStream → publish and paces
/// acknowledgements.
pub struct MessageHandler {
    writer: ChunkWriter,
    app_name: String,
    stream_key: String,
    window_ack_size: u32,
    bytes_received: u64,
    last_ack_sent: u64,
}

impl MessageHandler {
    /// The application name captured from connect.
    pub closed spec fn app_name_view(&self) -> Seq<char> {
        self.app_name@
    }

    /// The stream key captured from publish.
    pub closed spec fn stream_key_view(&self) -> Seq<char> {
        self.stream_key@
    }

    /// The acknowledgement window currently in force.
    pub closed spec fn window_ack_view(&self) -> u32 {
        self.window_ack_size
    }

    /// Total bytes the caller reported received.
    pub closed spec fn bytes_received_view(&self) -> u64 {
        self.bytes_received
    }

    /// The running total carried by the last acknowledgement.
    pub closed spec fn last_ack_view(&self) -> u64 {
        self.last_ack_sent
    }

    /// The writer keeps its fixed outbound chunk size and the last
    /// acknowledged total never runs ahead of the bytes seen.
    pub closed spec fn wf(&self) -> bool {
        &&& self.writer.wf()
        &&& self.last_ack_sent <= self.bytes_received
    }

    pub fn new() -> (r: MessageHandler)
        ensures
            r.wf(),
            r.app_name_view() == Seq::<char>::empty(),
            r.stream_key_view() == Seq::<char>::empty(),
            r.window_ack_view() == 2_500_000,
            r.bytes_received_view() == 0,
            r.last_ack_view() == 0,
    {
        MessageHandler {
            writer: ChunkWriter::new(),
            app_name: String::new(),
            stream_key: String::new(),
            window_ack_size: 2_500_000,
            bytes_received: 0,
            last_ack_sent: 0,
        }
    }

    /// How many more bytes `track_bytes` can absorb before the 64-bit
    /// counter would overflow.
    pub fn bytes_received_headroom(&self) -> (r: u64)
        ensures
            r == u64::MAX - self.bytes_received_view(),
    {
        u64::MAX - self.bytes_received
    }

    pub fn app_name(&self) -> (r: &str)
        ensures
            r@ == self.app_name_view(),
    {
        self.app_name.as_str()
    }

    pub fn stream_key(&self) -> (r: &str)
        ensures
            r@ == self.stream_key_view(),
    {
        self.stream_key.as_str()
    }

    /// Track received bytes for window acknowledgement: when the bytes
    /// since the last acknowledgement reach the window, emit a type-3
    /// message carrying the 32-bit running total.
    pub fn track_bytes(&mut self, count: usize) -> (r: Option<Vec<u8>>)
        requires
            old(self).wf(),
            old(self).bytes_received_view() + count <= u64::MAX,
        ensures
            final(self).wf(),
            final(self).window_ack_view() == old(self).window_ack_view(),
            final(self).app_name_view() == old(self).app_name_view(),
            final(self).stream_key_view() == old(self).stream_key_view(),
            final(self).bytes_received_view() == old(self).bytes_received_view() + count,
            ({
                let total = old(self).bytes_received_view() + count;
                let due = old(self).window_ack_view() > 0 && total - old(self).last_ack_view()
                    >= old(self).window_ack_view();
                if due {
                    &&& final(self).last_ack_view() == total
                    &&& r is Some
                    &&& r->Some_0@ == message_bytes(
                        2,
                        0,
                        3,
                        0,
                        be32_bytes((total % 0x1_0000_0000) as u32),
                    )
                } else {
                    &&& final(self).last_ack_view() == old(self).last_ack_view()
                    &&& r is None
                }
            }),
    {
        self.bytes_received = self.bytes_received + count as u64;
        if self.window_ack_size > 0 && self.bytes_received - self.last_ack_sent
            >= self.window_ack_size as u64 {
            self.last_ack_sent = self.bytes_received;
            let total32 = (self.bytes_received % 0x1_0000_0000) as u32;
            let mut payload: Vec<u8> = Vec::new();
            crate::bytes::push_be32(&mut payload, total32);
            let ack = self.writer.write_message(2, 0, 3, 0, payload.as_slice());
            proof {
                assert(payload@ =~= be32_bytes(total32));
            }
            Some(ack)
        } else {
            None
        }
    }
}


/// The object body of a decoded value, when it has one.
pub open spec fn obj_of(m: Amf0) -> Seq<(Seq<char>, Amf0)> {
    match m {
        Amf0::Object(ps) => ps,
        Amf0::EcmaArray(ps) => ps,
        _ => Seq::empty(),
    }
}

/// The app name a connect command carries: the `app` property of its
/// third value, when that is a string.
pub open spec fn connect_app_of(vals: Seq<Amf0>, current: Seq<char>) -> Seq<char> {
    if vals.len() > 2 && lookup_prop(obj_of(vals[2]), "app"@) is Some && lookup_prop(
        obj_of(vals[2]),
        "app"@,
    )->Some_0 is Str {
        lookup_prop(obj_of(vals[2]), "app"@)->Some_0->Str_0
    } else {
        current
    }
}

/// The stream key a publish command carries: its fourth value, when a
/// string.
pub open spec fn publish_key_of(vals: Seq<Amf0>, current: Seq<char>) -> Seq<char> {
    if vals.len() > 3 && vals[3] is Str {
        vals[3]->Str_0
    } else {
        current
    }
}

/// The five connect responses, in send order.
pub open spec fn connect_responses(wack: u32, txn: u64) -> Seq<Seq<u8>> {
    seq![
        message_bytes(2, 0, 5, 0, be32_bytes(wack)),
        message_bytes(2, 0, 6, 0, be32_bytes(wack) + seq![2u8]),
        message_bytes(2, 0, 1, 0, be32_bytes(4096)),
        message_bytes(2, 0, 4, 0, seq![0u8, 0u8, 0u8, 0u8, 0u8, 0u8]),
        message_bytes(3, 0, 20, 0, connect_result_payload(txn)),
    ]
}

/// The two publish responses, in send order.
pub open spec fn publish_responses(msg_stream_id: u32) -> Seq<Seq<u8>> {
    seq![
        message_bytes(2, 0, 4, 0, seq![0u8, 0u8, 0u8, 0u8, 0u8, 1u8]),
        message_bytes(3, 0, 20, msg_stream_id, publish_status_payload()),
    ]
}

impl MessageHandler {
    /// Answer connect: the four protocol-control responses, then the
    /// `_result`; the app name is captured from the command object.
    fn handle_connect(&mut self, values: &Vec<Amf0Value>, txn_bits: u64) -> (r: HandleResult)
        requires
            old(self).wf(),
        ensures
            final(self).wf(),
            final(self).window_ack_view() == old(self).window_ack_view(),
            final(self).stream_key_view() == old(self).stream_key_view(),
            final(self).bytes_received_view() == old(self).bytes_received_view(),
            final(self).last_ack_view() == old(self).last_ack_view(),
            final(self).app_name_view() == connect_app_of(
                items_model(values@),
                old(self).app_name_view(),
            ),
            r.responses@.len() == 5,
            forall|i: int|
                0 <= i < 5 ==> #[trigger] r.responses@[i]@ == connect_responses(
                    old(self).window_ack_view(),
                    txn_bits,
                )[i],
            r.new_chunk_size is None,
            r.event matches Some(RtmpEvent::Connected { app_name })
                && app_name@ == final(self).app_name_view(),
    {
        let ghost vals = items_model(values@);
        proof {
            crate::amf0::lemma_items_model_index(values@);
        }
        if values.len() > 2 {
            match values[2].get_property("app") {
                Some(app) => {
                    match app.as_str() {
                        Some(name) => {
                            self.app_name = String::from_str(name);
                        },
                        None => {
                        },
                    }
                },
                None => {
                },
            }
        }
        assert(self.app_name@ == connect_app_of(vals, old(self).app_name_view()));

        let mut responses: Vec<Vec<u8>> = Vec::new();

        // 1. window acknowledgement size
        let mut p1: Vec<u8> = Vec::new();
        crate::bytes::push_be32(&mut p1, self.window_ack_size);
        let m1 = self.writer.write_message(2, 0, 5, 0, p1.as_slice());
        responses.push(m1);

        // 2. set peer bandwidth, dynamic limit
        let mut p2: Vec<u8> = Vec::new();
        crate::bytes::push_be32(&mut p2, self.window_ack_size);
        p2.push(2);
        let m2 = self.writer.write_message(2, 0, 6, 0, p2.as_slice());
        proof {
            assert(p2@ =~= be32_bytes(old(self).window_ack_view()) + seq![2u8]);
        }
        responses.push(m2);

        // 3. set chunk size 4096
        let mut p3: Vec<u8> = Vec::new();
        crate::bytes::push_be32(&mut p3, 4096);
        let m3 = self.writer.write_message(2, 0, 1, 0, p3.as_slice());
        responses.push(m3);

        // 4. user control: stream begin for stream 0
        let mut p4: Vec<u8> = Vec::new();
        p4.push(0);
        p4.push(0);
        p4.push(0);
        p4.push(0);
        p4.push(0);
        p4.push(0);
        let m4 = self.writer.write_message(2, 0, 4, 0, p4.as_slice());
        proof {
            assert(p4@ =~= seq![0u8, 0u8, 0u8, 0u8, 0u8, 0u8]);
        }
        responses.push(m4);

        // 5. the _result
        let mut enc = Amf0Encoder::new();
        enc.write_string("_result");
        enc.write_number(txn_bits);
        let mut props: Vec<(&str, Amf0Value)> = Vec::new();
        props.push(("fmsVer", Amf0Value::Str(String::from_str("FMS/3,5,7,7009"))));
        props.push(("capabilities", Amf0Value::Number(AMF_THIRTYONE_BITS)));
        props.push(("mode", Amf0Value::Number(AMF_ONE_BITS)));
        enc.write_object(props.as_slice());
        proof {
            lemma_ref_pairs_model_index(props@);
            assert(ref_pairs_model(props@) =~~= connect_props());
        }
        let mut info: Vec<(&str, Amf0Value)> = Vec::new();
        info.push(("level", Amf0Value::Str(String::from_str("status"))));
        info.push(("code", Amf0Value::Str(String::from_str("NetConnection.Connect.Success"))));
        info.push(("description", Amf0Value::Str(String::from_str("Connection succeeded."))));
        info.push(("objectEncoding", Amf0Value::Number(AMF_ZERO_BITS)));
        enc.write_object(info.as_slice());
        proof {
            lemma_ref_pairs_model_index(info@);
            assert(ref_pairs_model(info@) =~~= connect_info());
        }
        let payload = enc.into_bytes();
        proof {
            assert(payload@ =~= connect_result_payload(txn_bits));
            crate::amf0::lemma_enc_value_scalar_len(Amf0::Str("_result"@));
            crate::amf0::lemma_enc_props_flat_len(connect_props());
            crate::amf0::lemma_enc_props_flat_len(connect_info());
        }
        let m5 = self.writer.write_message(3, 0, 20, 0, payload.as_slice());
        responses.push(m5);

        let evt = RtmpEvent::Connected { app_name: self.app_name.clone() };
        HandleResult { responses, new_chunk_size: None, event: Some(evt) }
    }

    /// Answer releaseStream with `_result(txn, null)`.
    fn handle_release_stream(&self, txn_bits: u64) -> (r: HandleResult)
        requires
            self.wf(),
        ensures
            r.responses@.len() == 1,
            r.responses@[0]@ == message_bytes(3, 0, 20, 0, result_null_payload(txn_bits)),
            r.new_chunk_size is None,
            r.event is None,
    {
        let mut enc = Amf0Encoder::new();
        enc.write_string("_result");
        enc.write_number(txn_bits);
        enc.write_null();
        let payload = enc.into_bytes();
        proof {
            assert(payload@ =~= result_null_payload(txn_bits));
        }
        let m = self.writer.write_message(3, 0, 20, 0, payload.as_slice());
        HandleResult::response(m)
    }

    /// Answer FCPublish with `onFCPublish(0, null)`.
    fn handle_fc_publish(&self) -> (r: HandleResult)
        requires
            self.wf(),
        ensures
            r.responses@.len() == 1,
            r.responses@[0]@ == message_bytes(3, 0, 20, 0, fc_publish_payload()),
            r.new_chunk_size is None,
            r.event is None,
    {
        let mut enc = Amf0Encoder::new();
        enc.write_string("onFCPublish");
        enc.write_number(AMF_ZERO_BITS);
        enc.write_null();
        let payload = enc.into_bytes();
        proof {
            assert(payload@ =~= fc_publish_payload());
        }
        let m = self.writer.write_message(3, 0, 20, 0, payload.as_slice());
        HandleResult::response(m)
    }

    /// Answer createStream with `_result(txn, null, 1.0)`: the stream id
    /// is always 1.
    fn handle_create_stream(&self, txn_bits: u64) -> (r: HandleResult)
        requires
            self.wf(),
        ensures
            r.responses@.len() == 1,
            r.responses@[0]@ == message_bytes(3, 0, 20, 0, create_stream_payload(txn_bits)),
            r.new_chunk_size is None,
            r.event is None,
    {
        let mut enc = Amf0Encoder::new();
        enc.write_string("_result");
        enc.write_number(txn_bits);
        enc.write_null();
        enc.write_number(AMF_ONE_BITS);
        let payload = enc.into_bytes();
        proof {
            assert(payload@ =~= create_stream_payload(txn_bits));
        }
        let m = self.writer.write_message(3, 0, 20, 0, payload.as_slice());
        HandleResult::response(m)
    }

    /// Answer publish: stream-begin for stream 1, then `onStatus` on the
    /// client's message stream; the stream key is captured.
    fn handle_publish(&mut self, values: &Vec<Amf0Value>, msg_stream_id: u32) -> (r: HandleResult)
        requires
            old(self).wf(),
        ensures
            final(self).wf(),
            final(self).window_ack_view() == old(self).window_ack_view(),
            final(self).app_name_view() == old(self).app_name_view(),
            final(self).bytes_received_view() == old(self).bytes_received_view(),
            final(self).last_ack_view() == old(self).last_ack_view(),
            final(self).stream_key_view() == publish_key_of(
                items_model(values@),
                old(self).stream_key_view(),
            ),
            r.responses@.len() == 2,
            forall|i: int|
                0 <= i < 2 ==> #[trigger] r.responses@[i]@ == publish_responses(msg_stream_id)[i],
            r.new_chunk_size is None,
            r.event matches Some(RtmpEvent::Publishing { app_name, stream_key }) && app_name@
                == final(self).app_name_view() && stream_key@ == final(self).stream_key_view(),
    {
        let ghost vals = items_model(values@);
        proof {
            crate::amf0::lemma_items_model_index(values@);
        }
        if values.len() > 3 {
            match values[3].as_str() {
                Some(key) => {
                    self.stream_key = String::from_str(key);
                },
                None => {
                },
            }
        }
        assert(self.stream_key@ == publish_key_of(vals, old(self).stream_key_view()));

        let mut responses: Vec<Vec<u8>> = Vec::new();

        let mut p1: Vec<u8> = Vec::new();
        p1.push(0);
        p1.push(0);
        p1.push(0);
        p1.push(0);
        p1.push(0);
        p1.push(1);
        let m1 = self.writer.write_message(2, 0, 4, 0, p1.as_slice());
        proof {
            assert(p1@ =~= seq![0u8, 0u8, 0u8, 0u8, 0u8, 1u8]);
        }
        responses.push(m1);

        let mut enc = Amf0Encoder::new();
        enc.write_string("onStatus");
        enc.write_number(AMF_ZERO_BITS);
        enc.write_null();
        let mut info: Vec<(&str, Amf0Value)> = Vec::new();
        info.push(("level", Amf0Value::Str(String::from_str("status"))));
        info.push(("code", Amf0Value::Str(String::from_str("NetStream.Publish.Start"))));
        info.push(("description", Amf0Value::Str(String::from_str("Publishing started."))));
        enc.write_object(info.as_slice());
        proof {
            lemma_ref_pairs_model_index(info@);
            assert(ref_pairs_model(info@) =~~= publish_info());
        }
        let payload = enc.into_bytes();
        proof {
            assert(payload@ =~= publish_status_payload());
            crate::amf0::lemma_enc_value_scalar_len(Amf0::Str("onStatus"@));
            crate::amf0::lemma_enc_props_flat_len(publish_info());
        }
        let m2 = self.writer.write_message(3, 0, 20, msg_stream_id, payload.as_slice());
        responses.push(m2);

        let evt = RtmpEvent::Publishing {
            app_name: self.app_name.clone(),
            stream_key: self.stream_key.clone(),
        };
        HandleResult { responses, new_chunk_size: None, event: Some(evt) }
    }

    /// Answer a command this server does not know: `_result(txn, null)`
    /// when a positive transaction id asks for one, else nothing, so the
    /// encoder never stalls.
    fn handle_unknown_command(&self, txn_bits: u64) -> (r: HandleResult)
        requires
            self.wf(),
        ensures
            amf_number_positive(txn_bits) ==> r.responses@.len() == 1 && r.responses@[0]@
                == message_bytes(3, 0, 20, 0, result_null_payload(txn_bits)),
            !amf_number_positive(txn_bits) ==> r.responses@.len() == 0,
            r.new_chunk_size is None,
            r.event is None,
    {
        if number_is_positive(txn_bits) {
            self.handle_release_stream(txn_bits)
        } else {
            HandleResult::empty()
        }
    }
}


/// The metadata object in a decoded data message, scanning from `i`: the
/// object following the first `@setDataFrame` or `onMetaData` marker
/// (two values after `@setDataFrame`, one otherwise, falling back to the
/// next value when the preferred slot is past the end).
pub open spec fn find_meta(vals: Seq<Amf0>, i: int) -> Option<Seq<(Seq<char>, Amf0)>>
    decreases vals.len() - i,
        when 0 <= i <= vals.len()
{
    if i >= vals.len() {
        None
    } else {
        let set_frame = vals[i] == Amf0::Str("@setDataFrame"@);
        let on_meta = vals[i] == Amf0::Str("onMetaData"@);
        if set_frame || on_meta {
            let mi = if set_frame {
                i + 2
            } else {
                i + 1
            };
            let chosen: Option<Amf0> = if mi < vals.len() {
                Some(vals[mi])
            } else if i + 1 < vals.len() {
                Some(vals[i + 1])
            } else {
                None
            };
            match chosen {
                Some(Amf0::Object(ps)) => Some(ps),
                Some(Amf0::EcmaArray(ps)) => Some(ps),
                _ => find_meta(vals, i + 1),
            }
        } else {
            find_meta(vals, i + 1)
        }
    }
}

impl MessageHandler {
    /// Interpret one data message: surface the metadata object that
    /// follows an `@setDataFrame` or `onMetaData` marker, when one does.
    fn handle_amf0_data(&self, payload: Vec<u8>) -> (r: HandleResult)
        ensures
            ({
                let vals = amf_values(payload@);
                match find_meta(vals, 0) {
                    Some(ps) => r.event matches Some(RtmpEvent::Metadata { properties })
                        && pairs_model(properties@) == ps,
                    None => r.event is None,
                }
            }),
            r.responses@.len() == 0,
            r.new_chunk_size is None,
    {
        let mut decoder = Amf0Decoder::new(payload.as_slice());
        let mut values = decoder.decode_all();
        let ghost vals = amf_values(payload@);
        proof {
            assert(dec_all(payload@, 0, (2 * payload@.len() + 3) as nat) == items_model(
                values@,
            ));
            crate::amf0::lemma_items_model_index(values@);
        }
        let n = values.len();
        let mut i: usize = 0;
        let mut chosen: Option<usize> = None;
        while i < n && chosen.is_none()
            invariant
                n == values@.len(),
                vals == items_model(values@),
                vals.len() == n,
                forall|j: int|
                    0 <= j < vals.len() ==> #[trigger] vals[j] == values@[j].model(),
                i <= n,
                match chosen {
                    None => find_meta(vals, 0) == find_meta(vals, i as int),
                    Some(c) => c < n && (vals[c as int] is Object || vals[c as int] is EcmaArray)
                        && find_meta(vals, 0) == Some(obj_of(vals[c as int])),
                },
            decreases n - i,
        {
            let is_set_frame = match values[i].as_str() {
                Some(name) => str_eq(name, "@setDataFrame"),
                None => false,
            };
            let is_on_meta = match values[i].as_str() {
                Some(name) => str_eq(name, "onMetaData"),
                None => false,
            };
            proof {
                assert(is_set_frame == (vals[i as int] == Amf0::Str("@setDataFrame"@)));
                assert(is_on_meta == (vals[i as int] == Amf0::Str("onMetaData"@)));
            }
            if is_set_frame || is_on_meta {
                let pick: Option<usize> = if is_set_frame && n - i > 2 {
                    Some(i + 2)
                } else if !is_set_frame && n - i > 1 {
                    Some(i + 1)
                } else if n - i > 1 {
                    Some(i + 1)
                } else {
                    None
                };
                match pick {
                    Some(c) => {
                        let is_obj = match &values[c] {
                            Amf0Value::Object(_) => true,
                            Amf0Value::EcmaArray(_) => true,
                            _ => false,
                        };
                        if is_obj {
                            chosen = Some(c);
                        }
                    },
                    None => {
                    },
                }
            }
            i = i + 1;
        }
        match chosen {
            Some(c) => {
                let v = values.remove(c);
                proof {
                    assert(v.model() == vals[c as int]);
                }
                match v {
                    Amf0Value::Object(properties) => HandleResult::event(
                        RtmpEvent::Metadata { properties },
                    ),
                    Amf0Value::EcmaArray(properties) => HandleResult::event(
                        RtmpEvent::Metadata { properties },
                    ),
                    _ => HandleResult::empty(),
                }
            },
            None => {
                proof {
                    assert(find_meta(vals, i as int) is None);
                }
                HandleResult::empty()
            },
        }
    }

    /// Dispatch one AMF0 command by its name.
    fn handle_amf0_command(&mut self, payload: Vec<u8>, msg_stream_id: u32) -> (r: HandleResult)
        requires
            old(self).wf(),
        ensures
            final(self).wf(),
            final(self).window_ack_view() == old(self).window_ack_view(),
            final(self).bytes_received_view() == old(self).bytes_received_view(),
            final(self).last_ack_view() == old(self).last_ack_view(),
            r.new_chunk_size is None,
            ({
                let vals = amf_values(payload@);
                let cmd = cmd_of(vals);
                let txn = txn_of(vals);
                let wack = old(self).window_ack_view();
                if cmd == "connect"@ {
                    &&& final(self).app_name_view() == connect_app_of(
                        vals,
                        old(self).app_name_view(),
                    )
                    &&& final(self).stream_key_view() == old(self).stream_key_view()
                    &&& r.responses@.len() == 5
                    &&& forall|i: int|
                        0 <= i < 5 ==> #[trigger] r.responses@[i]@ == connect_responses(
                            wack,
                            txn,
                        )[i]
                    &&& r.event matches Some(RtmpEvent::Connected { app_name })
                        && app_name@ == final(self).app_name_view()
                } else if cmd == "releaseStream"@ {
                    &&& *final(self) == *old(self)
                    &&& r.responses@.len() == 1
                    &&& r.responses@[0]@ == message_bytes(3, 0, 20, 0, result_null_payload(txn))
                    &&& r.event is None
                } else if cmd == "FCPublish"@ {
                    &&& *final(self) == *old(self)
                    &&& r.responses@.len() == 1
                    &&& r.responses@[0]@ == message_bytes(3, 0, 20, 0, fc_publish_payload())
                    &&& r.event is None
                } else if cmd == "createStream"@ {
                    &&& *final(self) == *old(self)
                    &&& r.responses@.len() == 1
                    &&& r.responses@[0]@ == message_bytes(3, 0, 20, 0, create_stream_payload(txn))
                    &&& r.event is None
                } else if cmd == "publish"@ {
                    &&& final(self).app_name_view() == old(self).app_name_view()
                    &&& final(self).stream_key_view() == publish_key_of(
                        vals,
                        old(self).stream_key_view(),
                    )
                    &&& r.responses@.len() == 2
                    &&& forall|i: int|
                        0 <= i < 2 ==> #[trigger] r.responses@[i]@ == publish_responses(
                            msg_stream_id,
                        )[i]
                    &&& r.event matches Some(RtmpEvent::Publishing { app_name, stream_key })
                        && app_name@ == final(self).app_name_view()
                        && stream_key@ == final(self).stream_key_view()
                } else if cmd == "FCUnpublish"@ || cmd == "deleteStream"@ {
                    &&& *final(self) == *old(self)
                    &&& r.responses@.len() == 0
                    &&& r.event == Some(RtmpEvent::StreamEnded)
                } else if cmd == "_checkbw"@ || cmd == "_result"@ || cmd == "_error"@ || cmd
                    == "onStatus"@ {
                    &&& *final(self) == *old(self)
                    &&& r.responses@.len() == 0
                    &&& r.event is None
                } else {
                    &&& *final(self) == *old(self)
                    &&& r.event is None
                    &&& amf_number_positive(txn) ==> r.responses@.len() == 1 && r.responses@[0]@
                        == message_bytes(3, 0, 20, 0, result_null_payload(txn))
                    &&& !amf_number_positive(txn) ==> r.responses@.len() == 0
                }
            }),
    {
        let mut decoder = Amf0Decoder::new(payload.as_slice());
        let values = decoder.decode_all();
        let ghost vals = amf_values(payload@);
        proof {
            assert(dec_all(payload@, 0, (2 * payload@.len() + 3) as nat) == items_model(
                values@,
            ));
            crate::amf0::lemma_items_model_index(values@);
        }
        let empty_name = String::new();
        let command_name: &str = if values.len() > 0 {
            match values[0].as_str() {
                Some(name) => name,
                None => empty_name.as_str(),
            }
        } else {
            empty_name.as_str()
        };
        proof {
            assert(command_name@ == cmd_of(vals));
        }
        let txn_bits: u64 = if values.len() > 1 {
            match values[1].as_number() {
                Some(bits) => bits,
                None => 0,
            }
        } else {
            0
        };
        proof {
            assert(txn_bits == txn_of(vals));
        }
        if str_eq(command_name, "connect") {
            self.handle_connect(&values, txn_bits)
        } else if str_eq(command_name, "releaseStream") {
            self.handle_release_stream(txn_bits)
        } else if str_eq(command_name, "FCPublish") {
            self.handle_fc_publish()
        } else if str_eq(command_name, "createStream") {
            self.handle_create_stream(txn_bits)
        } else if str_eq(command_name, "publish") {
            self.handle_publish(&values, msg_stream_id)
        } else if str_eq(command_name, "FCUnpublish") || str_eq(command_name, "deleteStream") {
            HandleResult::event(RtmpEvent::StreamEnded)
        } else if str_eq(command_name, "_checkbw") || str_eq(command_name, "_result") || str_eq(
            command_name,
            "_error",
        ) || str_eq(command_name, "onStatus") {
            HandleResult::empty()
        } else {
            self.handle_unknown_command(txn_bits)
        }
    }

    /// Interpret one reassembled message by its type id.
    pub fn handle(&mut self, msg: RtmpMessage) -> (r: HandleResult)
        requires
            old(self).wf(),
        ensures
            final(self).wf(),
            final(self).bytes_received_view() == old(self).bytes_received_view(),
            final(self).last_ack_view() == old(self).last_ack_view(),
            ({
                let p = msg.payload@;
                if msg.type_id == 1 {
                    &&& *final(self) == *old(self)
                    &&& r.responses@.len() == 0
                    &&& r.event is None
                    &&& if p.len() >= 4 {
                        r.new_chunk_size == Some(be32(p[0], p[1], p[2], p[3]) as u32)
                    } else {
                        r.new_chunk_size is None
                    }
                } else if msg.type_id == 4 {
                    &&& *final(self) == *old(self)
                    &&& r.event is None
                    &&& r.new_chunk_size is None
                    &&& if p.len() >= 6 && be16(p[0], p[1]) == 6 {
                        r.responses@.len() == 1 && r.responses@[0]@ == message_bytes(
                            2,
                            0,
                            4,
                            0,
                            seq![0u8, 7u8] + p.subrange(2, 6),
                        )
                    } else {
                        r.responses@.len() == 0
                    }
                } else if msg.type_id == 5 {
                    &&& r.responses@.len() == 0
                    &&& r.event is None
                    &&& r.new_chunk_size is None
                    &&& final(self).window_ack_view() == if p.len() >= 4 {
                        be32(p[0], p[1], p[2], p[3]) as u32
                    } else {
                        old(self).window_ack_view()
                    }
                    &&& final(self).app_name_view() == old(self).app_name_view()
                    &&& final(self).stream_key_view() == old(self).stream_key_view()
                } else if msg.type_id == 6 {
                    &&& *final(self) == *old(self)
                    &&& r.event is None
                    &&& r.new_chunk_size is None
                    &&& r.responses@.len() == 1
                    &&& r.responses@[0]@ == message_bytes(
                        2,
                        0,
                        5,
                        0,
                        be32_bytes(old(self).window_ack_view()),
                    )
                } else if msg.type_id == 8 {
                    &&& *final(self) == *old(self)
                    &&& r.responses@.len() == 0
                    &&& r.new_chunk_size is None
                    &&& r.event matches Some(RtmpEvent::AudioData { timestamp, data })
                        && timestamp == msg.timestamp && data@ == p
                } else if msg.type_id == 9 {
                    &&& *final(self) == *old(self)
                    &&& r.responses@.len() == 0
                    &&& r.new_chunk_size is None
                    &&& r.event matches Some(RtmpEvent::VideoData { timestamp, data })
                        && timestamp == msg.timestamp && data@ == p
                } else if msg.type_id == 18 {
                    &&& *final(self) == *old(self)
                    &&& r.responses@.len() == 0
                    &&& r.new_chunk_size is None
                    &&& match find_meta(amf_values(p), 0) {
                        Some(ps) => r.event matches Some(RtmpEvent::Metadata { properties })
                            && pairs_model(properties@) == ps,
                        None => r.event is None,
                    }
                } else if msg.type_id == 20 {
                    let vals = amf_values(p);
                    let cmd = cmd_of(vals);
                    let txn = txn_of(vals);
                    let wack = old(self).window_ack_view();
                    &&& final(self).window_ack_view() == wack
                    &&& r.new_chunk_size is None
                    &&& if cmd == "connect"@ {
                        &&& final(self).app_name_view() == connect_app_of(
                            vals,
                            old(self).app_name_view(),
                        )
                        &&& r.responses@.len() == 5
                        &&& forall|i: int|
                            0 <= i < 5 ==> #[trigger] r.responses@[i]@ == connect_responses(
                                wack,
                                txn,
                            )[i]
                        &&& r.event matches Some(RtmpEvent::Connected { app_name })
                            && app_name@ == final(self).app_name_view()
                    } else if cmd == "releaseStream"@ {
                        &&& *final(self) == *old(self)
                        &&& r.responses@.len() == 1
                        &&& r.responses@[0]@ == message_bytes(3, 0, 20, 0, result_null_payload(txn))
                        &&& r.event is None
                    } else if cmd == "FCPublish"@ {
                        &&& *final(self) == *old(self)
                        &&& r.responses@.len() == 1
                        &&& r.responses@[0]@ == message_bytes(3, 0, 20, 0, fc_publish_payload())
                        &&& r.event is None
                    } else if cmd == "createStream"@ {
                        &&& *final(self) == *old(self)
                        &&& r.responses@.len() == 1
                        &&& r.responses@[0]@ == message_bytes(
                            3,
                            0,
                            20,
                            0,
                            create_stream_payload(txn),
                        )
                        &&& r.event is None
                    } else if cmd == "publish"@ {
                        &&& final(self).app_name_view() == old(self).app_name_view()
                        &&& final(self).stream_key_view() == publish_key_of(
                            vals,
                            old(self).stream_key_view(),
                        )
                        &&& r.responses@.len() == 2
                        &&& forall|i: int|
                            0 <= i < 2 ==> #[trigger] r.responses@[i]@ == publish_responses(
                                msg.stream_id,
                            )[i]
                        &&& r.event matches Some(RtmpEvent::Publishing { app_name, stream_key })
                            && app_name@ == final(self).app_name_view()
                            && stream_key@ == final(self).stream_key_view()
                    } else if cmd == "FCUnpublish"@ || cmd == "deleteStream"@ {
                        &&& *final(self) == *old(self)
                        &&& r.responses@.len() == 0
                        &&& r.event == Some(RtmpEvent::StreamEnded)
                    } else if cmd == "_checkbw"@ || cmd == "_result"@ || cmd == "_error"@ || cmd
                        == "onStatus"@ {
                        &&& *final(self) == *old(self)
                        &&& r.responses@.len() == 0
                        &&& r.event is None
                    } else {
                        &&& *final(self) == *old(self)
                        &&& r.event is None
                        &&& amf_number_positive(txn) ==> r.responses@.len() == 1
                            && r.responses@[0]@ == message_bytes(
                            3,
                            0,
                            20,
                            0,
                            result_null_payload(txn),
                        )
                        &&& !amf_number_positive(txn) ==> r.responses@.len() == 0
                    }
                } else {
                    &&& *final(self) == *old(self)
                    &&& r.responses@.len() == 0
                    &&& r.event is None
                    &&& r.new_chunk_size is None
                }
            }),
    {
        if msg.type_id == 1 {
            // set chunk size
            if msg.payload.len() >= 4 {
                let size = read_be32(
                    msg.payload[0],
                    msg.payload[1],
                    msg.payload[2],
                    msg.payload[3],
                );
                HandleResult { responses: Vec::new(), new_chunk_size: Some(size), event: None }
            } else {
                HandleResult::empty()
            }
        } else if msg.type_id == 3 {
            // acknowledgement: nothing to do
            HandleResult::empty()
        } else if msg.type_id == 4 {
            // user control: answer a ping request with its echo
            if msg.payload.len() >= 6 {
                let event_type = read_be16(msg.payload[0], msg.payload[1]);
                if event_type == 6 {
                    let mut pong: Vec<u8> = Vec::new();
                    pong.push(0);
                    pong.push(7);
                    pong.push(msg.payload[2]);
                    pong.push(msg.payload[3]);
                    pong.push(msg.payload[4]);
                    pong.push(msg.payload[5]);
                    proof {
                        assert(pong@ =~= seq![0u8, 7u8] + msg.payload@.subrange(2, 6));
                    }
                    let m = self.writer.write_message(2, 0, 4, 0, pong.as_slice());
                    HandleResult::response(m)
                } else {
                    HandleResult::empty()
                }
            } else {
                HandleResult::empty()
            }
        } else if msg.type_id == 5 {
            // window acknowledgement size
            if msg.payload.len() >= 4 {
                self.window_ack_size = read_be32(
                    msg.payload[0],
                    msg.payload[1],
                    msg.payload[2],
                    msg.payload[3],
                );
            }
            HandleResult::empty()
        } else if msg.type_id == 6 {
            // set peer bandwidth: answer with our window size
            let mut p: Vec<u8> = Vec::new();
            crate::bytes::push_be32(&mut p, self.window_ack_size);
            let m = self.writer.write_message(2, 0, 5, 0, p.as_slice());
            HandleResult::response(m)
        } else if msg.type_id == 8 {
            HandleResult::event(
                RtmpEvent::AudioData { timestamp: msg.timestamp, data: msg.payload },
            )
        } else if msg.type_id == 9 {
            HandleResult::event(
                RtmpEvent::VideoData { timestamp: msg.timestamp, data: msg.payload },
            )
        } else if msg.type_id == 18 {
            self.handle_amf0_data(msg.payload)
        } else if msg.type_id == 20 {
            self.handle_amf0_command(msg.payload, msg.stream_id)
        } else {
            HandleResult::empty()
        }
    }
}

} // verus!
