use rustmp::amf0::{Amf0Encoder, Amf0Value};
use rustmp::chunk::{ChunkReader, ChunkWriter, RtmpMessage};
use rustmp::handshake::build_handshake_reply;
use rustmp::message::{MessageHandler, RtmpEvent};

const ONE_BITS: u64 = 0x3FF0_0000_0000_0000;

fn find_sub(hay: &[u8], needle: &[u8]) -> bool {
    if needle.len() > hay.len() {
        return false;
    }
    (0..=hay.len() - needle.len()).any(|i| &hay[i..i + needle.len()] == needle)
}

#[test]
fn handshake_echo() {
    // version byte 3 + C1 whose first four bytes are 00 00 00 2A
    let mut c1 = vec![0u8; 1536];
    c1[0] = 0x00;
    c1[1] = 0x00;
    c1[2] = 0x00;
    c1[3] = 0x2A;
    for i in 8..1536 {
        c1[i] = (i * 7 % 251) as u8;
    }
    let reply = build_handshake_reply(&c1);
    assert_eq!(reply.len(), 1 + 2 * 1536);
    // S0
    assert_eq!(reply[0], 3);
    // S1: zero timestamp and zero block
    assert!(reply[1..9].iter().all(|&b| b == 0));
    // S1 filler is the deterministic ramp
    for i in 0..1528 {
        assert_eq!(reply[9 + i], (i % 256) as u8);
    }
    // S2 echoes the client timestamp
    assert_eq!(&reply[1537..1541], &[0, 0, 0, 0x2A]);
    assert_eq!(&reply[1541..1545], &[0, 0, 0, 0]);
    // S2 echoes C1's trailing bytes
    assert_eq!(&reply[1545..], &c1[8..]);
}

#[test]
fn writer_single_chunk_layout() {
    let w = ChunkWriter::new();
    let out = w.write_message(3, 0x123456, 20, 1, &[0xAA, 0xBB]);
    assert_eq!(
        out,
        vec![
            0x03, // fmt 0, cs_id 3
            0x12, 0x34, 0x56, // timestamp
            0x00, 0x00, 0x02, // length
            20,   // type id
            1, 0, 0, 0, // stream id, little endian
            0xAA, 0xBB,
        ]
    );
}

#[test]
fn writer_extended_timestamp() {
    let w = ChunkWriter::new();
    let out = w.write_message(2, 0x0100_0000, 9, 0, &[0x11]);
    assert_eq!(out[1..4], [0xFF, 0xFF, 0xFF]);
    // the 4-byte extended timestamp follows the 11-byte header
    assert_eq!(out[12..16], [0x01, 0x00, 0x00, 0x00]);
    assert_eq!(out[16], 0x11);
}

#[test]
fn reader_single_message() {
    let w = ChunkWriter::new();
    let payload: Vec<u8> = (0..100u32).map(|i| i as u8).collect();
    let bytes = w.write_message(3, 42, 20, 1, &payload);
    let mut r = ChunkReader::new();
    r.extend(&bytes);
    let msgs = r.read_messages();
    assert_eq!(msgs.len(), 1);
    assert_eq!(msgs[0].timestamp, 42);
    assert_eq!(msgs[0].type_id, 20);
    assert_eq!(msgs[0].stream_id, 1);
    assert_eq!(msgs[0].payload, payload);
}

/// A 4100-byte type-9 message as a fmt-0 chunk plus fmt-3 continuations
/// at the inbound chunk size of 128.
fn chunked_video_message(payload: &[u8]) -> Vec<u8> {
    assert_eq!(payload.len(), 4100);
    let mut bytes = Vec::new();
    bytes.push(0x04); // fmt 0, cs_id 4
    bytes.extend_from_slice(&[0, 0, 0]); // timestamp
    bytes.extend_from_slice(&[0x00, 0x10, 0x04]); // length 4100
    bytes.push(9); // video
    bytes.extend_from_slice(&[1, 0, 0, 0]); // stream id 1
    bytes.extend_from_slice(&payload[0..128]);
    let mut off = 128;
    while off < 4100 {
        bytes.push(0xC4); // fmt 3, cs_id 4
        let end = (off + 128).min(4100);
        bytes.extend_from_slice(&payload[off..end]);
        off = end;
    }
    bytes
}

#[test]
fn chunk_reassembly_across_reads() {
    let payload: Vec<u8> = (0..4100u32).map(|i| (i % 251) as u8).collect();
    let bytes = chunked_video_message(&payload);
    // split across three arbitrary reads
    let mut r = ChunkReader::new();
    let mut all = Vec::new();
    r.extend(&bytes[..1000]);
    all.extend(r.read_messages());
    r.extend(&bytes[1000..2500]);
    all.extend(r.read_messages());
    r.extend(&bytes[2500..]);
    all.extend(r.read_messages());
    assert_eq!(all.len(), 1);
    assert_eq!(all[0].type_id, 9);
    assert_eq!(all[0].payload.len(), 4100);
    assert_eq!(all[0].payload, payload);
}

#[test]
fn split_independence() {
    let w = ChunkWriter::new();
    let mut bytes = Vec::new();
    bytes.extend(w.write_message(3, 1, 20, 0, &[1, 2, 3]));
    bytes.extend(w.write_message(4, 2, 9, 1, &(0..200u32).map(|i| i as u8).collect::<Vec<_>>()));
    bytes.extend(w.write_message(3, 3, 8, 1, &[9, 9]));

    let collect = |splits: &[usize]| -> Vec<RtmpMessage> {
        let mut r = ChunkReader::new();
        r.set_chunk_size(4096);
        let mut out = Vec::new();
        let mut prev = 0;
        for &s in splits {
            r.extend(&bytes[prev..s]);
            out.extend(r.read_messages());
            prev = s;
        }
        r.extend(&bytes[prev..]);
        out.extend(r.read_messages());
        out
    };

    let whole = collect(&[]);
    let halves = collect(&[bytes.len() / 2]);
    let trickle: Vec<usize> = (1..bytes.len()).collect();
    let bytewise = collect(&trickle);

    for msgs in [&halves, &bytewise] {
        assert_eq!(msgs.len(), whole.len());
        for (a, b) in whole.iter().zip(msgs.iter()) {
            assert_eq!(a.timestamp, b.timestamp);
            assert_eq!(a.type_id, b.type_id);
            assert_eq!(a.stream_id, b.stream_id);
            assert_eq!(a.payload, b.payload);
        }
    }
}

#[test]
fn set_chunk_size_takes_effect() {
    let mut r = ChunkReader::new();
    r.set_chunk_size(4096);
    let w = ChunkWriter::new();
    let payload: Vec<u8> = vec![7; 1000];
    let bytes = w.write_message(5, 0, 9, 1, &payload);
    r.extend(&bytes);
    let msgs = r.read_messages();
    assert_eq!(msgs.len(), 1);
    assert_eq!(msgs[0].payload.len(), 1000);
}

#[test]
fn window_acknowledgement() {
    let mut h = MessageHandler::new();
    // below the 2,500,000 window: no ack yet
    assert!(h.track_bytes(2_000_000).is_none());
    // crossing the window: exactly one ack carrying the running total
    let ack = h.track_bytes(1_000_000).expect("ack expected at 3,000,000 bytes");
    let expected = vec![
        0x02, // fmt 0, cs_id 2
        0, 0, 0, // timestamp
        0, 0, 4, // length
        3, // acknowledgement
        0, 0, 0, 0, // stream id
        0x00, 0x2D, 0xC6, 0xC0, // 3,000,000 big-endian
    ];
    assert_eq!(ack, expected);
    // the ack total was recorded: the next window opens from 3,000,000
    assert!(h.track_bytes(2_499_999).is_none());
    assert!(h.track_bytes(1).is_some());
}

#[test]
fn connect_command_drives_responses() {
    // canonical AMF0 connect with app = "live", chunked on cs_id 3
    let mut enc = Amf0Encoder::new();
    enc.write_string("connect");
    enc.write_number(ONE_BITS);
    enc.write_object(&[
        ("app", Amf0Value::Str(String::from("live"))),
        ("flashVer", Amf0Value::Str(String::from("FMLE/3.0 (compatible)"))),
        ("tcUrl", Amf0Value::Str(String::from("rtmp://localhost/live"))),
    ]);
    let payload = enc.into_bytes();
    let w = ChunkWriter::new();
    let wire = w.write_message(3, 0, 20, 0, &payload);

    let mut reader = ChunkReader::new();
    reader.extend(&wire);
    let msgs = reader.read_messages();
    assert_eq!(msgs.len(), 1);

    let mut h = MessageHandler::new();
    let mut result = None;
    for m in msgs {
        result = Some(h.handle(m));
    }
    let result = result.unwrap();
    assert_eq!(result.responses.len(), 5);
    // window ack size response
    assert_eq!(
        result.responses[0],
        vec![0x02, 0, 0, 0, 0, 0, 4, 5, 0, 0, 0, 0, 0x00, 0x26, 0x25, 0xA0]
    );
    // set peer bandwidth with dynamic limit
    assert_eq!(
        result.responses[1],
        vec![0x02, 0, 0, 0, 0, 0, 5, 6, 0, 0, 0, 0, 0x00, 0x26, 0x25, 0xA0, 2]
    );
    // set chunk size 4096
    assert_eq!(
        result.responses[2],
        vec![0x02, 0, 0, 0, 0, 0, 4, 1, 0, 0, 0, 0, 0x00, 0x00, 0x10, 0x00]
    );
    // stream begin for stream 0
    assert_eq!(
        result.responses[3],
        vec![0x02, 0, 0, 0, 0, 0, 6, 4, 0, 0, 0, 0, 0, 0, 0, 0, 0, 0]
    );
    // the _result carries the success code
    assert!(find_sub(&result.responses[4], b"NetConnection.Connect.Success"));
    assert!(find_sub(&result.responses[4], b"FMS/3,5,7,7009"));
    match result.event {
        Some(RtmpEvent::Connected { app_name }) => assert_eq!(app_name, "live"),
        _ => panic!("expected a Connected event"),
    }
    assert_eq!(h.app_name(), "live");
}

#[test]
fn publish_command_captures_key() {
    let mut enc = Amf0Encoder::new();
    enc.write_string("publish");
    enc.write_number(ONE_BITS);
    enc.write_null();
    enc.write_string("demo-stream-key");
    enc.write_string("live");
    let payload = enc.into_bytes();
    let mut h = MessageHandler::new();
    let result = h.handle(RtmpMessage { timestamp: 0, type_id: 20, stream_id: 1, payload });
    assert_eq!(result.responses.len(), 2);
    assert!(find_sub(&result.responses[1], b"NetStream.Publish.Start"));
    match result.event {
        Some(RtmpEvent::Publishing { stream_key, .. }) => {
            assert_eq!(stream_key, "demo-stream-key")
        }
        _ => panic!("expected a Publishing event"),
    }
}

#[test]
fn create_stream_answers_stream_one() {
    let mut enc = Amf0Encoder::new();
    enc.write_string("createStream");
    enc.write_number(ONE_BITS);
    enc.write_null();
    let payload = enc.into_bytes();
    let mut h = MessageHandler::new();
    let result = h.handle(RtmpMessage { timestamp: 0, type_id: 20, stream_id: 0, payload });
    assert_eq!(result.responses.len(), 1);
    assert!(find_sub(&result.responses[0], b"_result"));
    // trailing number 1.0: marker 0x00 then the bits of 1.0
    let r = &result.responses[0];
    assert_eq!(&r[r.len() - 9..], &[0x00, 0x3F, 0xF0, 0, 0, 0, 0, 0, 0]);
}

#[test]
fn delete_stream_ends_session() {
    let mut enc = Amf0Encoder::new();
    enc.write_string("deleteStream");
    enc.write_number(ONE_BITS);
    let payload = enc.into_bytes();
    let mut h = MessageHandler::new();
    let result = h.handle(RtmpMessage { timestamp: 0, type_id: 20, stream_id: 0, payload });
    assert!(matches!(result.event, Some(RtmpEvent::StreamEnded)));
}

#[test]
fn unknown_command_with_txn_gets_result() {
    let mut enc = Amf0Encoder::new();
    enc.write_string("someVendorCall");
    enc.write_number(0x4000_0000_0000_0000); // 2.0
    let payload = enc.into_bytes();
    let mut h = MessageHandler::new();
    let result = h.handle(RtmpMessage { timestamp: 0, type_id: 20, stream_id: 0, payload });
    assert_eq!(result.responses.len(), 1);
    assert!(find_sub(&result.responses[0], b"_result"));
}

#[test]
fn result_commands_ignored() {
    let mut enc = Amf0Encoder::new();
    enc.write_string("_result");
    enc.write_number(ONE_BITS);
    let payload = enc.into_bytes();
    let mut h = MessageHandler::new();
    let result = h.handle(RtmpMessage { timestamp: 0, type_id: 20, stream_id: 0, payload });
    assert!(result.responses.is_empty());
    assert!(result.event.is_none());
}

#[test]
fn ping_request_echoed() {
    let payload = vec![0, 6, 0xDE, 0xAD, 0xBE, 0xEF];
    let mut h = MessageHandler::new();
    let result = h.handle(RtmpMessage { timestamp: 0, type_id: 4, stream_id: 0, payload });
    assert_eq!(result.responses.len(), 1);
    let expected = vec![
        0x02, 0, 0, 0, 0, 0, 6, 4, 0, 0, 0, 0, 0, 7, 0xDE, 0xAD, 0xBE, 0xEF,
    ];
    assert_eq!(result.responses[0], expected);
}

#[test]
fn set_chunk_size_message_propagates() {
    let payload = vec![0, 0, 0x20, 0]; // 8192
    let mut h = MessageHandler::new();
    let result = h.handle(RtmpMessage { timestamp: 0, type_id: 1, stream_id: 0, payload });
    assert_eq!(result.new_chunk_size, Some(8192));
}

#[test]
fn metadata_event_extracted() {
    let mut enc = Amf0Encoder::new();
    enc.write_string("@setDataFrame");
    enc.write_string("onMetaData");
    enc.write_object(&[
        ("encoder", Amf0Value::Str(String::from("obs-output"))),
        ("width", Amf0Value::Number(ONE_BITS)),
    ]);
    let payload = enc.into_bytes();
    let mut h = MessageHandler::new();
    let result = h.handle(RtmpMessage { timestamp: 0, type_id: 18, stream_id: 1, payload });
    match result.event {
        Some(RtmpEvent::Metadata { properties }) => {
            assert_eq!(properties.len(), 2);
            assert_eq!(properties[0].0, "encoder");
        }
        _ => panic!("expected a Metadata event"),
    }
}
