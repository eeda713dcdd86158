use styx::wire::{decode, encode, FrameReader, Message, StreamError, MAX_FRAME_PAYLOAD};

fn all() -> Vec<Message> {
    vec![
        Message::CaptureBegin { from_bottom: 12.5f64.to_bits(), source_height: 1080f64.to_bits() },
        Message::CaptureEnd,
        Message::MouseMotion { dx: (-1.25f64).to_bits(), dy: 3f64.to_bits() },
        Message::MouseButton { button: 272, state: 1 },
        Message::MouseScroll { axis: 1, value: 120f64.to_bits() },
        Message::KeyPress { code: 30 },
        Message::KeyRelease { code: 0xdead_beef },
        Message::Heartbeat,
        Message::HeartbeatAck,
        Message::ReturnToSender { from_bottom: 1f64.to_bits(), source_height: 956f64.to_bits() },
        Message::ClipboardData { text: "héllo €".to_string() },
        Message::ClipboardImage { format: "image/png".to_string(), data: vec![1, 2, 3] },
        Message::ClipboardHtml { html: "<b>x</b>".to_string(), plain: "x".to_string() },
    ]
}

#[test]
fn messages_have_their_tags_and_lengths() {
    let frames: Vec<Vec<u8>> = all().iter().map(|m| encode(m).unwrap()).collect();
    let tags: Vec<u8> = frames.iter().map(|f| f[4]).collect();
    assert_eq!(tags, vec![1, 2, 3, 4, 5, 6, 7, 8, 9, 10, 0x40, 0x41, 0x42]);
    for frame in frames {
        assert_eq!(&frame[0..4], &((frame.len() - 4) as u32).to_be_bytes());
    }
}

#[test]
fn fields_stand_in_their_places() {
    assert_eq!(
        encode(&Message::KeyRelease { code: 0xdead_beef }),
        Some(vec![0, 0, 0, 5, 7, 0xde, 0xad, 0xbe, 0xef])
    );
    assert_eq!(
        encode(&Message::MouseButton { button: 272, state: 1 }),
        Some(vec![0, 0, 0, 6, 4, 0, 0, 1, 16, 1])
    );
    let mut scroll = vec![0, 0, 0, 10, 5, 1];
    scroll.extend_from_slice(&120f64.to_be_bytes());
    assert_eq!(
        encode(&Message::MouseScroll { axis: 1, value: 120f64.to_bits() }),
        Some(scroll)
    );
    assert_eq!(
        encode(&Message::ClipboardImage { format: "p".to_string(), data: vec![7, 8] }),
        Some(vec![0, 0, 0, 10, 0x41, 0, 1, b'p', 0, 0, 0, 2, 7, 8])
    );
    assert_eq!(
        encode(&Message::ClipboardHtml { html: "h".to_string(), plain: "é".to_string() }),
        Some(vec![0, 0, 0, 12, 0x42, 0, 0, 0, 1, b'h', 0, 0, 0, 2, 0xc3, 0xa9])
    );
    assert_eq!(encode(&Message::Heartbeat), Some(vec![0, 0, 0, 1, 8]));
}

#[test]
fn what_was_written_is_read() {
    let mut reader = FrameReader::new();
    for message in all() {
        reader.receive(&encode(&message).unwrap());
    }
    for message in all() {
        assert_eq!(reader.next_message(), Ok(Some(message)));
    }
    assert_eq!(reader.next_message(), Ok(None));
}

#[test]
fn nothing_is_lost_however_the_stream_is_cut() {
    let mut stream = Vec::new();
    for message in all() {
        stream.extend(encode(&message).unwrap());
    }
    for size in 1..40 {
        let mut reader = FrameReader::new();
        let mut read = Vec::new();
        for part in stream.chunks(size) {
            reader.receive(part);
            while let Some(message) = reader.next_message().unwrap() {
                read.push(message);
            }
        }
        assert_eq!(read, all());
    }
}

#[test]
fn a_part_of_a_frame_is_no_message() {
    let frame = encode(&Message::KeyPress { code: 30 }).unwrap();
    let mut reader = FrameReader::new();
    for byte in &frame[..frame.len() - 1] {
        reader.receive(&[*byte]);
        assert_eq!(reader.next_message(), Ok(None));
    }
    reader.receive(&frame[frame.len() - 1..]);
    assert_eq!(reader.next_message(), Ok(Some(Message::KeyPress { code: 30 })));
}

#[test]
fn long_frames_are_refused() {
    let mut reader = FrameReader::new();
    reader.receive(&(MAX_FRAME_PAYLOAD + 1).to_be_bytes());
    assert_eq!(reader.next_message(), Err(StreamError::TooLong));
}

#[test]
fn long_messages_are_not_sent() {
    let fits = MAX_FRAME_PAYLOAD as usize - 8;
    let image = |len: usize| Message::ClipboardImage { format: "p".to_string(), data: vec![0; len] };
    assert_eq!(encode(&image(fits)).unwrap().len(), MAX_FRAME_PAYLOAD as usize + 4);
    assert_eq!(encode(&image(fits + 1)), None);
    assert_eq!(encode(&image(MAX_FRAME_PAYLOAD as usize + 1)), None);
    let named = Message::ClipboardImage { format: "p".repeat(0x1_0000), data: vec![] };
    assert_eq!(encode(&named), None);
}

#[test]
fn other_payloads_are_malformed() {
    let cases: [&[u8]; 11] = [
        &[],
        &[0],
        &[0x0B],
        &[2, 0],
        &[6, 0, 0, 0],
        &[1, 0, 0],
        &[0x40, 0, 0, 0, 2, b'a'],
        &[0x40, 0, 0, 0, 1, b'a', b'b'],
        &[0x40, 0, 0, 0, 1, 0xff],
        &[0x41, 0, 1, b'p', 0, 0, 0, 1],
        &[0x42, 0, 0, 0, 0, 0, 0, 0, 1, 0x80],
    ];
    for bytes in cases {
        assert_eq!(decode(&bytes.to_vec()), None);
        let mut reader = FrameReader::new();
        reader.receive(&(bytes.len() as u32).to_be_bytes());
        reader.receive(bytes);
        reader.receive(&encode(&Message::Heartbeat).unwrap());
        assert_eq!(reader.next_message(), Err(StreamError::Malformed));
        assert_eq!(reader.next_message(), Ok(Some(Message::Heartbeat)));
    }
}

#[test]
fn empty_texts_travel_too() {
    for message in [
        Message::ClipboardData { text: String::new() },
        Message::ClipboardImage { format: String::new(), data: vec![] },
        Message::ClipboardHtml { html: String::new(), plain: String::new() },
    ] {
        let frame = encode(&message).unwrap();
        assert_eq!(decode(&frame[4..].to_vec()), Some(message));
    }
}
