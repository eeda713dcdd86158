//! The protocol on the wire: messages as bytes, and frames in a stream of bytes.
//!
//! A frame is the length of its payload, in four bytes, and the payload. The first byte of a
//! payload tells which message it holds. Numbers stand with the most significant byte first.
use vstd::prelude::*;
use vstd::slice::slice_subrange;
use vstd::utf8::{decode_utf8, encode_utf8, valid_utf8};

verus! {

/// The longest payload: 32 MiB.
pub const MAX_FRAME_PAYLOAD: u32 = 0x0200_0000;

/// A message. Lengths, distances and scroll values are binary floating-point numbers of 64
/// bits, and stand here as their bits.
#[derive(Debug, PartialEq, Eq)]
pub enum Message {
    CaptureBegin { from_bottom: u64, source_height: u64 },
    CaptureEnd,
    MouseMotion { dx: u64, dy: u64 },
    MouseButton { button: u32, state: u8 },
    MouseScroll { axis: u8, value: u64 },
    KeyPress { code: u32 },
    KeyRelease { code: u32 },
    Heartbeat,
    HeartbeatAck,
    ReturnToSender { from_bottom: u64, source_height: u64 },
    ClipboardData { text: String },
    ClipboardImage { format: String, data: Vec<u8> },
    ClipboardHtml { html: String, plain: String },
}

/// What a message says.
#[verifier::ext_equal]
pub enum Content {
    CaptureBegin { from_bottom: u64, source_height: u64 },
    CaptureEnd,
    MouseMotion { dx: u64, dy: u64 },
    MouseButton { button: u32, state: u8 },
    MouseScroll { axis: u8, value: u64 },
    KeyPress { code: u32 },
    KeyRelease { code: u32 },
    Heartbeat,
    HeartbeatAck,
    ReturnToSender { from_bottom: u64, source_height: u64 },
    ClipboardData { text: Seq<char> },
    ClipboardImage { format: Seq<char>, data: Seq<u8> },
    ClipboardHtml { html: Seq<char>, plain: Seq<char> },
}

impl View for Message {
    type V = Content;

    open spec fn view(&self) -> Content {
        match *self {
            Message::CaptureBegin { from_bottom, source_height } => Content::CaptureBegin {
                from_bottom,
                source_height,
            },
            Message::CaptureEnd => Content::CaptureEnd,
            Message::MouseMotion { dx, dy } => Content::MouseMotion { dx, dy },
            Message::MouseButton { button, state } => Content::MouseButton { button, state },
            Message::MouseScroll { axis, value } => Content::MouseScroll { axis, value },
            Message::KeyPress { code } => Content::KeyPress { code },
            Message::KeyRelease { code } => Content::KeyRelease { code },
            Message::Heartbeat => Content::Heartbeat,
            Message::HeartbeatAck => Content::HeartbeatAck,
            Message::ReturnToSender { from_bottom, source_height } => Content::ReturnToSender {
                from_bottom,
                source_height,
            },
            Message::ClipboardData { text } => Content::ClipboardData { text: text@ },
            Message::ClipboardImage { format, data } => Content::ClipboardImage {
                format: format@,
                data: data@,
            },
            Message::ClipboardHtml { html, plain } => Content::ClipboardHtml {
                html: html@,
                plain: plain@,
            },
        }
    }
}

/// The two bytes of a number.
pub open spec fn two(v: int) -> Seq<u8> {
    seq![(v / 0x100) as u8, (v % 0x100) as u8]
}

/// The four bytes of a number.
pub open spec fn four(v: int) -> Seq<u8> {
    two(v / 0x1_0000) + two(v % 0x1_0000)
}

/// The eight bytes of a number.
pub open spec fn eight(v: int) -> Seq<u8> {
    four(v / 0x1_0000_0000) + four(v % 0x1_0000_0000)
}

/// The number that two bytes make.
pub open spec fn of_two(bytes: Seq<u8>) -> int {
    bytes[0] * 0x100 + bytes[1]
}

/// The number that four bytes make.
pub open spec fn of_four(bytes: Seq<u8>) -> int {
    of_two(bytes.take(2)) * 0x1_0000 + of_two(bytes.skip(2))
}

/// The number that eight bytes make.
pub open spec fn of_eight(bytes: Seq<u8>) -> int {
    of_four(bytes.take(4)) * 0x1_0000_0000 + of_four(bytes.skip(4))
}

/// A text or data of some length, in two bytes of length and as many bytes as it says.
pub open spec fn short_block(bytes: Seq<u8>) -> Seq<u8> {
    two(bytes.len() as int) + bytes
}

/// A text or data of some length, in four bytes of length and as many bytes as it says.
pub open spec fn block(bytes: Seq<u8>) -> Seq<u8> {
    four(bytes.len() as int) + bytes
}

/// The payload that holds a message.
pub open spec fn payload(content: Content) -> Seq<u8> {
    match content {
        Content::CaptureBegin { from_bottom, source_height } => seq![0x01u8] + eight(
            from_bottom as int,
        ) + eight(source_height as int),
        Content::CaptureEnd => seq![0x02u8],
        Content::MouseMotion { dx, dy } => seq![0x03u8] + eight(dx as int) + eight(dy as int),
        Content::MouseButton { button, state } => seq![0x04u8] + four(button as int) + seq![state],
        Content::MouseScroll { axis, value } => seq![0x05u8] + seq![axis] + eight(value as int),
        Content::KeyPress { code } => seq![0x06u8] + four(code as int),
        Content::KeyRelease { code } => seq![0x07u8] + four(code as int),
        Content::Heartbeat => seq![0x08u8],
        Content::HeartbeatAck => seq![0x09u8],
        Content::ReturnToSender { from_bottom, source_height } => seq![0x0Au8] + eight(
            from_bottom as int,
        ) + eight(source_height as int),
        Content::ClipboardData { text } => seq![0x40u8] + block(encode_utf8(text)),
        Content::ClipboardImage { format, data } => seq![0x41u8] + short_block(encode_utf8(format))
            + block(data),
        Content::ClipboardHtml { html, plain } => seq![0x42u8] + block(encode_utf8(html)) + block(
            encode_utf8(plain),
        ),
    }
}

/// Whether a message can be sent: its payload is no longer than the longest one, and the
/// name of an image's format has a length of two bytes.
pub open spec fn fits(content: Content) -> bool {
    &&& payload(content).len() <= MAX_FRAME_PAYLOAD
    &&& content matches Content::ClipboardImage { format, .. } ==> encode_utf8(format).len()
        <= 0xFFFF
}

/// The frame that holds a message.
pub open spec fn frame(content: Content) -> Seq<u8> {
    block(payload(content))
}

fn put_two(out: &mut Vec<u8>, v: u16)
    ensures
        final(out)@ == old(out)@ + two(v as int),
{
    out.push((v / 0x100) as u8);
    out.push((v % 0x100) as u8);
    assert(out@ =~= old(out)@ + two(v as int));
}

fn put_four(out: &mut Vec<u8>, v: u32)
    ensures
        final(out)@ == old(out)@ + four(v as int),
{
    put_two(out, (v / 0x1_0000) as u16);
    put_two(out, (v % 0x1_0000) as u16);
    assert(out@ =~= old(out)@ + four(v as int));
}

fn put_eight(out: &mut Vec<u8>, v: u64)
    ensures
        final(out)@ == old(out)@ + eight(v as int),
{
    put_four(out, (v / 0x1_0000_0000) as u32);
    put_four(out, (v % 0x1_0000_0000) as u32);
    assert(out@ =~= old(out)@ + eight(v as int));
}

fn put_bytes(out: &mut Vec<u8>, bytes: &[u8])
    ensures
        final(out)@ == old(out)@ + bytes@,
{
    let ghost before = out@;
    let mut i: usize = 0;
    while i < bytes.len()
        invariant
            i <= bytes@.len(),
            out@ == before + bytes@.take(i as int),
        decreases bytes@.len() - i,
    {
        out.push(bytes[i]);
        i += 1;
        assert(out@ =~= before + bytes@.take(i as int));
    }
    assert(bytes@.take(i as int) =~= bytes@);
}

fn put_block(out: &mut Vec<u8>, bytes: &[u8])
    requires
        bytes@.len() <= MAX_FRAME_PAYLOAD,
    ensures
        final(out)@ == old(out)@ + block(bytes@),
{
    put_four(out, bytes.len() as u32);
    put_bytes(out, bytes);
    assert(out@ =~= old(out)@ + block(bytes@));
}

/// The most bytes that the texts and data of a message can have, if it can be sent.
const MAX_BLOCKS: usize = 0x0200_0000;

/// The frame to send for a message, if it can be sent.
pub fn encode(message: &Message) -> (sent: Option<Vec<u8>>)
    ensures
        match sent {
            Some(bytes) => fits(message@) && bytes@ == frame(message@),
            None => !fits(message@),
        },
{
    let mut out: Vec<u8> = Vec::new();
    match message {
        Message::CaptureBegin { from_bottom, source_height } => {
            out.push(0x01);
            put_eight(&mut out, *from_bottom);
            put_eight(&mut out, *source_height);
        },
        Message::CaptureEnd => {
            out.push(0x02);
        },
        Message::MouseMotion { dx, dy } => {
            out.push(0x03);
            put_eight(&mut out, *dx);
            put_eight(&mut out, *dy);
        },
        Message::MouseButton { button, state } => {
            out.push(0x04);
            put_four(&mut out, *button);
            out.push(*state);
        },
        Message::MouseScroll { axis, value } => {
            out.push(0x05);
            out.push(*axis);
            put_eight(&mut out, *value);
        },
        Message::KeyPress { code } => {
            out.push(0x06);
            put_four(&mut out, *code);
        },
        Message::KeyRelease { code } => {
            out.push(0x07);
            put_four(&mut out, *code);
        },
        Message::Heartbeat => {
            out.push(0x08);
        },
        Message::HeartbeatAck => {
            out.push(0x09);
        },
        Message::ReturnToSender { from_bottom, source_height } => {
            out.push(0x0A);
            put_eight(&mut out, *from_bottom);
            put_eight(&mut out, *source_height);
        },
        Message::ClipboardData { text } => {
            let bytes: &[u8] = text.as_str().as_bytes();
            if bytes.len() > MAX_BLOCKS {
                return None;
            }
            out.push(0x40);
            put_block(&mut out, bytes);
        },
        Message::ClipboardImage { format, data } => {
            let name: &[u8] = format.as_str().as_bytes();
            if name.len() > 0xFFFF || data.len() > MAX_BLOCKS {
                return None;
            }
            out.push(0x41);
            put_two(&mut out, name.len() as u16);
            put_bytes(&mut out, name);
            put_block(&mut out, data.as_slice());
            assert(out@ =~= payload(message@));
        },
        Message::ClipboardHtml { html, plain } => {
            let rich: &[u8] = html.as_str().as_bytes();
            let poor: &[u8] = plain.as_str().as_bytes();
            if rich.len() > MAX_BLOCKS || poor.len() > MAX_BLOCKS {
                return None;
            }
            out.push(0x42);
            put_block(&mut out, rich);
            put_block(&mut out, poor);
        },
    }
    assert(out@ =~= payload(message@));
    if out.len() > MAX_BLOCKS {
        return None;
    }
    let mut framed: Vec<u8> = Vec::new();
    put_block(&mut framed, out.as_slice());
    assert(framed@ =~= frame(message@));
    Some(framed)
}

proof fn lemma_two(v: int, bytes: Seq<u8>)
    ensures
        0 <= v < 0x1_0000 ==> of_two(two(v)) == v,
        bytes.len() == 2 ==> 0 <= of_two(bytes) < 0x1_0000 && two(of_two(bytes)) == bytes,
{
    if bytes.len() == 2 {
        assert(two(of_two(bytes)) =~= bytes);
    }
}

proof fn lemma_four(v: int, bytes: Seq<u8>)
    ensures
        0 <= v < 0x1_0000_0000 ==> of_four(four(v)) == v,
        bytes.len() == 4 ==> 0 <= of_four(bytes) < 0x1_0000_0000 && four(of_four(bytes)) == bytes,
{
    lemma_two(v / 0x1_0000, bytes.take(2));
    lemma_two(v % 0x1_0000, bytes.skip(2));
    assert(four(v).take(2) =~= two(v / 0x1_0000));
    assert(four(v).skip(2) =~= two(v % 0x1_0000));
    if bytes.len() == 4 {
        let high = of_two(bytes.take(2));
        let low = of_two(bytes.skip(2));
        assert((high * 0x1_0000 + low) / 0x1_0000 == high);
        assert((high * 0x1_0000 + low) % 0x1_0000 == low);
        assert(four(of_four(bytes)) =~= bytes.take(2) + bytes.skip(2));
        assert(bytes.take(2) + bytes.skip(2) =~= bytes);
    }
}

proof fn lemma_eight(v: int, bytes: Seq<u8>)
    ensures
        0 <= v < 0x1_0000_0000_0000_0000 ==> of_eight(eight(v)) == v,
        bytes.len() == 8 ==> 0 <= of_eight(bytes) < 0x1_0000_0000_0000_0000 && eight(
            of_eight(bytes),
        ) == bytes,
{
    lemma_four(v / 0x1_0000_0000, bytes.take(4));
    lemma_four(v % 0x1_0000_0000, bytes.skip(4));
    assert(eight(v).take(4) =~= four(v / 0x1_0000_0000));
    assert(eight(v).skip(4) =~= four(v % 0x1_0000_0000));
    if bytes.len() == 8 {
        let high = of_four(bytes.take(4));
        let low = of_four(bytes.skip(4));
        assert((high * 0x1_0000_0000 + low) / 0x1_0000_0000 == high);
        assert((high * 0x1_0000_0000 + low) % 0x1_0000_0000 == low);
        assert(eight(of_eight(bytes)) =~= bytes.take(4) + bytes.skip(4));
        assert(bytes.take(4) + bytes.skip(4) =~= bytes);
    }
}

/// The bytes of the block at the start, and what follows it.
spec fn split_block(bytes: Seq<u8>) -> Option<(Seq<u8>, Seq<u8>)> {
    if bytes.len() >= 4 && of_four(bytes.take(4)) <= bytes.len() - 4 {
        let end = 4 + of_four(bytes.take(4));
        Some((bytes.subrange(4, end), bytes.skip(end)))
    } else {
        None
    }
}

/// The bytes of the short block at the start, and what follows it.
spec fn split_short_block(bytes: Seq<u8>) -> Option<(Seq<u8>, Seq<u8>)> {
    if bytes.len() >= 2 && of_two(bytes.take(2)) <= bytes.len() - 2 {
        let end = 2 + of_two(bytes.take(2));
        Some((bytes.subrange(2, end), bytes.skip(end)))
    } else {
        None
    }
}

proof fn lemma_split_block(bytes: Seq<u8>, rest: Seq<u8>)
    requires
        bytes.len() <= MAX_FRAME_PAYLOAD,
    ensures
        split_block(block(bytes) + rest) == Some((bytes, rest)),
{
    let all = block(bytes) + rest;
    lemma_four(bytes.len() as int, seq![]);
    assert(all.take(4) =~= four(bytes.len() as int));
    assert(all.subrange(4, 4 + bytes.len() as int) =~= bytes);
    assert(all.skip(4 + bytes.len() as int) =~= rest);
}

proof fn lemma_split_short_block(bytes: Seq<u8>, rest: Seq<u8>)
    requires
        bytes.len() <= 0xFFFF,
    ensures
        split_short_block(short_block(bytes) + rest) == Some((bytes, rest)),
{
    let all = short_block(bytes) + rest;
    lemma_two(bytes.len() as int, seq![]);
    assert(all.take(2) =~= two(bytes.len() as int));
    assert(all.subrange(2, 2 + bytes.len() as int) =~= bytes);
    assert(all.skip(2 + bytes.len() as int) =~= rest);
}

proof fn lemma_join_block(bytes: Seq<u8>)
    ensures
        split_block(bytes) matches Some((one, rest)) ==> block(one) + rest == bytes,
{
    if bytes.len() >= 4 {
        lemma_four(0, bytes.take(4));
    }
    if let Some((one, rest)) = split_block(bytes) {
        assert(block(one) + rest =~= bytes);
    }
}

proof fn lemma_join_short_block(bytes: Seq<u8>)
    ensures
        split_short_block(bytes) matches Some((one, rest)) ==> short_block(one) + rest == bytes
            && one.len() <= 0xFFFF,
{
    if bytes.len() >= 2 {
        lemma_two(0, bytes.take(2));
    }
    if let Some((one, rest)) = split_short_block(bytes) {
        assert(short_block(one) + rest =~= bytes);
    }
}

/// The message that a payload holds, by its first byte and what follows it.
spec fn parsed(tag: u8, rest: Seq<u8>) -> Option<Content> {
    if tag == 0x01 && rest.len() == 16 {
        Some(
            Content::CaptureBegin {
                from_bottom: of_eight(rest.take(8)) as u64,
                source_height: of_eight(rest.skip(8)) as u64,
            },
        )
    } else if tag == 0x02 && rest.len() == 0 {
        Some(Content::CaptureEnd)
    } else if tag == 0x03 && rest.len() == 16 {
        Some(
            Content::MouseMotion {
                dx: of_eight(rest.take(8)) as u64,
                dy: of_eight(rest.skip(8)) as u64,
            },
        )
    } else if tag == 0x04 && rest.len() == 5 {
        Some(Content::MouseButton { button: of_four(rest.take(4)) as u32, state: rest[4] })
    } else if tag == 0x05 && rest.len() == 9 {
        Some(Content::MouseScroll { axis: rest[0], value: of_eight(rest.skip(1)) as u64 })
    } else if tag == 0x06 && rest.len() == 4 {
        Some(Content::KeyPress { code: of_four(rest) as u32 })
    } else if tag == 0x07 && rest.len() == 4 {
        Some(Content::KeyRelease { code: of_four(rest) as u32 })
    } else if tag == 0x08 && rest.len() == 0 {
        Some(Content::Heartbeat)
    } else if tag == 0x09 && rest.len() == 0 {
        Some(Content::HeartbeatAck)
    } else if tag == 0x0A && rest.len() == 16 {
        Some(
            Content::ReturnToSender {
                from_bottom: of_eight(rest.take(8)) as u64,
                source_height: of_eight(rest.skip(8)) as u64,
            },
        )
    } else if tag == 0x40 {
        match split_block(rest) {
            Some((text, tail)) if tail.len() == 0 && valid_utf8(text) => Some(
                Content::ClipboardData { text: decode_utf8(text) },
            ),
            _ => None,
        }
    } else if tag == 0x41 {
        match split_short_block(rest) {
            Some((format, more)) if valid_utf8(format) => match split_block(more) {
                Some((data, tail)) if tail.len() == 0 => Some(
                    Content::ClipboardImage { format: decode_utf8(format), data },
                ),
                _ => None,
            },
            _ => None,
        }
    } else if tag == 0x42 {
        match split_block(rest) {
            Some((html, more)) if valid_utf8(html) => match split_block(more) {
                Some((plain, tail)) if tail.len() == 0 && valid_utf8(plain) => Some(
                    Content::ClipboardHtml { html: decode_utf8(html), plain: decode_utf8(plain) },
                ),
                _ => None,
            },
            _ => None,
        }
    } else {
        None
    }
}

proof fn lemma_parse_text(text: Seq<char>)
    requires
        fits(Content::ClipboardData { text }),
    ensures
        ({
            let bytes = payload(Content::ClipboardData { text });
            parsed(bytes[0], bytes.skip(1)) == Some(Content::ClipboardData { text })
        }),
{
    let none = Seq::<u8>::empty();
    let bytes = encode_utf8(text);
    vstd::utf8::encode_utf8_valid_utf8(text);
    vstd::utf8::encode_utf8_decode_utf8(text);
    assert(payload(Content::ClipboardData { text }).skip(1) =~= block(bytes) + none);
    lemma_split_block(bytes, none);
}

proof fn lemma_parse_image(format: Seq<char>, data: Seq<u8>)
    requires
        fits(Content::ClipboardImage { format, data }),
    ensures
        ({
            let bytes = payload(Content::ClipboardImage { format, data });
            parsed(bytes[0], bytes.skip(1)) == Some(Content::ClipboardImage { format, data })
        }),
{
    let none = Seq::<u8>::empty();
    let name = encode_utf8(format);
    vstd::utf8::encode_utf8_valid_utf8(format);
    vstd::utf8::encode_utf8_decode_utf8(format);
    assert(payload(Content::ClipboardImage { format, data }).skip(1) =~= short_block(name) + block(
        data,
    ));
    assert(block(data) =~= block(data) + none);
    lemma_split_short_block(name, block(data));
    lemma_split_block(data, none);
}

proof fn lemma_parse_html(html: Seq<char>, plain: Seq<char>)
    requires
        fits(Content::ClipboardHtml { html, plain }),
    ensures
        ({
            let bytes = payload(Content::ClipboardHtml { html, plain });
            parsed(bytes[0], bytes.skip(1)) == Some(Content::ClipboardHtml { html, plain })
        }),
{
    let none = Seq::<u8>::empty();
    let rich = encode_utf8(html);
    let poor = encode_utf8(plain);
    vstd::utf8::encode_utf8_valid_utf8(html);
    vstd::utf8::encode_utf8_decode_utf8(html);
    vstd::utf8::encode_utf8_valid_utf8(plain);
    vstd::utf8::encode_utf8_decode_utf8(plain);
    assert(payload(Content::ClipboardHtml { html, plain }).skip(1) =~= block(rich) + block(poor));
    assert(block(poor) =~= block(poor) + none);
    lemma_split_block(rich, block(poor));
    lemma_split_block(poor, none);
}

proof fn lemma_two_numbers(tag: u8, a: u64, b: u64)
    ensures
        ({
            let rest = (seq![tag] + eight(a as int) + eight(b as int)).skip(1);
            &&& rest.len() == 16
            &&& of_eight(rest.take(8)) == a
            &&& of_eight(rest.skip(8)) == b
        }),
{
    let rest = (seq![tag] + eight(a as int) + eight(b as int)).skip(1);
    assert(rest.take(8) =~= eight(a as int));
    assert(rest.skip(8) =~= eight(b as int));
    lemma_eight(a as int, seq![]);
    lemma_eight(b as int, seq![]);
}

proof fn lemma_parse_payload(content: Content)
    requires
        fits(content),
    ensures
        parsed(payload(content)[0], payload(content).skip(1)) == Some(content),
{
    match content {
        Content::CaptureBegin { from_bottom, source_height } => {
            lemma_two_numbers(0x01, from_bottom, source_height);
        },
        Content::ReturnToSender { from_bottom, source_height } => {
            lemma_two_numbers(0x0A, from_bottom, source_height);
        },
        Content::MouseMotion { dx, dy } => {
            lemma_two_numbers(0x03, dx, dy);
        },
        Content::MouseButton { button, state } => {
            lemma_four(button as int, seq![]);
            assert(payload(content).skip(1).take(4) =~= four(button as int));
        },
        Content::MouseScroll { axis, value } => {
            lemma_eight(value as int, seq![]);
            assert(payload(content).skip(1).skip(1) =~= eight(value as int));
        },
        Content::KeyPress { code } => {
            lemma_four(code as int, seq![]);
            assert(payload(content).skip(1) =~= four(code as int));
        },
        Content::KeyRelease { code } => {
            lemma_four(code as int, seq![]);
            assert(payload(content).skip(1) =~= four(code as int));
        },
        Content::ClipboardData { text } => {
            lemma_parse_text(text);
        },
        Content::ClipboardImage { format, data } => {
            lemma_parse_image(format, data);
        },
        Content::ClipboardHtml { html, plain } => {
            lemma_parse_html(html, plain);
        },
        Content::CaptureEnd | Content::Heartbeat | Content::HeartbeatAck => {},
    }
}

proof fn lemma_payload_of_numbers(bytes: Seq<u8>)
    requires
        0 < bytes.len() <= 17,
        bytes[0] < 0x40,
    ensures
        parsed(bytes[0], bytes.skip(1)) matches Some(content) ==> payload(content) == bytes && fits(
            content,
        ),
{
    let rest = bytes.skip(1);
    if let Some(content) = parsed(bytes[0], rest) {
        if rest.len() == 16 {
            lemma_eight(0, rest.take(8));
            lemma_eight(0, rest.skip(8));
        } else if rest.len() == 5 {
            lemma_four(0, rest.take(4));
        } else if rest.len() == 9 {
            lemma_eight(0, rest.skip(1));
        } else if rest.len() == 4 {
            lemma_four(0, rest);
        }
        assert(payload(content) =~= bytes);
    }
}

proof fn lemma_payload_of_text(bytes: Seq<u8>, text: Seq<char>)
    requires
        0 < bytes.len() <= MAX_FRAME_PAYLOAD,
        parsed(bytes[0], bytes.skip(1)) == Some(Content::ClipboardData { text }),
    ensures
        payload(Content::ClipboardData { text }) == bytes,
{
    let rest = bytes.skip(1);
    let (one, tail) = split_block(rest)->0;
    vstd::utf8::decode_utf8_encode_utf8(one);
    lemma_join_block(rest);
    assert(encode_utf8(text) == one);
    assert(block(one) =~= rest);
    assert(seq![0x40u8] + rest =~= bytes);
}

proof fn lemma_payload_of_image(bytes: Seq<u8>, format: Seq<char>, data: Seq<u8>)
    requires
        0 < bytes.len() <= MAX_FRAME_PAYLOAD,
        parsed(bytes[0], bytes.skip(1)) == Some(Content::ClipboardImage { format, data }),
    ensures
        payload(Content::ClipboardImage { format, data }) == bytes,
        encode_utf8(format).len() <= 0xFFFF,
{
    let rest = bytes.skip(1);
    let (one, more) = split_short_block(rest)->0;
    vstd::utf8::decode_utf8_encode_utf8(one);
    lemma_join_short_block(rest);
    lemma_join_block(more);
    assert(encode_utf8(format) == one);
    assert(block(data) =~= more);
    assert(short_block(one) + more == rest);
    assert(seq![0x41u8] + rest =~= bytes);
    assert(seq![0x41u8] + short_block(one) + more =~= seq![0x41u8] + rest);
}

proof fn lemma_payload_of_html(bytes: Seq<u8>, html: Seq<char>, plain: Seq<char>)
    requires
        0 < bytes.len() <= MAX_FRAME_PAYLOAD,
        parsed(bytes[0], bytes.skip(1)) == Some(Content::ClipboardHtml { html, plain }),
    ensures
        payload(Content::ClipboardHtml { html, plain }) == bytes,
{
    let rest = bytes.skip(1);
    let (one, more) = split_block(rest)->0;
    let (other, tail) = split_block(more)->0;
    vstd::utf8::decode_utf8_encode_utf8(one);
    vstd::utf8::decode_utf8_encode_utf8(other);
    lemma_join_block(rest);
    lemma_join_block(more);
    assert(encode_utf8(html) == one);
    assert(encode_utf8(plain) == other);
    assert(block(other) =~= more);
    assert(block(one) + more == rest);
    assert(seq![0x42u8] + rest =~= bytes);
    assert(seq![0x42u8] + block(one) + more =~= seq![0x42u8] + rest);
}

proof fn lemma_payload_of_blocks(bytes: Seq<u8>)
    requires
        0 < bytes.len() <= MAX_FRAME_PAYLOAD,
        bytes[0] >= 0x40,
    ensures
        parsed(bytes[0], bytes.skip(1)) matches Some(content) ==> payload(content) == bytes && fits(
            content,
        ),
{
    match parsed(bytes[0], bytes.skip(1)) {
        Some(Content::ClipboardData { text }) => {
            lemma_payload_of_text(bytes, text);
        },
        Some(Content::ClipboardImage { format, data }) => {
            lemma_payload_of_image(bytes, format, data);
        },
        Some(Content::ClipboardHtml { html, plain }) => {
            lemma_payload_of_html(bytes, html, plain);
        },
        _ => {},
    }
}

proof fn lemma_payload_of_parsed(bytes: Seq<u8>)
    requires
        0 < bytes.len() <= MAX_FRAME_PAYLOAD,
    ensures
        parsed(bytes[0], bytes.skip(1)) matches Some(content) ==> payload(content) == bytes && fits(
            content,
        ),
{
    if bytes[0] >= 0x40 {
        lemma_payload_of_blocks(bytes);
    } else if bytes.len() <= 17 {
        lemma_payload_of_numbers(bytes);
    }
}

/// Different messages have different payloads.
pub proof fn payload_tells_the_message(a: Content, b: Content)
    requires
        fits(a),
        fits(b),
        payload(a) == payload(b),
    ensures
        a == b,
{
    lemma_parse_payload(a);
    lemma_parse_payload(b);
}

/// The text that bytes encode, with `String::from_utf8` of std: it accepts the bytes that
/// are valid UTF-8, and gives the characters that they encode.
#[verifier::external_body]
fn text_of(bytes: Vec<u8>) -> (text: Option<String>)
    ensures
        match text {
            Some(s) => valid_utf8(bytes@) && s@ == decode_utf8(bytes@),
            None => !valid_utf8(bytes@),
        },
{
    String::from_utf8(bytes).ok()
}

fn get_two(bytes: &Vec<u8>, at: usize) -> (v: u16)
    requires
        at + 2 <= bytes@.len() <= usize::MAX,
    ensures
        v == of_two(bytes@.subrange(at as int, at + 2)),
{
    let b: u16 = bytes[at] as u16;
    b * 0x100 + bytes[at + 1] as u16
}

fn get_four(bytes: &Vec<u8>, at: usize) -> (v: u32)
    requires
        at + 4 <= bytes@.len() <= usize::MAX,
    ensures
        v == of_four(bytes@.subrange(at as int, at + 4)),
{
    let high: u32 = get_two(bytes, at) as u32;
    let low: u32 = get_two(bytes, at + 2) as u32;
    assert(bytes@.subrange(at as int, at + 4).take(2) =~= bytes@.subrange(at as int, at + 2));
    assert(bytes@.subrange(at as int, at + 4).skip(2) =~= bytes@.subrange(at + 2, at + 4));
    high * 0x1_0000 + low
}

fn get_eight(bytes: &Vec<u8>, at: usize) -> (v: u64)
    requires
        at + 8 <= bytes@.len() <= usize::MAX,
    ensures
        v == of_eight(bytes@.subrange(at as int, at + 8)),
{
    let high: u64 = get_four(bytes, at) as u64;
    let low: u64 = get_four(bytes, at + 4) as u64;
    assert(bytes@.subrange(at as int, at + 8).take(4) =~= bytes@.subrange(at as int, at + 4));
    assert(bytes@.subrange(at as int, at + 8).skip(4) =~= bytes@.subrange(at + 4, at + 8));
    high * 0x1_0000_0000 + low
}

fn copy_range(bytes: &Vec<u8>, start: usize, end: usize) -> (copy: Vec<u8>)
    requires
        start <= end <= bytes@.len(),
    ensures
        copy@ == bytes@.subrange(start as int, end as int),
{
    let mut copy: Vec<u8> = Vec::new();
    put_bytes(&mut copy, slice_subrange(bytes.as_slice(), start, end));
    assert(copy@ =~= bytes@.subrange(start as int, end as int));
    copy
}

/// The block at a position, and the position behind it.
fn get_block(bytes: &Vec<u8>, at: usize) -> (found: Option<(Vec<u8>, usize)>)
    requires
        at <= bytes@.len() <= MAX_FRAME_PAYLOAD,
    ensures
        match found {
            Some((one, end)) => end <= bytes@.len() && split_block(bytes@.skip(at as int)) == Some(
                (one@, bytes@.skip(end as int)),
            ),
            None => split_block(bytes@.skip(at as int)) is None,
        },
{
    let ghost rest = bytes@.skip(at as int);
    if bytes.len() - at < 4 {
        return None;
    }
    assert(rest.take(4) =~= bytes@.subrange(at as int, at + 4));
    let len: u32 = get_four(bytes, at);
    if len as usize > bytes.len() - at - 4 {
        return None;
    }
    let start: usize = at + 4;
    let end: usize = start + len as usize;
    let one: Vec<u8> = copy_range(bytes, start, end);
    assert(rest.subrange(4, 4 + len as int) =~= one@);
    assert(rest.skip(4 + len as int) =~= bytes@.skip(end as int));
    Some((one, end))
}

/// The short block at a position, and the position behind it.
fn get_short_block(bytes: &Vec<u8>, at: usize) -> (found: Option<(Vec<u8>, usize)>)
    requires
        at <= bytes@.len() <= MAX_FRAME_PAYLOAD,
    ensures
        match found {
            Some((one, end)) => end <= bytes@.len() && split_short_block(bytes@.skip(at as int))
                == Some((one@, bytes@.skip(end as int))),
            None => split_short_block(bytes@.skip(at as int)) is None,
        },
{
    let ghost rest = bytes@.skip(at as int);
    if bytes.len() - at < 2 {
        return None;
    }
    assert(rest.take(2) =~= bytes@.subrange(at as int, at + 2));
    let len: u16 = get_two(bytes, at);
    if len as usize > bytes.len() - at - 2 {
        return None;
    }
    let start: usize = at + 2;
    let end: usize = start + len as usize;
    let one: Vec<u8> = copy_range(bytes, start, end);
    assert(rest.subrange(2, 2 + len as int) =~= one@);
    assert(rest.skip(2 + len as int) =~= bytes@.skip(end as int));
    Some((one, end))
}

fn get_pair(bytes: &Vec<u8>) -> (pair: (u64, u64))
    requires
        bytes@.len() == 17,
    ensures
        pair.0 == of_eight(bytes@.skip(1).take(8)),
        pair.1 == of_eight(bytes@.skip(1).skip(8)),
{
    assert(bytes@.skip(1).take(8) =~= bytes@.subrange(1, 9));
    assert(bytes@.skip(1).skip(8) =~= bytes@.subrange(9, 17));
    (get_eight(bytes, 1), get_eight(bytes, 9))
}

fn parse_text(bytes: &Vec<u8>) -> (message: Option<Message>)
    requires
        0 < bytes@.len() <= MAX_FRAME_PAYLOAD,
        bytes@[0] == 0x40,
    ensures
        parsed(0x40, bytes@.skip(1)) == (match message {
            Some(m) => Some(m@),
            None => None,
        }),
{
    let (text, end) = match get_block(bytes, 1) {
        Some((text, end)) => (text, end),
        None => return None,
    };
    if end != bytes.len() {
        return None;
    }
    match text_of(text) {
        Some(text) => Some(Message::ClipboardData { text }),
        None => None,
    }
}

fn parse_image(bytes: &Vec<u8>) -> (message: Option<Message>)
    requires
        0 < bytes@.len() <= MAX_FRAME_PAYLOAD,
        bytes@[0] == 0x41,
    ensures
        parsed(0x41, bytes@.skip(1)) == (match message {
            Some(m) => Some(m@),
            None => None,
        }),
{
    let (name, more) = match get_short_block(bytes, 1) {
        Some((name, more)) => (name, more),
        None => return None,
    };
    let format: String = match text_of(name) {
        Some(format) => format,
        None => return None,
    };
    let (data, end) = match get_block(bytes, more) {
        Some((data, end)) => (data, end),
        None => return None,
    };
    if end != bytes.len() {
        return None;
    }
    Some(Message::ClipboardImage { format, data })
}

fn parse_html(bytes: &Vec<u8>) -> (message: Option<Message>)
    requires
        0 < bytes@.len() <= MAX_FRAME_PAYLOAD,
        bytes@[0] == 0x42,
    ensures
        parsed(0x42, bytes@.skip(1)) == (match message {
            Some(m) => Some(m@),
            None => None,
        }),
{
    let (rich, more) = match get_block(bytes, 1) {
        Some((rich, more)) => (rich, more),
        None => return None,
    };
    let html: String = match text_of(rich) {
        Some(html) => html,
        None => return None,
    };
    let (poor, end) = match get_block(bytes, more) {
        Some((poor, end)) => (poor, end),
        None => return None,
    };
    if end != bytes.len() {
        return None;
    }
    match text_of(poor) {
        Some(plain) => Some(Message::ClipboardHtml { html, plain }),
        None => None,
    }
}

/// The message that a payload holds, if it holds one.
pub fn decode(bytes: &Vec<u8>) -> (message: Option<Message>)
    ensures
        match message {
            Some(m) => fits(m@) && payload(m@) == bytes@,
            None => forall|content: Content| fits(content) ==> #[trigger] payload(content)
                != bytes@,
        },
{
    let len: usize = bytes.len();
    if len == 0 || len > MAX_FRAME_PAYLOAD as usize {
        return None;
    }
    let ghost rest = bytes@.skip(1);
    let tag: u8 = bytes[0];
    let message: Option<Message> = if tag == 0x01 && len == 17 {
        let (from_bottom, source_height) = get_pair(bytes);
        Some(Message::CaptureBegin { from_bottom, source_height })
    } else if tag == 0x02 && len == 1 {
        Some(Message::CaptureEnd)
    } else if tag == 0x03 && len == 17 {
        let (dx, dy) = get_pair(bytes);
        Some(Message::MouseMotion { dx, dy })
    } else if tag == 0x04 && len == 6 {
        assert(rest.take(4) =~= bytes@.subrange(1, 5));
        Some(Message::MouseButton { button: get_four(bytes, 1), state: bytes[5] })
    } else if tag == 0x05 && len == 10 {
        assert(rest.skip(1) =~= bytes@.subrange(2, 10));
        Some(Message::MouseScroll { axis: bytes[1], value: get_eight(bytes, 2) })
    } else if tag == 0x06 && len == 5 {
        assert(rest =~= bytes@.subrange(1, 5));
        Some(Message::KeyPress { code: get_four(bytes, 1) })
    } else if tag == 0x07 && len == 5 {
        assert(rest =~= bytes@.subrange(1, 5));
        Some(Message::KeyRelease { code: get_four(bytes, 1) })
    } else if tag == 0x08 && len == 1 {
        Some(Message::Heartbeat)
    } else if tag == 0x09 && len == 1 {
        Some(Message::HeartbeatAck)
    } else if tag == 0x0A && len == 17 {
        let (from_bottom, source_height) = get_pair(bytes);
        Some(Message::ReturnToSender { from_bottom, source_height })
    } else if tag == 0x40 {
        parse_text(bytes)
    } else if tag == 0x41 {
        parse_image(bytes)
    } else if tag == 0x42 {
        parse_html(bytes)
    } else {
        None
    };
    proof {
        assert(parsed(tag, rest) == (match message {
            Some(m) => Some(m@),
            None => None,
        }));
        lemma_payload_of_parsed(bytes@);
        assert forall|content: Content| fits(content) && message is None implies #[trigger] payload(
            content,
        ) != bytes@ by {
            lemma_parse_payload(content);
        }
    }
    message
}

/// What a stream of bytes begins with.
pub enum Start {
    /// Not yet a whole frame.
    Partial,
    /// A frame that is longer than the longest one.
    TooLong,
    /// A frame, with its payload and what follows it.
    Frame { payload: Seq<u8>, rest: Seq<u8> },
}

/// What a stream of bytes begins with.
pub open spec fn start(stream: Seq<u8>) -> Start {
    if stream.len() < 4 {
        Start::Partial
    } else {
        let len = of_four(stream.take(4));
        if len > MAX_FRAME_PAYLOAD {
            Start::TooLong
        } else if stream.len() < 4 + len {
            Start::Partial
        } else {
            Start::Frame { payload: stream.subrange(4, 4 + len), rest: stream.skip(4 + len) }
        }
    }
}

/// Why a stream cannot be read on.
#[derive(Debug, Clone, Copy, PartialEq, Eq, Structural)]
pub enum StreamError {
    /// The next frame is longer than the longest one.
    TooLong,
    /// The next frame holds no message.
    Malformed,
}

/// The bytes of a stream that were received and not yet read as frames. They stay here until
/// a whole frame is there, so nothing is lost where waiting for more of them is broken off.
pub struct FrameReader {
    received: Vec<u8>,
}

impl View for FrameReader {
    type V = Seq<u8>;

    closed spec fn view(&self) -> Seq<u8> {
        self.received@
    }
}

impl FrameReader {
    /// A stream of which nothing was received yet.
    pub fn new() -> (reader: FrameReader)
        ensures
            reader@ == Seq::<u8>::empty(),
    {
        FrameReader { received: Vec::new() }
    }

    /// Takes in bytes that were received.
    pub fn receive(&mut self, bytes: &[u8])
        ensures
            final(self)@ == old(self)@ + bytes@,
    {
        put_bytes(&mut self.received, bytes);
    }

    /// The next message, once all of its frame was received.
    pub fn next_message(&mut self) -> (next: Result<Option<Message>, StreamError>)
        ensures
            match start(old(self)@) {
                Start::Partial => next matches Ok(None) && final(self)@ == old(self)@,
                Start::TooLong => next matches Err(StreamError::TooLong) && final(self)@ == old(
                    self,
                )@,
                Start::Frame { payload: bytes, rest } => {
                    &&& final(self)@ == rest
                    &&& match next {
                        Ok(Some(m)) => fits(m@) && payload(m@) == bytes,
                        Ok(None) => false,
                        Err(e) => e is Malformed && forall|content: Content|
                            fits(content) ==> #[trigger] payload(content) != bytes,
                    }
                },
            },
    {
        if self.received.len() < 4 {
            return Ok(None);
        }
        assert(self@.take(4) =~= self@.subrange(0, 4));
        let len: u32 = get_four(&self.received, 0);
        if len > MAX_FRAME_PAYLOAD {
            return Err(StreamError::TooLong);
        }
        if self.received.len() - 4 < len as usize {
            return Ok(None);
        }
        let end: usize = 4 + len as usize;
        let bytes: Vec<u8> = copy_range(&self.received, 4, end);
        let rest: Vec<u8> = copy_range(&self.received, end, self.received.len());
        assert(rest@ =~= self@.skip(end as int));
        self.received = rest;
        match decode(&bytes) {
            Some(message) => Ok(Some(message)),
            None => Err(StreamError::Malformed),
        }
    }
}

/// What is read is what was written: a stream that begins with the frame of a message gives
/// that message and no other, and goes on behind the frame.
pub proof fn what_is_read_was_written(content: Content, rest: Seq<u8>, read: Content)
    requires
        fits(content),
        fits(read),
    ensures
        start(frame(content) + rest) == (Start::Frame { payload: payload(content), rest }),
        payload(read) == payload(content) ==> read == content,
{
    let stream = frame(content) + rest;
    lemma_split_block(payload(content), rest);
    lemma_four(payload(content).len() as int, seq![]);
    assert(stream.take(4) =~= four(payload(content).len() as int));
    if payload(read) == payload(content) {
        payload_tells_the_message(read, content);
    }
}

/// A frame is read only once all of it was received: of any smaller part of it nothing is
/// read, however it was cut.
pub proof fn a_part_of_a_frame_is_kept(content: Content, received: int)
    requires
        fits(content),
        0 <= received < frame(content).len(),
    ensures
        start(frame(content).take(received)) is Partial,
{
    let part = frame(content).take(received);
    lemma_four(payload(content).len() as int, seq![]);
    if received >= 4 {
        assert(part.take(4) =~= four(payload(content).len() as int));
    }
}

/// The number that bytes make, the most significant byte first.
pub open spec fn big_endian(bytes: Seq<u8>) -> int
    decreases bytes.len(),
{
    if bytes.len() == 0 {
        0
    } else {
        big_endian(bytes.drop_last()) * 256 + bytes.last()
    }
}

proof fn lemma_big_endian(v: int)
    ensures
        0 <= v < 0x1_0000 ==> two(v).len() == 2 && big_endian(two(v)) == v,
        0 <= v < 0x1_0000_0000 ==> four(v).len() == 4 && big_endian(four(v)) == v,
        0 <= v < 0x1_0000_0000_0000_0000 ==> eight(v).len() == 8 && big_endian(eight(v)) == v,
{
    if 0 <= v < 0x1_0000 {
        lemma_big_endian_two(v);
    }
    if 0 <= v < 0x1_0000_0000 {
        lemma_big_endian_four(v);
    }
    if 0 <= v < 0x1_0000_0000_0000_0000 {
        let (high, low) = (v / 0x1_0000_0000, v % 0x1_0000_0000);
        lemma_big_endian_four(high);
        lemma_big_endian_four(low);
        lemma_big_endian_behind(four(high), four(low));
        assert(v == high * 0x1_0000_0000 + low);
    }
}

proof fn lemma_big_endian_two(v: int)
    requires
        0 <= v < 0x1_0000,
    ensures
        two(v).len() == 2,
        big_endian(two(v)) == v,
{
    reveal_with_fuel(big_endian, 3);
    let bytes = two(v);
    assert(bytes.drop_last() =~= seq![bytes[0]]);
    assert(bytes.drop_last().drop_last() =~= Seq::<u8>::empty());
}

proof fn lemma_big_endian_four(v: int)
    requires
        0 <= v < 0x1_0000_0000,
    ensures
        four(v).len() == 4,
        big_endian(four(v)) == v,
{
    let (high, low) = (v / 0x1_0000, v % 0x1_0000);
    lemma_big_endian_two(high);
    lemma_big_endian_two(low);
    lemma_big_endian_behind(two(high), two(low));
    assert(v == high * 0x1_0000 + low);
}

/// Numbers one behind the other, for the lengths that occur.
proof fn lemma_big_endian_behind(a: Seq<u8>, b: Seq<u8>)
    ensures
        b.len() == 2 ==> big_endian(a + b) == big_endian(a) * 0x1_0000 + big_endian(b),
        b.len() == 4 ==> big_endian(a + b) == big_endian(a) * 0x1_0000_0000 + big_endian(b),
{
    reveal_with_fuel(big_endian, 5);
    if b.len() == 2 || b.len() == 4 {
        let one = b.drop_last();
        let two = one.drop_last();
        assert((a + b).drop_last() =~= a + one);
        assert((a + one).drop_last() =~= a + two);
        if b.len() == 2 {
            assert(a + two =~= a);
        } else {
            let three = two.drop_last();
            let none = three.drop_last();
            assert((a + two).drop_last() =~= a + three);
            assert((a + three).drop_last() =~= a + none);
            assert(a + none =~= a);
        }
    }
}

/// Every message that has no text has its tag and its fields, in the order in which they are
/// named, each with the most significant byte first, and nothing else.
pub proof fn fields_stand_in_order(a: u64, b: u64, number: u32, byte: u8)
    ensures
        ({
            let p = payload(Content::CaptureBegin { from_bottom: a, source_height: b });
            &&& p.len() == 17
            &&& p[0] == 0x01
            &&& big_endian(p.subrange(1, 9)) == a
            &&& big_endian(p.subrange(9, 17)) == b
        }),
        payload(Content::CaptureEnd) == seq![0x02u8],
        ({
            let p = payload(Content::MouseMotion { dx: a, dy: b });
            &&& p.len() == 17
            &&& p[0] == 0x03
            &&& big_endian(p.subrange(1, 9)) == a
            &&& big_endian(p.subrange(9, 17)) == b
        }),
        ({
            let p = payload(Content::MouseButton { button: number, state: byte });
            &&& p.len() == 6
            &&& p[0] == 0x04
            &&& big_endian(p.subrange(1, 5)) == number
            &&& p[5] == byte
        }),
        ({
            let p = payload(Content::MouseScroll { axis: byte, value: a });
            &&& p.len() == 10
            &&& p[0] == 0x05
            &&& p[1] == byte
            &&& big_endian(p.subrange(2, 10)) == a
        }),
        ({
            let p = payload(Content::KeyPress { code: number });
            p.len() == 5 && p[0] == 0x06 && big_endian(p.subrange(1, 5)) == number
        }),
        ({
            let p = payload(Content::KeyRelease { code: number });
            p.len() == 5 && p[0] == 0x07 && big_endian(p.subrange(1, 5)) == number
        }),
        payload(Content::Heartbeat) == seq![0x08u8],
        payload(Content::HeartbeatAck) == seq![0x09u8],
        ({
            let p = payload(Content::ReturnToSender { from_bottom: a, source_height: b });
            &&& p.len() == 17
            &&& p[0] == 0x0A
            &&& big_endian(p.subrange(1, 9)) == a
            &&& big_endian(p.subrange(9, 17)) == b
        }),
{
    lemma_big_endian(a as int);
    lemma_big_endian(b as int);
    lemma_big_endian(number as int);
    lemma_pair_fields(0x01, a, b);
    lemma_pair_fields(0x03, a, b);
    lemma_pair_fields(0x0A, a, b);
    let button = payload(Content::MouseButton { button: number, state: byte });
    assert(button.subrange(1, 5) =~= four(number as int));
    let scroll = payload(Content::MouseScroll { axis: byte, value: a });
    assert(scroll.subrange(2, 10) =~= eight(a as int));
    let press = payload(Content::KeyPress { code: number });
    assert(press.subrange(1, 5) =~= four(number as int));
    let release = payload(Content::KeyRelease { code: number });
    assert(release.subrange(1, 5) =~= four(number as int));
}

proof fn lemma_pair_fields(tag: u8, a: u64, b: u64)
    ensures
        ({
            let p = seq![tag] + eight(a as int) + eight(b as int);
            &&& p.len() == 17
            &&& p[0] == tag
            &&& p.subrange(1, 9) == eight(a as int)
            &&& p.subrange(9, 17) == eight(b as int)
        }),
{
    let p = seq![tag] + eight(a as int) + eight(b as int);
    assert(p.subrange(1, 9) =~= eight(a as int));
    assert(p.subrange(9, 17) =~= eight(b as int));
}

/// Every message with text has its tag, and each text or image behind its own length, in the
/// order in which they are named.
pub proof fn texts_stand_behind_their_lengths(
    one: Seq<char>,
    other: Seq<char>,
    data: Seq<u8>,
)
    requires
        encode_utf8(one).len() <= 0xFFFF,
        encode_utf8(other).len() <= MAX_FRAME_PAYLOAD,
        data.len() <= MAX_FRAME_PAYLOAD,
    ensures
        ({
            let (n, text) = (encode_utf8(one).len() as int, encode_utf8(one));
            let p = payload(Content::ClipboardData { text: one });
            &&& p.len() == 5 + n
            &&& p[0] == 0x40
            &&& big_endian(p.subrange(1, 5)) == n
            &&& p.skip(5) == text
        }),
        ({
            let (n, name) = (encode_utf8(one).len() as int, encode_utf8(one));
            let p = payload(Content::ClipboardImage { format: one, data });
            &&& p.len() == 7 + n + data.len()
            &&& p[0] == 0x41
            &&& big_endian(p.subrange(1, 3)) == n
            &&& p.subrange(3, 3 + n) == name
            &&& big_endian(p.subrange(3 + n, 7 + n)) == data.len()
            &&& p.skip(7 + n) == data
        }),
        ({
            let (n, html) = (encode_utf8(one).len() as int, encode_utf8(one));
            let (m, plain) = (encode_utf8(other).len() as int, encode_utf8(other));
            let p = payload(Content::ClipboardHtml { html: one, plain: other });
            &&& p.len() == 9 + n + m
            &&& p[0] == 0x42
            &&& big_endian(p.subrange(1, 5)) == n
            &&& p.subrange(5, 5 + n) == html
            &&& big_endian(p.subrange(5 + n, 9 + n)) == m
            &&& p.skip(9 + n) == plain
        }),
{
    let text = encode_utf8(one);
    let more = encode_utf8(other);
    let n = text.len() as int;
    let m = more.len() as int;
    lemma_big_endian(n);
    lemma_big_endian(m);
    lemma_big_endian(data.len() as int);
    let p = payload(Content::ClipboardData { text: one });
    assert(p.subrange(1, 5) =~= four(n));
    assert(p.skip(5) =~= text);
    let p = payload(Content::ClipboardImage { format: one, data });
    assert(p.subrange(1, 3) =~= two(n));
    assert(p.subrange(3, 3 + n) =~= text);
    assert(p.subrange(3 + n, 7 + n) =~= four(data.len() as int));
    assert(p.skip(7 + n) =~= data);
    let p = payload(Content::ClipboardHtml { html: one, plain: other });
    assert(p.subrange(1, 5) =~= four(n));
    assert(p.subrange(5, 5 + n) =~= text);
    assert(p.subrange(5 + n, 9 + n) =~= four(m));
    assert(p.skip(9 + n) =~= more);
}

/// A frame is the length of its payload in four bytes, and the payload. A message can be sent
/// exactly if its payload has 32 MiB at most and the name of its format 65,535 bytes at most;
/// and a frame is refused exactly if it says that it is longer.
pub proof fn frames_tell_their_length(content: Content, stream: Seq<u8>)
    requires
        payload(content).len() < 0x1_0000_0000,
    ensures
        frame(content).len() == 4 + payload(content).len(),
        big_endian(frame(content).take(4)) == payload(content).len(),
        frame(content).skip(4) == payload(content),
        !(content is ClipboardImage) ==> (fits(content) <==> payload(content).len() <= 33_554_432),
        content matches Content::ClipboardImage { format, .. } ==> (fits(content) <==> payload(
            content,
        ).len() <= 33_554_432 && encode_utf8(format).len() <= 65_535),
        start(stream) is TooLong <==> stream.len() >= 4 && big_endian(stream.take(4)) > 33_554_432,
        start(stream) is Frame <==> stream.len() >= 4 && big_endian(stream.take(4)) <= 33_554_432
            && stream.len() >= 4 + big_endian(stream.take(4)),
        start(stream) matches Start::Frame { payload: p, rest } ==> stream == stream.take(4) + p
            + rest && p.len() == big_endian(stream.take(4)),
{
    let n = payload(content).len() as int;
    lemma_big_endian(n);
    assert(frame(content).take(4) =~= four(n));
    assert(frame(content).skip(4) =~= payload(content));
    if stream.len() >= 4 {
        lemma_four(0, stream.take(4));
        lemma_big_endian(of_four(stream.take(4)));
    }
    if let Start::Frame { payload: p, rest } = start(stream) {
        assert(stream =~= stream.take(4) + p + rest);
    }
}

} // verus!
