//! The eight-byte header that opens every control-channel message, and its
//! decoder. The decoder cuts the bytes into fields and interprets nothing:
//! the fields are byte pairs, kept as they came, for comparison with known
//! constants.

use vstd::prelude::*;
use vstd::string::StringExecFns;
use crate::frames::HEADER_LEN;

verus! {

/// A decoded control header, with whatever followed it in the buffer.
#[derive(Debug)]
pub struct PHeader {
    /// The two magic bytes; 0xAB 0xCD in every message of the protocol.
    pub magic: (u8, u8),
    /// The length field, as found.
    pub len: (u8, u8),
    /// Two bytes that carry nothing.
    pub reserved: (u8, u8),
    /// The message type: login, heartbeat, accept, stream start.
    pub msg: (u8, u8),
    /// What followed the header; present exactly when something did.
    pub other: Option<Vec<u8>>,
}

/// A header as plain values.
pub struct HeaderView {
    pub magic: (u8, u8),
    pub len: (u8, u8),
    pub reserved: (u8, u8),
    pub msg: (u8, u8),
    pub other: Option<Seq<u8>>,
}

impl View for PHeader {
    type V = HeaderView;

    open spec fn view(&self) -> HeaderView {
        HeaderView {
            magic: self.magic,
            len: self.len,
            reserved: self.reserved,
            msg: self.msg,
            other: match self.other {
                Some(bytes) => Some(bytes@),
                None => None,
            },
        }
    }
}

/// A buffer too short to hold a header.
#[derive(Clone, Copy, Debug, PartialEq, Eq, Structural)]
pub struct DecodeError {
    /// How many bytes the buffer held.
    pub actual: usize,
    /// How many a header takes.
    pub expected: usize,
}

/// What decoding gives. A buffer of fewer than eight bytes holds no header.
/// Of any other, the first eight bytes are the four fields, two bytes each,
/// and the rest, if there is any, is the extension.
pub open spec fn parse_header(input: Seq<u8>) -> Result<HeaderView, DecodeError> {
    if input.len() < HEADER_LEN {
        Err(DecodeError { actual: input.len() as usize, expected: HEADER_LEN })
    } else {
        Ok(
            HeaderView {
                magic: (input[0], input[1]),
                len: (input[2], input[3]),
                reserved: (input[4], input[5]),
                msg: (input[6], input[7]),
                other: if input.len() > HEADER_LEN {
                    Some(input.skip(HEADER_LEN as int))
                } else {
                    None
                },
            },
        )
    }
}

/// The bytes that a header was cut from: the four fields in order, then the
/// extension.
pub open spec fn header_bytes(h: HeaderView) -> Seq<u8> {
    seq![h.magic.0, h.magic.1, h.len.0, h.len.1, h.reserved.0, h.reserved.1, h.msg.0, h.msg.1]
        + match h.other {
        Some(bytes) => bytes,
        None => Seq::empty(),
    }
}

/// Decoding fails on exactly the buffers of fewer than eight bytes, and then
/// tells both lengths. Where it succeeds, the extension is present exactly
/// when the buffer is longer than eight bytes, and is never empty.
pub proof fn lemma_decode_by_length(input: Seq<u8>)
    ensures
        parse_header(input) is Err <==> input.len() < HEADER_LEN,
        parse_header(input) matches Err(e) ==> e.actual == input.len() as usize && e.expected
            == HEADER_LEN,
        parse_header(input) matches Ok(h) ==> (h.other is Some <==> input.len() > HEADER_LEN),
        parse_header(input) matches Ok(h) ==> (h.other matches Some(bytes) ==> bytes.len()
            == input.len() - HEADER_LEN),
{
}

/// Decoding loses nothing: the fields and the extension of a decoded header,
/// put back in order, are the buffer.
pub proof fn lemma_decode_keeps_every_byte(input: Seq<u8>)
    requires
        input.len() >= HEADER_LEN,
    ensures
        parse_header(input) matches Ok(h) && header_bytes(h) == input,
{
    let h = parse_header(input)->Ok_0;
    assert(header_bytes(h) =~= input);
}

/// Decodes the header at the front of `input`.
pub fn bytes_to_header(input: &[u8]) -> (r: Result<PHeader, DecodeError>)
    ensures
        r is Err <==> input@.len() < HEADER_LEN,
        r matches Ok(h) ==> (h.other is Some <==> input@.len() > HEADER_LEN),
        match r {
            Ok(h) => parse_header(input@) == Ok::<HeaderView, DecodeError>(h@),
            Err(e) => parse_header(input@) == Err::<HeaderView, DecodeError>(e),
        },
{
    if input.len() < HEADER_LEN {
        return Err(DecodeError { actual: input.len(), expected: HEADER_LEN });
    }
    let other = if input.len() > HEADER_LEN {
        let rest = vstd::slice::slice_subrange(input, HEADER_LEN, input.len());
        assert(rest@ =~= input@.skip(HEADER_LEN as int));
        Some(vstd::slice::slice_to_vec(rest))
    } else {
        None
    };
    Ok(
        PHeader {
            magic: (input[0], input[1]),
            len: (input[2], input[3]),
            reserved: (input[4], input[5]),
            msg: (input[6], input[7]),
            other,
        },
    )
}

/// The upper-case hexadecimal digit for a value below 16.
pub open spec fn hex_digit(d: u8) -> char
    recommends
        d < 16,
{
    if d < 10 {
        (0x30 + d) as char
    } else {
        (0x41 + d - 10) as char
    }
}

/// A byte in upper-case hexadecimal, without a leading zero.
pub open spec fn hex_text(b: u8) -> Seq<char> {
    if b < 16 {
        seq![hex_digit(b)]
    } else {
        seq![hex_digit(b / 16), hex_digit(b % 16)]
    }
}

/// A byte pair as it is shown: both bytes in hexadecimal, in round brackets.
pub open spec fn pair_text(p: (u8, u8)) -> Seq<char> {
    "("@ + hex_text(p.0) + ", "@ + hex_text(p.1) + ")"@
}

/// `true` or `false`.
pub open spec fn bool_text(b: bool) -> Seq<char> {
    if b {
        "true"@
    } else {
        "false"@
    }
}

/// The one-line description of a header: its magic, length and message type
/// in hexadecimal, and whether an extension followed.
pub open spec fn header_text(h: HeaderView) -> Seq<char> {
    "<PHeader MAGIC="@ + pair_text(h.magic) + " LEN="@ + pair_text(h.len) + " MSG="@ + pair_text(
        h.msg,
    ) + " HAS_EXT=("@ + bool_text(h.other is Some) + ")>"@
}

fn hex_digit_str(d: u8) -> (s: &'static str)
    requires
        d < 16,
    ensures
        s@ == seq![hex_digit(d)],
{
    proof {
        reveal_strlit("0");
        reveal_strlit("1");
        reveal_strlit("2");
        reveal_strlit("3");
        reveal_strlit("4");
        reveal_strlit("5");
        reveal_strlit("6");
        reveal_strlit("7");
        reveal_strlit("8");
        reveal_strlit("9");
        reveal_strlit("A");
        reveal_strlit("B");
        reveal_strlit("C");
        reveal_strlit("D");
        reveal_strlit("E");
        reveal_strlit("F");
    }
    let s = match d {
        0 => "0",
        1 => "1",
        2 => "2",
        3 => "3",
        4 => "4",
        5 => "5",
        6 => "6",
        7 => "7",
        8 => "8",
        9 => "9",
        10 => "A",
        11 => "B",
        12 => "C",
        13 => "D",
        14 => "E",
        _ => "F",
    };
    assert(s@ =~= seq![hex_digit(d)]);
    s
}

fn append_hex(out: &mut String, b: u8)
    ensures
        final(out)@ == old(out)@ + hex_text(b),
{
    if b >= 16 {
        out.append(hex_digit_str(b / 16));
    }
    out.append(hex_digit_str(b % 16));
    assert(out@ =~= old(out)@ + hex_text(b));
}

fn append_pair(out: &mut String, p: (u8, u8))
    ensures
        final(out)@ == old(out)@ + pair_text(p),
{
    out.append("(");
    append_hex(out, p.0);
    out.append(", ");
    append_hex(out, p.1);
    out.append(")");
    assert(out@ =~= old(out)@ + pair_text(p));
}

impl PHeader {
    /// Describes the header in one line, for logs.
    pub fn string(&self) -> (text: String)
        ensures
            text@ == header_text(self@),
    {
        let mut text = String::new();
        text.append("<PHeader MAGIC=");
        append_pair(&mut text, self.magic);
        text.append(" LEN=");
        append_pair(&mut text, self.len);
        text.append(" MSG=");
        append_pair(&mut text, self.msg);
        text.append(" HAS_EXT=(");
        if self.other.is_some() {
            text.append("true");
        } else {
            text.append("false");
        }
        text.append(")>");
        assert(text@ =~= header_text(self@));
        text
    }
}

} // verus!
