//! The viewer-facing responder. A request is text of exactly three lines: a
//! request line, a `CSeq:` header and a `User-Agent:` header. `OPTIONS` is
//! the one method that is answered.

use vstd::prelude::*;
use vstd::string::StringSliceAdditionalSpecFns;
use crate::text::{chars_of, split_fields, split_parts, trimmed_each, trimmed_non_empty};
use crate::text::{fields, non_empty, parts, texts, trim, trim_each, Separator};
use crate::text::{lemma_non_empty_holds_none_empty, lemma_trimmed_text_has_a_word};
use crate::wire::push_all;

verus! {

/// How many lines a request has.
pub const REQUEST_LINES: usize = 3;

/// A request that is not answered.
#[derive(Clone, Copy, Debug, PartialEq, Eq, Structural)]
pub enum ProtocolMismatch {
    /// The request does not have three lines; it has this many.
    LineCount { found: usize },
    /// The request has three lines and its method is not `OPTIONS`.
    UnexpectedMethod,
}

/// A request, cut into its pieces.
#[derive(Debug)]
pub struct RtspRequest {
    /// The words of the request line: method, URI, version.
    pub request_line: Vec<Vec<char>>,
    /// The second line cut at its colons, each part trimmed: the header's
    /// name, then its value.
    pub cseq: Vec<Vec<char>>,
    /// The third line, cut the same way.
    pub user_agent: Vec<Vec<char>>,
}

/// A request as plain values.
pub struct RequestView {
    pub request_line: Seq<Seq<char>>,
    pub cseq: Seq<Seq<char>>,
    pub user_agent: Seq<Seq<char>>,
}

impl View for RtspRequest {
    type V = RequestView;

    open spec fn view(&self) -> RequestView {
        RequestView {
            request_line: texts(self.request_line@),
            cseq: texts(self.cseq@),
            user_agent: texts(self.user_agent@),
        }
    }
}

/// The lines of a request: what stands between its line breaks, each line
/// trimmed, and of those the ones that are not empty. A line of nothing but
/// white space is no line.
pub open spec fn lines_of(text: Seq<char>) -> Seq<Seq<char>> {
    non_empty(trim_each(fields(text, Separator::LineBreak)))
}

/// What parsing gives: the pieces of a request of three lines, and the line
/// count of any other.
pub open spec fn parsed(text: Seq<char>) -> Result<RequestView, ProtocolMismatch> {
    let lines = lines_of(text);
    if lines.len() != REQUEST_LINES {
        Err(ProtocolMismatch::LineCount { found: lines.len() as usize })
    } else {
        Ok(
            RequestView {
                request_line: fields(lines[0], Separator::Whitespace),
                cseq: trim_each(parts(lines[1], Separator::Colon)),
                user_agent: trim_each(parts(lines[2], Separator::Colon)),
            },
        )
    }
}

/// The method that is answered.
pub open spec fn options_method() -> Seq<char> {
    "OPTIONS"@
}

/// True when the first word of the request line is `OPTIONS`.
pub open spec fn asks_options(request: RequestView) -> bool {
    request.request_line.len() > 0 && request.request_line[0] == options_method()
}

/// A number in decimal, as ASCII digits, without leading zeros.
pub open spec fn decimal(n: nat) -> Seq<u8>
    decreases n,
{
    if n < 10 {
        seq![(0x30 + n) as u8]
    } else {
        decimal(n / 10).push((0x30 + n % 10) as u8)
    }
}

/// A status line: the protocol version, the code in decimal, the reason, and
/// a line end.
pub open spec fn status_line(code: u16, reason: Seq<u8>) -> Seq<u8> {
    "RTSP/1.0 ".spec_bytes() + decimal(code as nat) + " ".spec_bytes() + reason
        + "\r\n".spec_bytes()
}

/// The answer to `OPTIONS`: the status line `200 OK`, a `CSeq` header, the
/// methods on offer, and an empty line.
pub open spec fn options_response() -> Seq<u8> {
    status_line(200, "OK".spec_bytes()) + "CSeq: 2\r\n".spec_bytes()
        + "Public: DESCRIBE, SETUP, PLAY, PAUSE, RECORD\r\n".spec_bytes() + "\r\n".spec_bytes()
}

/// The answer that a parsed request gets.
pub open spec fn answer(request: RequestView) -> Result<Seq<u8>, ProtocolMismatch> {
    if asks_options(request) {
        Ok(options_response())
    } else {
        Err(ProtocolMismatch::UnexpectedMethod)
    }
}

/// The answer that request text gets.
pub open spec fn response_to(text: Seq<char>) -> Result<Seq<u8>, ProtocolMismatch> {
    match parsed(text) {
        Ok(request) => answer(request),
        Err(e) => Err(e),
    }
}

/// A request is answered exactly when it has three lines and the first word
/// of the first is `OPTIONS`, and the answer is always the same. A request of
/// another shape is told its line count; one with another method, or none,
/// is told so.
pub proof fn lemma_only_options_is_answered(text: Seq<char>)
    ensures
        response_to(text) is Ok <==> {
            &&& lines_of(text).len() == REQUEST_LINES
            &&& fields(lines_of(text)[0], Separator::Whitespace).len() > 0
            &&& fields(lines_of(text)[0], Separator::Whitespace)[0] == options_method()
        },
        response_to(text) matches Ok(bytes) ==> bytes == options_response(),
        lines_of(text).len() != REQUEST_LINES <==> response_to(text) == Err::<
            Seq<u8>,
            ProtocolMismatch,
        >(ProtocolMismatch::LineCount { found: lines_of(text).len() as usize }),
{
}

/// No line of a request is empty, none opens or closes with white space,
/// and so a request of three lines always has a method: the request line
/// holds at least one word.
pub proof fn lemma_request_has_a_method(text: Seq<char>)
    ensures
        forall|i: int| 0 <= i < lines_of(text).len() ==> (#[trigger] lines_of(text)[i]).len() > 0,
        parsed(text) matches Ok(request) ==> request.request_line.len() >= 1,
{
    let raw = trim_each(fields(text, Separator::LineBreak));
    lemma_non_empty_holds_none_empty(raw);
    if lines_of(text).len() == REQUEST_LINES {
        let first = lines_of(text)[0];
        let keep = |piece: Seq<char>| piece.len() > 0;
        assert(raw.filter(keep).contains(first));
        raw.lemma_filter_contains_rev(keep, first);
        let j = choose|j: int| 0 <= j < raw.len() && raw[j] == first;
        assert(first == trim(fields(text, Separator::LineBreak)[j]));
        lemma_trimmed_text_has_a_word(fields(text, Separator::LineBreak)[j]);
    }
}

/// The answer to `OPTIONS` is one fixed text: the status line `200 OK`, the
/// header `CSeq: 2`, the methods on offer, and an empty line.
pub proof fn lemma_options_response_text()
    ensures
        options_response()
            == "RTSP/1.0 200 OK\r\nCSeq: 2\r\nPublic: DESCRIBE, SETUP, PLAY, PAUSE, RECORD\r\n\r\n".spec_bytes(),
        options_response().len() == 74,
{
    reveal_with_fuel(decimal, 4);
    reveal_strlit("RTSP/1.0 ");
    reveal_strlit("OK");
    reveal_strlit(" ");
    reveal_strlit("\r\n");
    reveal_strlit("CSeq: 2\r\n");
    reveal_strlit("Public: DESCRIBE, SETUP, PLAY, PAUSE, RECORD\r\n");
    reveal_strlit(
        "RTSP/1.0 200 OK\r\nCSeq: 2\r\nPublic: DESCRIBE, SETUP, PLAY, PAUSE, RECORD\r\n\r\n",
    );
    vstd::string::is_ascii_spec_bytes("RTSP/1.0 ");
    vstd::string::is_ascii_spec_bytes("OK");
    vstd::string::is_ascii_spec_bytes(" ");
    vstd::string::is_ascii_spec_bytes("\r\n");
    vstd::string::is_ascii_spec_bytes("CSeq: 2\r\n");
    vstd::string::is_ascii_spec_bytes("Public: DESCRIBE, SETUP, PLAY, PAUSE, RECORD\r\n");
    vstd::string::is_ascii_spec_bytes(
        "RTSP/1.0 200 OK\r\nCSeq: 2\r\nPublic: DESCRIBE, SETUP, PLAY, PAUSE, RECORD\r\n\r\n",
    );
    assert(decimal(200) =~= seq![0x32u8, 0x30u8, 0x30u8]);
    assert(options_response()
        =~= "RTSP/1.0 200 OK\r\nCSeq: 2\r\nPublic: DESCRIBE, SETUP, PLAY, PAUSE, RECORD\r\n\r\n".spec_bytes());
}

/// A status line is never empty: the code takes one to five digits, none of
/// them a leading zero unless the code is 0.
pub proof fn lemma_decimal_digits(n: nat)
    ensures
        decimal(n).len() >= 1,
        forall|i: int| 0 <= i < decimal(n).len() ==> 0x30 <= #[trigger] decimal(n)[i] <= 0x39,
        n > 0 ==> decimal(n)[0] != 0x30,
        n < 10 ==> decimal(n).len() == 1,
    decreases n,
{
    if n >= 10 {
        lemma_decimal_digits(n / 10);
        let front = decimal(n / 10);
        assert forall|i: int| 0 <= i < decimal(n).len() implies 0x30 <= #[trigger] decimal(n)[i]
            <= 0x39 by {
            if i < front.len() {
                assert(decimal(n)[i] == front[i]);
            }
        }
        assert(decimal(n)[0] == front[0]);
    }
}

fn push_decimal(out: &mut Vec<u8>, n: u16)
    ensures
        final(out)@ == old(out)@ + decimal(n as nat),
    decreases n,
{
    if n >= 10 {
        push_decimal(out, n / 10);
    }
    out.push(0x30 + (n % 10) as u8);
    assert(out@ =~= old(out)@ + decimal(n as nat));
}

/// Builds a status line, for this method and any other.
pub fn get_rtsp_status(code: u16, status_msg: &str) -> (line: Vec<u8>)
    ensures
        line@ == status_line(code, status_msg.spec_bytes()),
{
    let mut line: Vec<u8> = Vec::new();
    push_all(&mut line, "RTSP/1.0 ".as_bytes());
    push_decimal(&mut line, code);
    push_all(&mut line, " ".as_bytes());
    push_all(&mut line, status_msg.as_bytes());
    push_all(&mut line, "\r\n".as_bytes());
    assert(line@ =~= status_line(code, status_msg.spec_bytes()));
    line
}

/// Builds the answer to `OPTIONS`.
pub fn options_reply() -> (reply: Vec<u8>)
    ensures
        reply@ == options_response(),
{
    let mut reply = get_rtsp_status(200, "OK");
    push_all(&mut reply, "CSeq: 2\r\n".as_bytes());
    push_all(&mut reply, "Public: DESCRIBE, SETUP, PLAY, PAUSE, RECORD\r\n".as_bytes());
    push_all(&mut reply, "\r\n".as_bytes());
    reply
}

/// Cuts request text into its lines.
pub fn request_lines(text: &str) -> (lines: Vec<Vec<char>>)
    ensures
        texts(lines@) == lines_of(text@),
{
    let chars = chars_of(text);
    let raw = split_fields(chars.as_slice(), Separator::LineBreak);
    trimmed_non_empty(&raw)
}

/// True when `word` is `OPTIONS`.
fn is_options(word: &[char]) -> (r: bool)
    ensures
        r == (word@ == options_method()),
{
    proof {
        reveal_strlit("OPTIONS");
    }
    let method: [char; 7] = ['O', 'P', 'T', 'I', 'O', 'N', 'S'];
    assert(method@ =~= options_method());
    if word.len() != 7 {
        return false;
    }
    let mut i: usize = 0;
    while i < 7
        invariant
            i <= 7,
            word@.len() == 7,
            method@ == options_method(),
            forall|k: int| 0 <= k < i ==> word@[k] == method@[k],
        decreases 7 - i,
    {
        if word[i] != method[i] {
            return false;
        }
        i = i + 1;
    }
    assert(word@ =~= options_method());
    true
}

/// Parses request text. Only the number of lines is judged here.
pub fn parse_request(text: &str) -> (r: Result<RtspRequest, ProtocolMismatch>)
    ensures
        match r {
            Ok(request) => parsed(text@) == Ok::<RequestView, ProtocolMismatch>(request@),
            Err(e) => parsed(text@) == Err::<RequestView, ProtocolMismatch>(e),
        },
{
    let lines = request_lines(text);
    if lines.len() != REQUEST_LINES {
        return Err(ProtocolMismatch::LineCount { found: lines.len() });
    }
    let request_line = split_fields(lines[0].as_slice(), Separator::Whitespace);
    let cseq_parts = split_parts(lines[1].as_slice(), Separator::Colon);
    let cseq = trimmed_each(&cseq_parts);
    let user_agent_parts = split_parts(lines[2].as_slice(), Separator::Colon);
    let user_agent = trimmed_each(&user_agent_parts);
    proof {
        let l = lines_of(text@);
        assert(l[0] == lines@[0]@);
        assert(l[1] == lines@[1]@);
        assert(l[2] == lines@[2]@);
    }
    Ok(RtspRequest { request_line, cseq, user_agent })
}

impl RtspRequest {
    /// The answer to this request.
    pub fn respond(&self) -> (r: Result<Vec<u8>, ProtocolMismatch>)
        ensures
            match r {
                Ok(bytes) => answer(self@) == Ok::<Seq<u8>, ProtocolMismatch>(bytes@),
                Err(e) => answer(self@) == Err::<Seq<u8>, ProtocolMismatch>(e),
            },
    {
        if self.request_line.len() > 0 && is_options(self.request_line[0].as_slice()) {
            Ok(options_reply())
        } else {
            Err(ProtocolMismatch::UnexpectedMethod)
        }
    }
}

/// Answers request text: the bytes to send back, or why nothing is owed.
pub fn respond(text: &str) -> (r: Result<Vec<u8>, ProtocolMismatch>)
    ensures
        match r {
            Ok(bytes) => response_to(text@) == Ok::<Seq<u8>, ProtocolMismatch>(bytes@),
            Err(e) => response_to(text@) == Err::<Seq<u8>, ProtocolMismatch>(e),
        },
{
    match parse_request(text) {
        Ok(request) => request.respond(),
        Err(e) => Err(e),
    }
}

} // verus!
