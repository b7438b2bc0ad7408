//! Wire format of the MediaTek based HyperSpeed headsets
//! (BlackShark V2 HyperSpeed dongle 1532:0565, wired 1532:056E).
//!
//! Every exchange is a 64 byte HID report with report ID 0x02 on the vendor
//! collection (usage page 0xFF14). Offsets below are into the full report
//! as seen by hidraw, i.e. including the report ID at index 0:
//!
//! ```text
//! [0]      0x02        report ID
//! [1]      mark        0x00 in requests, 0x02 in replies
//! [2]      0x60 | seq  client mask + 5 bit rolling sequence number
//! [3..6]   0x00        reserved
//! [6]      len         4 + number of parameter bytes
//! [7]      0x00        reserved
//! [8]      dir         0x00 = host -> device
//! [9]      domain      0x80 = relay to the headset over 2.4 GHz, 0x00 = local (dongle / wired headset)
//! [10]     cmd         register; SET = GET | 0x80
//! [11]     status      0x00 in requests
//! [12]     count       number of parameter bytes
//! [13..]   params
//! [62]     checksum    XOR of bytes [0..62] (requests include the report ID)
//! [63]     0x00
//! ```
//!
//! Protocol knowledge from the MIT licensed reverse engineering work at
//! <https://github.com/justik13/razer-blackshark-v2-hyperspeed-webhid>.

use crate::eq::{bands_from, bands_from_at, bands_from_is, clamp_gain, clamped_gain, Bands, BAND_COUNT, FLAT};
use crate::text::{
    dec, dec2, decimal, decimal2, push_upper_hex2, trim, trimmed, upper_hex2,
};
use crate::views::{ok_view, some_view};
use vstd::prelude::*;
use vstd::string::*;

pub mod reg;

verus! {

pub const REPORT_ID: u8 = 0x02;

pub const REPORT_LEN: usize = 64;

pub const MAX_PARAMS: usize = 48;

pub const SEQ_CLIENT_MASK: u8 = 0x60;

pub const SEQ_MASK: u8 = 0x1F;

pub const DOMAIN_HEADSET_RF: u8 = 0x80;

pub const DOMAIN_LOCAL: u8 = 0x00;

pub const OFF_MARK: usize = 1;

pub const OFF_SEQ: usize = 2;

pub const OFF_LEN: usize = 6;

pub const OFF_DIR: usize = 8;

pub const OFF_DOMAIN: usize = 9;

pub const OFF_CMD: usize = 10;

pub const OFF_STATUS: usize = 11;

pub const OFF_COUNT: usize = 12;

pub const OFF_PARAMS: usize = 13;

pub const OFF_CHECKSUM: usize = 62;

/// Byte `OFF_MARK` of requests.
pub const MARK_REQUEST: u8 = 0x00;

/// Byte `OFF_MARK` of replies.
pub const MARK_REPLY: u8 = 0x02;

/// Direction byte of replies.
pub const DIR_REPLY: u8 = 0x80;

/// Sidetone level range accepted by the headset DSP.
pub const SIDETONE_MAX: u8 = 15;

/// Offset the DSP subtracts from written EQ gains (`stored = wire - 5`).
pub const EQ_WIRE_OFFSET: i8 = 5;

#[derive(Debug, Clone, PartialEq, Eq)]
pub struct Request {
    pub seq: u8,
    pub domain: u8,
    pub cmd: u8,
    pub params: Vec<u8>,
}

#[verifier::ext_equal]
pub struct RequestView {
    pub seq: u8,
    pub domain: u8,
    pub cmd: u8,
    pub params: Seq<u8>,
}

impl View for Request {
    type V = RequestView;

    open spec fn view(&self) -> RequestView {
        RequestView { seq: self.seq, domain: self.domain, cmd: self.cmd, params: self.params@ }
    }
}

#[derive(Debug, Clone, PartialEq, Eq)]
pub struct Response {
    pub seq: u8,
    pub dir: u8,
    pub domain: u8,
    pub cmd: u8,
    pub status: u8,
    pub payload: Vec<u8>,
}

#[verifier::ext_equal]
pub struct ResponseView {
    pub seq: u8,
    pub dir: u8,
    pub domain: u8,
    pub cmd: u8,
    pub status: u8,
    pub payload: Seq<u8>,
}

impl View for Response {
    type V = ResponseView;

    open spec fn view(&self) -> ResponseView {
        ResponseView {
            seq: self.seq,
            dir: self.dir,
            domain: self.domain,
            cmd: self.cmd,
            status: self.status,
            payload: self.payload@,
        }
    }
}

impl ResponseView {
    /// Does this frame answer a request with this sequence byte and command?
    /// Of the sequence byte only the rolling number counts.
    pub open spec fn answers(self, seq: u8, cmd: u8) -> bool {
        self.cmd == cmd && self.seq % 32 == seq % 32
    }
}

impl Response {
    /// Does this frame answer a request with this sequence byte and command?
    pub fn answers(&self, seq: u8, cmd: u8) -> (r: bool)
        ensures
            r == self@.answers(seq, cmd),
    {
        let own: u8 = self.seq;
        assert(own & 0x1F == own % 32) by (bit_vector);
        assert(seq & 0x1F == seq % 32) by (bit_vector);
        self.cmd == cmd && (self.seq & SEQ_MASK) == (seq & SEQ_MASK)
    }
}

#[derive(Debug, Clone, Copy, PartialEq, Eq, Structural)]
pub enum DecodeError {
    /// Not a report 0x02 frame (e.g. media keys on report 0x0C).
    OtherReport(u8),
    TooShort(usize),
    Checksum { expected: u8, found: u8 },
    BadCount(usize),
}

impl DecodeError {
    pub open spec fn text(self) -> Seq<char> {
        match self {
            DecodeError::OtherReport(id) => "report 0x"@ + upper_hex2(id) + " is not a control frame"@,
            DecodeError::TooShort(n) => "frame too short ("@ + dec(n as nat) + " bytes)"@,
            DecodeError::Checksum { expected, found } => "checksum mismatch (expected 0x"@ + upper_hex2(
                expected,
            ) + ", found 0x"@ + upper_hex2(found) + ")"@,
            DecodeError::BadCount(n) => "invalid parameter count "@ + dec(n as nat),
        }
    }

    /// The error in words.
    pub fn message(&self) -> (r: String)
        ensures
            r@ == self.text(),
    {
        match self {
            DecodeError::OtherReport(id) => {
                let mut out = "report 0x".to_owned();
                push_upper_hex2(&mut out, *id);
                out.append(" is not a control frame");
                out
            },
            DecodeError::TooShort(n) => {
                let mut out = "frame too short (".to_owned();
                out.append(decimal(*n as u64).as_str());
                out.append(" bytes)");
                out
            },
            DecodeError::Checksum { expected, found } => {
                let mut out = "checksum mismatch (expected 0x".to_owned();
                push_upper_hex2(&mut out, *expected);
                out.append(", found 0x");
                push_upper_hex2(&mut out, *found);
                out.append(")");
                out
            },
            DecodeError::BadCount(n) => {
                let mut out = "invalid parameter count ".to_owned();
                out.append(decimal(*n as u64).as_str());
                out
            },
        }
    }
}

/// XOR of all `bytes`.
pub open spec fn xor_of(bytes: Seq<u8>) -> u8
    decreases bytes.len(),
{
    if bytes.len() == 0 {
        0
    } else {
        xor_of(bytes.drop_last()) ^ bytes.last()
    }
}

/// XOR of the first `len` bytes.
fn xor(bytes: &[u8], len: usize) -> (r: u8)
    requires
        len <= bytes@.len(),
    ensures
        r == xor_of(bytes@.take(len as int)),
{
    let mut acc: u8 = 0;
    let mut i: usize = 0;
    while i < len
        invariant
            i <= len <= bytes@.len(),
            acc == xor_of(bytes@.take(i as int)),
        decreases len - i,
    {
        assert(bytes@.take(i + 1).drop_last() =~= bytes@.take(i as int));
        assert(bytes@.take(i + 1).last() == bytes@[i as int]);
        acc = acc ^ bytes[i];
        i += 1;
    }
    acc
}

proof fn xor_associates(a: u8, b: u8, c: u8)
    ensures
        (a ^ b) ^ c == a ^ (b ^ c),
        a ^ b == b ^ a,
        a ^ 0 == a,
        a ^ a == 0,
        (a ^ b == c) == (a == c ^ b),
{
    assert((a ^ b) ^ c == a ^ (b ^ c)) by (bit_vector);
    assert(a ^ b == b ^ a) by (bit_vector);
    assert(a ^ 0 == a) by (bit_vector);
    assert(a ^ a == 0) by (bit_vector);
    assert((a ^ b == c) == (a == c ^ b)) by (bit_vector);
}

proof fn xor_from_the_front(s: Seq<u8>)
    requires
        s.len() > 0,
    ensures
        xor_of(s) == s[0] ^ xor_of(s.skip(1)),
    decreases s.len(),
{
    if s.len() == 1 {
        assert(s.drop_last() =~= seq![]);
        assert(s.skip(1) =~= seq![]);
        xor_associates(s[0], 0, 0);
    } else {
        let inner = s.drop_last();
        xor_from_the_front(inner);
        assert(s.skip(1).drop_last() =~= inner.skip(1));
        xor_associates(s[0], xor_of(inner.skip(1)), s.last());
    }
}

/// The XOR changes by exactly the bits in which a byte changes.
proof fn xor_after_update(s: Seq<u8>, i: int, v: u8)
    requires
        0 <= i < s.len(),
    ensures
        xor_of(s.update(i, v)) == xor_of(s) ^ (s[i] ^ v),
    decreases s.len(),
{
    let t = s.update(i, v);
    let (a, b, c) = (xor_of(s.drop_last()), s.last(), v);
    if i == s.len() - 1 {
        assert(t.drop_last() =~= s.drop_last());
        assert(a ^ c == (a ^ b) ^ (b ^ c)) by (bit_vector);
    } else {
        assert(t.drop_last() =~= s.drop_last().update(i, v));
        xor_after_update(s.drop_last(), i, v);
        let d = s[i];
        assert((a ^ (d ^ c)) ^ b == (a ^ b) ^ (d ^ c)) by (bit_vector);
    }
}

/// The sequence byte for a rolling counter: client mask and five bits.
pub open spec fn sequence_of(counter: u8) -> u8 {
    (0x60 + counter % 32) as u8
}

pub fn sequence_byte(counter: u8) -> (r: u8)
    ensures
        r == sequence_of(counter),
{
    assert(0x60u8 | (counter & 0x1F) == 0x60 + counter % 32) by (bit_vector);
    SEQ_CLIENT_MASK | (counter & SEQ_MASK)
}

/// The fields of a frame.
#[verifier::ext_equal]
pub struct FrameView {
    pub seq: u8,
    pub dir: u8,
    pub domain: u8,
    pub cmd: u8,
    pub status: u8,
    pub params: Seq<u8>,
}

/// A frame's 64 bytes with the checksum byte still zero. `mark` tells requests
/// from replies.
pub open spec fn frame_body(mark: u8, f: FrameView) -> Seq<u8> {
    Seq::new(
        REPORT_LEN as nat,
        |i: int|
            if i == 0 {
                REPORT_ID
            } else if i == OFF_MARK {
                mark
            } else if i == OFF_SEQ {
                f.seq
            } else if i == OFF_LEN {
                (4 + f.params.len()) as u8
            } else if i == OFF_DIR {
                f.dir
            } else if i == OFF_DOMAIN {
                f.domain
            } else if i == OFF_CMD {
                f.cmd
            } else if i == OFF_STATUS {
                f.status
            } else if i == OFF_COUNT {
                f.params.len() as u8
            } else if OFF_PARAMS <= i < OFF_PARAMS + f.params.len() {
                f.params[i - OFF_PARAMS]
            } else {
                0
            },
    )
}

/// A host -> device frame: the checksum covers the report ID.
pub open spec fn request_frame(q: RequestView) -> Seq<u8> {
    let body = frame_body(
        MARK_REQUEST,
        FrameView { seq: q.seq, dir: 0, domain: q.domain, cmd: q.cmd, status: 0, params: q.params },
    );
    body.update(OFF_CHECKSUM as int, xor_of(body.take(OFF_CHECKSUM as int)))
}

/// At most the first [`MAX_PARAMS`] bytes.
pub open spec fn capped(payload: Seq<u8>) -> Seq<u8> {
    if payload.len() > MAX_PARAMS {
        payload.take(MAX_PARAMS as int)
    } else {
        payload
    }
}

/// A device -> host frame: the checksum leaves the report ID out.
pub open spec fn response_frame(seq: u8, domain: u8, cmd: u8, status: u8, payload: Seq<u8>) -> Seq<u8> {
    let body = frame_body(
        MARK_REPLY,
        FrameView { seq, dir: DIR_REPLY, domain, cmd, status, params: capped(payload) },
    );
    body.update(OFF_CHECKSUM as int, xor_of(body.subrange(1, OFF_CHECKSUM as int)))
}

/// What [`encode_request`] says of `n` parameter bytes when they are too many.
pub open spec fn too_many_params(n: nat) -> Seq<char> {
    "too many parameters ("@ + dec(n) + " > 48)"@
}

fn fill_body(mark: u8, seq: u8, dir: u8, domain: u8, cmd: u8, status: u8, params: &[u8]) -> (buf:
    [u8; REPORT_LEN])
    requires
        params@.len() <= MAX_PARAMS,
    ensures
        buf@ == frame_body(mark, FrameView { seq, dir, domain, cmd, status, params: params@ }),
{
    let ghost f = FrameView { seq, dir, domain, cmd, status, params: params@ };
    let mut buf: [u8; 64] = [0; 64];
    let mut i: usize = 0;
    while i < REPORT_LEN
        invariant
            i <= REPORT_LEN,
            params@.len() <= MAX_PARAMS,
            f == (FrameView { seq, dir, domain, cmd, status, params: params@ }),
            forall|j: int| 0 <= j < i ==> #[trigger] buf@[j] == frame_body(mark, f)[j],
        decreases REPORT_LEN - i,
    {
        buf[i] = if i == 0 {
            REPORT_ID
        } else if i == OFF_MARK {
            mark
        } else if i == OFF_SEQ {
            seq
        } else if i == OFF_LEN {
            (4 + params.len()) as u8
        } else if i == OFF_DIR {
            dir
        } else if i == OFF_DOMAIN {
            domain
        } else if i == OFF_CMD {
            cmd
        } else if i == OFF_STATUS {
            status
        } else if i == OFF_COUNT {
            params.len() as u8
        } else if OFF_PARAMS <= i && i - OFF_PARAMS < params.len() {
            params[i - OFF_PARAMS]
        } else {
            0
        };
        i += 1;
    }
    assert(buf@ =~= frame_body(mark, f));
    buf
}

/// Build a host -> device frame. `seq` is the full sequence byte (see [`sequence_byte`]).
pub fn encode_request(seq: u8, domain: u8, cmd: u8, params: &[u8]) -> (r: Result<[u8; REPORT_LEN], String>)
    ensures
        match r {
            Ok(frame) => params@.len() <= MAX_PARAMS && frame@ == request_frame(
                RequestView { seq, domain, cmd, params: params@ },
            ),
            Err(text) => params@.len() > MAX_PARAMS && text@ == too_many_params(params@.len()),
        },
{
    if params.len() > MAX_PARAMS {
        let mut text = "too many parameters (".to_owned();
        text.append(decimal(params.len() as u64).as_str());
        text.append(" > 48)");
        return Err(text);
    }
    let mut buf = fill_body(MARK_REQUEST, seq, 0x00, domain, cmd, 0x00, params);
    let ghost body = buf@;
    let sum: u8 = xor(&buf, OFF_CHECKSUM);
    buf[OFF_CHECKSUM] = sum;
    assert(buf@ =~= body.update(OFF_CHECKSUM as int, sum));
    Ok(buf)
}

/// Build a device -> host frame (used by the simulator and tests).
pub fn encode_response(seq: u8, domain: u8, cmd: u8, status: u8, payload: &[u8]) -> (frame: [u8; REPORT_LEN])
    ensures
        frame@ == response_frame(seq, domain, cmd, status, payload@),
{
    let len: usize = if payload.len() < MAX_PARAMS {
        payload.len()
    } else {
        MAX_PARAMS
    };
    let (head, _) = payload.split_at(len);
    assert(head@ =~= capped(payload@));
    let mut buf = fill_body(MARK_REPLY, seq, DIR_REPLY, domain, cmd, status, head);
    let ghost body = buf@;
    // Replies are checksummed without the report ID byte.
    let sum: u8 = xor(&buf, OFF_CHECKSUM) ^ REPORT_ID;
    proof {
        let covered = body.take(OFF_CHECKSUM as int);
        xor_from_the_front(covered);
        assert(covered.skip(1) =~= body.subrange(1, OFF_CHECKSUM as int));
        let x = xor_of(covered.skip(1));
        assert((2u8 ^ x) ^ 2 == x) by (bit_vector);
    }
    buf[OFF_CHECKSUM] = sum;
    assert(buf@ =~= body.update(OFF_CHECKSUM as int, sum));
    buf
}

/// The fields of a full-length frame.
pub open spec fn fields(report: Seq<u8>) -> FrameView {
    FrameView {
        seq: report[OFF_SEQ as int],
        dir: report[OFF_DIR as int],
        domain: report[OFF_DOMAIN as int],
        cmd: report[OFF_CMD as int],
        status: report[OFF_STATUS as int],
        params: report.subrange(OFF_PARAMS as int, OFF_PARAMS + report[OFF_COUNT as int]),
    }
}

/// What a frame is read as. Requests are checksummed with the report ID;
/// replies are documented without it, and both variants are accepted of them.
pub open spec fn frame(report: Seq<u8>, request: bool) -> Result<FrameView, DecodeError> {
    let found = report[OFF_CHECKSUM as int];
    let with_id = xor_of(report.take(OFF_CHECKSUM as int));
    let without_id = xor_of(report.subrange(1, OFF_CHECKSUM as int));
    if report.len() == 0 {
        Err(DecodeError::TooShort(0))
    } else if report[0] != REPORT_ID {
        Err(DecodeError::OtherReport(report[0]))
    } else if report.len() <= OFF_CHECKSUM {
        Err(DecodeError::TooShort(report.len() as usize))
    } else if request && found != with_id {
        Err(DecodeError::Checksum { expected: with_id, found })
    } else if !request && found != with_id && found != without_id {
        Err(DecodeError::Checksum { expected: without_id, found })
    } else if OFF_PARAMS + report[OFF_COUNT as int] > OFF_CHECKSUM {
        Err(DecodeError::BadCount(report[OFF_COUNT as int] as usize))
    } else {
        Ok(fields(report))
    }
}

pub open spec fn decoded_request(report: Seq<u8>) -> Result<RequestView, DecodeError> {
    match frame(report, true) {
        Ok(f) => Ok(RequestView { seq: f.seq, domain: f.domain, cmd: f.cmd, params: f.params }),
        Err(e) => Err(e),
    }
}

pub open spec fn decoded_response(report: Seq<u8>) -> Result<ResponseView, DecodeError> {
    match frame(report, false) {
        Ok(f) => Ok(
            ResponseView {
                seq: f.seq,
                dir: f.dir,
                domain: f.domain,
                cmd: f.cmd,
                status: f.status,
                payload: f.params,
            },
        ),
        Err(e) => Err(e),
    }
}

struct Fields {
    seq: u8,
    dir: u8,
    domain: u8,
    cmd: u8,
    status: u8,
    params: Vec<u8>,
}

impl View for Fields {
    type V = FrameView;

    closed spec fn view(&self) -> FrameView {
        FrameView {
            seq: self.seq,
            dir: self.dir,
            domain: self.domain,
            cmd: self.cmd,
            status: self.status,
            params: self.params@,
        }
    }
}

fn split_frame(report: &[u8], request: bool) -> (r: Result<Fields, DecodeError>)
    ensures
        ok_view(r) == frame(report@, request),
{
    if report.len() == 0 {
        return Err(DecodeError::TooShort(0));
    }
    let id: u8 = report[0];
    if id != REPORT_ID {
        return Err(DecodeError::OtherReport(id));
    }
    if report.len() < OFF_CHECKSUM + 1 {
        return Err(DecodeError::TooShort(report.len()));
    }
    let found: u8 = report[OFF_CHECKSUM];
    let with_id: u8 = xor(report, OFF_CHECKSUM);
    let without_id: u8 = with_id ^ REPORT_ID;
    proof {
        let covered = report@.take(OFF_CHECKSUM as int);
        xor_from_the_front(covered);
        assert(covered.skip(1) =~= report@.subrange(1, OFF_CHECKSUM as int));
        let x = xor_of(covered.skip(1));
        assert((2u8 ^ x) ^ 2 == x) by (bit_vector);
    }
    let ok = if request {
        found == with_id
    } else {
        found == without_id || found == with_id
    };
    if !ok {
        let expected: u8 = if request {
            with_id
        } else {
            without_id
        };
        return Err(DecodeError::Checksum { expected, found });
    }
    let count: usize = report[OFF_COUNT] as usize;
    if OFF_PARAMS + count > OFF_CHECKSUM {
        return Err(DecodeError::BadCount(count));
    }
    let mut params: Vec<u8> = Vec::new();
    let mut i: usize = 0;
    while i < count
        invariant
            i <= count,
            OFF_PARAMS + count <= OFF_CHECKSUM < report@.len(),
            params@ == report@.subrange(OFF_PARAMS as int, OFF_PARAMS + i),
        decreases count - i,
    {
        params.push(report[OFF_PARAMS + i]);
        i += 1;
        assert(params@ =~= report@.subrange(OFF_PARAMS as int, OFF_PARAMS + i));
    }
    Ok(
        Fields {
            seq: report[OFF_SEQ],
            dir: report[OFF_DIR],
            domain: report[OFF_DOMAIN],
            cmd: report[OFF_CMD],
            status: report[OFF_STATUS],
            params,
        },
    )
}

/// Parse a host -> device frame (used by the simulator and tests).
pub fn decode_request(report: &[u8]) -> (r: Result<Request, DecodeError>)
    ensures
        ok_view(r) == decoded_request(report@),
{
    match split_frame(report, true) {
        Ok(f) => Ok(Request { seq: f.seq, domain: f.domain, cmd: f.cmd, params: f.params }),
        Err(e) => Err(e),
    }
}

/// Parse a device -> host frame as read from hidraw (report ID included).
pub fn decode_response(report: &[u8]) -> (r: Result<Response, DecodeError>)
    ensures
        ok_view(r) == decoded_response(report@),
{
    match split_frame(report, false) {
        Ok(f) => Ok(
            Response {
                seq: f.seq,
                dir: f.dir,
                domain: f.domain,
                cmd: f.cmd,
                status: f.status,
                payload: f.params,
            },
        ),
        Err(e) => Err(e),
    }
}

/// A request that was encoded decodes to itself.
pub proof fn request_frame_roundtrip(q: RequestView)
    requires
        q.params.len() <= MAX_PARAMS,
    ensures
        request_frame(q).len() == REPORT_LEN,
        decoded_request(request_frame(q)) == Ok::<RequestView, DecodeError>(q),
{
    let f = FrameView { seq: q.seq, dir: 0, domain: q.domain, cmd: q.cmd, status: 0, params: q.params };
    let report = request_frame(q);
    assert(report.take(OFF_CHECKSUM as int) =~= frame_body(MARK_REQUEST, f).take(OFF_CHECKSUM as int));
    assert(fields(report).params =~= q.params);
}

/// A reply that was encoded decodes to itself, up to the parameter limit.
pub proof fn response_frame_roundtrip(seq: u8, domain: u8, cmd: u8, status: u8, payload: Seq<u8>)
    ensures
        response_frame(seq, domain, cmd, status, payload).len() == REPORT_LEN,
        decoded_response(response_frame(seq, domain, cmd, status, payload)) == Ok::<
            ResponseView,
            DecodeError,
        >(ResponseView { seq, dir: DIR_REPLY, domain, cmd, status, payload: capped(payload) }),
{
    let f = FrameView { seq, dir: DIR_REPLY, domain, cmd, status, params: capped(payload) };
    let report = response_frame(seq, domain, cmd, status, payload);
    assert(report.subrange(1, OFF_CHECKSUM as int) =~= frame_body(MARK_REPLY, f).subrange(1, OFF_CHECKSUM as int));
    assert(fields(report).params =~= capped(payload));
}

/// How the two checksums move when one byte of a report changes.
proof fn checksums_after_update(report: Seq<u8>, i: int, v: u8)
    requires
        report.len() == REPORT_LEN,
        0 < i <= OFF_CHECKSUM,
    ensures
        i < OFF_CHECKSUM ==> xor_of(report.update(i, v).take(OFF_CHECKSUM as int)) == xor_of(
            report.take(OFF_CHECKSUM as int),
        ) ^ (report[i] ^ v),
        i < OFF_CHECKSUM ==> xor_of(report.update(i, v).subrange(1, OFF_CHECKSUM as int)) == xor_of(
            report.subrange(1, OFF_CHECKSUM as int),
        ) ^ (report[i] ^ v),
        i == OFF_CHECKSUM ==> report.update(i, v).take(OFF_CHECKSUM as int) == report.take(
            OFF_CHECKSUM as int,
        ),
        i == OFF_CHECKSUM ==> report.update(i, v).subrange(1, OFF_CHECKSUM as int) == report.subrange(
            1,
            OFF_CHECKSUM as int,
        ),
        xor_of(report.take(OFF_CHECKSUM as int)) == report[0] ^ xor_of(
            report.subrange(1, OFF_CHECKSUM as int),
        ),
{
    let a = report.take(OFF_CHECKSUM as int);
    let b = report.subrange(1, OFF_CHECKSUM as int);
    let t = report.update(i, v);
    if i < OFF_CHECKSUM {
        assert(t.take(OFF_CHECKSUM as int) =~= a.update(i, v));
        xor_after_update(a, i, v);
        assert(t.subrange(1, OFF_CHECKSUM as int) =~= b.update(i - 1, v));
        xor_after_update(b, i - 1, v);
    } else {
        assert(t.take(OFF_CHECKSUM as int) =~= a);
        assert(t.subrange(1, OFF_CHECKSUM as int) =~= b);
    }
    xor_from_the_front(a);
    assert(a.skip(1) =~= b);
}

/// A request in which one byte changed, the checksum byte included, is
/// rejected.
pub proof fn corrupted_request_is_rejected(q: RequestView, i: int, v: u8)
    requires
        q.params.len() <= MAX_PARAMS,
        0 <= i <= OFF_CHECKSUM,
        v != request_frame(q)[i],
    ensures
        i == 0 ==> decoded_request(request_frame(q).update(i, v)) == Err::<RequestView, DecodeError>(
            DecodeError::OtherReport(v),
        ),
        i > 0 ==> decoded_request(request_frame(q).update(i, v)) matches Err(
            DecodeError::Checksum { .. },
        ),
{
    let report = request_frame(q);
    request_frame_roundtrip(q);
    if i > 0 {
        checksums_after_update(report, i, v);
        let (x, y) = (xor_of(report.take(OFF_CHECKSUM as int)), report[i]);
        assert(x ^ (y ^ v) == x ==> y == v) by (bit_vector);
    }
}

/// A reply in which one byte changed is rejected, unless the change is just
/// the bit that separates the two accepted checksums.
pub proof fn corrupted_response_is_rejected(
    seq: u8,
    domain: u8,
    cmd: u8,
    status: u8,
    payload: Seq<u8>,
    i: int,
    v: u8,
)
    requires
        0 <= i <= OFF_CHECKSUM,
        v != response_frame(seq, domain, cmd, status, payload)[i],
        v != response_frame(seq, domain, cmd, status, payload)[i] ^ REPORT_ID,
    ensures
        i == 0 ==> decoded_response(
            response_frame(seq, domain, cmd, status, payload).update(i, v),
        ) == Err::<ResponseView, DecodeError>(DecodeError::OtherReport(v)),
        i > 0 ==> decoded_response(
            response_frame(seq, domain, cmd, status, payload).update(i, v),
        ) matches Err(DecodeError::Checksum { .. }),
{
    let report = response_frame(seq, domain, cmd, status, payload);
    response_frame_roundtrip(seq, domain, cmd, status, payload);
    if i > 0 {
        checksums_after_update(report, i, v);
        let (a, b) = (xor_of(report.take(OFF_CHECKSUM as int)), xor_of(report.subrange(1, OFF_CHECKSUM as int)));
        let (c, y) = (report[OFF_CHECKSUM as int], report[i]);
        assert(c == a || c == b);
        assert(a == 2 ^ b && (c == a || c == b) && v != y && v != y ^ 2 ==> c != a ^ (y ^ v) && c != b ^ (y ^ v))
            by (bit_vector);
        assert(a == 2 ^ b && (y == a || y == b) && v != y && v != y ^ 2 ==> v != a && v != b) by (bit_vector);
    }
}

/// The byte that carries the gain `db` to register 0x95.
pub open spec fn wire_byte(db: i8) -> u8 {
    let v = clamped_gain(db as int) + EQ_WIRE_OFFSET;
    if v < 0 {
        (v + 256) as u8
    } else {
        v as u8
    }
}

/// A byte read as a signed number.
pub open spec fn signed_byte(raw: u8) -> int {
    if raw < 128 {
        raw as int
    } else {
        raw - 256
    }
}

/// The bytes that carry a curve to register 0x95.
pub open spec fn wire_bytes(bands: Bands) -> Seq<u8> {
    Seq::new(BAND_COUNT as nat, |i: int| wire_byte(bands@[i]))
}

/// Convert gains in dB to the bytes written with register 0x95.
pub fn eq_to_wire(bands: &Bands) -> (r: [u8; BAND_COUNT])
    ensures
        r@ == wire_bytes(*bands),
{
    let mut out: [u8; 10] = [0; 10];
    let mut i: usize = 0;
    while i < BAND_COUNT
        invariant
            i <= BAND_COUNT,
            forall|j: int| 0 <= j < i ==> #[trigger] out@[j] == wire_byte(bands@[j]),
        decreases BAND_COUNT - i,
    {
        let v: i32 = clamp_gain(bands[i] as i32) as i32 + EQ_WIRE_OFFSET as i32;
        out[i] = if v < 0 {
            (v + 256) as u8
        } else {
            v as u8
        };
        i += 1;
    }
    assert(out@ =~= wire_bytes(*bands));
    out
}

/// The curve that register 0x15 holds: ten signed bytes in dB, brought into
/// range.
pub open spec fn curve_of(payload: Seq<u8>) -> Option<Bands> {
    if payload.len() < BAND_COUNT {
        None
    } else {
        Some(bands_from(|i: int| clamped_gain(signed_byte(payload[i]))))
    }
}

/// Convert bytes read with register 0x15 (already in dB) to gains.
pub fn eq_from_payload(payload: &[u8]) -> (r: Option<Bands>)
    ensures
        r == curve_of(payload@),
{
    if payload.len() < BAND_COUNT {
        return None;
    }
    let mut out: Bands = FLAT;
    let mut i: usize = 0;
    while i < BAND_COUNT
        invariant
            i <= BAND_COUNT <= payload@.len(),
            forall|j: int| 0 <= j < i ==> #[trigger] out@[j] == clamped_gain(signed_byte(payload@[j])),
        decreases BAND_COUNT - i,
    {
        let raw: u8 = payload[i];
        let db: i32 = if raw < 128 {
            raw as i32
        } else {
            raw as i32 - 256
        };
        out[i] = clamp_gain(db);
        i += 1;
    }
    proof {
        bands_from_is(|i: int| clamped_gain(signed_byte(payload@[i])), out);
    }
    Some(out)
}

/// What the DSP makes of a written gain, `wire - 5`, is the clamped gain.
pub proof fn gain_survives_the_wire(db: i8)
    ensures
        signed_byte(wire_byte(db)) - EQ_WIRE_OFFSET == clamped_gain(db as int),
{
}

/// A byte above 127 stands for a negative number, 256 below it.
pub proof fn signed_bytes(raw: u8)
    ensures
        -128 <= signed_byte(raw) < 128,
        signed_byte(raw) == raw || signed_byte(raw) == raw - 256,
{
}

/// A gain that the headset applies goes out 5 dB higher, and one that it
/// reports is taken as it is.
pub proof fn gains_on_the_wire(db: i8, payload: Seq<u8>, i: int)
    ensures
        -9 <= db <= 6 ==> signed_byte(wire_byte(db)) == db + 5,
        db < -9 ==> signed_byte(wire_byte(db)) == -4,
        db > 6 ==> signed_byte(wire_byte(db)) == 11,
        payload.len() >= 10 <==> curve_of(payload) is Some,
        payload.len() >= 10 && 0 <= i < 10 && -9 <= signed_byte(payload[i]) <= 6 ==> curve_of(payload)->0@[i]
            == signed_byte(payload[i]),
{
    bands_from_at(|i: int| clamped_gain(signed_byte(payload[i])));
}

/// Sequence bytes carry the mark of this program and count round after 32.
pub proof fn sequence_bytes_roll(a: u8, b: u8)
    ensures
        0x60 <= sequence_of(a) <= 0x7F,
        (sequence_of(a) == sequence_of(b)) == ((a - b) % 32 == 0),
{
}

/// A reply answers the request with the same number, out of 32, and the same
/// command; no other.
pub proof fn replies_answer_their_request(resp: ResponseView, counter: u8, cmd: u8)
    ensures
        resp.answers(sequence_of(counter), cmd) <==> resp.cmd == cmd && (resp.seq - counter) % 32 == 0,
{
}

/// Firmware version bytes as text.
pub open spec fn firmware_text(payload: Seq<u8>) -> Option<Seq<char>> {
    if payload.len() >= 4 {
        Some(
            dec(payload[0] as nat) + seq!['.'] + dec2(payload[1] as nat) + seq!['.'] + dec(payload[2] as nat)
                + seq!['.'] + dec(payload[3] as nat),
        )
    } else if payload.len() >= 2 {
        Some(dec(payload[0] as nat) + seq!['.'] + dec2(payload[1] as nat))
    } else {
        None
    }
}

/// Firmware version bytes -> `1.02.3.4`.
pub fn format_firmware(payload: &[u8]) -> (r: Option<String>)
    ensures
        some_view(r) == firmware_text(payload@),
{
    if payload.len() < 2 {
        return None;
    }
    let mut out = decimal(payload[0] as u64);
    out.push('.');
    out.append(decimal2(payload[1] as u64).as_str());
    if payload.len() >= 4 {
        out.push('.');
        out.append(decimal(payload[2] as u64).as_str());
        out.push('.');
        out.append(decimal(payload[3] as u64).as_str());
        assert(some_view(Some(out)) =~= firmware_text(payload@));
    }
    assert(out@ =~= firmware_text(payload@)->0);
    Some(out)
}

/// Index of the first zero byte at or after `from`; the length if there is
/// none.
pub open spec fn first_zero(s: Seq<u8>, from: nat) -> nat
    decreases s.len() - from,
{
    if from >= s.len() {
        s.len()
    } else if s[from as int] == 0 {
        from
    } else {
        first_zero(s, from + 1)
    }
}

/// The printable ASCII characters of `s`, blanks included.
pub open spec fn printable(s: Seq<u8>) -> Seq<char>
    decreases s.len(),
{
    if s.len() == 0 {
        seq![]
    } else if 0x20 <= s.last() <= 0x7E {
        printable(s.drop_last()).push(s.last() as char)
    } else {
        printable(s.drop_last())
    }
}

/// Serial number bytes as text: the printable ones up to the first zero,
/// without blanks at the ends.
pub open spec fn serial_text(payload: Seq<u8>) -> Option<Seq<char>> {
    let text = trimmed(printable(payload.take(first_zero(payload, 0) as int)));
    if text.len() == 0 {
        None
    } else {
        Some(text)
    }
}

proof fn zero_ends_it(s: Seq<u8>, rest: Seq<u8>, from: nat)
    requires
        from <= s.len(),
        forall|i: int| 0 <= i < s.len() ==> #[trigger] s[i] != 0,
    ensures
        first_zero(s, from) == s.len(),
        first_zero(s.push(0u8) + rest, from) == s.len(),
    decreases s.len() - from,
{
    let all = s.push(0u8) + rest;
    if from < s.len() {
        assert(all[from as int] == s[from as int]);
        zero_ends_it(s, rest, from + 1);
    } else {
        assert(all[from as int] == 0);
    }
}

proof fn plain_text(s: Seq<u8>)
    requires
        forall|i: int| 0 <= i < s.len() ==> 0x21 <= #[trigger] s[i] <= 0x7E,
    ensures
        printable(s) == Seq::new(s.len(), |i: int| s[i] as char),
    decreases s.len(),
{
    if s.len() > 0 {
        let rest = s.drop_last();
        assert forall|i: int| 0 <= i < rest.len() implies 0x21 <= #[trigger] rest[i] <= 0x7E by {
            assert(rest[i] == s[i]);
        }
        plain_text(rest);
        assert(0x21 <= s[s.len() - 1] <= 0x7E);
    }
    assert(printable(s) =~= Seq::new(s.len(), |i: int| s[i] as char));
}

/// A serial number of plain characters is read as it stands, character by
/// character, up to the first zero byte.
pub proof fn serials_are_read_as_they_stand(s: Seq<u8>, rest: Seq<u8>)
    requires
        forall|i: int| 0 <= i < s.len() ==> 0x21 <= #[trigger] s[i] <= 0x7E,
        s.len() > 0,
    ensures
        serial_text(s) == Some(Seq::new(s.len(), |i: int| s[i] as char)),
        serial_text(s.push(0u8) + rest) == serial_text(s),
{
    let text = Seq::new(s.len(), |i: int| s[i] as char);
    plain_text(s);
    assert forall|i: int| 0 <= i < s.len() implies #[trigger] s[i] != 0 by {
        assert(0x21 <= s[i]);
    }
    zero_ends_it(s, rest, 0);
    assert(s.take(s.len() as int) =~= s);
    assert((s.push(0u8) + rest).take(s.len() as int) =~= s);
    assert(0x21 <= s[0] && 0x21 <= s[s.len() - 1]);
    assert(trimmed(text) == text);
}

proof fn only_printable(s: Seq<u8>)
    ensures
        forall|i: int| 0 <= i < printable(s).len() ==> ' ' <= #[trigger] printable(s)[i] && printable(s)[i] <= '~',
    decreases s.len(),
{
    if s.len() > 0 {
        let before = printable(s.drop_last());
        only_printable(s.drop_last());
        assert forall|i: int| 0 <= i < printable(s).len() implies ' ' <= #[trigger] printable(s)[i] && printable(s)[i]
            <= '~' by {
            if i < before.len() {
                assert(printable(s)[i] == before[i]);
            } else {
                assert(printable(s)[i] == s.last() as char);
            }
        }
    }
}

/// Whatever the bytes, nothing but printable characters gets into a serial
/// number before its ends are trimmed.
pub proof fn serials_are_printable(s: Seq<u8>)
    ensures
        forall|i: int| 0 <= i < printable(s).len() ==> ' ' <= #[trigger] printable(s)[i] && printable(s)[i] <= '~',
        serial_text(Seq::<u8>::empty()) is None,
{
    only_printable(s);
    assert(Seq::<u8>::empty().take(0) =~= Seq::<u8>::empty());
}

/// A version of four bytes adds the last two to what the first two say; fewer
/// than two say nothing, and the second number has two digits at least.
pub proof fn versions_are_read_in_order(p: Seq<u8>)
    ensures
        p.len() < 2 <==> firmware_text(p) is None,
        p.len() >= 2 ==> firmware_text(p.take(2)) == Some(
            dec(p[0] as nat) + seq!['.'] + dec2(p[1] as nat),
        ),
        p.len() >= 4 ==> firmware_text(p) == Some(
            firmware_text(p.take(2))->0 + seq!['.'] + dec(p[2] as nat) + seq!['.'] + dec(p[3] as nat),
        ),
        p.len() == 3 ==> firmware_text(p) == firmware_text(p.take(2)),
{
}

/// Serial number bytes -> trimmed ASCII string.
pub fn format_serial(payload: &[u8]) -> (r: Option<String>)
    ensures
        some_view(r) == serial_text(payload@),
{
    let mut text = String::new();
    let mut i: usize = 0;
    assert(payload@.take(0) =~= seq![]);
    while i < payload.len() && payload[i] != 0
        invariant
            i <= payload@.len(),
            first_zero(payload@, 0) == first_zero(payload@, i as nat),
            text@ == printable(payload@.take(i as int)),
        decreases payload@.len() - i,
    {
        let b: u8 = payload[i];
        assert(payload@.take(i + 1).drop_last() =~= payload@.take(i as int));
        assert(payload@.take(i + 1).last() == b);
        if 0x20 <= b && b <= 0x7E {
            text.push(b as char);
        }
        i += 1;
    }
    let text = trim(text.as_str());
    if text.as_str().is_empty() {
        None
    } else {
        Some(text)
    }
}

} // verus!
