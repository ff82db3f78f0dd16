//! Minimal RTSP/1.0 server logic: requests as plain values, the per-connection
//! session state machine, and response serialisation.
use vstd::prelude::*;
use vstd::string::StringSliceAdditionalSpecFns;

use crate::address::SocketAddress;

verus! {

/// Status codes that the server answers with.
pub const OK: u16 = 200;
pub const BAD_REQUEST: u16 = 400;
pub const PAYMENT_REQUIRED: u16 = 402;
pub const SESSION_NOT_FOUND: u16 = 454;
pub const UNSUPPORTED_TRANSPORT: u16 = 461;
pub const NOT_IMPLEMENTED: u16 = 501;

/// The header name and value pairs as plain values.
pub type HeaderSpec = (Seq<u8>, Seq<u8>);

/// A request or response header.
#[derive(Debug, PartialEq, Eq)]
pub struct Header {
    pub name: Vec<u8>,
    pub value: Vec<u8>,
}

impl Header {
    pub open spec fn view(self) -> HeaderSpec {
        (self.name@, self.value@)
    }
}

/// The views of a list of headers.
pub open spec fn headers_view(hs: Seq<Header>) -> Seq<HeaderSpec> {
    hs.map_values(|h: Header| h.view())
}

/// A parsed request: its method, if the parser got that far, and its headers.
pub struct Request {
    pub method: Option<Vec<u8>>,
    pub headers: Vec<Header>,
}

/// A response: status code, headers in order, body.
pub struct Response {
    pub status: u16,
    pub headers: Vec<Header>,
    pub body: Vec<u8>,
}

/// A response as plain values.
pub struct ResponseSpec {
    pub status: u16,
    pub headers: Seq<HeaderSpec>,
    pub body: Seq<u8>,
}

impl Response {
    pub open spec fn view(self) -> ResponseSpec {
        ResponseSpec { status: self.status, headers: headers_view(self.headers@), body: self.body@ }
    }
}

/// The session that `SETUP` establishes on a connection.
#[derive(Clone, Copy, Debug, PartialEq, Eq, Structural)]
pub struct Session {
    pub number: usize,
    pub address: SocketAddress,
    pub rtp: u16,
    pub rtcp: u16,
}

/// Why a request gets no response and ends the connection.
#[derive(Clone, Copy, Debug, PartialEq, Eq, Structural)]
pub enum ProcessError {
    MissingCSeq,
    MissingMethod,
}

/// The bytes of an ASCII digit.
pub open spec fn is_digit(b: u8) -> bool {
    48 <= b <= 57
}

/// Value of a run of decimal digits.
pub open spec fn digits_value(s: Seq<u8>) -> nat
    decreases s.len(),
{
    if s.len() == 0 {
        0
    } else {
        (digits_value(s.drop_last()) * 10 + (s.last() - 48)) as nat
    }
}

/// Every byte of `d` is a decimal digit.
pub open spec fn all_digits(d: Seq<u8>) -> bool {
    forall|i: int| 0 <= i < d.len() ==> is_digit(#[trigger] d[i])
}

/// `s` without a leading `+`.
pub open spec fn unsigned_part(s: Seq<u8>) -> Seq<u8> {
    if s.len() > 0 && s[0] == 43 {
        s.skip(1)
    } else {
        s
    }
}

/// The number that `s` spells in decimal, an optional `+` first, if it is at most `max`.
pub open spec fn parse_number(s: Seq<u8>, max: nat) -> Option<nat> {
    let d = unsigned_part(s);
    if d.len() == 0 || !all_digits(d) {
        None
    } else if digits_value(d) > max {
        None
    } else {
        Some(digits_value(d))
    }
}

/// Decimal digits of `n`, without leading zeros.
pub open spec fn decimal(n: nat) -> Seq<u8>
    decreases n,
{
    if n < 10 {
        seq![(48 + n) as u8]
    } else {
        decimal(n / 10) + seq![(48 + n % 10) as u8]
    }
}

/// Parses an unsigned decimal number no larger than `max`, as `str::parse` does for
/// unsigned integers.
fn parse_decimal(s: &[u8], max: u64) -> (r: Option<u64>)
    ensures
        match parse_number(s@, max as nat) {
            Some(v) => r == Some(v as u64),
            None => r is None,
        },
{
    let start: usize = if s.len() > 0 && s[0] == 43 { 1 } else { 0 };
    let ghost d = unsigned_part(s@);
    assert(d =~= s@.skip(start as int));
    if start == s.len() {
        return None;
    }
    let mut v: u64 = 0;
    let mut over = false;
    let mut i: usize = start;
    while i < s.len()
        invariant
            start <= i <= s@.len(),
            d == s@.skip(start as int),
            d == unsigned_part(s@),
            d.len() > 0,
            forall|j: int| start <= j < i ==> is_digit(s@[j]),
            !over ==> v == digits_value(s@.subrange(start as int, i as int)) && v <= max,
            over ==> digits_value(s@.subrange(start as int, i as int)) > max,
        decreases s@.len() - i,
    {
        let b = s[i];
        if b < 48 || b > 57 {
            assert(d[i - start] == s@[i as int]);
            assert(!is_digit(d[i - start]));
            return None;
        }
        let ghost prev = s@.subrange(start as int, i as int);
        assert(s@.subrange(start as int, i + 1int).drop_last() =~= prev);
        let digit = (b - 48) as u64;
        if !over {
            if digit > max || v > (max - digit) / 10 {
                over = true;
                assert(v * 10 + digit > max) by (nonlinear_arith)
                    requires
                        digit > max || v > (max - digit) / 10,
                ;
            } else {
                assert(v * 10 + digit <= max) by (nonlinear_arith)
                    requires
                        v <= (max - digit) / 10,
                        max >= digit,
                ;
                v = v * 10 + digit;
            }
        } else {
            assert(digits_value(prev) * 10 + digit > max) by (nonlinear_arith)
                requires
                    digits_value(prev) > max,
            ;
        }
        i = i + 1;
    }
    assert(s@.subrange(start as int, s@.len() as int) =~= d);
    if over {
        None
    } else {
        Some(v)
    }
}

/// Appends the decimal digits of `n`.
fn push_decimal(out: &mut Vec<u8>, n: u64)
    ensures
        final(out)@ == old(out)@ + decimal(n as nat),
    decreases n,
{
    if n >= 10 {
        push_decimal(out, n / 10);
    }
    out.push(48 + (n % 10) as u8);
    assert(final(out)@ =~= old(out)@ + decimal(n as nat));
}

/// `a` and `b` hold the same bytes.
pub(crate) fn same_bytes(a: &[u8], b: &[u8]) -> (r: bool)
    ensures
        r == (a@ == b@),
{
    if a.len() != b.len() {
        return false;
    }
    let mut i: usize = 0;
    while i < a.len()
        invariant
            a@.len() == b@.len(),
            i <= a@.len(),
            forall|j: int| 0 <= j < i ==> a@[j] == b@[j],
        decreases a@.len() - i,
    {
        if a[i] != b[i] {
            return false;
        }
        i = i + 1;
    }
    assert(a@ =~= b@);
    true
}

fn text(s: &str) -> (r: Vec<u8>)
    ensures
        r@ == s.spec_bytes(),
{
    vstd::slice::slice_to_vec(s.as_bytes())
}

fn header(name: &str, value: Vec<u8>) -> (r: Header)
    ensures
        r.view() == (name.spec_bytes(), value@),
{
    Header { name: text(name), value }
}

fn copy_header(h: &Header) -> (r: Header)
    ensures
        r.view() == h.view(),
{
    Header { name: vstd::slice::slice_to_vec(h.name.as_slice()), value: vstd::slice::slice_to_vec(h.value.as_slice()) }
}

/// The first header named `name`.
pub open spec fn find_spec(headers: Seq<HeaderSpec>, name: Seq<u8>) -> Option<HeaderSpec>
    decreases headers.len(),
{
    if headers.len() == 0 {
        None
    } else if headers[0].0 == name {
        Some(headers[0])
    } else {
        find_spec(headers.drop_first(), name)
    }
}

/// The index of the first header named `to_find`.
fn find_header(headers: &Vec<Header>, to_find: &str) -> (r: Option<usize>)
    ensures
        match find_spec(headers_view(headers@), to_find.spec_bytes()) {
            None => r is None,
            Some(h) => r matches Some(i) && i < headers@.len() && headers@[i as int].view() == h,
        },
{
    let name = to_find.as_bytes();
    assert(headers_view(headers@).skip(0) =~= headers_view(headers@));
    let mut i: usize = 0;
    while i < headers.len()
        invariant
            i <= headers@.len(),
            name@ == to_find.spec_bytes(),
            find_spec(headers_view(headers@), name@) == find_spec(headers_view(headers@).skip(i as int), name@),
        decreases headers@.len() - i,
    {
        let ghost rest = headers_view(headers@).skip(i as int);
        assert(rest[0] == headers@[i as int].view());
        if same_bytes(headers[i].name.as_slice(), name) {
            return Some(i);
        }
        assert(rest.drop_first() =~= headers_view(headers@).skip(i + 1int));
        i = i + 1;
    }
    None
}

/// A response with the given status, headers and body.
pub open spec fn response(status: u16, headers: Seq<HeaderSpec>, body: Seq<u8>) -> ResponseSpec {
    ResponseSpec { status, headers, body }
}

/// The session header names the session of the connection: `Ok`; it is no number: 400
/// with a reason; it names another session: 454 with the CSeq header.
pub open spec fn session_check(session: HeaderSpec, current: Session, cseq: HeaderSpec) -> Result<(), ResponseSpec> {
    match parse_number(session.1, usize::MAX as nat) {
        None => Err(response(BAD_REQUEST, seq![("Reason".spec_bytes(), "Invalid session number".spec_bytes())], seq![])),
        Some(n) => if n != current.number {
            Err(response(SESSION_NOT_FOUND, seq![cseq], seq![]))
        } else {
            Ok(())
        },
    }
}

fn is_session_exist(session_header: &Header, client_session: &Session, cseq_header: &Header) -> (r: Result<(), Response>)
    ensures
        match session_check(session_header.view(), *client_session, cseq_header.view()) {
            Ok(()) => r is Ok,
            Err(e) => r matches Err(x) && x.view() == e,
        },
{
    let number = match parse_decimal(session_header.value.as_slice(), usize::MAX as u64) {
        Some(n) => n as usize,
        None => {
            let headers = vec![header("Reason", text("Invalid session number"))];
            assert(headers_view(headers@) =~= seq![("Reason".spec_bytes(), "Invalid session number".spec_bytes())]);
            let r = Response { status: BAD_REQUEST, headers, body: Vec::new() };
            assert(r.view().body =~= Seq::<u8>::empty());
            return Err(r);
        },
    };
    if number != client_session.number {
        let headers = vec![copy_header(cseq_header)];
        assert(headers_view(headers@) =~= seq![cseq_header.view()]);
        let r = Response { status: SESSION_NOT_FOUND, headers, body: Vec::new() };
        assert(r.view().body =~= Seq::<u8>::empty());
        return Err(r);
    }
    Ok(())
}

/// What a `SETUP` transport header must begin with.
pub open spec fn transport_prefix() -> Seq<u8> {
    "RTP/AVP;unicast;client_port=".spec_bytes()
}

/// The client ports that a transport value asks for: the prefix, then two numbers
/// joined by the one `-` that follows it.
pub open spec fn transport_ports(value: Seq<u8>) -> Option<(u16, u16)> {
    let p = transport_prefix();
    if value.len() < p.len() || value.take(p.len() as int) != p {
        None
    } else {
        let rest = value.skip(p.len() as int);
        if exists|k: int, m: int| 0 <= k < m < rest.len() && rest[k] == 45 && rest[m] == 45 {
            None
        } else if !(exists|k: int| 0 <= k < rest.len() && rest[k] == 45) {
            None
        } else {
            let k = choose|k: int| 0 <= k < rest.len() && rest[k] == 45;
            match (parse_number(rest.take(k), 65535), parse_number(rest.skip(k + 1), 65535)) {
                (Some(a), Some(b)) => Some((a as u16, b as u16)),
                _ => None,
            }
        }
    }
}

fn parse_transport(transport: &Header) -> (r: Option<(u16, u16)>)
    ensures
        r == transport_ports(transport.value@),
{
    let value = transport.value.as_slice();
    let prefix = "RTP/AVP;unicast;client_port=".as_bytes();
    let ghost p = transport_prefix();
    if value.len() < prefix.len() {
        return None;
    }
    let head = vstd::slice::slice_subrange(value, 0, prefix.len());
    if !same_bytes(head, prefix) {
        return None;
    }
    let rest = vstd::slice::slice_subrange(value, prefix.len(), value.len());
    assert(rest@ =~= value@.skip(p.len() as int));
    let mut dash: usize = rest.len();
    let mut dashes: usize = 0;
    let mut i: usize = 0;
    while i < rest.len()
        invariant
            i <= rest@.len(),
            dashes <= i,
            dashes == 0 ==> dash == rest@.len() && forall|j: int| 0 <= j < i ==> rest@[j] != 45,
            dashes >= 1 ==> dash < i && rest@[dash as int] == 45
                && forall|j: int| 0 <= j < dash ==> rest@[j] != 45,
            dashes == 1 ==> forall|j: int| dash < j < i ==> rest@[j] != 45,
            dashes >= 2 ==> exists|k: int, m: int| 0 <= k < m < rest@.len() && rest@[k] == 45 && rest@[m] == 45,
        decreases rest@.len() - i,
    {
        if rest[i] == 45 {
            if dashes == 0 {
                dash = i;
            }
            if dashes < 2 {
                dashes = dashes + 1;
            }
        }
        i = i + 1;
    }
    if dashes != 1 {
        return None;
    }
    proof {
        let k = choose|k: int| 0 <= k < rest@.len() && rest@[k] == 45;
        assert(k == dash as int);
    }
    let left = vstd::slice::slice_subrange(rest, 0, dash);
    let right = vstd::slice::slice_subrange(rest, dash + 1, rest.len());
    assert(left@ =~= rest@.take(dash as int));
    assert(right@ =~= rest@.skip(dash + 1int));
    let a = parse_decimal(left, 65535);
    let b = parse_decimal(right, 65535);
    match (a, b) {
        (Some(x), Some(y)) => Some((x as u16, y as u16)),
        _ => None,
    }
}

/// Line end.
pub open spec fn crlf() -> Seq<u8> {
    seq![13u8, 10u8]
}

/// The header lines of a response, each `name: value` and a line end.
pub open spec fn header_lines(hs: Seq<HeaderSpec>) -> Seq<u8>
    decreases hs.len(),
{
    if hs.len() == 0 {
        seq![]
    } else {
        header_lines(hs.drop_last()) + hs.last().0 + seq![58u8, 32u8] + hs.last().1 + crlf()
    }
}

/// A response on the wire: status line, header lines, a blank line, the body.
pub open spec fn response_bytes(r: ResponseSpec) -> Seq<u8> {
    "RTSP/1.0 ".spec_bytes() + decimal(r.status as nat) + crlf() + header_lines(r.headers) + crlf() + r.body
}

/// Serialises a response.
pub fn write_response(response: &Response) -> (r: Vec<u8>)
    ensures
        r@ == response_bytes(response.view()),
{
    let mut out = text("RTSP/1.0 ");
    push_decimal(&mut out, response.status as u64);
    out.push(13);
    out.push(10);
    let ghost head = out@;
    let hs = &response.headers;
    let mut i: usize = 0;
    while i < hs.len()
        invariant
            i <= hs@.len(),
            out@ == head + header_lines(headers_view(hs@).take(i as int)),
        decreases hs@.len() - i,
    {
        let ghost before = out@;
        out.extend_from_slice(hs[i].name.as_slice());
        out.push(58);
        out.push(32);
        out.extend_from_slice(hs[i].value.as_slice());
        out.push(13);
        out.push(10);
        proof {
            let t = headers_view(hs@).take(i + 1int);
            assert(t.drop_last() =~= headers_view(hs@).take(i as int));
            assert(t.last() == hs@[i as int].view());
            assert(out@ =~= before + hs@[i as int].name@ + seq![58u8, 32u8] + hs@[i as int].value@ + crlf());
        }
        i = i + 1;
    }
    assert(headers_view(hs@).take(hs@.len() as int) =~= headers_view(hs@));
    out.push(13);
    out.push(10);
    out.extend_from_slice(response.body.as_slice());
    assert(out@ =~= response_bytes(response.view()));
    out
}

/// The method bytes of a request, if it has one.
pub open spec fn method_view(m: Option<Vec<u8>>) -> Option<Seq<u8>> {
    match m {
        Some(v) => Some(v@),
        None => None,
    }
}

/// The session description that `DESCRIBE` returns.
pub open spec fn sdp() -> Seq<u8> {
    "o=- 1815849 0 IN IP4 127.0.0.1\r\nc=IN IP4 127.0.0.1\r\nm=video 1336 RTP/AVP 96\r\na=rtpmap:96 H264/90000\r\na=fmtp:96 packetization-mode=1\r\n".spec_bytes()
}

/// The transport that `SETUP` answers with for the given client ports.
pub open spec fn transport_reply(rtp: u16, rtcp: u16) -> Seq<u8> {
    transport_prefix() + decimal(rtp as nat) + seq![45u8] + decimal(rtcp as nat)
        + ";server_port=1336-1337;ssrc=D34D10CC".spec_bytes()
}

/// The 400 response to `PLAY` or `TEARDOWN` before any `SETUP`.
pub open spec fn no_setup_response() -> ResponseSpec {
    response(BAD_REQUEST, seq![("Reason".spec_bytes(), "SETUP request was not received".spec_bytes())], seq![])
}

/// The response to a request and the connection's session afterwards.
///
/// Every response repeats the CSeq header. `OPTIONS` lists the methods,
/// `DESCRIBE` returns the session description, `SETUP` opens the session
/// numbered `id` on the client ports of its Transport header, `PLAY` and
/// `TEARDOWN` need a Session header naming the open session (`TEARDOWN` then
/// closes it), and any other method gets 501.
pub open spec fn process_spec(
    method: Option<Seq<u8>>,
    headers: Seq<HeaderSpec>,
    session: Option<Session>,
    id: usize,
    addr: SocketAddress,
) -> Result<(ResponseSpec, Option<Session>), ProcessError> {
    match find_spec(headers, "CSeq".spec_bytes()) {
        None => Err(ProcessError::MissingCSeq),
        Some(cseq) => match method {
            None => Err(ProcessError::MissingMethod),
            Some(m) => if m == "OPTIONS".spec_bytes() {
                Ok((response(OK, seq![cseq, ("Public".spec_bytes(), "DESCRIBE, SETUP, TEARDOWN, PLAY".spec_bytes())], seq![]), session))
            } else if m == "DESCRIBE".spec_bytes() {
                Ok((response(OK, seq![
                    cseq,
                    ("Content-Type".spec_bytes(), "application/sdp".spec_bytes()),
                    ("Content-Length".spec_bytes(), decimal(sdp().len())),
                ], sdp()), session))
            } else if m == "TEARDOWN".spec_bytes() {
                match find_spec(headers, "Session".spec_bytes()) {
                    None => Ok((response(SESSION_NOT_FOUND, seq![cseq], seq![]), None)),
                    Some(sh) => match session {
                        None => Ok((no_setup_response(), session)),
                        Some(current) => match session_check(sh, current, cseq) {
                            Err(e) => Ok((e, session)),
                            Ok(()) => Ok((response(OK, seq![cseq], seq![]), None)),
                        },
                    },
                }
            } else if m == "SETUP".spec_bytes() {
                match find_spec(headers, "Transport".spec_bytes()) {
                    None => Ok((response(PAYMENT_REQUIRED, seq![cseq], seq![]), session)),
                    Some(t) => match transport_ports(t.1) {
                        None => Ok((response(UNSUPPORTED_TRANSPORT, seq![cseq], seq![]), session)),
                        Some((rtp, rtcp)) => Ok((response(OK, seq![
                            cseq,
                            ("Transport".spec_bytes(), transport_reply(rtp, rtcp)),
                            ("Session".spec_bytes(), decimal(id as nat)),
                            ("Media-Properties".spec_bytes(), "No-Seeking, Time-Processing, Time-Duration=0.0".spec_bytes()),
                        ], seq![]), Some(Session { number: id, address: addr, rtp, rtcp }))),
                    },
                }
            } else if m == "PLAY".spec_bytes() {
                match find_spec(headers, "Session".spec_bytes()) {
                    None => Ok((response(SESSION_NOT_FOUND, seq![cseq], seq![]), session)),
                    Some(sh) => match session {
                        None => Ok((no_setup_response(), session)),
                        Some(current) => match session_check(sh, current, cseq) {
                            Err(e) => Ok((e, session)),
                            Ok(()) => Ok((response(OK, seq![cseq, sh], seq![]), session)),
                        },
                    },
                }
            } else {
                Ok((response(NOT_IMPLEMENTED, seq![cseq], seq![]), session))
            },
        },
    }
}

fn reply(status: u16, headers: Vec<Header>) -> (r: Response)
    ensures
        r.view() == response(status, headers_view(headers@), seq![]),
{
    let r = Response { status, headers, body: Vec::new() };
    assert(r.view().body =~= Seq::<u8>::empty());
    r
}

fn no_setup() -> (r: Response)
    ensures
        r.view() == no_setup_response(),
{
    let headers = vec![header("Reason", text("SETUP request was not received"))];
    assert(headers_view(headers@) =~= seq![("Reason".spec_bytes(), "SETUP request was not received".spec_bytes())]);
    reply(BAD_REQUEST, headers)
}

fn cseq_only(status: u16, cseq: &Header) -> (r: Response)
    ensures
        r.view() == response(status, seq![cseq.view()], seq![]),
{
    let headers = vec![copy_header(cseq)];
    assert(headers_view(headers@) =~= seq![cseq.view()]);
    reply(status, headers)
}

/// Answers one request of a connection whose session is `c_session`; `id` is
/// the connection's ordinal and `addr` its peer.
pub fn process_request(request: &Request, c_session: Option<Session>, id: usize, addr: SocketAddress)
    -> (r: Result<(Response, Option<Session>), ProcessError>)
    ensures
        match process_spec(method_view(request.method), headers_view(request.headers@), c_session, id, addr) {
            Err(e) => r matches Err(x) && x == e,
            Ok((resp, s)) => r matches Ok((x, s2)) && x.view() == resp && s2 == s,
        },
{
    let cseq = match find_header(&request.headers, "CSeq") {
        Some(i) => &request.headers[i],
        None => return Err(ProcessError::MissingCSeq),
    };
    let method = match &request.method {
        Some(m) => m.as_slice(),
        None => return Err(ProcessError::MissingMethod),
    };
    if same_bytes(method, "OPTIONS".as_bytes()) {
        let headers = vec![copy_header(cseq), header("Public", text("DESCRIBE, SETUP, TEARDOWN, PLAY"))];
        assert(headers_view(headers@) =~= seq![cseq.view(), ("Public".spec_bytes(), "DESCRIBE, SETUP, TEARDOWN, PLAY".spec_bytes())]);
        return Ok((reply(OK, headers), c_session));
    }
    if same_bytes(method, "DESCRIBE".as_bytes()) {
        let body = text("o=- 1815849 0 IN IP4 127.0.0.1\r\nc=IN IP4 127.0.0.1\r\nm=video 1336 RTP/AVP 96\r\na=rtpmap:96 H264/90000\r\na=fmtp:96 packetization-mode=1\r\n");
        let mut length: Vec<u8> = Vec::new();
        push_decimal(&mut length, body.len() as u64);
        assert(length@ =~= decimal(sdp().len()));
        let headers = vec![
            copy_header(cseq),
            header("Content-Type", text("application/sdp")),
            header("Content-Length", length),
        ];
        assert(headers_view(headers@) =~= seq![
            cseq.view(),
            ("Content-Type".spec_bytes(), "application/sdp".spec_bytes()),
            ("Content-Length".spec_bytes(), decimal(sdp().len())),
        ]);
        return Ok((Response { status: OK, headers, body }, c_session));
    }
    if same_bytes(method, "TEARDOWN".as_bytes()) {
        let session = match find_header(&request.headers, "Session") {
            Some(i) => &request.headers[i],
            None => return Ok((cseq_only(SESSION_NOT_FOUND, cseq), None)),
        };
        let client_session = match &c_session {
            Some(s) => s,
            None => return Ok((no_setup(), c_session)),
        };
        if let Err(error_response) = is_session_exist(session, client_session, cseq) {
            return Ok((error_response, c_session));
        }
        return Ok((cseq_only(OK, cseq), None));
    }
    if same_bytes(method, "SETUP".as_bytes()) {
        let transport = match find_header(&request.headers, "Transport") {
            Some(i) => &request.headers[i],
            None => return Ok((cseq_only(PAYMENT_REQUIRED, cseq), c_session)),
        };
        let (rtp, rtcp) = match parse_transport(transport) {
            Some(ports) => ports,
            None => return Ok((cseq_only(UNSUPPORTED_TRANSPORT, cseq), c_session)),
        };
        let new_session = Session { number: id, address: addr, rtp, rtcp };
        let mut value = text("RTP/AVP;unicast;client_port=");
        push_decimal(&mut value, rtp as u64);
        value.push(45);
        push_decimal(&mut value, rtcp as u64);
        let tail = text(";server_port=1336-1337;ssrc=D34D10CC");
        value.extend_from_slice(tail.as_slice());
        assert(value@ =~= transport_reply(rtp, rtcp));
        let mut number: Vec<u8> = Vec::new();
        push_decimal(&mut number, id as u64);
        assert(number@ =~= decimal(id as nat));
        let headers = vec![
            copy_header(cseq),
            header("Transport", value),
            header("Session", number),
            header("Media-Properties", text("No-Seeking, Time-Processing, Time-Duration=0.0")),
        ];
        assert(headers_view(headers@) =~= seq![
            cseq.view(),
            ("Transport".spec_bytes(), transport_reply(rtp, rtcp)),
            ("Session".spec_bytes(), decimal(id as nat)),
            ("Media-Properties".spec_bytes(), "No-Seeking, Time-Processing, Time-Duration=0.0".spec_bytes()),
        ]);
        return Ok((reply(OK, headers), Some(new_session)));
    }
    if same_bytes(method, "PLAY".as_bytes()) {
        let session = match find_header(&request.headers, "Session") {
            Some(i) => &request.headers[i],
            None => return Ok((cseq_only(SESSION_NOT_FOUND, cseq), c_session)),
        };
        let client_session = match &c_session {
            Some(s) => s,
            None => return Ok((no_setup(), c_session)),
        };
        if let Err(error_response) = is_session_exist(session, client_session, cseq) {
            return Ok((error_response, c_session));
        }
        let headers = vec![copy_header(cseq), copy_header(session)];
        assert(headers_view(headers@) =~= seq![cseq.view(), session.view()]);
        return Ok((reply(OK, headers), c_session));
    }
    Ok((cseq_only(NOT_IMPLEMENTED, cseq), c_session))
}

/// Header slots that the server gives the request parser; a request with more headers is refused.
pub const HEADER_SLOTS: usize = 16;

/// Largest request head the server buffers before giving up on a connection.
pub const MAX_REQUEST: usize = 4096;

/// What the request parser makes of the bytes received so far, as plain values.
pub enum ParseView {
    Partial,
    Complete(Option<Seq<u8>>, Seq<HeaderSpec>, nat),
    Invalid,
}

/// What the request parser makes of the bytes received so far.
pub enum RequestParse {
    /// No invalid byte yet, but the head is not over.
    Partial,
    /// A whole request head, and how many bytes it took.
    Complete(Request, usize),
    /// The bytes are no RTSP request.
    Invalid,
}

impl RequestParse {
    pub open spec fn view(self) -> ParseView {
        match self {
            RequestParse::Partial => ParseView::Partial,
            RequestParse::Complete(r, n) => ParseView::Complete(method_view(r.method), headers_view(r.headers@), n as nat),
            RequestParse::Invalid => ParseView::Invalid,
        }
    }
}

/// What rtsparse's request parser returns for a buffer, given `slots` header slots.
pub uninterp spec fn parsed_request(buf: Seq<u8>, slots: usize) -> ParseView;

/// Relies on `rtsparse::Request::parse` over `slots` header slots: the outcome
/// depends on the bytes and the slot count alone, and a complete head takes no
/// more bytes than the buffer holds.
#[verifier::external_body]
fn parse_request(buf: &[u8], slots: usize) -> (r: RequestParse)
    ensures
        r.view() == parsed_request(buf@, slots),
        r matches RequestParse::Complete(_, n) ==> n <= buf@.len(),
{
    let mut headers = vec![rtsparse::EMPTY_HEADER; slots];
    let mut request = rtsparse::Request::new(&mut headers);
    match request.parse(buf) {
        Ok(rtsparse::Status::Complete(n)) => RequestParse::Complete(Request {
            method: request.method.map(|m| m.as_bytes().to_vec()),
            headers: request.headers.iter().map(|h| Header { name: h.name.as_bytes().to_vec(), value: h.value.to_vec() }).collect(),
        }, n),
        Ok(rtsparse::Status::Partial) => RequestParse::Partial,
        Err(_) => RequestParse::Invalid,
    }
}

/// Why no request could be read from a connection.
#[derive(Clone, Copy, Debug, PartialEq, Eq, Structural)]
pub enum RequestReceivingError {
    InvalidRequest,
    BufferOverflow,
}

/// The decision after parsing `buffered` bytes: a complete request and its
/// length; `None` to read more; or an error that ends the connection, when the
/// bytes are invalid or a head has not ended within `MAX_REQUEST` bytes.
pub fn request_step(parse: RequestParse, buffered: usize) -> (r: Result<Option<(Request, usize)>, RequestReceivingError>)
    ensures
        match parse.view() {
            ParseView::Partial => if buffered >= MAX_REQUEST {
                r matches Err(RequestReceivingError::BufferOverflow)
            } else {
                r matches Ok(None)
            },
            ParseView::Invalid => r matches Err(RequestReceivingError::InvalidRequest),
            ParseView::Complete(m, hs, n) => r matches Ok(Some((req, k)))
                && method_view(req.method) == m && headers_view(req.headers@) == hs && k == n,
        },
{
    match parse {
        RequestParse::Partial => if buffered >= MAX_REQUEST {
            Err(RequestReceivingError::BufferOverflow)
        } else {
            Ok(None)
        },
        RequestParse::Invalid => Err(RequestReceivingError::InvalidRequest),
        RequestParse::Complete(request, n) => Ok(Some((request, n))),
    }
}

/// Reads a request from the bytes received so far on a connection.
pub fn receive_request(buf: &[u8]) -> (r: Result<Option<(Request, usize)>, RequestReceivingError>)
    ensures
        match parsed_request(buf@, HEADER_SLOTS) {
            ParseView::Partial => if buf@.len() >= MAX_REQUEST {
                r matches Err(RequestReceivingError::BufferOverflow)
            } else {
                r matches Ok(None)
            },
            ParseView::Invalid => r matches Err(RequestReceivingError::InvalidRequest),
            ParseView::Complete(m, hs, n) => r matches Ok(Some((req, k)))
                && method_view(req.method) == m && headers_view(req.headers@) == hs && k == n
                && k <= buf@.len(),
        },
{
    let parse = parse_request(buf, HEADER_SLOTS);
    request_step(parse, buf.len())
}

/// The RTSP server's count of accepted connections; each connection's
/// ordinal is also the number of the session it may set up.
pub struct Server {
    client_id: usize,
}

impl Server {
    pub closed spec fn accepted(self) -> usize {
        self.client_id
    }

    pub fn new() -> (r: Server)
        ensures
            r.accepted() == 0,
    {
        Server { client_id: 0 }
    }

    /// The ordinal of a newly accepted connection; `None` once they are used up.
    pub fn accept(&mut self) -> (r: Option<usize>)
        ensures
            old(self).accepted() == usize::MAX <==> r is None,
            r is None ==> final(self).accepted() == old(self).accepted(),
            r matches Some(id) ==> id == old(self).accepted() + 1 && final(self).accepted() == id,
    {
        if self.client_id == usize::MAX {
            return None;
        }
        self.client_id = self.client_id + 1;
        Some(self.client_id)
    }
}

} // verus!
