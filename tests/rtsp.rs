use shar::address::{IpAddress, SocketAddress};
use shar::rtsp::{
    process_request, receive_request, write_response, Header, ProcessError, Request,
    RequestReceivingError, Response, Server, Session,
};

fn peer() -> SocketAddress {
    SocketAddress { ip: IpAddress::V4(0x7f000001), port: 40000 }
}

fn request(method: &str, headers: &[(&str, &str)]) -> Request {
    Request {
        method: Some(method.as_bytes().to_vec()),
        headers: headers
            .iter()
            .map(|(n, v)| Header { name: n.as_bytes().to_vec(), value: v.as_bytes().to_vec() })
            .collect(),
    }
}

fn header_value(response: &Response, name: &str) -> Option<String> {
    response
        .headers
        .iter()
        .find(|h| h.name == name.as_bytes())
        .map(|h| String::from_utf8(h.value.clone()).unwrap())
}

#[test]
fn options_lists_methods() {
    let (response, session) = process_request(&request("OPTIONS", &[("CSeq", "1")]), None, 1, peer()).unwrap();
    assert_eq!(response.status, 200);
    assert_eq!(header_value(&response, "CSeq").as_deref(), Some("1"));
    assert_eq!(header_value(&response, "Public").as_deref(), Some("DESCRIBE, SETUP, TEARDOWN, PLAY"));
    assert!(session.is_none());
}

#[test]
fn describe_returns_sdp() {
    let (response, _) = process_request(&request("DESCRIBE", &[("CSeq", "2")]), None, 1, peer()).unwrap();
    assert_eq!(response.status, 200);
    let body = String::from_utf8(response.body.clone()).unwrap();
    assert!(body.contains("a=rtpmap:96 H264/90000\r\n"));
    assert_eq!(header_value(&response, "Content-Length"), Some(body.len().to_string()));
    assert_eq!(header_value(&response, "Content-Type").as_deref(), Some("application/sdp"));
}

#[test]
fn setup_then_play_then_teardown() {
    let setup = request("SETUP", &[("CSeq", "3"), ("Transport", "RTP/AVP;unicast;client_port=5000-5001")]);
    let (response, session) = process_request(&setup, None, 7, peer()).unwrap();
    assert_eq!(response.status, 200);
    assert_eq!(
        header_value(&response, "Transport").as_deref(),
        Some("RTP/AVP;unicast;client_port=5000-5001;server_port=1336-1337;ssrc=D34D10CC")
    );
    assert_eq!(header_value(&response, "Session").as_deref(), Some("7"));
    assert_eq!(session, Some(Session { number: 7, address: peer(), rtp: 5000, rtcp: 5001 }));

    let play = request("PLAY", &[("CSeq", "4"), ("Session", "7")]);
    let (response, kept) = process_request(&play, session, 7, peer()).unwrap();
    assert_eq!(response.status, 200);
    assert_eq!(header_value(&response, "Session").as_deref(), Some("7"));
    assert_eq!(kept, session);

    let wrong = request("PLAY", &[("CSeq", "5"), ("Session", "8")]);
    let (response, kept) = process_request(&wrong, session, 7, peer()).unwrap();
    assert_eq!(response.status, 454);
    assert_eq!(kept, session);

    let garbled = request("PLAY", &[("CSeq", "5"), ("Session", "x")]);
    let (response, _) = process_request(&garbled, session, 7, peer()).unwrap();
    assert_eq!(response.status, 400);
    assert_eq!(header_value(&response, "Reason").as_deref(), Some("Invalid session number"));

    let teardown = request("TEARDOWN", &[("CSeq", "6"), ("Session", "7")]);
    let (response, after) = process_request(&teardown, session, 7, peer()).unwrap();
    assert_eq!(response.status, 200);
    assert_eq!(after, None);
}

#[test]
fn play_without_session() {
    let (response, _) = process_request(&request("PLAY", &[("CSeq", "1"), ("Session", "1")]), None, 1, peer()).unwrap();
    assert_eq!(response.status, 400);
    assert_eq!(header_value(&response, "Reason").as_deref(), Some("SETUP request was not received"));
    let (response, _) = process_request(&request("PLAY", &[("CSeq", "1")]), None, 1, peer()).unwrap();
    assert_eq!(response.status, 454);
}

#[test]
fn setup_refusals_and_unknown_method() {
    let (response, _) = process_request(&request("SETUP", &[("CSeq", "1")]), None, 1, peer()).unwrap();
    assert_eq!(response.status, 402);
    let bad = request("SETUP", &[("CSeq", "1"), ("Transport", "RTP/AVP;unicast;client_port=5000-5001-5002")]);
    let (response, _) = process_request(&bad, None, 1, peer()).unwrap();
    assert_eq!(response.status, 461);
    let big = request("SETUP", &[("CSeq", "1"), ("Transport", "RTP/AVP;unicast;client_port=70000-5001")]);
    assert_eq!(process_request(&big, None, 1, peer()).unwrap().0.status, 461);
    let (response, _) = process_request(&request("RECORD", &[("CSeq", "9")]), None, 1, peer()).unwrap();
    assert_eq!(response.status, 501);
    assert_eq!(header_value(&response, "CSeq").as_deref(), Some("9"));
}

#[test]
fn requests_without_cseq_or_method_are_refused() {
    assert!(matches!(
        process_request(&request("OPTIONS", &[]), None, 1, peer()),
        Err(ProcessError::MissingCSeq)
    ));
    let mut no_method = request("OPTIONS", &[("CSeq", "1")]);
    no_method.method = None;
    assert!(matches!(process_request(&no_method, None, 1, peer()), Err(ProcessError::MissingMethod)));
}

#[test]
fn response_serialisation() {
    let response = Response {
        status: 200,
        headers: vec![Header { name: b"CSeq".to_vec(), value: b"1".to_vec() }],
        body: b"x".to_vec(),
    };
    assert_eq!(write_response(&response), b"RTSP/1.0 200\r\nCSeq: 1\r\n\r\nx".to_vec());
}

#[test]
fn request_reading() {
    let text = b"OPTIONS rtsp://example.com/stream RTSP/1.0\r\nCSeq: 1\r\n\r\n";
    let (request, used) = receive_request(text).unwrap().unwrap();
    assert_eq!(used, text.len());
    assert_eq!(request.method, Some(b"OPTIONS".to_vec()));
    assert_eq!(request.headers.len(), 1);
    assert_eq!(request.headers[0].name, b"CSeq".to_vec());
    assert_eq!(request.headers[0].value, b"1".to_vec());
    assert!(receive_request(&text[..20]).unwrap().is_none());
    assert_eq!(
        receive_request(b"OPTIONS rtsp://x RTSP/1.0\r\nCSe\x01q: 1\r\n\r\n").err(),
        Some(RequestReceivingError::InvalidRequest)
    );
    let mut long = b"OPTIONS rtsp://x RTSP/1.0\r\nX: ".to_vec();
    long.extend(std::iter::repeat(b'a').take(5000));
    assert_eq!(receive_request(&long).err(), Some(RequestReceivingError::BufferOverflow));
}

#[test]
fn server_counts_connections() {
    let mut server = Server::new();
    assert_eq!(server.accept(), Some(1));
    assert_eq!(server.accept(), Some(2));
}
