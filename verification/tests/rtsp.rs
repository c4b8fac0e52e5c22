use airplay2::rtsp::codec::{RtspCodec, RtspCodecError};
use airplay2::rtsp::headers::Headers;
use airplay2::rtsp::server_codec::{ResponseBuilder, RtspServerCodec, ServerCodecError};
use airplay2::rtsp::transport::{CastMode, LowerTransport, TransportError, TransportHeader};
use airplay2::rtsp::request::RtspRequest;
use airplay2::rtsp::response::{RtspResponse, StatusCode};
use airplay2::rtsp::session::{RtspSession, SessionState};
use airplay2::rtsp::Method;
use airplay2::plist::PlistValue;

fn response(status: u16, reason: &str, headers: Headers) -> RtspResponse {
    RtspResponse {
        version: "RTSP/1.0".to_string(),
        status: StatusCode(status),
        reason: reason.to_string(),
        headers,
        body: Vec::new(),
    }
}

#[test]
fn request_test_request_encode_simple() {
    let request = RtspRequest::builder(Method::Options, "rtsp://192.168.1.10:7000/*")
        .cseq(1)
        .user_agent("test/1.0")
        .build();
    let encoded = request.encode();
    let encoded_str = String::from_utf8_lossy(&encoded);
    assert!(encoded_str.starts_with("OPTIONS rtsp://192.168.1.10:7000/* RTSP/1.0\r\n"));
    assert!(encoded_str.contains("CSeq: 1\r\n"));
    assert!(encoded_str.contains("User-Agent: test/1.0\r\n"));
    assert!(encoded_str.ends_with("\r\n\r\n"));
}

#[test]
fn tests_test_request_encode_simple() {
    let request = RtspRequest::builder(Method::Options, "rtsp://192.168.1.10:7000/*")
        .cseq(1)
        .user_agent("test/1.0")
        .build();
    let encoded = request.encode();
    let encoded_str = String::from_utf8_lossy(&encoded);
    assert!(encoded_str.starts_with("OPTIONS rtsp://192.168.1.10:7000/* RTSP/1.0\r\n"));
    assert!(encoded_str.contains("CSeq: 1\r\n"));
    assert!(encoded_str.contains("User-Agent: test/1.0\r\n"));
    assert!(encoded_str.ends_with("\r\n\r\n"));
}

#[test]
fn request_test_request_encode_with_body() {
    let body = b"test body content".to_vec();
    let request = RtspRequest::builder(Method::SetParameter, "rtsp://example.com/")
        .cseq(5)
        .content_type("text/parameters")
        .body(body.clone())
        .build();
    let encoded = request.encode();
    let encoded_str = String::from_utf8_lossy(&encoded);
    assert!(encoded_str.contains("Content-Type: text/parameters\r\n"));
    assert!(encoded_str.contains(&format!("Content-Length: {}\r\n", body.len())));
    assert!(encoded_str.ends_with("test body content"));
}

#[test]
fn tests_test_request_encode_with_body() {
    let body = b"test body content".to_vec();
    let request = RtspRequest::builder(Method::SetParameter, "rtsp://example.com/")
        .cseq(5)
        .content_type("text/parameters")
        .body(body.clone())
        .build();
    let encoded = request.encode();
    let encoded_str = String::from_utf8_lossy(&encoded);
    assert!(encoded_str.contains("Content-Type: text/parameters\r\n"));
    assert!(encoded_str.contains(&format!("Content-Length: {}\r\n", body.len())));
    assert!(encoded_str.ends_with("test body content"));
}

#[test]
fn request_test_method_as_str() {
    assert_eq!(Method::Options.as_str(), "OPTIONS");
    assert_eq!(Method::Setup.as_str(), "SETUP");
    assert_eq!(Method::SetParameter.as_str(), "SET_PARAMETER");
}

#[test]
fn tests_test_method_as_str() {
    assert_eq!(Method::Options.as_str(), "OPTIONS");
    assert_eq!(Method::Setup.as_str(), "SETUP");
    assert_eq!(Method::SetParameter.as_str(), "SET_PARAMETER");
}

#[test]
fn request_test_method_from_str() {
    assert_eq!(Method::from_str("OPTIONS"), Some(Method::Options));
    assert_eq!(Method::from_str("options"), Some(Method::Options));
    assert_eq!(Method::from_str("INVALID"), None);
}

#[test]
fn tests_test_method_from_str() {
    assert_eq!("OPTIONS".parse::<Method>(), Ok(Method::Options));
    assert_eq!("options".parse::<Method>(), Ok(Method::Options));
    assert!("INVALID".parse::<Method>().is_err());
}

#[test]
fn session_test_session_initial_state() {
    let session = RtspSession::new("192.168.1.10", 7000);
    assert_eq!(session.state(), SessionState::Init);
    assert!(session.session_id().is_none());
}

#[test]
fn tests_test_session_initial_state() {
    let session = RtspSession::new("192.168.1.10", 7000);
    assert_eq!(session.state(), SessionState::Init);
    assert!(session.session_id().is_none());
}

#[test]
fn session_test_session_cseq_increments() {
    let mut session = RtspSession::new("192.168.1.10", 7000);
    let r1 = session.options_request();
    let r2 = session.options_request();
    assert_eq!(r1.headers.cseq(), Some(1));
    assert_eq!(r2.headers.cseq(), Some(2));
}

#[test]
fn tests_test_session_cseq_increments() {
    let mut session = RtspSession::new("192.168.1.10", 7000);
    let r1 = session.options_request();
    let r2 = session.options_request();
    assert_eq!(r1.headers.cseq(), Some(1));
    assert_eq!(r2.headers.cseq(), Some(2));
}

#[test]
fn session_test_session_state_transitions() {
    let mut session = RtspSession::new("192.168.1.10", 7000);
    let response = response(200, "OK", Headers::new());
    session.process_response(Method::Options, &response).unwrap();
    assert_eq!(session.state(), SessionState::Ready);
}

#[test]
fn tests_test_session_state_transitions() {
    let mut session = RtspSession::new("192.168.1.10", 7000);
    let response = response(200, "OK", Headers::new());
    session.process_response(Method::Options, &response).unwrap();
    assert_eq!(session.state(), SessionState::Ready);
}

#[test]
fn session_test_session_extracts_session_id() {
    let mut session = RtspSession::new("192.168.1.10", 7000);
    let mut headers = Headers::new();
    headers.insert("Session", "ABC123;timeout=60");
    let response = response(200, "OK", headers);
    session.process_response(Method::Setup, &response).unwrap();
    assert_eq!(session.session_id(), Some("ABC123"));
}

#[test]
fn tests_test_session_extracts_session_id() {
    let mut session = RtspSession::new("192.168.1.10", 7000);
    let mut headers = Headers::new();
    headers.insert("Session", "ABC123;timeout=60");
    let response = response(200, "OK", headers);
    session.process_response(Method::Setup, &response).unwrap();
    assert_eq!(session.session_id(), Some("ABC123"));
}

#[test]
fn session_test_session_can_send_validation() {
    let session = RtspSession::new("192.168.1.10", 7000);
    assert!(session.can_send(Method::Options));
    assert!(!session.can_send(Method::Setup));
    assert!(!session.can_send(Method::Record));
}

#[test]
fn tests_test_session_can_send_validation() {
    let session = RtspSession::new("192.168.1.10", 7000);
    assert!(session.can_send(Method::Options));
    assert!(!session.can_send(Method::Setup));
    assert!(!session.can_send(Method::Record));
}

#[test]
fn session_test_request_includes_common_headers() {
    let mut session = RtspSession::new("192.168.1.10", 7000);
    let request = session.options_request();
    assert!(request.headers.get("X-Apple-Device-ID").is_some());
    assert!(request.headers.get("X-Apple-Session-ID").is_some());
    assert!(request.headers.get("User-Agent").is_some());
}

#[test]
fn tests_test_request_includes_common_headers() {
    let mut session = RtspSession::new("192.168.1.10", 7000);
    let request = session.options_request();
    assert!(request.headers.get("X-Apple-Device-ID").is_some());
    assert!(request.headers.get("X-Apple-Session-ID").is_some());
    assert!(request.headers.get("User-Agent").is_some());
}

#[test]
fn session_test_invalid_state_transitions() {
    let session = RtspSession::new("192.168.1.10", 7000);
    assert!(!session.can_send(Method::Setup));
    assert!(!session.can_send(Method::Record));
}

#[test]
fn tests_test_invalid_state_transitions() {
    let session = RtspSession::new("192.168.1.10", 7000);
    assert!(!session.can_send(Method::Setup));
    assert!(!session.can_send(Method::Record));
}

#[test]
fn session_test_process_response_error() {
    let mut session = RtspSession::new("192.168.1.10", 7000);
    let response = response(500, "Internal Error", Headers::new());
    let result = session.process_response(Method::Options, &response);
    assert!(result.is_err());
    assert_eq!(session.state(), SessionState::Init);
}

#[test]
fn tests_test_process_response_error() {
    let mut session = RtspSession::new("192.168.1.10", 7000);
    let response = response(500, "Internal Error", Headers::new());
    let result = session.process_response(Method::Options, &response);
    assert!(result.is_err());
    assert_eq!(session.state(), SessionState::Init);
}

#[test]
fn session_test_teardown_always_allowed() {
    let session = RtspSession::new("192.168.1.10", 7000);
    assert!(session.can_send(Method::Teardown));
}

#[test]
fn tests_test_teardown_always_allowed() {
    let session = RtspSession::new("192.168.1.10", 7000);
    assert!(session.can_send(Method::Teardown));
}

#[test]
fn test_status_code_checks() {
    assert!(StatusCode(200).is_success());
    assert!(!StatusCode(200).is_client_error());
    assert!(StatusCode(404).is_client_error());
    assert!(!StatusCode(404).is_success());
    assert!(StatusCode(500).is_server_error());
}

#[test]
fn test_request_builder_methods() {
    let request = RtspRequest::builder(Method::Play, "rtsp://test")
        .header("Custom", "Value")
        .build();
    assert_eq!(request.method, Method::Play);
    assert_eq!(request.headers.get("Custom"), Some("Value"));
}

#[test]
fn test_status_code_classification() {
    assert!(StatusCode(200).is_success());
    assert!(StatusCode(201).is_success());
    assert!(!StatusCode(200).is_client_error());
    assert!(!StatusCode(200).is_server_error());
    assert!(StatusCode(400).is_client_error());
    assert!(StatusCode(404).is_client_error());
    assert!(!StatusCode(404).is_success());
    assert!(StatusCode(500).is_server_error());
    assert!(StatusCode(503).is_server_error());
    assert!(!StatusCode(500).is_success());
}

#[test]
fn test_all_state_transitions() {
    let mut session = RtspSession::new("1.2.3.4", 1234);
    let resp = response(200, "OK", Headers::new());
    session.process_response(Method::Options, &resp).unwrap();
    assert_eq!(session.state(), SessionState::Ready);
    session.process_response(Method::Setup, &resp).unwrap();
    assert_eq!(session.state(), SessionState::Setup);
    session.process_response(Method::Record, &resp).unwrap();
    assert_eq!(session.state(), SessionState::Playing);
    session.process_response(Method::Pause, &resp).unwrap();
    assert_eq!(session.state(), SessionState::Paused);
    session.process_response(Method::Play, &resp).unwrap();
    assert_eq!(session.state(), SessionState::Playing);
    session.process_response(Method::Teardown, &resp).unwrap();
    assert_eq!(session.state(), SessionState::Terminated);
}

#[test]
fn test_can_send_comprehensive() {
    let mut session = RtspSession::new("1.2.3.4", 1234);
    assert!(session.can_send(Method::Options));
    assert!(session.can_send(Method::Post));
    assert!(!session.can_send(Method::Setup));
    assert!(!session.can_send(Method::Record));
    assert!(session.can_send(Method::Teardown));

    let resp = response(200, "OK", Headers::new());
    session.process_response(Method::Options, &resp).unwrap();
    assert!(session.can_send(Method::Setup));
    assert!(session.can_send(Method::Post));
    assert!(!session.can_send(Method::Record));

    session.process_response(Method::Setup, &resp).unwrap();
    assert!(session.can_send(Method::Record));
    assert!(session.can_send(Method::Play));
    assert!(!session.can_send(Method::Pause));

    session.process_response(Method::Record, &resp).unwrap();
    assert!(session.can_send(Method::Pause));
    assert!(session.can_send(Method::Flush));
    assert!(session.can_send(Method::SetParameter));
    assert!(session.can_send(Method::GetParameter));
    assert!(session.can_send(Method::Teardown));

    session.process_response(Method::Pause, &resp).unwrap();
    assert!(session.can_send(Method::Record));
    assert!(session.can_send(Method::Play));
    assert!(session.can_send(Method::Teardown));
    assert!(session.can_send(Method::SetParameter));
}

#[test]
fn rtsp_request_exact_bytes() {
    let request = RtspRequest::builder(Method::Record, "rtsp://h/1")
        .cseq(7)
        .session("S1")
        .body(b"ab".to_vec())
        .build();
    let text = String::from_utf8(request.encode()).unwrap();
    assert!(text.starts_with("RECORD rtsp://h/1 RTSP/1.0\r\n"));
    assert!(text.contains("CSeq: 7\r\n"));
    assert!(text.contains("Session: S1\r\n"));
    assert!(text.contains("Content-Length: 2\r\n"));
    assert!(text.ends_with("\r\n\r\nab"));
}

#[test]
fn rtsp_headers_case_insensitive_and_replace() {
    let mut headers = Headers::new();
    headers.insert("Content-Length", "10");
    headers.insert("content-length", "12");
    assert_eq!(headers.len(), 1);
    assert_eq!(headers.get("CONTENT-LENGTH"), Some("12"));
    assert_eq!(headers.content_length(), Some(12));
    headers.insert("CSeq", "nope");
    assert_eq!(headers.cseq(), None);
    assert!(headers.contains("cseq"));
}

#[test]
fn rtsp_session_teardown_after_terminated() {
    let mut session = RtspSession::new("1.2.3.4", 1234);
    let resp = response(200, "OK", Headers::new());
    session.process_response(Method::Teardown, &resp).unwrap();
    assert_eq!(session.state(), SessionState::Terminated);
    assert!(session.can_send(Method::Teardown));
    assert!(session.can_send(Method::Options));
    assert!(!session.can_send(Method::Record));
}

#[test]
fn rtsp_response_accessors() {
    let mut headers = Headers::new();
    headers.insert("CSeq", "3");
    headers.insert("Session", "XYZ");
    let resp = response(200, "OK", headers);
    assert!(resp.is_success());
    assert_eq!(resp.cseq(), Some(3));
    assert_eq!(resp.session(), Some("XYZ"));
    assert_eq!(StatusCode(204).as_u16(), 204);
}

// --- response decoding ---

#[test]
fn test_decode_simple_response() {
    let mut codec = RtspCodec::new();

    codec
        .feed(
            b"RTSP/1.0 200 OK\r\n\
                 CSeq: 1\r\n\
                 \r\n",
        )
        .unwrap();

    let response = codec.decode().unwrap().unwrap();

    assert_eq!(response.version, "RTSP/1.0");
    assert_eq!(response.status, StatusCode(200));
    assert_eq!(response.reason, "OK");
    assert_eq!(response.cseq(), Some(1));
    assert!(response.body.is_empty());
}

#[test]
fn test_decode_response_with_body() {
    let mut codec = RtspCodec::new();

    codec
        .feed(
            b"RTSP/1.0 200 OK\r\n\
                 CSeq: 2\r\n\
                 Content-Length: 5\r\n\
                 \r\n\
                 hello",
        )
        .unwrap();

    let response = codec.decode().unwrap().unwrap();

    assert_eq!(response.body, b"hello");
}

#[test]
fn test_decode_incremental() {
    let mut codec = RtspCodec::new();

    codec.feed(b"RTSP/1.0 200 ").unwrap();
    assert!(codec.decode().unwrap().is_none());

    codec.feed(b"OK\r\n").unwrap();
    assert!(codec.decode().unwrap().is_none());

    codec.feed(b"CSeq: 1\r\n\r\n").unwrap();
    assert!(codec.decode().unwrap().is_some());
}

#[test]
fn test_decode_multiple_responses() {
    let mut codec = RtspCodec::new();

    codec
        .feed(
            b"RTSP/1.0 200 OK\r\nCSeq: 1\r\n\r\n\
                 RTSP/1.0 200 OK\r\nCSeq: 2\r\n\r\n",
        )
        .unwrap();

    let r1 = codec.decode().unwrap().unwrap();
    assert_eq!(r1.cseq(), Some(1));

    let r2 = codec.decode().unwrap().unwrap();
    assert_eq!(r2.cseq(), Some(2));

    assert!(codec.decode().unwrap().is_none());
}

#[test]
fn test_decode_invalid_status_line() {
    let mut codec = RtspCodec::new();

    codec.feed(b"INVALID LINE\r\n\r\n").unwrap();

    let result = codec.decode();
    assert!(matches!(result, Err(RtspCodecError::InvalidStatusLine(_))));
}

#[test]
fn test_max_size_limit() {
    let mut codec = RtspCodec::new().with_max_size(100);

    let result = codec.feed(&[0u8; 200]);

    assert!(matches!(
        result,
        Err(RtspCodecError::ResponseTooLarge { .. })
    ));
}

#[test]
fn test_decode_byte_by_byte() {
    let mut codec = RtspCodec::new();
    let data = b"RTSP/1.0 200 OK\r\nCSeq: 1\r\n\r\n";

    let mut response = None;
    for byte in data {
        codec.feed(&[*byte]).unwrap();
        if let Some(r) = codec.decode().unwrap() {
            response = Some(r);
            break;
        }
    }

    assert!(response.is_some());
    assert_eq!(response.unwrap().cseq(), Some(1));
}

#[test]
fn test_decode_split_body() {
    let mut codec = RtspCodec::new();
    let header = b"RTSP/1.0 200 OK\r\nContent-Length: 5\r\n\r\n";
    let body_part1 = b"he";
    let body_part2 = b"llo";

    codec.feed(header).unwrap();
    assert!(codec.decode().unwrap().is_none());

    codec.feed(body_part1).unwrap();
    assert!(codec.decode().unwrap().is_none());

    codec.feed(body_part2).unwrap();
    let response = codec.decode().unwrap().unwrap();

    assert_eq!(response.body, b"hello");
}

#[test]
fn test_header_case_insensitivity() {
    let mut codec = RtspCodec::new();
    let data = b"RTSP/1.0 200 OK\r\nCONTENT-LENGTH: 0\r\ncseq: 99\r\n\r\n";

    codec.feed(data).unwrap();
    let response = codec.decode().unwrap().unwrap();

    assert_eq!(response.cseq(), Some(99));
    assert_eq!(response.headers.content_length(), Some(0));
}

#[test]
fn test_decode_incomplete_header() {
    let mut codec = RtspCodec::new();
    codec.feed(b"RTSP/1.0 200 OK\r\nContent-Len").unwrap();
    assert!(codec.decode().unwrap().is_none());
}

#[test]
fn test_decode_reset() {
    let mut codec = RtspCodec::new();
    codec.feed(b"RTSP/1.0 200 OK").unwrap();
    codec.reset();
    assert_eq!(codec.buffered_len(), 0);

    codec.feed(b"RTSP/1.0 200 OK\r\n\r\n").unwrap();
    assert!(codec.decode().unwrap().is_some());
}

#[test]
fn codec_reason_phrase_with_spaces_and_leftover_bytes() {
    let mut codec = RtspCodec::new();
    codec
        .feed(b"RTSP/1.0 455 Method Not Valid in This State\r\nCSeq: 3\r\n\r\nRTSP")
        .unwrap();
    let response = codec.decode().unwrap().unwrap();
    assert_eq!(response.status, StatusCode(455));
    assert_eq!(response.reason, "Method Not Valid in This State");
    assert_eq!(codec.buffered_len(), 4);
}

#[test]
fn codec_errors_leave_buffer_in_place() {
    let mut codec = RtspCodec::new();
    codec.feed(b"RTSP/1.0 200 OK\r\nNoColonHere\r\n\r\n").unwrap();
    match codec.decode() {
        Err(RtspCodecError::InvalidHeader(line)) => assert_eq!(line, "NoColonHere"),
        other => panic!("unexpected {other:?}"),
    }
    assert_eq!(codec.buffered_len(), 32);

    let mut codec = RtspCodec::new();
    codec.feed(b"RTSP/1.0 200 OK\r\nContent-Length: five\r\n\r\n").unwrap();
    match codec.decode() {
        Err(RtspCodecError::InvalidContentLength(v)) => assert_eq!(v, "five"),
        other => panic!("unexpected {other:?}"),
    }

    let mut codec = RtspCodec::new();
    codec.feed(b"RTSP/1.0 200 OK\r\nX: \xff\r\n\r\n").unwrap();
    assert!(matches!(codec.decode(), Err(RtspCodecError::InvalidEncoding)));
}

#[test]
fn codec_too_large_reports_sizes() {
    let mut codec = RtspCodec::new().with_max_size(10);
    codec.feed(b"RTSP/").unwrap();
    match codec.feed(b"1.0 200") {
        Err(RtspCodecError::ResponseTooLarge { size, max }) => {
            assert_eq!(size, 12);
            assert_eq!(max, 10);
        }
        other => panic!("unexpected {other:?}"),
    }
    assert_eq!(codec.buffered_len(), 5);
}

// --- request decoding and response building ---

#[test]
fn test_parse_options_request() {
    let mut codec = RtspServerCodec::new();
    codec.feed(b"OPTIONS * RTSP/1.0\r\nCSeq: 1\r\n\r\n");

    let request = codec.decode().unwrap().unwrap();
    assert_eq!(request.method, Method::Options);
    assert_eq!(request.uri, "*");
    assert_eq!(request.headers.cseq(), Some(1));
}

#[test]
fn test_parse_announce_with_sdp() {
    let sdp = "v=0\r\no=- 0 0 IN IP4 192.168.1.100\r\ns=AirTunes\r\n";
    let request_str = format!(
        "ANNOUNCE rtsp://192.168.1.1/1234 RTSP/1.0\r\n\
         CSeq: 2\r\n\
         Content-Type: application/sdp\r\n\
         Content-Length: {}\r\n\
         \r\n\
         {}",
        sdp.len(),
        sdp
    );

    let mut codec = RtspServerCodec::new();
    codec.feed(request_str.as_bytes());

    let request = codec.decode().unwrap().unwrap();
    assert_eq!(request.method, Method::Announce);
    assert_eq!(request.headers.get("Content-Type"), Some("application/sdp"));
    assert_eq!(String::from_utf8_lossy(&request.body), sdp);
}

#[test]
fn test_parse_incomplete_request() {
    let mut codec = RtspServerCodec::new();
    codec.feed(b"OPTIONS * RTSP/1.0\r\n");

    assert!(codec.decode().unwrap().is_none());

    codec.feed(b"CSeq: 1\r\n\r\n");

    let request = codec.decode().unwrap().unwrap();
    assert_eq!(request.method, Method::Options);
}

#[test]
fn test_parse_incomplete_body() {
    let mut codec = RtspServerCodec::new();
    codec.feed(
        b"SET_PARAMETER rtsp://192.168.1.1/1234 RTSP/1.0\r\n\
          CSeq: 5\r\n\
          Content-Length: 20\r\n\
          \r\n\
          volume: -1",
    );

    assert!(codec.decode().unwrap().is_none());

    codec.feed(b"5.000000\r\n");

    let request = codec.decode().unwrap().unwrap();
    assert_eq!(
        String::from_utf8_lossy(&request.body),
        "volume: -15.000000\r\n"
    );
}

#[test]
fn test_parse_multiple_requests() {
    let mut codec = RtspServerCodec::new();
    codec.feed(
        b"OPTIONS * RTSP/1.0\r\nCSeq: 1\r\n\r\n\
          OPTIONS * RTSP/1.0\r\nCSeq: 2\r\n\r\n",
    );

    let req1 = codec.decode().unwrap().unwrap();
    assert_eq!(req1.headers.cseq(), Some(1));

    let req2 = codec.decode().unwrap().unwrap();
    assert_eq!(req2.headers.cseq(), Some(2));

    assert!(codec.decode().unwrap().is_none());
}

#[test]
fn test_response_builder() {
    let response = ResponseBuilder::ok()
        .cseq(5)
        .session("ABC123")
        .header("Custom-Header", "value")
        .encode();

    let response_str = String::from_utf8(response).unwrap();
    assert!(response_str.starts_with("RTSP/1.0 200 OK\r\n"));
    assert!(response_str.contains("CSeq: 5\r\n"));
    assert!(response_str.contains("Session: ABC123\r\n"));
    assert!(response_str.contains("Custom-Header: value\r\n"));
    assert!(response_str.ends_with("\r\n\r\n"));
}

#[test]
fn test_response_with_body() {
    let body = "volume: -15.000000\r\n";
    let response = ResponseBuilder::ok().cseq(10).text_body(body).encode();

    let response_str = String::from_utf8(response).unwrap();
    assert!(response_str.contains(&format!("Content-Length: {}\r\n", body.len())));
    assert!(response_str.contains("Content-Type: text/parameters\r\n"));
    assert!(response_str.ends_with(body));
}

#[test]
fn test_error_response() {
    let response = ResponseBuilder::error(StatusCode(404))
        .cseq(99)
        .encode();

    let response_str = String::from_utf8(response).unwrap();
    assert!(response_str.starts_with("RTSP/1.0 404 Not Found\r\n"));
}

#[test]
fn server_codec_rejects_bad_request_lines() {
    let mut codec = RtspServerCodec::new();
    codec.feed(b"OPTIONS *\r\n\r\n");
    match codec.decode() {
        Err(ServerCodecError::InvalidRequestLine(l)) => assert_eq!(l, "OPTIONS *"),
        other => panic!("unexpected {other:?}"),
    }

    let mut codec = RtspServerCodec::new();
    codec.feed(b"BREW * RTSP/1.0\r\n\r\n");
    match codec.decode() {
        Err(ServerCodecError::UnknownMethod(m)) => assert_eq!(m, "BREW"),
        other => panic!("unexpected {other:?}"),
    }

    let mut codec = RtspServerCodec::new();
    codec.feed(b"OPTIONS * HTTP/1.1\r\n\r\n");
    assert!(matches!(
        codec.decode(),
        Err(ServerCodecError::InvalidRequestLine(_))
    ));
}

#[test]
fn built_response_decodes_back() {
    let bytes = ResponseBuilder::ok()
        .cseq(7)
        .text_body("volume: -20.0\r\n")
        .encode();
    let mut codec = RtspCodec::new();
    codec.feed(&bytes).unwrap();
    let response = codec.decode().unwrap().unwrap();
    assert_eq!(response.status, StatusCode(200));
    assert_eq!(response.reason, "OK");
    assert_eq!(response.cseq(), Some(7));
    assert_eq!(response.headers.get("Content-Type"), Some("text/parameters"));
    assert_eq!(response.body, b"volume: -20.0\r\n");
    assert_eq!(codec.buffered_len(), 0);
}

#[test]
fn encoded_request_decodes_back() {
    let request = RtspRequest::builder(Method::SetParameter, "rtsp://10.0.0.2/1")
        .cseq(4)
        .content_type("text/parameters")
        .body(b"volume: -3.0\r\n".to_vec())
        .build();
    let mut codec = RtspServerCodec::new();
    codec.feed(&request.encode());
    let decoded = codec.decode().unwrap().unwrap();
    assert_eq!(decoded.method, Method::SetParameter);
    assert_eq!(decoded.uri, "rtsp://10.0.0.2/1");
    assert_eq!(decoded.headers.cseq(), Some(4));
    assert_eq!(decoded.headers.content_length(), Some(14));
    assert_eq!(decoded.body, b"volume: -3.0\r\n");
}

// --- Transport header ---

#[test]
fn test_parse_basic_transport() {
    let transport = TransportHeader::parse("RTP/AVP/UDP;unicast;mode=record").unwrap();

    assert_eq!(transport.protocol, "RTP/AVP");
    assert_eq!(transport.lower_transport, LowerTransport::Udp);
    assert_eq!(transport.cast, CastMode::Unicast);
    assert_eq!(transport.mode, Some("record".to_string()));
}

#[test]
fn test_parse_transport_with_ports() {
    let transport = TransportHeader::parse(
        "RTP/AVP/UDP;unicast;mode=record;control_port=6001;timing_port=6002",
    )
    .unwrap();

    assert_eq!(transport.control_port, Some(6001));
    assert_eq!(transport.timing_port, Some(6002));
}

#[test]
fn test_parse_tcp_transport() {
    let transport = TransportHeader::parse("RTP/AVP/TCP;unicast;interleaved=0-1").unwrap();

    assert_eq!(transport.lower_transport, LowerTransport::Tcp);
    assert_eq!(transport.interleaved, Some((0, 1)));
}

#[test]
fn test_response_header_generation() {
    let transport = TransportHeader::parse("RTP/AVP/UDP;unicast;mode=record").unwrap();

    let response = transport.to_response_header(6000, 6001, 6002);
    assert!(response.contains("server_port=6000"));
    assert!(response.contains("control_port=6001"));
    assert!(response.contains("timing_port=6002"));
}

#[test]
fn transport_exact_reply_and_errors() {
    let transport = TransportHeader::parse("RTP/AVP;multicast;mode=record;x-foo=1").unwrap();
    assert_eq!(transport.protocol, "RTP/AVP");
    assert_eq!(transport.lower_transport, LowerTransport::Udp);
    assert_eq!(transport.cast, CastMode::Multicast);
    assert_eq!(
        transport.to_response_header(1, 2, 3),
        "RTP/AVP/UDP;multicast;mode=record;server_port=1;control_port=2;timing_port=3"
    );
    assert!(matches!(TransportHeader::parse(""), Err(TransportError::Empty)));
    match TransportHeader::parse("RTP/AVP/UDP;control_port=70000") {
        Err(TransportError::InvalidParameter(p)) => assert_eq!(p, "control_port=70000"),
        other => panic!("unexpected {other:?}"),
    }
    assert!(matches!(
        TransportHeader::parse("RTP/AVP/TCP;interleaved=0"),
        Err(TransportError::InvalidParameter(_))
    ));
}

#[test]
fn transport_reply_parses_back() {
    let transport = TransportHeader::parse("RTP/AVP/TCP;multicast;mode=record").unwrap();
    let reply = transport.to_response_header(6000, 6001, 6002);
    let parsed = TransportHeader::parse(&reply).unwrap();
    assert_eq!(parsed.protocol, "RTP/AVP");
    assert_eq!(parsed.lower_transport, LowerTransport::Tcp);
    assert_eq!(parsed.cast, CastMode::Multicast);
    assert_eq!(parsed.mode, Some("record".to_string()));
    assert_eq!(parsed.server_port, Some(6000));
    assert_eq!(parsed.control_port, Some(6001));
    assert_eq!(parsed.timing_port, Some(6002));
    assert_eq!(parsed.interleaved, None);
}

#[test]
fn test_response_is_plist() {
    let mut headers = Headers::new();
    headers.insert("Content-Type", "application/x-apple-binary-plist");

    let response = RtspResponse {
        version: "RTSP/1.0".to_string(),
        status: StatusCode(200),
        reason: "OK".to_string(),
        headers,
        body: vec![],
    };

    assert!(response.is_plist());

    let mut headers2 = Headers::new();
    headers2.insert("Content-Type", "text/plain");
    let response2 = RtspResponse {
        version: "RTSP/1.0".to_string(),
        status: StatusCode(200),
        reason: "OK".to_string(),
        headers: headers2,
        body: vec![],
    };
    assert!(!response2.is_plist());
}

#[test]
fn test_response_body_as_plist() {

    let value = PlistValue::String("test".to_string());
    let encoded = airplay2::plist::encode(&value).unwrap();

    let mut headers = Headers::new();
    headers.insert("Content-Type", "application/x-apple-binary-plist");

    let response = RtspResponse {
        version: "RTSP/1.0".to_string(),
        status: StatusCode(200),
        reason: "OK".to_string(),
        headers,
        body: encoded,
    };

    let decoded = response.body_as_plist().unwrap();
    assert_eq!(decoded.as_str(), Some("test"));
}

#[test]
fn request_body_plist_sets_body_and_type() {

    let value = PlistValue::Boolean(true);
    let request = RtspRequest::builder(Method::Post, "/feedback")
        .body_plist(&value)
        .build();
    assert_eq!(request.body, airplay2::plist::encode(&value).unwrap());
    assert_eq!(
        request.headers.get("Content-Type"),
        Some("application/x-apple-binary-plist")
    );
}
