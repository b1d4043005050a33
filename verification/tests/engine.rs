use xproxy::engine::{
    build_fetch_headers, cache_policy, conclude_transfer, connect_plan, dispatch_response,
    failure_status, note_redirect, parse_hex_u64, plan_framing, ConnectError, ConnectPlan,
    ConnectionReturn, FetchFailure, FramingError, RedirectError, ResponseDirective, SinkLiveness,
};
use xproxy::flights::FlightState;
use xproxy::uri::Uri;

#[test]
fn test_connect_plan_plain() {
    let uri = Uri::new("http://example.com/path".to_string());
    match connect_plan(&uri) {
        Ok(ConnectPlan::Plain { authority }) => assert_eq!(authority, "example.com:80"),
        _ => panic!("expected a plain connection plan"),
    }
}

#[test]
fn test_connect_plan_tls() {
    let uri = Uri::new("https://example.com:8443/path".to_string());
    match connect_plan(&uri) {
        Ok(ConnectPlan::Tls {
            authority,
            server_name,
        }) => {
            assert_eq!(authority, "example.com:8443");
            assert_eq!(server_name, "example.com");
        }
        _ => panic!("expected a TLS connection plan"),
    }
}

#[test]
fn test_connect_plan_no_host() {
    let uri = Uri::new("/path/only".to_string());
    assert!(matches!(connect_plan(&uri), Err(ConnectError::NoHost)));
}

#[test]
fn test_connect_plan_unsupported_scheme() {
    let uri = Uri::new("ftp://example.com:21/file".to_string());
    assert!(matches!(
        connect_plan(&uri),
        Err(ConnectError::UnsupportedScheme)
    ));
    let no_scheme = Uri::new("example.com:8080/p".to_string());
    assert!(matches!(
        connect_plan(&no_scheme),
        Err(ConnectError::UnsupportedScheme)
    ));
}

#[test]
fn test_redirect_loop_stops_after_five_hops() {
    let mut history = vec!["http://origin.example/start".to_string()];
    for hop in 1..=5u32 {
        let location = format!("http://origin.example/hop{hop}");
        assert!(note_redirect(&mut history, &location).is_ok());
    }
    assert_eq!(history.len(), 6);
    let sixth = "http://origin.example/hop6".to_string();
    assert!(matches!(
        note_redirect(&mut history, &sixth),
        Err(RedirectError::TooManyHops)
    ));
    assert_eq!(history.len(), 6);
}

#[test]
fn test_redirect_cycle_rejected_immediately() {
    let mut history = vec!["http://origin.example/start".to_string()];
    assert!(note_redirect(&mut history, "http://origin.example/next").is_ok());
    assert!(matches!(
        note_redirect(&mut history, "http://origin.example/start"),
        Err(RedirectError::Cycle)
    ));
    assert_eq!(history.len(), 2);
}

#[test]
fn test_cache_policy() {
    assert_eq!(cache_policy(&None), (true, true));
    assert_eq!(cache_policy(&Some("no-store".to_string())), (false, true));
    assert_eq!(cache_policy(&Some("No-Store".to_string())), (false, true));
    assert_eq!(cache_policy(&Some("PRIVATE".to_string())), (false, true));
    assert_eq!(cache_policy(&Some("max-age=60".to_string())), (true, true));
}

#[test]
fn test_plan_framing_chunked() {
    assert_eq!(
        plan_framing(&Some("chunked".to_string()), &None),
        Ok(FlightState::Chunks)
    );
    assert_eq!(
        plan_framing(&Some("Chunked".to_string()), &Some("10".to_string())),
        Ok(FlightState::Chunks)
    );
    assert_eq!(
        plan_framing(&Some("gzip".to_string()), &None),
        Err(FramingError::NotChunked)
    );
}

#[test]
fn test_plan_framing_fixed_length() {
    assert_eq!(
        plan_framing(&None, &Some("1234".to_string())),
        Ok(FlightState::Length(1234))
    );
    assert_eq!(plan_framing(&None, &None), Err(FramingError::MissingLength));
    assert_eq!(
        plan_framing(&None, &Some("12x".to_string())),
        Err(FramingError::BadLength)
    );
    assert_eq!(
        plan_framing(&None, &Some("".to_string())),
        Err(FramingError::BadLength)
    );
    assert_eq!(
        plan_framing(&None, &Some("18446744073709551616".to_string())),
        Err(FramingError::BadLength)
    );
    assert_eq!(
        plan_framing(&None, &Some("18446744073709551615".to_string())),
        Ok(FlightState::Length(u64::MAX))
    );
}

#[test]
fn test_dispatch_response_success() {
    let r = dispatch_response(200, &None, &None, &None, &Some("42".to_string()));
    match r {
        ResponseDirective::Transfer { framing, persist } => {
            assert_eq!(framing, FlightState::Length(42));
            assert!(persist);
        }
        _ => panic!("expected a transfer directive"),
    }
    let private = dispatch_response(
        200,
        &None,
        &Some("private".to_string()),
        &Some("chunked".to_string()),
        &None,
    );
    match private {
        ResponseDirective::Transfer { framing, persist } => {
            assert_eq!(framing, FlightState::Chunks);
            assert!(!persist);
        }
        _ => panic!("expected a transfer directive"),
    }
}

#[test]
fn test_dispatch_response_errors() {
    assert!(matches!(
        dispatch_response(200, &None, &None, &None, &None),
        ResponseDirective::Reject { status: 500 }
    ));
    assert!(matches!(
        dispatch_response(200, &None, &None, &None, &Some("nan".to_string())),
        ResponseDirective::Reject { status: 400 }
    ));
    assert!(matches!(
        dispatch_response(302, &None, &None, &None, &None),
        ResponseDirective::Reject { status: 400 }
    ));
}

#[test]
fn test_dispatch_response_redirect_and_pass_through() {
    let r = dispatch_response(
        301,
        &Some("http://other.example/x".to_string()),
        &None,
        &None,
        &None,
    );
    match r {
        ResponseDirective::FollowRedirect { location } => {
            assert_eq!(location, "http://other.example/x")
        }
        _ => panic!("expected a redirect directive"),
    }
    assert!(matches!(
        dispatch_response(404, &None, &None, &None, &None),
        ResponseDirective::PassThrough
    ));
    assert!(matches!(
        dispatch_response(304, &None, &None, &None, &None),
        ResponseDirective::PassThrough
    ));
}

#[test]
fn test_failure_status() {
    assert_eq!(failure_status(&FetchFailure::Connect(ConnectError::Tcp)), 500);
    assert_eq!(failure_status(&FetchFailure::Connect(ConnectError::Tls)), 500);
    assert_eq!(failure_status(&FetchFailure::BadHeader), 502);
    assert_eq!(failure_status(&FetchFailure::CacheIo), 500);
    assert_eq!(
        failure_status(&FetchFailure::Redirect(RedirectError::TooManyHops)),
        500
    );
    assert_eq!(
        failure_status(&FetchFailure::Redirect(RedirectError::Cycle)),
        500
    );
}

#[test]
fn test_parse_hex_chunk_size() {
    assert_eq!(parse_hex_u64("0"), Some(0));
    assert_eq!(parse_hex_u64("1a3"), Some(419));
    assert_eq!(parse_hex_u64("1A3"), Some(419));
    assert_eq!(parse_hex_u64("ffffffffffffffff"), Some(u64::MAX));
    assert_eq!(parse_hex_u64("10000000000000000"), None);
    assert_eq!(parse_hex_u64(""), None);
    assert_eq!(parse_hex_u64("12g"), None);
}

#[test]
fn test_sink_liveness_tracking() {
    let live = SinkLiveness::fresh();
    assert!(live.file && live.stream);
    let stream_died = live.step(true, false);
    assert!(stream_died.file);
    assert!(!stream_died.stream);
    let still = stream_died.step(true, false);
    assert!(still.file);
    assert!(!still.stream);
    assert!(!still.both_dead());
    let dead = still.step(false, false);
    assert!(dead.both_dead());
}

#[test]
fn test_client_loss_leaves_file_sink_complete() {
    // A fixed-length body crosses the dual-sink copy while the client
    // vanishes after the first segment: every byte must still reach the
    // file sink, whose final size equals the declared length.
    let body: Vec<u8> = (0u8..200).cycle().take(1000).collect();
    let content_length = body.len() as u64;
    let mut file_sink: Vec<u8> = Vec::new();
    let mut client_sink: Vec<u8> = Vec::new();
    let mut live = SinkLiveness::fresh();
    for (i, segment) in body.chunks(100).enumerate() {
        let file_ok = if live.file {
            file_sink.extend_from_slice(segment);
            true
        } else {
            true
        };
        let stream_ok = if live.stream {
            if i >= 1 {
                false // the client socket is gone
            } else {
                client_sink.extend_from_slice(segment);
                true
            }
        } else {
            true
        };
        live = live.step(file_ok, stream_ok);
        if live.both_dead() {
            break;
        }
    }
    assert!(live.file);
    assert!(!live.stream);
    assert_eq!(file_sink.len() as u64, content_length);
    assert_eq!(file_sink, body);
}

#[test]
fn test_conclude_transfer_sets_modified_time() {
    let live = SinkLiveness { file: true, stream: true };
    let parsed = conclude_transfer(
        live,
        &Some("Fri, 15 May 2015 15:34:21 GMT".to_string()),
        true,
    );
    assert!(parsed.set_modified.is_some());
    assert!(!parsed.delete_file);
    assert!(parsed.shutdown_client);
    assert_eq!(parsed.disposition, ConnectionReturn::KeepAlive);
    let garbage = conclude_transfer(live, &Some("yesterday-ish".to_string()), false);
    assert!(garbage.set_modified.is_none());
    assert_eq!(garbage.disposition, ConnectionReturn::Close);
}

#[test]
fn test_conclude_transfer_deletes_partial_file() {
    let live = SinkLiveness { file: false, stream: true };
    let r = conclude_transfer(
        live,
        &Some("Fri, 15 May 2015 15:34:21 GMT".to_string()),
        true,
    );
    assert!(r.delete_file);
    assert!(r.set_modified.is_none());
    assert_eq!(r.disposition, ConnectionReturn::Close);
}

#[test]
fn test_build_fetch_headers() {
    let headers = vec![
        ("Accept".to_string(), "*/*".to_string()),
        ("Range".to_string(), "bytes=0-5".to_string()),
        ("Host".to_string(), "proxy.example:3142".to_string()),
        ("User-Agent".to_string(), "tester".to_string()),
    ];
    let out = build_fetch_headers(&headers, "origin.example:80");
    assert_eq!(
        out,
        vec![
            ("Accept".to_string(), "*/*".to_string()),
            ("User-Agent".to_string(), "tester".to_string()),
            ("Host".to_string(), "origin.example:80".to_string()),
        ]
    );
}
