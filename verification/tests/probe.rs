use std::collections::HashMap;

use safetensors::tensor::{Dtype, TensorView};
use stprobe::{
    build_report, classify_input, classify_url, format_shape, inspect_local_buffer,
    inspect_remote_header, numel, parse_total_size_from_content_range, render_report,
    report_from_remote_header, InspectError, Input, RemoteUrl,
};
use stprobe::remote::{
    check_partial_content, check_remote_size, check_response_bytes, decode_header_len,
    header_bytes_range, parse_total_size, range_header, PARTIAL_CONTENT,
};
use stprobe::input::{bearer_authorization, is_hugging_face_url};
use stprobe::layout::le_u64;
use stprobe::probe::{ProbeAction, ProbeEvent, ProbeStage, RemoteProbe};
use stprobe::text::{after_last_slash, contains_scheme_separator, order_text, parse_u64, TextOrder};

fn sample_safetensors_bytes() -> Vec<u8> {
    let weight = [1.0_f32.to_le_bytes(), 2.0_f32.to_le_bytes()].concat();
    let ids = [1_i64.to_le_bytes(), 2_i64.to_le_bytes()].concat();

    let weight_view = TensorView::new(Dtype::F32, vec![2], &weight).expect("valid weight tensor");
    let ids_view = TensorView::new(Dtype::I64, vec![2], &ids).expect("valid ids tensor");

    safetensors::serialize(
        vec![("embedding.ids", ids_view), ("embedding.weight", weight_view)],
        Some(HashMap::from([("format".to_owned(), "pt".to_owned())])),
    )
    .expect("serialize test safetensors fixture")
}

fn split_header(bytes: &[u8]) -> (Vec<u8>, Vec<u8>) {
    let prefix = bytes[..8].to_vec();
    let header_len = u64::from_le_bytes(prefix.as_slice().try_into().expect("8-byte prefix"));
    let header_end = 8 + header_len as usize;
    let header = bytes[8..header_end].to_vec();
    (prefix, header)
}

fn https_url(text: &str) -> RemoteUrl {
    match classify_input(text).unwrap() {
        Input::HttpUrl(url) => url,
        Input::LocalPath(_) => panic!("expected URL"),
    }
}

#[test]
fn classifies_local_paths() {
    match classify_input("model.safetensors").unwrap() {
        Input::LocalPath(path) => assert_eq!(path, "model.safetensors"),
        Input::HttpUrl(_) => panic!("expected local path"),
    }
}

#[test]
fn classifies_https_urls() {
    match classify_input("https://example.com/model.safetensors").unwrap() {
        Input::HttpUrl(url) => {
            assert_eq!(url.scheme(), "https");
            assert_eq!(url.host_str(), Some("example.com"));
        }
        Input::LocalPath(_) => panic!("expected URL"),
    }
}

#[test]
fn rejects_unsupported_schemes() {
    match classify_input("hf://org/repo/file.safetensors").unwrap_err() {
        InspectError::UnsupportedUrlScheme(scheme) => assert_eq!(scheme, "hf"),
        other => panic!("unexpected error: {}", other.message()),
    }
}

#[test]
fn classifies_windows_drive_paths_as_local() {
    match classify_input(r"C:\models\sample.safetensors").unwrap() {
        Input::LocalPath(path) => {
            assert_eq!(path, r"C:\models\sample.safetensors");
        }
        Input::HttpUrl(_) => panic!("expected local path"),
    }
}

#[test]
fn parses_total_size_from_content_range() {
    let total = parse_total_size_from_content_range("bytes 0-7/17246524772").unwrap();
    assert_eq!(total, 17_246_524_772);
}

#[test]
fn rejects_malformed_content_range() {
    let error = parse_total_size_from_content_range("bytes 0-7/*").unwrap_err();
    assert_eq!(error, "invalid total size in Content-Range header");
}

#[test]
fn computes_numel() {
    assert_eq!(numel(&[2, 3, 4], "tensor").unwrap(), 24);
}

#[test]
fn formats_shapes() {
    assert_eq!(format_shape(&[2, 3, 4]), "[2, 3, 4]");
    assert_eq!(format_shape(&[]), "[]");
}

#[test]
fn prints_local_file_summary() {
    let bytes = sample_safetensors_bytes();
    let path_text = "/tmp/sample.safetensors";
    let report = inspect_local_buffer(path_text, bytes.len() as u64, &bytes).expect("valid file");
    let output = render_report(&report);

    assert!(output.contains(&format!("File: {path_text}")));
    assert!(output.contains("Tensors: 2"));
    assert!(output.contains("Parameters: 4"));
    assert!(output.contains("Tensor-Bytes: 24"));
    assert!(output.contains("  format = pt"));
    assert!(output.contains("  F32: 8 bytes"));
    assert!(output.contains("  I64: 16 bytes"));
    assert!(output.contains("  embedding.ids"));
    assert!(output.contains("  embedding.weight"));
}

#[test]
fn returns_nonzero_for_invalid_files() {
    let error = inspect_local_buffer("broken.safetensors", 22, b"not a safetensors file")
        .expect_err("invalid file");
    assert!(error
        .message()
        .starts_with("invalid safetensors file: broken.safetensors ("));
}

#[test]
fn remote_steps_one_by_one() {
    let bytes = sample_safetensors_bytes();
    let total_size = bytes.len();
    let (prefix, header_bytes) = split_header(&bytes);
    let header_end = 8 + header_bytes.len() - 1;
    let url_text = "http://127.0.0.1:8080/resolve/main/sample.safetensors";
    let url = https_url(url_text);

    assert_eq!(range_header(0, 7), "bytes=0-7");
    check_partial_content(PARTIAL_CONTENT, &url).expect("partial content");
    let content_range = format!("bytes 0-7/{total_size}");
    let file_size = parse_total_size(Some(content_range.as_bytes()), &url).expect("total size");
    assert_eq!(file_size, total_size as u64);
    let prefix = check_response_bytes(Ok(prefix), 8, &url).expect("prefix");
    let header_len = decode_header_len(&prefix, &url).expect("header length");
    assert_eq!(header_len, header_bytes.len());

    let (start, end) = header_bytes_range(header_len, &url).expect("header range");
    assert_eq!((start, end), (8, header_end as u64));
    assert_eq!(range_header(start, end), format!("bytes=8-{header_end}"));
    let header_bytes =
        check_response_bytes(Ok(header_bytes), header_len, &url).expect("header bytes");

    let report =
        inspect_remote_header(url_text, file_size, header_len, &header_bytes).expect("report");
    let output = render_report(&report);

    assert!(output.contains(&format!("File: {url_text}")));
    assert!(output.contains("Tensors: 2"));
    assert!(output.contains("Parameters: 4"));
    assert!(output.contains("Tensor-Bytes: 24"));
    assert!(output.contains("  format = pt"));
    assert!(output.contains("  embedding.ids"));
    assert!(output.contains("  embedding.weight"));
}

#[test]
fn reports_servers_without_range_support() {
    let url_text = "http://127.0.0.1:8080/sample.safetensors";
    let url = https_url(url_text);
    let (mut probe, action) = RemoteProbe::start(url_text, url, None);
    match action {
        ProbeAction::Fetch { range, authorization } => {
            assert_eq!(range, "bytes=0-7");
            assert_eq!(authorization, None);
        }
        _ => panic!("expected a request"),
    }
    let action = probe.step(ProbeEvent::Response { status: 200, content_range: None });
    let error = match action {
        ProbeAction::Finish(result) => result.expect_err("range support error"),
        _ => panic!("expected the end"),
    };

    assert_eq!(
        error.message(),
        format!("remote server does not support byte range requests: {url_text}")
    );
    assert_eq!(probe.stage(), ProbeStage::Finished);
}

/// Serves ranges of `bytes` to a probe, as a server that honours them would.
fn serve(bytes: &[u8], url_text: &str, token: Option<String>) -> (Result<stprobe::Report, InspectError>, Vec<String>) {
    let url = https_url(url_text);
    let (mut probe, mut action) = RemoteProbe::start(url_text, url, token);
    let mut ranges = Vec::new();
    let mut pending: Option<Vec<u8>> = None;
    loop {
        action = match action {
            ProbeAction::Fetch { range, authorization } => {
                ranges.push(format!("{range} {authorization:?}"));
                let spec = range.strip_prefix("bytes=").unwrap();
                let (start, end) = spec.split_once('-').unwrap();
                let (start, end): (usize, usize) = (start.parse().unwrap(), end.parse().unwrap());
                pending = Some(bytes[start..=end].to_vec());
                let content_range = format!("bytes {start}-{end}/{}", bytes.len());
                probe.step(ProbeEvent::Response {
                    status: 206,
                    content_range: Some(content_range.into_bytes()),
                })
            }
            ProbeAction::ReadBody { .. } => probe.step(ProbeEvent::Body(Ok(pending.take().unwrap()))),
            ProbeAction::Finish(result) => return (result, ranges),
        };
    }
}

#[test]
fn inspects_remote_files_via_range_requests() {
    let bytes = sample_safetensors_bytes();
    let (_, header_bytes) = split_header(&bytes);
    let header_end = 8 + header_bytes.len() - 1;
    let url = "http://127.0.0.1:8080/cdn/sample.safetensors";
    let (report, ranges) = serve(&bytes, url, Some("secret".to_owned()));
    assert_eq!(
        ranges,
        vec!["bytes=0-7 None".to_owned(), format!("bytes=8-{header_end} None")]
    );
    let output = render_report(&report.expect("inspect remote safetensors"));

    assert!(output.contains(&format!("File: {url}")));
    assert!(output.contains("Tensors: 2"));
    assert!(output.contains("Parameters: 4"));
    assert!(output.contains("Tensor-Bytes: 24"));
    assert!(output.contains("  format = pt"));
    assert!(output.contains("  embedding.ids"));
    assert!(output.contains("  embedding.weight"));

    let local = inspect_local_buffer(url, bytes.len() as u64, &bytes).unwrap();
    assert_eq!(render_report(&local), output);
}

#[test]
fn sends_the_token_to_hugging_face() {
    let bytes = sample_safetensors_bytes();
    let url = "https://huggingface.co/org/repo/resolve/main/model.safetensors";
    let (report, ranges) = serve(&bytes, url, Some("secret".to_owned()));
    assert!(report.is_ok());
    assert!(ranges.iter().all(|r| r.ends_with("Some(\"Bearer secret\")")));
}

#[test]
fn probe_stops_on_failures() {
    let url_text = "https://example.com/m.safetensors";
    let (mut probe, _) = RemoteProbe::start(url_text, https_url(url_text), None);
    match probe.step(ProbeEvent::RequestFailed("connection refused".to_owned())) {
        ProbeAction::Finish(Err(error)) => assert_eq!(
            error.message(),
            "failed to fetch remote file: https://example.com/m.safetensors (connection refused)"
        ),
        _ => panic!("expected the end"),
    }

    let (mut probe, _) = RemoteProbe::start(url_text, https_url(url_text), None);
    let action = probe.step(ProbeEvent::Response {
        status: 206,
        content_range: Some(b"bytes 0-7/1000000000000".to_vec()),
    });
    assert!(matches!(action, ProbeAction::ReadBody { expected_len: 8 }));
    let too_large = (200_000_000_u64).to_le_bytes().to_vec();
    match probe.step(ProbeEvent::Body(Ok(too_large))) {
        ProbeAction::Finish(Err(error)) => assert_eq!(
            error.message(),
            "invalid safetensors file: https://example.com/m.safetensors (header too large)"
        ),
        _ => panic!("expected the end"),
    }
}

#[test]
fn renders_the_whole_report() {
    let bytes = sample_safetensors_bytes();
    let report = inspect_local_buffer("sample.safetensors", bytes.len() as u64, &bytes).unwrap();
    let expected = format!(
        "File: sample.safetensors\nSize: {} bytes\nTensors: 2\nParameters: 4\nTensor-Bytes: 24\n\n\
         Metadata:\n  format = pt\n\n\
         DType Breakdown:\n  F32: 8 bytes\n  I64: 16 bytes\n\n\
         Tensors:\n  embedding.ids\n    dtype: I64\n    shape: [2]\n    numel: 2\n    bytes: 16\n\n  \
         embedding.weight\n    dtype: F32\n    shape: [2]\n    numel: 2\n    bytes: 8\n",
        bytes.len()
    );
    assert_eq!(render_report(&report), expected);
}

#[test]
fn renders_empty_sections() {
    let header = br#"{}"#;
    let mut bytes = (header.len() as u64).to_le_bytes().to_vec();
    bytes.extend_from_slice(header);
    let report = inspect_local_buffer("empty.safetensors", bytes.len() as u64, &bytes).unwrap();
    assert_eq!(
        render_report(&report),
        "File: empty.safetensors\nSize: 10 bytes\nTensors: 0\nParameters: 0\nTensor-Bytes: 0\n\n\
         Metadata:\n  (none)\n\nDType Breakdown:\n  (none)\n\nTensors:\n  (none)\n"
    );
}

#[test]
fn sorts_metadata_and_groups_dtypes() {
    let a = [0_u8; 4];
    let b = [0_u8; 8];
    let c = [0_u8; 2];
    let views = vec![
        ("zeta", TensorView::new(Dtype::U8, vec![4], &a).unwrap()),
        ("alpha", TensorView::new(Dtype::F16, vec![2, 2], &b).unwrap()),
        ("mid", TensorView::new(Dtype::U8, vec![1, 2], &c).unwrap()),
    ];
    let metadata = HashMap::from([
        ("b".to_owned(), "2".to_owned()),
        ("a".to_owned(), "1".to_owned()),
        ("c".to_owned(), "3".to_owned()),
    ]);
    let bytes = safetensors::serialize(views, Some(metadata)).unwrap();
    let report = inspect_local_buffer("x", bytes.len() as u64, &bytes).unwrap();
    let output = render_report(&report);
    assert!(output.contains("Metadata:\n  a = 1\n  b = 2\n  c = 3\n\n"));
    assert!(output.contains("DType Breakdown:\n  F16: 8 bytes\n  U8: 6 bytes\n\n"));
    assert!(output.contains("Tensors: 3\nParameters: 10\nTensor-Bytes: 14\n"));
}

#[test]
fn reports_numel_overflow() {
    let huge = [u64::MAX as usize, u64::MAX as usize, 4];
    match numel(&huge, "big").unwrap_err() {
        InspectError::Overflow { tensor } => assert_eq!(tensor, "big"),
        other => panic!("unexpected error: {}", other.message()),
    }
    assert_eq!(numel(&[], "scalar").unwrap(), 1);
    assert_eq!(numel(&[0, usize::MAX], "empty").unwrap(), 0);
}

#[test]
fn classifies_malformed_urls() {
    let error = classify_input("http://[::1").unwrap_err();
    assert_eq!(
        error.message(),
        "invalid remote response for http://[::1 (malformed URL)"
    );
    let error = classify_url("ftp://x", None).unwrap_err();
    assert_eq!(error.message(), "invalid remote response for ftp://x (malformed URL)");
    let url = RemoteUrl::new("ftp://x/".to_owned(), "ftp".to_owned(), Some("x".to_owned()));
    let error = classify_url("ftp://x", Some(url)).unwrap_err();
    assert_eq!(error.message(), "unsupported URL scheme: ftp");
    assert!(matches!(classify_input("http://a.b/c"), Ok(Input::HttpUrl(_))));
}

#[test]
fn content_range_errors() {
    let url = https_url("https://example.com/f");
    let missing = parse_total_size(None, &url).unwrap_err();
    assert_eq!(
        missing.message(),
        "invalid remote response for https://example.com/f (missing Content-Range header)"
    );
    let invalid = parse_total_size(Some(b"bytes 0-7/\x01"), &url).unwrap_err();
    assert_eq!(
        invalid.message(),
        "invalid remote response for https://example.com/f (invalid Content-Range header)"
    );
    let star = parse_total_size(Some(b"bytes 0-7/*"), &url).unwrap_err();
    assert_eq!(
        star.message(),
        "invalid remote response for https://example.com/f (invalid total size in Content-Range header)"
    );
    assert_eq!(parse_total_size(Some(b"bytes\t0-7/+12"), &url).unwrap(), 12);
    assert_eq!(parse_total_size_from_content_range("42").unwrap(), 42);
    assert!(parse_total_size_from_content_range("bytes 0-7/18446744073709551616").is_err());
    assert_eq!(
        parse_total_size_from_content_range("bytes 0-7/18446744073709551615").unwrap(),
        u64::MAX
    );
    assert!(parse_total_size_from_content_range("bytes 0-7/").is_err());
    assert!(parse_total_size_from_content_range("bytes 0-7/+").is_err());
    assert!(parse_total_size_from_content_range("bytes 0-7/-1").is_err());
}

#[test]
fn response_body_errors() {
    let url = https_url("https://example.com/f");
    let error = check_response_bytes(Err("connection reset".to_owned()), 8, &url).unwrap_err();
    assert_eq!(
        error.message(),
        "invalid remote response for https://example.com/f (failed reading response body (connection reset))"
    );
    let error = check_response_bytes(Ok(vec![1, 2, 3]), 8, &url).unwrap_err();
    assert_eq!(
        error.message(),
        "invalid remote response for https://example.com/f (expected 8 bytes, got 3)"
    );
}

#[test]
fn remote_size_checks() {
    assert!(check_remote_size("f", 10, 20, 38).is_ok());
    let error = check_remote_size("f", 10, 20, 39).unwrap_err();
    assert_eq!(
        error.message(),
        "invalid safetensors file: f (incomplete metadata, file not fully covered)"
    );
    let error = check_remote_size("f", usize::MAX, 1, 0).unwrap_err();
    assert_eq!(
        error.message(),
        "invalid safetensors file: f (overflow computing buffer size from shape and/or element type)"
    );
    let error = stprobe::remote::check_header_size("f", 100_000_001).unwrap_err();
    assert_eq!(error.message(), "invalid safetensors file: f (header too large)");
    assert!(stprobe::remote::check_header_size("f", 100_000_000).is_ok());
}

#[test]
fn remote_header_must_match_file_size() {
    let bytes = sample_safetensors_bytes();
    let (_, header) = split_header(&bytes);
    let error = inspect_remote_header("u", bytes.len() as u64 + 1, header.len(), &header).unwrap_err();
    assert_eq!(
        error.message(),
        "invalid safetensors file: u (incomplete metadata, file not fully covered)"
    );
    let error = inspect_remote_header("u", 10, 2, b"{x").unwrap_err();
    assert!(error.message().starts_with("invalid safetensors file: u (invalid JSON in header: "));
    let metadata: safetensors::tensor::Metadata = serde_json::from_slice(&header).unwrap();
    let report = report_from_remote_header("u", bytes.len() as u64, header.len(), &metadata).unwrap();
    let local = build_report("u", bytes.len() as u64, &metadata).unwrap();
    assert_eq!(render_report(&report), render_report(&local));
}

#[test]
fn header_length_and_ranges() {
    let url = https_url("https://example.com/f");
    assert_eq!(le_u64(&[1, 2, 0, 0, 0, 0, 0, 0]), 513);
    assert_eq!(le_u64(&[0xff; 8]), u64::MAX);
    assert_eq!(decode_header_len(&[0x10, 0, 0, 0, 0, 0, 0, 0], &url).unwrap(), 16);
    let error = header_bytes_range(usize::MAX, &url).unwrap_err();
    assert_eq!(
        error.message(),
        "invalid remote response for https://example.com/f (invalid header range)"
    );
    assert_eq!(header_bytes_range(1, &url).unwrap(), (8, 8));
}

#[test]
fn authorization_only_for_hugging_face() {
    let hf = https_url("https://huggingface.co/org/repo/resolve/main/m.safetensors");
    let www = https_url("https://www.huggingface.co/m.safetensors");
    let other = https_url("https://example.com/m.safetensors");
    assert!(is_hugging_face_url(&hf));
    assert!(is_hugging_face_url(&www));
    assert!(!is_hugging_face_url(&other));
    assert_eq!(
        bearer_authorization(&hf, Some("abc".to_owned())),
        Some("Bearer abc".to_owned())
    );
    assert_eq!(bearer_authorization(&hf, Some(String::new())), None);
    assert_eq!(bearer_authorization(&hf, None), None);
    assert_eq!(bearer_authorization(&other, Some("abc".to_owned())), None);
}

#[test]
fn error_messages() {
    let cases = vec![
        (InspectError::FileNotFound("a".to_owned()), "file not found: a"),
        (
            InspectError::CannotRead { path: "a".to_owned(), reason: "denied".to_owned() },
            "failed to read file: a (denied)",
        ),
        (
            InspectError::MissingTensorInfo { tensor: "t".to_owned() },
            "missing tensor metadata for: t",
        ),
        (
            InspectError::Overflow { tensor: "t".to_owned() },
            "tensor is too large to summarize safely: t",
        ),
        (InspectError::HttpClient("tls".to_owned()), "failed to initialize HTTP client (tls)"),
        (
            InspectError::HttpRequest { url: "u".to_owned(), reason: "timeout".to_owned() },
            "failed to fetch remote file: u (timeout)",
        ),
    ];
    for (error, text) in cases {
        assert_eq!(error.message(), text);
    }
}

#[test]
fn text_helpers() {
    assert!(contains_scheme_separator("a://b"));
    assert!(!contains_scheme_separator("a:/b"));
    assert!(!contains_scheme_separator(""));
    assert_eq!(after_last_slash("a/b/c"), "c");
    assert_eq!(after_last_slash("abc"), "abc");
    assert_eq!(after_last_slash("abc/"), "");
    assert_eq!(parse_u64("007"), Some(7));
    assert_eq!(parse_u64("+5"), Some(5));
    assert_eq!(parse_u64(""), None);
    assert!(matches!(order_text("F16", "F32"), TextOrder::Less));
    assert!(matches!(order_text("I64", "F32"), TextOrder::Greater));
    assert!(matches!(order_text("U8", "U8"), TextOrder::Equal));
    assert!(matches!(order_text("U", "U8"), TextOrder::Less));
}

fn framed(header: &[u8], data_len: usize) -> Vec<u8> {
    let mut bytes = (header.len() as u64).to_le_bytes().to_vec();
    bytes.extend_from_slice(header);
    bytes.extend(std::iter::repeat(0u8).take(data_len));
    bytes
}

#[test]
fn local_prefix_faults() {
    let error = inspect_local_buffer("f", 3, b"abc").unwrap_err();
    assert_eq!(error.message(), "invalid safetensors file: f (header too small)");
    let mut bytes = 100u64.to_le_bytes().to_vec();
    bytes.extend_from_slice(b"{}");
    let error = inspect_local_buffer("f", bytes.len() as u64, &bytes).unwrap_err();
    assert_eq!(error.message(), "invalid safetensors file: f (invalid header length)");
    let bytes = 100_000_001u64.to_le_bytes().to_vec();
    let error = inspect_local_buffer("f", 8, &bytes).unwrap_err();
    assert_eq!(error.message(), "invalid safetensors file: f (header too large)");
}

#[test]
fn local_header_faults() {
    let bytes = framed(b"{x", 0);
    let error = inspect_local_buffer("f", bytes.len() as u64, &bytes).unwrap_err();
    assert!(error.message().starts_with("invalid safetensors file: f (invalid JSON in header: "));
    let mut bytes = sample_safetensors_bytes();
    bytes.push(0);
    let error = inspect_local_buffer("f", bytes.len() as u64, &bytes).unwrap_err();
    assert_eq!(
        error.message(),
        "invalid safetensors file: f (incomplete metadata, file not fully covered)"
    );
}

#[test]
fn local_offsets_past_the_address_space_overflow() {
    let big: u64 = (1u64 << 61) - 1;
    let mut entries = Vec::new();
    for k in 0..8u64 {
        entries.push(format!(
            "\"t{k}\":{{\"dtype\":\"U8\",\"shape\":[{big}],\"data_offsets\":[{},{}]}}",
            k * big,
            (k + 1) * big
        ));
    }
    entries.push(format!(
        "\"t8\":{{\"dtype\":\"U8\",\"shape\":[4],\"data_offsets\":[{},{}]}}",
        8 * big,
        8 * big + 4
    ));
    let header = format!("{{{}}}", entries.join(","));
    let bytes = framed(header.as_bytes(), 0);
    let error = inspect_local_buffer("f", bytes.len() as u64, &bytes).unwrap_err();
    assert_eq!(
        error.message(),
        "invalid safetensors file: f (overflow computing buffer size from shape and/or element type)"
    );
}

#[test]
fn local_and_remote_reports_agree() {
    let bytes = sample_safetensors_bytes();
    let (_, header) = split_header(&bytes);
    let local = inspect_local_buffer("model.safetensors", bytes.len() as u64, &bytes).unwrap();
    let url = "https://h/model.safetensors";
    let remote = inspect_remote_header(url, bytes.len() as u64, header.len(), &header).unwrap();
    let local_text = render_report(&local);
    let remote_text = render_report(&remote);
    assert!(local_text.starts_with("File: model.safetensors\n"));
    assert!(remote_text.starts_with(&format!("File: {url}\n")));
    let local_rest = local_text.split_once('\n').unwrap().1;
    let remote_rest = remote_text.split_once('\n').unwrap().1;
    assert_eq!(local_rest, remote_rest);
}

#[test]
fn tensors_come_in_offset_order() {
    let header = br#"{"b":{"dtype":"U8","shape":[2],"data_offsets":[0,2]},"a":{"dtype":"U8","shape":[3],"data_offsets":[2,5]}}"#;
    let bytes = framed(header, 5);
    let report = inspect_local_buffer("f", bytes.len() as u64, &bytes).unwrap();
    let text = render_report(&report);
    let b_at = text.find("\n  b\n").unwrap();
    let a_at = text.find("\n  a\n").unwrap();
    assert!(b_at < a_at);
    assert!(text.contains(&format!("Size: {} bytes", 8 + header.len() + 5)));
}

#[test]
fn numel_ignores_dimension_order() {
    assert_eq!(numel(&[2, 3, 4], "t").unwrap(), 24);
    assert_eq!(numel(&[4, 2, 3], "t").unwrap(), 24);
    let big = [u64::MAX as usize, u64::MAX as usize, 2];
    let perm = [2, u64::MAX as usize, u64::MAX as usize];
    assert!(numel(&big, "t").is_err());
    assert!(numel(&perm, "t").is_err());
}

#[test]
fn shape_texts_differ_for_different_shapes() {
    assert_eq!(format_shape(&[12]), "[12]");
    assert_eq!(format_shape(&[1, 2]), "[1, 2]");
    assert_ne!(format_shape(&[12]), format_shape(&[1, 2]));
    assert_ne!(format_shape(&[]), format_shape(&[0]));
}

#[test]
fn local_header_that_is_no_utf8() {
    let bytes = framed(&[0xFF], 0);
    let error = inspect_local_buffer("f", bytes.len() as u64, &bytes).unwrap_err();
    assert_eq!(
        error.message(),
        "invalid safetensors file: f (invalid UTF-8 in header: invalid utf-8 sequence of 1 bytes from index 0)"
    );
}

#[test]
fn local_header_with_bad_offsets() {
    let header = br#"{"a":{"dtype":"U8","shape":[2],"data_offsets":[1,3]}}"#;
    let bytes = framed(header, 3);
    let error = inspect_local_buffer("f", bytes.len() as u64, &bytes).unwrap_err();
    assert_eq!(error.message(), "invalid safetensors file: f (invalid offset for tensor `a`)");
    let header = br#"{"a":{"dtype":"U8","shape":[2],"data_offsets":[0,3]}}"#;
    let bytes = framed(header, 3);
    let error = inspect_local_buffer("f", bytes.len() as u64, &bytes).unwrap_err();
    assert_eq!(
        error.message(),
        "invalid safetensors file: f (invalid shape, data type, or offset for tensor)"
    );
}

#[test]
fn shape_texts_parse_back() {
    for shape in [vec![], vec![0], vec![12], vec![1, 2], vec![3, 40, 500]] {
        let text = format_shape(&shape);
        let inner = &text[1..text.len() - 1];
        let parsed: Vec<usize> = if inner.is_empty() {
            Vec::new()
        } else {
            inner.split(", ").map(|part| part.parse().unwrap()).collect()
        };
        assert_eq!(parsed, shape);
    }
}
