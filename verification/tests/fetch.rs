use aos_realm::fetch::{
    is_false, truncate_body, validate_url, FetchUrlArgs, HttpMethod, HttpTools,
};

// -- URL validation --

#[test]
fn validate_url_rejects_empty() {
    assert_eq!(validate_url(""), Err("URL cannot be empty"));
}

#[test]
fn validate_url_rejects_whitespace_only() {
    // validate_url itself doesn't trim; the caller (fetch_url) does.
    // Whitespace-only input hits the scheme check, not the empty check.
    assert_eq!(
        validate_url("   "),
        Err("Only http:// and https:// URLs are supported")
    );
}

#[test]
fn validate_url_rejects_file_scheme() {
    assert_eq!(
        validate_url("file:///etc/passwd"),
        Err("Only http:// and https:// URLs are supported")
    );
}

#[test]
fn validate_url_rejects_ftp_scheme() {
    assert_eq!(
        validate_url("ftp://example.com/file"),
        Err("Only http:// and https:// URLs are supported")
    );
}

#[test]
fn validate_url_rejects_no_scheme() {
    assert_eq!(
        validate_url("example.com"),
        Err("Only http:// and https:// URLs are supported")
    );
}

#[test]
fn validate_url_accepts_https() {
    assert_eq!(validate_url("https://example.com"), Ok(()));
}

#[test]
fn validate_url_accepts_http() {
    assert_eq!(validate_url("http://example.com"), Ok(()));
}

#[test]
fn validate_url_accepts_uppercase_scheme() {
    assert_eq!(validate_url("HTTP://example.com"), Ok(()));
    assert_eq!(validate_url("HTTPS://example.com"), Ok(()));
    assert_eq!(validate_url("Http://example.com"), Ok(()));
}

// -- HttpMethod parsing --

#[test]
fn method_defaults_to_get() {
    let method: Option<String> = None;
    let parsed: HttpMethod = method.as_deref().unwrap_or("GET").parse().unwrap();
    assert_eq!(parsed.as_str(), "GET");
}

#[test]
fn method_case_insensitive() {
    assert_eq!("post".parse::<HttpMethod>().unwrap().as_str(), "POST");
    assert_eq!("Get".parse::<HttpMethod>().unwrap().as_str(), "GET");
}

#[test]
fn method_accepts_all_standard() {
    for m in ["GET", "POST", "PUT", "DELETE", "PATCH", "HEAD", "OPTIONS"] {
        assert!(m.parse::<HttpMethod>().is_ok(), "should accept {m}");
    }
}

#[test]
fn method_rejects_trace() {
    let err = "TRACE".parse::<HttpMethod>().unwrap_err();
    assert_eq!(err, "unsupported HTTP method: TRACE");
}

#[test]
fn method_rejects_arbitrary() {
    assert!("FROBNICATE".parse::<HttpMethod>().is_err());
}

// -- Body truncation --

#[test]
fn truncate_short_body_unchanged() {
    let (body, truncated) = truncate_body("hello".to_string(), 100);
    assert_eq!(body, "hello");
    assert!(!truncated);
}

#[test]
fn truncate_exact_limit_unchanged() {
    let input = "a".repeat(200);
    let (body, truncated) = truncate_body(input.clone(), 200);
    assert_eq!(body, input);
    assert!(!truncated);
}

#[test]
fn truncate_long_body() {
    let input = "a".repeat(300);
    let (body, truncated) = truncate_body(input, 200);
    assert!(truncated);
    assert!(body.contains("[...truncated, 300 bytes total]"));
    let prefix_end = body.find("\n\n[...truncated").expect("marker missing");
    assert_eq!(prefix_end, 200);
}

#[test]
fn truncate_at_multibyte_char_boundary() {
    // Each emoji is 4 bytes
    let input = "\u{1F600}".repeat(100); // 400 bytes
    let (body, truncated) = truncate_body(input, 10);
    assert!(truncated);
    // floor_char_boundary(10) for 4-byte chars = 8, so 2 emoji chars
    let prefix_end = body.find("\n\n[...truncated").expect("marker missing");
    assert_eq!(prefix_end, 8);
}

// -- serde skip helper --

#[test]
fn is_false_returns_true_for_false() {
    assert!(is_false(&false));
}

#[test]
fn is_false_returns_false_for_true() {
    assert!(!is_false(&true));
}

#[test]
fn fetch_url_trims_and_picks_the_method() {
    let args = FetchUrlArgs {
        url: "  https://example.com/x  ".to_string(),
        method: Some("head".to_string()),
        headers: None,
        body: None,
    };
    assert_eq!(
        HttpTools.fetch_url(&args),
        Ok(("https://example.com/x".to_string(), HttpMethod::Head))
    );
    let args = FetchUrlArgs {
        url: "https://example.com".to_string(),
        method: Some("brew".to_string()),
        headers: None,
        body: None,
    };
    assert_eq!(
        HttpTools.fetch_url(&args),
        Err("unsupported HTTP method: brew".to_string())
    );
    let args = FetchUrlArgs {
        url: " ".to_string(),
        method: None,
        headers: None,
        body: None,
    };
    assert_eq!(HttpTools.fetch_url(&args), Err("URL cannot be empty".to_string()));
}

#[test]
fn results_carry_status_headers_and_cut_bodies() {
    let headers = vec![("h".to_string(), "v".to_string())];
    let result = HttpTools.fetch_result(404, headers.clone(), "Not Found".to_string());
    assert_eq!(result.status, 404);
    assert_eq!(result.headers, headers);
    assert_eq!(result.body, "Not Found");
    assert!(!result.truncated);
    let long = HttpTools.fetch_result(200, Vec::new(), "a".repeat(204_801));
    assert!(long.truncated);
    assert!(long.body.ends_with("\n\n[...truncated, 204801 bytes total]"));
}
