use mise::config::ImageBackendS3;
use mise::imagestore::Error;
use mise::s3::imagebackend::{encode_uri, push_hex, Config, ImageBackend};

fn settings(host: &str) -> ImageBackendS3 {
    ImageBackendS3 {
        host: host.to_owned(),
        bucket: "examplebucket".to_owned(),
        region: "us-east-1".to_owned(),
        secret_access_key: "wJalrXUtnFEMI/K7MDENG/bPxRfiCYEXAMPLEKEY".to_owned(),
        secret_access_key_id: "SECRET-REDACTED".to_owned(),
    }
}

fn backend() -> ImageBackend {
    ImageBackend::new(Config::try_from(&settings("s3.amazonaws.com")).unwrap())
}

#[test]
fn host_is_given_as_a_host() {
    let config = Config::try_from(&settings("s3.example")).unwrap();
    assert_eq!(("s3.example", "examplebucket", "us-east-1"), (config.host.as_str(), config.bucket.as_str(), config.region.as_str()));
    for host in ["s3.example/", "http://s3.example", "https://s3.example", "xhttps://y"] {
        assert!(matches!(Config::try_from(&settings(host)), Err(Error::Config(_))), "{host} was taken");
    }
    match Config::try_from(&settings("http://s3.example/")) {
        Err(Error::Config(message)) => assert_eq!("Host cannot end with slash.", message),
        _ => panic!("a host that ends with a slash was taken"),
    }
    match Config::try_from(&settings("https://s3.example")) {
        Err(Error::Config(message)) => assert_eq!("Host should not contain protocol.", message),
        _ => panic!("a host with a protocol was taken"),
    }
}

#[test]
fn bytes_are_written_in_hexadecimal() {
    let mut out = String::from(">");
    push_hex(&mut out, &[0x00, 0x0f, 0xa0, 0xff, 0x9c], false);
    assert_eq!(">000fa0ff9c", out);
    let mut out = String::new();
    push_hex(&mut out, &[0xab, 0x1e], true);
    assert_eq!("AB1E", out);
    push_hex(&mut out, &[], true);
    assert_eq!("AB1E", out);
}

#[test]
fn path_is_percent_encoded() {
    assert_eq!("", encode_uri(""));
    assert_eq!("/bucket/Az09-._~/x", encode_uri("/bucket/Az09-._~/x"));
    assert_eq!("/a%20b%2Bc%3Fd%3D%25", encode_uri("/a b+c?d=%"));
    assert_eq!("/%C3%A9%E2%82%AC%F0%9F%8D%B2", encode_uri("/é€🍲"));
}

#[test]
fn request_is_written_as_it_is_hashed() {
    let time = "20130524T000000Z";
    let empty = "e3b0c44298fc1c149afbf4c8996fb92427ae41e4649b934ca495991b7852b855";
    let canonical = backend().create_canonical_request("GET", "/test.txt", "", empty, time);
    assert_eq!(
        "GET\n/test.txt\n\nhost:s3.amazonaws.com\nx-amz-content-sha256:e3b0c44298fc1c149afbf4c8996fb92427ae41e4649b934ca495991b7852b855\nx-amz-date:20130524T000000Z\n\nhost;x-amz-content-sha256;x-amz-date\ne3b0c44298fc1c149afbf4c8996fb92427ae41e4649b934ca495991b7852b855",
        canonical
    );
    let to_sign = backend().create_string_to_sign(time, "20130524", "hash");
    assert_eq!(
        "AWS4-HMAC-SHA256\n20130524T000000Z\n20130524/us-east-1/s3/aws4_request\nhash",
        to_sign
    );
    let header = backend().create_authorization_header("20130524", "signature");
    assert_eq!(
        "AWS4-HMAC-SHA256 Credential=SECRET-REDACTED/20130524/us-east-1/s3/aws4_request,SignedHeaders=host;x-amz-content-sha256;x-amz-date,Signature=signature",
        header
    );
}

fn tag(key: &[u8], data: &[u8]) -> Vec<u8> {
    let key = ring::hmac::Key::new(ring::hmac::HMAC_SHA256, key);
    ring::hmac::sign(&key, data).as_ref().to_vec()
}

#[test]
fn signature_is_keyed_step_by_step() {
    let signed = backend().create_signature("20130524", "what is signed");
    let date_key = tag(b"AWS4wJalrXUtnFEMI/K7MDENG/bPxRfiCYEXAMPLEKEY", b"20130524");
    let region_key = tag(&date_key, b"us-east-1");
    let service_key = tag(&region_key, b"s3");
    let signing_key = tag(&service_key, b"aws4_request");
    let expected: String =
        tag(&signing_key, b"what is signed").iter().map(|b| format!("{b:02x}")).collect();
    assert_eq!(expected, signed);
    assert_eq!(64, signed.len());
    assert_ne!(signed, backend().create_signature("20130525", "what is signed"));
}

#[test]
fn request_is_signed_for_its_time() {
    // 24 May 2013, 00:00:00 UTC
    let signed = backend().sign("GET", "test.txt", b"", 1369353600).unwrap();
    assert_eq!("https://s3.amazonaws.com/examplebucket/test.txt", signed.url);
    assert_eq!("20130524T000000Z", signed.x_amz_date);
    assert_eq!(
        "e3b0c44298fc1c149afbf4c8996fb92427ae41e4649b934ca495991b7852b855",
        signed.x_amz_content_sha256
    );
    let canonical = backend().create_canonical_request(
        "GET",
        "/examplebucket/test.txt",
        "",
        &signed.x_amz_content_sha256,
        "20130524T000000Z",
    );
    let to_sign = backend().create_string_to_sign(
        "20130524T000000Z",
        "20130524",
        &sha256::digest(canonical),
    );
    let signature = backend().create_signature("20130524", &to_sign);
    assert_eq!(
        backend().create_authorization_header("20130524", &signature),
        signed.authorization
    );

    let put = backend().sign("PUT", "test.txt", b"content", 1369353600 + 86399).unwrap();
    assert_eq!("20130524T235959Z", put.x_amz_date);
    assert_eq!(sha256::digest("content"), put.x_amz_content_sha256);
    assert_ne!(signed.authorization, put.authorization);

    // a year that cannot be written
    assert!(backend().sign("GET", "test.txt", b"", i64::MAX).is_none());
}
