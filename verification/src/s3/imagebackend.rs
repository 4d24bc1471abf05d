//! Requests to an object store, signed as the store expects them.

use std::fmt::Write;
use vstd::prelude::*;
use vstd::string::*;
use vstd::utf8::encode_utf8;
use crate::config;
use crate::imagestore::Error;
use crate::sqlite::delta::{sha256_digest, sha256_hex};
use crate::text::{contains_bytes, ends_with, is_contained};

verus! {

/// What the object store is asked with.
#[derive(Clone)]
pub struct Config {
    pub host: String,
    pub bucket: String,
    pub region: String,
    pub secret_access_key: String,
    pub secret_access_key_id: String,
}

/// The host is given as a host: it does not end with a slash and names no
/// protocol.
pub open spec fn is_host(host: Seq<char>) -> bool {
    &&& !(host.len() > 0 && host.last() == '/')
    &&& !contains_bytes(encode_utf8(host), encode_utf8("http://"@))
    &&& !contains_bytes(encode_utf8(host), encode_utf8("https://"@))
}

impl Config {
    /// What the object store is asked with, taken from the configuration of
    /// the server. Fails exactly if the host is not given as a host.
    pub fn try_from(value: &config::ImageBackendS3) -> (taken: Result<Config, Error>)
        ensures
            taken is Ok <==> is_host(value.host@),
            match taken {
                Ok(config) => config.host@ == value.host@ && config.bucket@ == value.bucket@
                    && config.region@ == value.region@ && config.secret_access_key@
                    == value.secret_access_key@ && config.secret_access_key_id@
                    == value.secret_access_key_id@,
                Err(error) => error is Config,
            },
    {
        if ends_with(value.host.as_str(), '/') {
            return Err(Error::Config(String::from_str("Host cannot end with slash.")));
        }
        let host = value.host.as_str().as_bytes();
        if is_contained(host, "http://".as_bytes()) || is_contained(host, "https://".as_bytes()) {
            return Err(Error::Config(String::from_str("Host should not contain protocol.")));
        }
        Ok(
            Config {
                host: value.host.clone(),
                bucket: value.bucket.clone(),
                region: value.region.clone(),
                secret_access_key: value.secret_access_key.clone(),
                secret_access_key_id: value.secret_access_key_id.clone(),
            },
        )
    }
}

/// The hexadecimal digit of a value below sixteen.
pub open spec fn hex_digit(value: int, upper: bool) -> char {
    if value == 0 {
        '0'
    } else if value == 1 {
        '1'
    } else if value == 2 {
        '2'
    } else if value == 3 {
        '3'
    } else if value == 4 {
        '4'
    } else if value == 5 {
        '5'
    } else if value == 6 {
        '6'
    } else if value == 7 {
        '7'
    } else if value == 8 {
        '8'
    } else if value == 9 {
        '9'
    } else if value == 10 {
        if upper { 'A' } else { 'a' }
    } else if value == 11 {
        if upper { 'B' } else { 'b' }
    } else if value == 12 {
        if upper { 'C' } else { 'c' }
    } else if value == 13 {
        if upper { 'D' } else { 'd' }
    } else if value == 14 {
        if upper { 'E' } else { 'e' }
    } else {
        if upper { 'F' } else { 'f' }
    }
}

/// The two hexadecimal digits of a byte.
pub open spec fn hex_of_byte(byte: u8, upper: bool) -> Seq<char> {
    seq![hex_digit(byte as int / 16, upper), hex_digit(byte as int % 16, upper)]
}

/// The hexadecimal digits of a sequence of bytes.
pub open spec fn hex(bytes: Seq<u8>, upper: bool) -> Seq<char>
    decreases bytes.len(),
{
    if bytes.len() == 0 {
        Seq::empty()
    } else {
        hex(bytes.drop_last(), upper) + hex_of_byte(bytes.last(), upper)
    }
}

/// Appends the hexadecimal digit of a value below sixteen.
fn push_hex_digit(out: &mut String, value: u8, upper: bool)
    requires
        value < 16,
    ensures
        final(out)@ == old(out)@.push(hex_digit(value as int, upper)),
{
    proof {
        reveal_strlit("0");
        reveal_strlit("1");
        reveal_strlit("2");
        reveal_strlit("3");
        reveal_strlit("4");
        reveal_strlit("5");
        reveal_strlit("6");
        reveal_strlit("7");
        reveal_strlit("8");
        reveal_strlit("9");
        reveal_strlit("A");
        reveal_strlit("B");
        reveal_strlit("C");
        reveal_strlit("D");
        reveal_strlit("E");
        reveal_strlit("F");
        reveal_strlit("a");
        reveal_strlit("b");
        reveal_strlit("c");
        reveal_strlit("d");
        reveal_strlit("e");
        reveal_strlit("f");
    }
    let digit = if value == 0 {
        "0"
    } else if value == 1 {
        "1"
    } else if value == 2 {
        "2"
    } else if value == 3 {
        "3"
    } else if value == 4 {
        "4"
    } else if value == 5 {
        "5"
    } else if value == 6 {
        "6"
    } else if value == 7 {
        "7"
    } else if value == 8 {
        "8"
    } else if value == 9 {
        "9"
    } else if value == 10 {
        if upper { "A" } else { "a" }
    } else if value == 11 {
        if upper { "B" } else { "b" }
    } else if value == 12 {
        if upper { "C" } else { "c" }
    } else if value == 13 {
        if upper { "D" } else { "d" }
    } else if value == 14 {
        if upper { "E" } else { "e" }
    } else {
        if upper { "F" } else { "f" }
    };
    assert(digit@ =~= seq![hex_digit(value as int, upper)]);
    out.append(digit);
    assert(out@ =~= old(out)@.push(hex_digit(value as int, upper)));
}

/// Appends the hexadecimal digits of a sequence of bytes.
pub fn push_hex(out: &mut String, bytes: &[u8], upper: bool)
    ensures
        final(out)@ == old(out)@ + hex(bytes@, upper),
{
    let mut i: usize = 0;
    assert(bytes@.take(0) =~= Seq::<u8>::empty());
    assert(out@ =~= old(out)@ + hex(bytes@.take(0), upper));
    while i < bytes.len()
        invariant
            i <= bytes.len(),
            out@ == old(out)@ + hex(bytes@.take(i as int), upper),
        decreases bytes.len() - i,
    {
        let ghost before = out@;
        assert(bytes@.take(i + 1).drop_last() =~= bytes@.take(i as int));
        assert(bytes@.take(i + 1).last() == bytes@[i as int]);
        push_hex_digit(out, bytes[i] / 16, upper);
        push_hex_digit(out, bytes[i] % 16, upper);
        assert(out@ =~= before + hex_of_byte(bytes@[i as int], upper));
        assert(out@ =~= old(out)@ + hex(bytes@.take(i + 1), upper));
        i += 1;
    }
    assert(bytes@.take(i as int) =~= bytes@);
}

/// A character that stands for itself in the path of a request.
pub open spec fn is_unreserved(c: char) -> bool {
    ||| 'A' <= c <= 'Z'
    ||| 'a' <= c <= 'z'
    ||| '0' <= c <= '9'
    ||| c == '-'
    ||| c == '.'
    ||| c == '_'
    ||| c == '~'
    ||| c == '/'
}

/// A percent sign and the two upper-case hexadecimal digits of each byte.
pub open spec fn percent_encoded(bytes: Seq<u8>) -> Seq<char>
    decreases bytes.len(),
{
    if bytes.len() == 0 {
        Seq::empty()
    } else {
        percent_encoded(bytes.drop_last()) + seq!['%'] + hex_of_byte(bytes.last(), true)
    }
}

/// The path of a request as it is signed: every character that does not
/// stand for itself is replaced by the percent-encoded bytes of its UTF-8
/// form.
pub open spec fn uri_encoded(uri: Seq<char>) -> Seq<char>
    decreases uri.len(),
{
    if uri.len() == 0 {
        Seq::empty()
    } else {
        uri_encoded(uri.drop_last()) + if is_unreserved(uri.last()) {
            seq![uri.last()]
        } else {
            percent_encoded(encode_utf8(seq![uri.last()]))
        }
    }
}

/// Whether a character stands for itself in the path of a request.
fn unreserved(c: char) -> (plain: bool)
    ensures
        plain == is_unreserved(c),
{
    (c >= 'A' && c <= 'Z') || (c >= 'a' && c <= 'z') || (c >= '0' && c <= '9') || c == '-' || c
        == '.' || c == '_' || c == '~' || c == '/'
}

/// Appends the percent-encoded form of a sequence of bytes.
fn push_percent_encoded(out: &mut String, bytes: &[u8])
    ensures
        final(out)@ == old(out)@ + percent_encoded(bytes@),
{
    let mut i: usize = 0;
    assert(bytes@.take(0) =~= Seq::<u8>::empty());
    assert(out@ =~= old(out)@ + percent_encoded(bytes@.take(0)));
    while i < bytes.len()
        invariant
            i <= bytes.len(),
            out@ == old(out)@ + percent_encoded(bytes@.take(i as int)),
        decreases bytes.len() - i,
    {
        let ghost before = out@;
        assert(bytes@.take(i + 1).drop_last() =~= bytes@.take(i as int));
        assert(bytes@.take(i + 1).last() == bytes@[i as int]);
        proof {
            reveal_strlit("%");
        }
        out.append("%");
        push_hex_digit(out, bytes[i] / 16, true);
        push_hex_digit(out, bytes[i] % 16, true);
        assert(out@ =~= before + seq!['%'] + hex_of_byte(bytes@[i as int], true));
        assert(out@ =~= old(out)@ + percent_encoded(bytes@.take(i + 1)));
        i += 1;
    }
    assert(bytes@.take(i as int) =~= bytes@);
}

/// The path of a request as it is signed.
pub fn encode_uri(uri: &str) -> (encoded: String)
    ensures
        encoded@ == uri_encoded(uri@),
{
    let ghost s = uri@;
    let count = uri.unicode_len();
    let mut encoded = String::new();
    let mut i: usize = 0;
    assert(s.take(0) =~= Seq::<char>::empty());
    assert(encoded@ =~= uri_encoded(s.take(0)));
    while i < count
        invariant
            i <= count,
            count == s.len(),
            s == uri@,
            encoded@ == uri_encoded(s.take(i as int)),
        decreases count - i,
    {
        assert(s.take(i + 1).drop_last() =~= s.take(i as int));
        assert(s.take(i + 1).last() == s[i as int]);
        let piece = uri.substring_char(i, i + 1);
        assert(piece@ =~= seq![s[i as int]]);
        if unreserved(uri.get_char(i)) {
            encoded.append(piece);
        } else {
            push_percent_encoded(&mut encoded, piece.as_bytes());
        }
        assert(encoded@ =~= uri_encoded(s.take(i + 1)));
        i += 1;
    }
    assert(s.take(i as int) =~= s);
    encoded
}

/// The keyed SHA-256 digest of `data` under `key`.
pub uninterp spec fn hmac_sha256(key: Seq<u8>, data: Seq<u8>) -> Seq<u8>;

/// The UTC time of a second of the Unix epoch in the form that the pattern
/// asks for, if the second is one of a year that can be written.
pub uninterp spec fn formatted_time(timestamp: int, pattern: Seq<char>) -> Option<Seq<char>>;

/// `ring::hmac::sign` with a key of `ring::hmac::HMAC_SHA256`: the tag of the
/// data under the key.
#[verifier::external_body]
fn hmac_sign(key: &[u8], data: &[u8]) -> (tag: Vec<u8>)
    ensures
        tag@ == hmac_sha256(key@, data@),
{
    let key = ring::hmac::Key::new(ring::hmac::HMAC_SHA256, key);
    ring::hmac::sign(&key, data).as_ref().to_vec()
}

/// `chrono::DateTime::format` on `chrono::DateTime::from_timestamp`: the time
/// in the form of the pattern, or nothing if the second is out of range. The
/// patterns are the two that requests are dated with; another pattern could
/// make the formatting fail.
#[verifier::external_body]
fn format_time(timestamp: i64, pattern: &str) -> (text: Option<String>)
    requires
        pattern@ == "%Y%m%dT%H%M%SZ"@ || pattern@ == "%Y%m%d"@,
    ensures
        match text {
            Some(formatted) => formatted_time(timestamp as int, pattern@) == Some(formatted@),
            None => formatted_time(timestamp as int, pattern@) is None,
        },
{
    let time = chrono::DateTime::from_timestamp(timestamp, 0)?;
    let mut text = String::new();
    match write!(text, "{}", time.format(pattern)) {
        Ok(()) => Some(text),
        Err(_) => None,
    }
}

/// The date and the time of a request, as the object store reads them.
pub open spec fn iso8601(timestamp: int) -> Option<Seq<char>> {
    formatted_time(timestamp, "%Y%m%dT%H%M%SZ"@)
}

/// The date of a request, as the object store reads it.
pub open spec fn iso8601_date(timestamp: int) -> Option<Seq<char>> {
    formatted_time(timestamp, "%Y%m%d"@)
}

/// The request in the form in which it is hashed for its signature.
pub open spec fn canonical_request(
    method: Seq<char>,
    uri: Seq<char>,
    query_string: Seq<char>,
    host: Seq<char>,
    content_sha_256: Seq<char>,
    iso8601: Seq<char>,
) -> Seq<char> {
    method + "\n"@ + uri_encoded(uri) + "\n"@ + query_string + "\nhost:"@ + host
        + "\nx-amz-content-sha256:"@ + content_sha_256 + "\nx-amz-date:"@ + iso8601
        + "\n\nhost;x-amz-content-sha256;x-amz-date\n"@ + content_sha_256
}

/// What is signed: the algorithm, the time, the scope and the hash of the
/// request.
pub open spec fn string_to_sign(
    iso8601: Seq<char>,
    iso8601_date: Seq<char>,
    region: Seq<char>,
    request_hash: Seq<char>,
) -> Seq<char> {
    "AWS4-HMAC-SHA256\n"@ + iso8601 + "\n"@ + iso8601_date + "/"@ + region
        + "/s3/aws4_request\n"@ + request_hash
}

/// The key that a request of the given date to the given region is signed
/// with: the secret is keyed with the date, the region, the service and the
/// kind of request in turn.
pub open spec fn signing_key(secret_access_key: Seq<char>, iso8601_date: Seq<char>, region: Seq<char>)
    -> Seq<u8> {
    let date_key = hmac_sha256(
        encode_utf8("AWS4"@ + secret_access_key),
        encode_utf8(iso8601_date),
    );
    let date_region_key = hmac_sha256(date_key, encode_utf8(region));
    let date_region_service_key = hmac_sha256(date_region_key, encode_utf8("s3"@));
    hmac_sha256(date_region_service_key, encode_utf8("aws4_request"@))
}

/// The signature of a request: the tag of what is signed under the signing
/// key, in hexadecimal.
pub open spec fn signature(
    secret_access_key: Seq<char>,
    iso8601_date: Seq<char>,
    region: Seq<char>,
    signed: Seq<char>,
) -> Seq<char> {
    hex(hmac_sha256(signing_key(secret_access_key, iso8601_date, region), encode_utf8(signed)), false)
}

/// The header that authorizes a request.
pub open spec fn authorization_header(
    secret_access_key_id: Seq<char>,
    iso8601_date: Seq<char>,
    region: Seq<char>,
    signature: Seq<char>,
) -> Seq<char> {
    "AWS4-HMAC-SHA256 Credential="@ + secret_access_key_id + "/"@ + iso8601_date + "/"@ + region
        + "/s3/aws4_request,SignedHeaders=host;x-amz-content-sha256;x-amz-date,Signature="@
        + signature
}

/// A request to the object store with the headers that sign it.
pub struct SignedRequest {
    pub url: String,
    pub authorization: String,
    pub x_amz_date: String,
    pub x_amz_content_sha256: String,
}

/// An image backend on an object store.
#[derive(Clone)]
pub struct ImageBackend {
    pub config: Config,
}

impl ImageBackend {
    /// The backend for the given store.
    pub fn new(config: Config) -> (backend: ImageBackend)
        ensures
            backend.config == config,
    {
        ImageBackend { config }
    }

    /// The request in the form in which it is hashed for its signature.
    pub fn create_canonical_request(
        &self,
        method: &str,
        uri: &str,
        query_string: &str,
        content_sha_256: &str,
        iso8601: &str,
    ) -> (request: String)
        ensures
            request@ == canonical_request(
                method@,
                uri@,
                query_string@,
                self.config.host@,
                content_sha_256@,
                iso8601@,
            ),
    {
        let mut request = String::from_str(method);
        request.append("\n");
        request.append(encode_uri(uri).as_str());
        request.append("\n");
        request.append(query_string);
        request.append("\nhost:");
        request.append(self.config.host.as_str());
        request.append("\nx-amz-content-sha256:");
        request.append(content_sha_256);
        request.append("\nx-amz-date:");
        request.append(iso8601);
        request.append("\n\nhost;x-amz-content-sha256;x-amz-date\n");
        request.append(content_sha_256);
        request
    }

    /// What is signed: the algorithm, the time, the scope and the hash of the
    /// request.
    pub fn create_string_to_sign(&self, iso8601: &str, iso8601_date: &str, request_hash: &str)
        -> (signed: String)
        ensures
            signed@ == string_to_sign(iso8601@, iso8601_date@, self.config.region@, request_hash@),
    {
        let mut signed = String::from_str("AWS4-HMAC-SHA256\n");
        signed.append(iso8601);
        signed.append("\n");
        signed.append(iso8601_date);
        signed.append("/");
        signed.append(self.config.region.as_str());
        signed.append("/s3/aws4_request\n");
        signed.append(request_hash);
        signed
    }

    /// The signature of what is signed, for a request of the given date.
    pub fn create_signature(&self, iso8601_date: &str, string_to_sign: &str) -> (signed: String)
        ensures
            signed@ == signature(
                self.config.secret_access_key@,
                iso8601_date@,
                self.config.region@,
                string_to_sign@,
            ),
    {
        let mut secret = String::from_str("AWS4");
        secret.append(self.config.secret_access_key.as_str());
        let date_key = hmac_sign(secret.as_str().as_bytes(), iso8601_date.as_bytes());
        let date_region_key = hmac_sign(date_key.as_slice(), self.config.region.as_str().as_bytes());
        let date_region_service_key = hmac_sign(date_region_key.as_slice(), "s3".as_bytes());
        let signing_key = hmac_sign(date_region_service_key.as_slice(), "aws4_request".as_bytes());
        let tag = hmac_sign(signing_key.as_slice(), string_to_sign.as_bytes());
        let mut signed = String::new();
        push_hex(&mut signed, tag.as_slice(), false);
        assert(signed@ =~= hex(tag@, false));
        signed
    }

    /// The header that authorizes a request of the given date.
    pub fn create_authorization_header(&self, iso8601_date: &str, signature: &str) -> (header:
        String)
        ensures
            header@ == authorization_header(
                self.config.secret_access_key_id@,
                iso8601_date@,
                self.config.region@,
                signature@,
            ),
    {
        let mut header = String::from_str("AWS4-HMAC-SHA256 Credential=");
        header.append(self.config.secret_access_key_id.as_str());
        header.append("/");
        header.append(iso8601_date);
        header.append("/");
        header.append(self.config.region.as_str());
        header.append(
            "/s3/aws4_request,SignedHeaders=host;x-amz-content-sha256;x-amz-date,Signature=",
        );
        header.append(signature);
        header
    }

    /// The request for the object under `path` with the given method and
    /// content at the given time, with the headers that sign it. Fails
    /// exactly if the time is one of a year that cannot be written.
    pub fn sign(&self, method: &str, path: &str, content: &[u8], timestamp: i64) -> (request:
        Option<SignedRequest>)
        ensures
            request is Some <==> iso8601(timestamp as int) is Some && iso8601_date(
                timestamp as int,
            ) is Some,
            request matches Some(signed) ==> {
                let uri = "/"@ + self.config.bucket@ + "/"@ + path@;
                let time = iso8601(timestamp as int)->0;
                let date = iso8601_date(timestamp as int)->0;
                let content_hash = sha256_hex(content@);
                let canonical = canonical_request(
                    method@,
                    uri,
                    Seq::empty(),
                    self.config.host@,
                    content_hash,
                    time,
                );
                let to_sign = string_to_sign(
                    time,
                    date,
                    self.config.region@,
                    sha256_hex(encode_utf8(canonical)),
                );
                &&& signed.url@ == "https://"@ + self.config.host@ + uri
                &&& signed.x_amz_date@ == time
                &&& signed.x_amz_content_sha256@ == content_hash
                &&& signed.authorization@ == authorization_header(
                    self.config.secret_access_key_id@,
                    date,
                    self.config.region@,
                    signature(self.config.secret_access_key@, date, self.config.region@, to_sign),
                )
            },
    {
        let time = match format_time(timestamp, "%Y%m%dT%H%M%SZ") {
            Some(time) => time,
            None => {
                return None;
            },
        };
        let date = match format_time(timestamp, "%Y%m%d") {
            Some(date) => date,
            None => {
                return None;
            },
        };
        let mut uri = String::from_str("/");
        uri.append(self.config.bucket.as_str());
        uri.append("/");
        uri.append(path);
        let content_hash = sha256_digest(content);
        let empty = String::new();
        let canonical_request = self.create_canonical_request(
            method,
            uri.as_str(),
            empty.as_str(),
            content_hash.as_str(),
            time.as_str(),
        );
        let canonical_hash = sha256_digest(canonical_request.as_str().as_bytes());
        let string_to_sign = self.create_string_to_sign(
            time.as_str(),
            date.as_str(),
            canonical_hash.as_str(),
        );
        let signature = self.create_signature(date.as_str(), string_to_sign.as_str());
        let authorization = self.create_authorization_header(date.as_str(), signature.as_str());
        let mut url = String::from_str("https://");
        url.append(self.config.host.as_str());
        url.append(uri.as_str());
        Some(SignedRequest { url, authorization, x_amz_date: time, x_amz_content_sha256: content_hash })
    }
}

} // verus!
