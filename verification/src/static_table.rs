//! The static table of QPACK (RFC 9204, appendix A).
use vstd::prelude::*;
use vstd::string::StringSliceAdditionalSpecFns;
use crate::field::{bytes_eq, FieldView, HeaderField};

verus! {

/// The number of entries in the static table.
pub const STATIC_TABLE_LEN: usize = 99;

/// The name of static entry `i`, as octets.
#[verifier::opaque]
pub open spec fn static_name(i: int) -> Seq<u8> {
    if i == 0 {
        ":authority".spec_bytes()
    } else if i == 1 {
        ":path".spec_bytes()
    } else if i == 2 {
        "age".spec_bytes()
    } else if i == 3 {
        "content-disposition".spec_bytes()
    } else if i == 4 {
        "content-length".spec_bytes()
    } else if i == 5 {
        "cookie".spec_bytes()
    } else if i == 6 {
        "date".spec_bytes()
    } else if i == 7 {
        "etag".spec_bytes()
    } else if i == 8 {
        "if-modified-since".spec_bytes()
    } else if i == 9 {
        "if-none-match".spec_bytes()
    } else if i == 10 {
        "last-modified".spec_bytes()
    } else if i == 11 {
        "link".spec_bytes()
    } else if i == 12 {
        "location".spec_bytes()
    } else if i == 13 {
        "referer".spec_bytes()
    } else if i == 14 {
        "set-cookie".spec_bytes()
    } else if i == 15 {
        ":method".spec_bytes()
    } else if i == 16 {
        ":method".spec_bytes()
    } else if i == 17 {
        ":method".spec_bytes()
    } else if i == 18 {
        ":method".spec_bytes()
    } else if i == 19 {
        ":method".spec_bytes()
    } else if i == 20 {
        ":method".spec_bytes()
    } else if i == 21 {
        ":method".spec_bytes()
    } else if i == 22 {
        ":scheme".spec_bytes()
    } else if i == 23 {
        ":scheme".spec_bytes()
    } else if i == 24 {
        ":status".spec_bytes()
    } else if i == 25 {
        ":status".spec_bytes()
    } else if i == 26 {
        ":status".spec_bytes()
    } else if i == 27 {
        ":status".spec_bytes()
    } else if i == 28 {
        ":status".spec_bytes()
    } else if i == 29 {
        "accept".spec_bytes()
    } else if i == 30 {
        "accept".spec_bytes()
    } else if i == 31 {
        "accept-encoding".spec_bytes()
    } else if i == 32 {
        "accept-ranges".spec_bytes()
    } else if i == 33 {
        "access-control-allow-headers".spec_bytes()
    } else if i == 34 {
        "access-control-allow-headers".spec_bytes()
    } else if i == 35 {
        "access-control-allow-origin".spec_bytes()
    } else if i == 36 {
        "cache-control".spec_bytes()
    } else if i == 37 {
        "cache-control".spec_bytes()
    } else if i == 38 {
        "cache-control".spec_bytes()
    } else if i == 39 {
        "cache-control".spec_bytes()
    } else if i == 40 {
        "cache-control".spec_bytes()
    } else if i == 41 {
        "cache-control".spec_bytes()
    } else if i == 42 {
        "content-encoding".spec_bytes()
    } else if i == 43 {
        "content-encoding".spec_bytes()
    } else if i == 44 {
        "content-type".spec_bytes()
    } else if i == 45 {
        "content-type".spec_bytes()
    } else if i == 46 {
        "content-type".spec_bytes()
    } else if i == 47 {
        "content-type".spec_bytes()
    } else if i == 48 {
        "content-type".spec_bytes()
    } else if i == 49 {
        "content-type".spec_bytes()
    } else if i == 50 {
        "content-type".spec_bytes()
    } else if i == 51 {
        "content-type".spec_bytes()
    } else if i == 52 {
        "content-type".spec_bytes()
    } else if i == 53 {
        "content-type".spec_bytes()
    } else if i == 54 {
        "content-type".spec_bytes()
    } else if i == 55 {
        "range".spec_bytes()
    } else if i == 56 {
        "strict-transport-security".spec_bytes()
    } else if i == 57 {
        "strict-transport-security".spec_bytes()
    } else if i == 58 {
        "strict-transport-security".spec_bytes()
    } else if i == 59 {
        "vary".spec_bytes()
    } else if i == 60 {
        "vary".spec_bytes()
    } else if i == 61 {
        "x-content-type-options".spec_bytes()
    } else if i == 62 {
        "x-xss-protection".spec_bytes()
    } else if i == 63 {
        ":status".spec_bytes()
    } else if i == 64 {
        ":status".spec_bytes()
    } else if i == 65 {
        ":status".spec_bytes()
    } else if i == 66 {
        ":status".spec_bytes()
    } else if i == 67 {
        ":status".spec_bytes()
    } else if i == 68 {
        ":status".spec_bytes()
    } else if i == 69 {
        ":status".spec_bytes()
    } else if i == 70 {
        ":status".spec_bytes()
    } else if i == 71 {
        ":status".spec_bytes()
    } else if i == 72 {
        "accept-language".spec_bytes()
    } else if i == 73 {
        "access-control-allow-credentials".spec_bytes()
    } else if i == 74 {
        "access-control-allow-credentials".spec_bytes()
    } else if i == 75 {
        "access-control-allow-headers".spec_bytes()
    } else if i == 76 {
        "access-control-allow-methods".spec_bytes()
    } else if i == 77 {
        "access-control-allow-methods".spec_bytes()
    } else if i == 78 {
        "access-control-allow-methods".spec_bytes()
    } else if i == 79 {
        "access-control-expose-headers".spec_bytes()
    } else if i == 80 {
        "access-control-request-headers".spec_bytes()
    } else if i == 81 {
        "access-control-request-method".spec_bytes()
    } else if i == 82 {
        "access-control-request-method".spec_bytes()
    } else if i == 83 {
        "alt-svc".spec_bytes()
    } else if i == 84 {
        "authorization".spec_bytes()
    } else if i == 85 {
        "content-security-policy".spec_bytes()
    } else if i == 86 {
        "early-data".spec_bytes()
    } else if i == 87 {
        "expect-ct".spec_bytes()
    } else if i == 88 {
        "forwarded".spec_bytes()
    } else if i == 89 {
        "if-range".spec_bytes()
    } else if i == 90 {
        "origin".spec_bytes()
    } else if i == 91 {
        "purpose".spec_bytes()
    } else if i == 92 {
        "server".spec_bytes()
    } else if i == 93 {
        "timing-allow-origin".spec_bytes()
    } else if i == 94 {
        "upgrade-insecure-requests".spec_bytes()
    } else if i == 95 {
        "user-agent".spec_bytes()
    } else if i == 96 {
        "x-forwarded-for".spec_bytes()
    } else if i == 97 {
        "x-frame-options".spec_bytes()
    } else {
        "x-frame-options".spec_bytes()
    }
}

/// The value of static entry `i`, as octets.
#[verifier::opaque]
pub open spec fn static_value(i: int) -> Seq<u8> {
    if i == 0 {
        "".spec_bytes()
    } else if i == 1 {
        "/".spec_bytes()
    } else if i == 2 {
        "0".spec_bytes()
    } else if i == 3 {
        "".spec_bytes()
    } else if i == 4 {
        "0".spec_bytes()
    } else if i == 5 {
        "".spec_bytes()
    } else if i == 6 {
        "".spec_bytes()
    } else if i == 7 {
        "".spec_bytes()
    } else if i == 8 {
        "".spec_bytes()
    } else if i == 9 {
        "".spec_bytes()
    } else if i == 10 {
        "".spec_bytes()
    } else if i == 11 {
        "".spec_bytes()
    } else if i == 12 {
        "".spec_bytes()
    } else if i == 13 {
        "".spec_bytes()
    } else if i == 14 {
        "".spec_bytes()
    } else if i == 15 {
        "CONNECT".spec_bytes()
    } else if i == 16 {
        "DELETE".spec_bytes()
    } else if i == 17 {
        "GET".spec_bytes()
    } else if i == 18 {
        "HEAD".spec_bytes()
    } else if i == 19 {
        "OPTIONS".spec_bytes()
    } else if i == 20 {
        "POST".spec_bytes()
    } else if i == 21 {
        "PUT".spec_bytes()
    } else if i == 22 {
        "http".spec_bytes()
    } else if i == 23 {
        "https".spec_bytes()
    } else if i == 24 {
        "103".spec_bytes()
    } else if i == 25 {
        "200".spec_bytes()
    } else if i == 26 {
        "304".spec_bytes()
    } else if i == 27 {
        "404".spec_bytes()
    } else if i == 28 {
        "503".spec_bytes()
    } else if i == 29 {
        "*/*".spec_bytes()
    } else if i == 30 {
        "application/dns-message".spec_bytes()
    } else if i == 31 {
        "gzip, deflate, br".spec_bytes()
    } else if i == 32 {
        "bytes".spec_bytes()
    } else if i == 33 {
        "cache-control".spec_bytes()
    } else if i == 34 {
        "content-type".spec_bytes()
    } else if i == 35 {
        "*".spec_bytes()
    } else if i == 36 {
        "max-age=0".spec_bytes()
    } else if i == 37 {
        "max-age=2592000".spec_bytes()
    } else if i == 38 {
        "max-age=604800".spec_bytes()
    } else if i == 39 {
        "no-cache".spec_bytes()
    } else if i == 40 {
        "no-store".spec_bytes()
    } else if i == 41 {
        "public, max-age=31536000".spec_bytes()
    } else if i == 42 {
        "br".spec_bytes()
    } else if i == 43 {
        "gzip".spec_bytes()
    } else if i == 44 {
        "application/dns-message".spec_bytes()
    } else if i == 45 {
        "application/javascript".spec_bytes()
    } else if i == 46 {
        "application/json".spec_bytes()
    } else if i == 47 {
        "application/x-www-form-urlencoded".spec_bytes()
    } else if i == 48 {
        "image/gif".spec_bytes()
    } else if i == 49 {
        "image/jpeg".spec_bytes()
    } else if i == 50 {
        "image/png".spec_bytes()
    } else if i == 51 {
        "text/css".spec_bytes()
    } else if i == 52 {
        "text/html; charset=utf-8".spec_bytes()
    } else if i == 53 {
        "text/plain".spec_bytes()
    } else if i == 54 {
        "text/plain;charset=utf-8".spec_bytes()
    } else if i == 55 {
        "bytes=0-".spec_bytes()
    } else if i == 56 {
        "max-age=31536000".spec_bytes()
    } else if i == 57 {
        "max-age=31536000; includesubdomains".spec_bytes()
    } else if i == 58 {
        "max-age=31536000; includesubdomains; preload".spec_bytes()
    } else if i == 59 {
        "accept-encoding".spec_bytes()
    } else if i == 60 {
        "origin".spec_bytes()
    } else if i == 61 {
        "nosniff".spec_bytes()
    } else if i == 62 {
        "1; mode=block".spec_bytes()
    } else if i == 63 {
        "100".spec_bytes()
    } else if i == 64 {
        "204".spec_bytes()
    } else if i == 65 {
        "206".spec_bytes()
    } else if i == 66 {
        "302".spec_bytes()
    } else if i == 67 {
        "400".spec_bytes()
    } else if i == 68 {
        "403".spec_bytes()
    } else if i == 69 {
        "421".spec_bytes()
    } else if i == 70 {
        "425".spec_bytes()
    } else if i == 71 {
        "500".spec_bytes()
    } else if i == 72 {
        "".spec_bytes()
    } else if i == 73 {
        "FALSE".spec_bytes()
    } else if i == 74 {
        "TRUE".spec_bytes()
    } else if i == 75 {
        "*".spec_bytes()
    } else if i == 76 {
        "get".spec_bytes()
    } else if i == 77 {
        "get, post, options".spec_bytes()
    } else if i == 78 {
        "options".spec_bytes()
    } else if i == 79 {
        "content-length".spec_bytes()
    } else if i == 80 {
        "content-type".spec_bytes()
    } else if i == 81 {
        "get".spec_bytes()
    } else if i == 82 {
        "post".spec_bytes()
    } else if i == 83 {
        "clear".spec_bytes()
    } else if i == 84 {
        "".spec_bytes()
    } else if i == 85 {
        "script-src 'none'; object-src 'none'; base-uri 'none'".spec_bytes()
    } else if i == 86 {
        "1".spec_bytes()
    } else if i == 87 {
        "".spec_bytes()
    } else if i == 88 {
        "".spec_bytes()
    } else if i == 89 {
        "".spec_bytes()
    } else if i == 90 {
        "".spec_bytes()
    } else if i == 91 {
        "prefetch".spec_bytes()
    } else if i == 92 {
        "".spec_bytes()
    } else if i == 93 {
        "*".spec_bytes()
    } else if i == 94 {
        "1".spec_bytes()
    } else if i == 95 {
        "".spec_bytes()
    } else if i == 96 {
        "".spec_bytes()
    } else if i == 97 {
        "deny".spec_bytes()
    } else {
        "sameorigin".spec_bytes()
    }
}

/// The name and value of static entry `i`.
fn static_entry(i: usize) -> (r: (&'static str, &'static str))
    requires
        i < STATIC_TABLE_LEN,
    ensures
        r.0.spec_bytes() == static_name(i as int),
        r.1.spec_bytes() == static_value(i as int),
{
    reveal(static_name);
    reveal(static_value);
    if i == 0 {
        (":authority", "")
    } else if i == 1 {
        (":path", "/")
    } else if i == 2 {
        ("age", "0")
    } else if i == 3 {
        ("content-disposition", "")
    } else if i == 4 {
        ("content-length", "0")
    } else if i == 5 {
        ("cookie", "")
    } else if i == 6 {
        ("date", "")
    } else if i == 7 {
        ("etag", "")
    } else if i == 8 {
        ("if-modified-since", "")
    } else if i == 9 {
        ("if-none-match", "")
    } else if i == 10 {
        ("last-modified", "")
    } else if i == 11 {
        ("link", "")
    } else if i == 12 {
        ("location", "")
    } else if i == 13 {
        ("referer", "")
    } else if i == 14 {
        ("set-cookie", "")
    } else if i == 15 {
        (":method", "CONNECT")
    } else if i == 16 {
        (":method", "DELETE")
    } else if i == 17 {
        (":method", "GET")
    } else if i == 18 {
        (":method", "HEAD")
    } else if i == 19 {
        (":method", "OPTIONS")
    } else if i == 20 {
        (":method", "POST")
    } else if i == 21 {
        (":method", "PUT")
    } else if i == 22 {
        (":scheme", "http")
    } else if i == 23 {
        (":scheme", "https")
    } else if i == 24 {
        (":status", "103")
    } else if i == 25 {
        (":status", "200")
    } else if i == 26 {
        (":status", "304")
    } else if i == 27 {
        (":status", "404")
    } else if i == 28 {
        (":status", "503")
    } else if i == 29 {
        ("accept", "*/*")
    } else if i == 30 {
        ("accept", "application/dns-message")
    } else if i == 31 {
        ("accept-encoding", "gzip, deflate, br")
    } else if i == 32 {
        ("accept-ranges", "bytes")
    } else if i == 33 {
        ("access-control-allow-headers", "cache-control")
    } else if i == 34 {
        ("access-control-allow-headers", "content-type")
    } else if i == 35 {
        ("access-control-allow-origin", "*")
    } else if i == 36 {
        ("cache-control", "max-age=0")
    } else if i == 37 {
        ("cache-control", "max-age=2592000")
    } else if i == 38 {
        ("cache-control", "max-age=604800")
    } else if i == 39 {
        ("cache-control", "no-cache")
    } else if i == 40 {
        ("cache-control", "no-store")
    } else if i == 41 {
        ("cache-control", "public, max-age=31536000")
    } else if i == 42 {
        ("content-encoding", "br")
    } else if i == 43 {
        ("content-encoding", "gzip")
    } else if i == 44 {
        ("content-type", "application/dns-message")
    } else if i == 45 {
        ("content-type", "application/javascript")
    } else if i == 46 {
        ("content-type", "application/json")
    } else if i == 47 {
        ("content-type", "application/x-www-form-urlencoded")
    } else if i == 48 {
        ("content-type", "image/gif")
    } else if i == 49 {
        ("content-type", "image/jpeg")
    } else if i == 50 {
        ("content-type", "image/png")
    } else if i == 51 {
        ("content-type", "text/css")
    } else if i == 52 {
        ("content-type", "text/html; charset=utf-8")
    } else if i == 53 {
        ("content-type", "text/plain")
    } else if i == 54 {
        ("content-type", "text/plain;charset=utf-8")
    } else if i == 55 {
        ("range", "bytes=0-")
    } else if i == 56 {
        ("strict-transport-security", "max-age=31536000")
    } else if i == 57 {
        ("strict-transport-security", "max-age=31536000; includesubdomains")
    } else if i == 58 {
        ("strict-transport-security", "max-age=31536000; includesubdomains; preload")
    } else if i == 59 {
        ("vary", "accept-encoding")
    } else if i == 60 {
        ("vary", "origin")
    } else if i == 61 {
        ("x-content-type-options", "nosniff")
    } else if i == 62 {
        ("x-xss-protection", "1; mode=block")
    } else if i == 63 {
        (":status", "100")
    } else if i == 64 {
        (":status", "204")
    } else if i == 65 {
        (":status", "206")
    } else if i == 66 {
        (":status", "302")
    } else if i == 67 {
        (":status", "400")
    } else if i == 68 {
        (":status", "403")
    } else if i == 69 {
        (":status", "421")
    } else if i == 70 {
        (":status", "425")
    } else if i == 71 {
        (":status", "500")
    } else if i == 72 {
        ("accept-language", "")
    } else if i == 73 {
        ("access-control-allow-credentials", "FALSE")
    } else if i == 74 {
        ("access-control-allow-credentials", "TRUE")
    } else if i == 75 {
        ("access-control-allow-headers", "*")
    } else if i == 76 {
        ("access-control-allow-methods", "get")
    } else if i == 77 {
        ("access-control-allow-methods", "get, post, options")
    } else if i == 78 {
        ("access-control-allow-methods", "options")
    } else if i == 79 {
        ("access-control-expose-headers", "content-length")
    } else if i == 80 {
        ("access-control-request-headers", "content-type")
    } else if i == 81 {
        ("access-control-request-method", "get")
    } else if i == 82 {
        ("access-control-request-method", "post")
    } else if i == 83 {
        ("alt-svc", "clear")
    } else if i == 84 {
        ("authorization", "")
    } else if i == 85 {
        ("content-security-policy", "script-src 'none'; object-src 'none'; base-uri 'none'")
    } else if i == 86 {
        ("early-data", "1")
    } else if i == 87 {
        ("expect-ct", "")
    } else if i == 88 {
        ("forwarded", "")
    } else if i == 89 {
        ("if-range", "")
    } else if i == 90 {
        ("origin", "")
    } else if i == 91 {
        ("purpose", "prefetch")
    } else if i == 92 {
        ("server", "")
    } else if i == 93 {
        ("timing-allow-origin", "*")
    } else if i == 94 {
        ("upgrade-insecure-requests", "1")
    } else if i == 95 {
        ("user-agent", "")
    } else if i == 96 {
        ("x-forwarded-for", "")
    } else if i == 97 {
        ("x-frame-options", "deny")
    } else {
        ("x-frame-options", "sameorigin")
    }
}

/// The entries of the static table, as RFC 9204 (appendix A) lists them:
/// each index with its name and value.
pub proof fn lemma_static_table_entries()
    ensures
        static_name(0) == ":authority".spec_bytes() && static_value(0) == "".spec_bytes(),
        static_name(1) == ":path".spec_bytes() && static_value(1) == "/".spec_bytes(),
        static_name(2) == "age".spec_bytes() && static_value(2) == "0".spec_bytes(),
        static_name(3) == "content-disposition".spec_bytes() && static_value(3) == "".spec_bytes(),
        static_name(4) == "content-length".spec_bytes() && static_value(4) == "0".spec_bytes(),
        static_name(5) == "cookie".spec_bytes() && static_value(5) == "".spec_bytes(),
        static_name(6) == "date".spec_bytes() && static_value(6) == "".spec_bytes(),
        static_name(7) == "etag".spec_bytes() && static_value(7) == "".spec_bytes(),
        static_name(8) == "if-modified-since".spec_bytes() && static_value(8) == "".spec_bytes(),
        static_name(9) == "if-none-match".spec_bytes() && static_value(9) == "".spec_bytes(),
        static_name(10) == "last-modified".spec_bytes() && static_value(10) == "".spec_bytes(),
        static_name(11) == "link".spec_bytes() && static_value(11) == "".spec_bytes(),
        static_name(12) == "location".spec_bytes() && static_value(12) == "".spec_bytes(),
        static_name(13) == "referer".spec_bytes() && static_value(13) == "".spec_bytes(),
        static_name(14) == "set-cookie".spec_bytes() && static_value(14) == "".spec_bytes(),
        static_name(15) == ":method".spec_bytes() && static_value(15) == "CONNECT".spec_bytes(),
        static_name(16) == ":method".spec_bytes() && static_value(16) == "DELETE".spec_bytes(),
        static_name(17) == ":method".spec_bytes() && static_value(17) == "GET".spec_bytes(),
        static_name(18) == ":method".spec_bytes() && static_value(18) == "HEAD".spec_bytes(),
        static_name(19) == ":method".spec_bytes() && static_value(19) == "OPTIONS".spec_bytes(),
        static_name(20) == ":method".spec_bytes() && static_value(20) == "POST".spec_bytes(),
        static_name(21) == ":method".spec_bytes() && static_value(21) == "PUT".spec_bytes(),
        static_name(22) == ":scheme".spec_bytes() && static_value(22) == "http".spec_bytes(),
        static_name(23) == ":scheme".spec_bytes() && static_value(23) == "https".spec_bytes(),
        static_name(24) == ":status".spec_bytes() && static_value(24) == "103".spec_bytes(),
        static_name(25) == ":status".spec_bytes() && static_value(25) == "200".spec_bytes(),
        static_name(26) == ":status".spec_bytes() && static_value(26) == "304".spec_bytes(),
        static_name(27) == ":status".spec_bytes() && static_value(27) == "404".spec_bytes(),
        static_name(28) == ":status".spec_bytes() && static_value(28) == "503".spec_bytes(),
        static_name(29) == "accept".spec_bytes() && static_value(29) == "*/*".spec_bytes(),
        static_name(30) == "accept".spec_bytes() && static_value(30) == "application/dns-message".spec_bytes(),
        static_name(31) == "accept-encoding".spec_bytes() && static_value(31) == "gzip, deflate, br".spec_bytes(),
        static_name(32) == "accept-ranges".spec_bytes() && static_value(32) == "bytes".spec_bytes(),
        static_name(33) == "access-control-allow-headers".spec_bytes() && static_value(33) == "cache-control".spec_bytes(),
        static_name(34) == "access-control-allow-headers".spec_bytes() && static_value(34) == "content-type".spec_bytes(),
        static_name(35) == "access-control-allow-origin".spec_bytes() && static_value(35) == "*".spec_bytes(),
        static_name(36) == "cache-control".spec_bytes() && static_value(36) == "max-age=0".spec_bytes(),
        static_name(37) == "cache-control".spec_bytes() && static_value(37) == "max-age=2592000".spec_bytes(),
        static_name(38) == "cache-control".spec_bytes() && static_value(38) == "max-age=604800".spec_bytes(),
        static_name(39) == "cache-control".spec_bytes() && static_value(39) == "no-cache".spec_bytes(),
        static_name(40) == "cache-control".spec_bytes() && static_value(40) == "no-store".spec_bytes(),
        static_name(41) == "cache-control".spec_bytes() && static_value(41) == "public, max-age=31536000".spec_bytes(),
        static_name(42) == "content-encoding".spec_bytes() && static_value(42) == "br".spec_bytes(),
        static_name(43) == "content-encoding".spec_bytes() && static_value(43) == "gzip".spec_bytes(),
        static_name(44) == "content-type".spec_bytes() && static_value(44) == "application/dns-message".spec_bytes(),
        static_name(45) == "content-type".spec_bytes() && static_value(45) == "application/javascript".spec_bytes(),
        static_name(46) == "content-type".spec_bytes() && static_value(46) == "application/json".spec_bytes(),
        static_name(47) == "content-type".spec_bytes() && static_value(47) == "application/x-www-form-urlencoded".spec_bytes(),
        static_name(48) == "content-type".spec_bytes() && static_value(48) == "image/gif".spec_bytes(),
        static_name(49) == "content-type".spec_bytes() && static_value(49) == "image/jpeg".spec_bytes(),
        static_name(50) == "content-type".spec_bytes() && static_value(50) == "image/png".spec_bytes(),
        static_name(51) == "content-type".spec_bytes() && static_value(51) == "text/css".spec_bytes(),
        static_name(52) == "content-type".spec_bytes() && static_value(52) == "text/html; charset=utf-8".spec_bytes(),
        static_name(53) == "content-type".spec_bytes() && static_value(53) == "text/plain".spec_bytes(),
        static_name(54) == "content-type".spec_bytes() && static_value(54) == "text/plain;charset=utf-8".spec_bytes(),
        static_name(55) == "range".spec_bytes() && static_value(55) == "bytes=0-".spec_bytes(),
        static_name(56) == "strict-transport-security".spec_bytes() && static_value(56) == "max-age=31536000".spec_bytes(),
        static_name(57) == "strict-transport-security".spec_bytes() && static_value(57) == "max-age=31536000; includesubdomains".spec_bytes(),
        static_name(58) == "strict-transport-security".spec_bytes() && static_value(58) == "max-age=31536000; includesubdomains; preload".spec_bytes(),
        static_name(59) == "vary".spec_bytes() && static_value(59) == "accept-encoding".spec_bytes(),
        static_name(60) == "vary".spec_bytes() && static_value(60) == "origin".spec_bytes(),
        static_name(61) == "x-content-type-options".spec_bytes() && static_value(61) == "nosniff".spec_bytes(),
        static_name(62) == "x-xss-protection".spec_bytes() && static_value(62) == "1; mode=block".spec_bytes(),
        static_name(63) == ":status".spec_bytes() && static_value(63) == "100".spec_bytes(),
        static_name(64) == ":status".spec_bytes() && static_value(64) == "204".spec_bytes(),
        static_name(65) == ":status".spec_bytes() && static_value(65) == "206".spec_bytes(),
        static_name(66) == ":status".spec_bytes() && static_value(66) == "302".spec_bytes(),
        static_name(67) == ":status".spec_bytes() && static_value(67) == "400".spec_bytes(),
        static_name(68) == ":status".spec_bytes() && static_value(68) == "403".spec_bytes(),
        static_name(69) == ":status".spec_bytes() && static_value(69) == "421".spec_bytes(),
        static_name(70) == ":status".spec_bytes() && static_value(70) == "425".spec_bytes(),
        static_name(71) == ":status".spec_bytes() && static_value(71) == "500".spec_bytes(),
        static_name(72) == "accept-language".spec_bytes() && static_value(72) == "".spec_bytes(),
        static_name(73) == "access-control-allow-credentials".spec_bytes() && static_value(73) == "FALSE".spec_bytes(),
        static_name(74) == "access-control-allow-credentials".spec_bytes() && static_value(74) == "TRUE".spec_bytes(),
        static_name(75) == "access-control-allow-headers".spec_bytes() && static_value(75) == "*".spec_bytes(),
        static_name(76) == "access-control-allow-methods".spec_bytes() && static_value(76) == "get".spec_bytes(),
        static_name(77) == "access-control-allow-methods".spec_bytes() && static_value(77) == "get, post, options".spec_bytes(),
        static_name(78) == "access-control-allow-methods".spec_bytes() && static_value(78) == "options".spec_bytes(),
        static_name(79) == "access-control-expose-headers".spec_bytes() && static_value(79) == "content-length".spec_bytes(),
        static_name(80) == "access-control-request-headers".spec_bytes() && static_value(80) == "content-type".spec_bytes(),
        static_name(81) == "access-control-request-method".spec_bytes() && static_value(81) == "get".spec_bytes(),
        static_name(82) == "access-control-request-method".spec_bytes() && static_value(82) == "post".spec_bytes(),
        static_name(83) == "alt-svc".spec_bytes() && static_value(83) == "clear".spec_bytes(),
        static_name(84) == "authorization".spec_bytes() && static_value(84) == "".spec_bytes(),
        static_name(85) == "content-security-policy".spec_bytes() && static_value(85) == "script-src 'none'; object-src 'none'; base-uri 'none'".spec_bytes(),
        static_name(86) == "early-data".spec_bytes() && static_value(86) == "1".spec_bytes(),
        static_name(87) == "expect-ct".spec_bytes() && static_value(87) == "".spec_bytes(),
        static_name(88) == "forwarded".spec_bytes() && static_value(88) == "".spec_bytes(),
        static_name(89) == "if-range".spec_bytes() && static_value(89) == "".spec_bytes(),
        static_name(90) == "origin".spec_bytes() && static_value(90) == "".spec_bytes(),
        static_name(91) == "purpose".spec_bytes() && static_value(91) == "prefetch".spec_bytes(),
        static_name(92) == "server".spec_bytes() && static_value(92) == "".spec_bytes(),
        static_name(93) == "timing-allow-origin".spec_bytes() && static_value(93) == "*".spec_bytes(),
        static_name(94) == "upgrade-insecure-requests".spec_bytes() && static_value(94) == "1".spec_bytes(),
        static_name(95) == "user-agent".spec_bytes() && static_value(95) == "".spec_bytes(),
        static_name(96) == "x-forwarded-for".spec_bytes() && static_value(96) == "".spec_bytes(),
        static_name(97) == "x-frame-options".spec_bytes() && static_value(97) == "deny".spec_bytes(),
        static_name(98) == "x-frame-options".spec_bytes() && static_value(98) == "sameorigin".spec_bytes(),
{
    reveal(static_name);
    reveal(static_value);
}

/// The first static entry at or after `i` whose name and value are those
/// of `f`.
pub open spec fn static_find_from(f: FieldView, i: nat) -> Option<nat>
    decreases 99 - i,
{
    if i >= 99 {
        None
    } else if static_name(i as int) == f.0 && static_value(i as int) == f.1 {
        Some(i)
    } else {
        static_find_from(f, i + 1)
    }
}

/// The first static entry whose name and value are those of `f`.
pub open spec fn static_find(f: FieldView) -> Option<nat> {
    static_find_from(f, 0)
}

/// The first static entry at or after `i` whose name is `name`.
pub open spec fn static_find_name_from(name: Seq<u8>, i: nat) -> Option<nat>
    decreases 99 - i,
{
    if i >= 99 {
        None
    } else if static_name(i as int) == name {
        Some(i)
    } else {
        static_find_name_from(name, i + 1)
    }
}

/// The first static entry whose name is `name`.
pub open spec fn static_find_name(name: Seq<u8>) -> Option<nat> {
    static_find_name_from(name, 0)
}

proof fn lemma_static_find_from_first(f: FieldView, i: nat)
    ensures
        static_find_from(f, i) matches Some(k) ==> i <= k < 99 && static_name(k as int) == f.0
            && static_value(k as int) == f.1 && forall|j: int|
            i <= j < k ==> !(static_name(j) == f.0 && static_value(j) == f.1),
        static_find_from(f, i) is None ==> forall|j: int|
            i <= j < 99 ==> !(static_name(j) == f.0 && static_value(j) == f.1),
    decreases 99 - i,
{
    if i < 99 {
        lemma_static_find_from_first(f, i + 1);
    }
}

proof fn lemma_static_find_name_from_first(name: Seq<u8>, i: nat)
    ensures
        static_find_name_from(name, i) matches Some(k) ==> i <= k < 99 && static_name(k as int)
            == name && forall|j: int| i <= j < k ==> static_name(j) != name,
        static_find_name_from(name, i) is None ==> forall|j: int|
            i <= j < 99 ==> static_name(j) != name,
    decreases 99 - i,
{
    if i < 99 {
        lemma_static_find_name_from_first(name, i + 1);
    }
}

/// A field is found at the first static entry with its name and value, and
/// not found where no entry has them; a name is found at the first static
/// entry with that name, and not found where none has it.
pub proof fn lemma_static_find_first(f: FieldView)
    ensures
        static_find(f) matches Some(k) ==> k < 99 && static_name(k as int) == f.0 && static_value(
            k as int,
        ) == f.1 && forall|j: int| 0 <= j < k ==> !(static_name(j) == f.0 && static_value(j) == f.1),
        static_find(f) is None ==> forall|j: int|
            0 <= j < 99 ==> !(static_name(j) == f.0 && static_value(j) == f.1),
        static_find_name(f.0) matches Some(k) ==> k < 99 && static_name(k as int) == f.0 && forall|
            j: int,
        | 0 <= j < k ==> static_name(j) != f.0,
        static_find_name(f.0) is None ==> forall|j: int| 0 <= j < 99 ==> static_name(j) != f.0,
{
    lemma_static_find_from_first(f, 0);
    lemma_static_find_name_from_first(f.0, 0);
}

/// The static table.
pub struct StaticTable;

impl StaticTable {
    /// The index of the first static entry equal to `field`.
    pub fn find(field: &HeaderField) -> (r: Option<usize>)
        ensures
            r matches Some(k) ==> static_find(field@) == Some(k as nat),
            r is None ==> static_find(field@) is None,
            r matches Some(k) ==> k < 99 && static_name(k as int) == field@.0 && static_value(
                k as int,
            ) == field@.1,
            r is None ==> forall|j: int|
                0 <= j < 99 ==> !(static_name(j) == field@.0 && static_value(j) == field@.1),
    {
        proof {
            lemma_static_find_first(field@);
        }
        let mut i: usize = 0;
        while i < STATIC_TABLE_LEN
            invariant
                i <= STATIC_TABLE_LEN,
                static_find(field@) == static_find_from(field@, i as nat),
            decreases STATIC_TABLE_LEN - i,
        {
            let (n, v) = static_entry(i);
            if bytes_eq(n.as_bytes(), field.name.as_slice()) && bytes_eq(
                v.as_bytes(),
                field.value.as_slice(),
            ) {
                return Some(i);
            }
            i = i + 1;
        }
        None
    }

    /// The index of the first static entry named `name`.
    pub fn find_name(name: &[u8]) -> (r: Option<usize>)
        ensures
            r matches Some(k) ==> static_find_name(name@) == Some(k as nat),
            r is None ==> static_find_name(name@) is None,
            r matches Some(k) ==> k < 99 && static_name(k as int) == name@,
            r is None ==> forall|j: int| 0 <= j < 99 ==> static_name(j) != name@,
    {
        proof {
            lemma_static_find_first((name@, Seq::empty()));
        }
        let mut i: usize = 0;
        while i < STATIC_TABLE_LEN
            invariant
                i <= STATIC_TABLE_LEN,
                static_find_name(name@) == static_find_name_from(name@, i as nat),
            decreases STATIC_TABLE_LEN - i,
        {
            let (n, _v) = static_entry(i);
            if bytes_eq(n.as_bytes(), name) {
                return Some(i);
            }
            i = i + 1;
        }
        None
    }
}

} // verus!
