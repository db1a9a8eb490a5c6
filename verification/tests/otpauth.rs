use dc34_vault::otpauth::{parse_query, url_decode};
use dc34_vault::storage::{TotpAlgorithm, TotpRecord};

#[test]
fn from_uri_reads_a_totp_uri() {
    let r = TotpRecord::from_uri(
        "totp/ACME%20Co:john.doe@email.com?secret=HXDMVJECJJWSRB3HWIZR4IFUGFTMXBOZ&issuer=ACME+Co&algorithm=sha256&digits=7&period=60",
    )
    .unwrap();
    assert!(!r.is_hotp);
    assert_eq!(r.name, "ACME Co:john.doe@email.com");
    assert_eq!(r.secret, "HXDMVJECJJWSRB3HWIZR4IFUGFTMXBOZ");
    assert_eq!(r.notes, "ACME Co");
    assert_eq!(r.algorithm, TotpAlgorithm::HmacSha256);
    assert_eq!(r.digits, 7);
    assert_eq!(r.timestep, 60);
    assert_eq!(r.version, 0);
    assert_eq!(r.ctime, 0);
}

#[test]
fn from_uri_defaults() {
    let r = TotpRecord::from_uri("TOTP/label?secret=ABC").unwrap();
    assert_eq!(r.algorithm, TotpAlgorithm::HmacSha1);
    assert_eq!(r.digits, 6);
    assert_eq!(r.timestep, 30);
    assert_eq!(r.notes, "");
    let h = TotpRecord::from_uri("HoTp/x?secret=S&period=99&counter=5").unwrap();
    assert!(h.is_hotp);
    assert_eq!(h.timestep, 0);
}

#[test]
fn from_uri_errors() {
    let err = |u: &str| TotpRecord::from_uri(u).err().unwrap();
    assert_eq!(err("totp"), "Invalid format: missing '/'");
    assert_eq!(err("motp/x?secret=a"), "Unknown OTP type: motp");
    assert_eq!(err("totp/x"), "Missing query parameters");
    assert_eq!(err("totp/x?issuer=a"), "Missing required 'secret' parameter");
    assert_eq!(err("totp/x?secret=a&algorithm=md5"), "Unknown algorithm: md5");
    assert_eq!(err("totp/x?secret=a&digits=six"), "Invalid digits value: six");
    assert_eq!(err("totp/x?secret=a&period=-1"), "Invalid period value: -1");
    assert_eq!(err("totp/a%zz?secret=a"), "Invalid hex in percent encoding: zz");
    assert_eq!(err("totp/a%4?secret=a"), "Invalid percent encoding");
}

#[test]
fn algorithm_matches_in_any_case() {
    let alg = |a: &str| TotpRecord::from_uri(&format!("totp/x?secret=s&algorithm={}", a)).unwrap().algorithm;
    assert_eq!(alg("sha1"), TotpAlgorithm::HmacSha1);
    assert_eq!(alg("Sha512"), TotpAlgorithm::HmacSha512);
    assert_eq!(alg("\u{17f}ha256"), TotpAlgorithm::HmacSha256);
}

#[test]
fn url_decoding() {
    assert_eq!(url_decode("a+b%20c%41").unwrap(), "a b cA");
    assert_eq!(url_decode("%e9").unwrap(), "\u{e9}");
    assert_eq!(url_decode("%+5").unwrap(), "\u{5}");
    assert_eq!(url_decode("").unwrap(), "");
    assert_eq!(url_decode("%").unwrap_err(), "Invalid percent encoding");
    assert_eq!(url_decode("%A").unwrap_err(), "Invalid percent encoding");
    assert_eq!(url_decode("%\u{e9}").unwrap_err(), "Invalid hex in percent encoding: \u{e9}");
    assert_eq!(url_decode("%a\u{e9}").unwrap_err(), "Invalid percent encoding");
    assert_eq!(url_decode("%g1").unwrap_err(), "Invalid hex in percent encoding: g1");
}

#[test]
fn query_later_values_win_and_pieces_without_equals_are_skipped() {
    let q = parse_query("a=1&b&a=2&c=%41&=e").unwrap();
    assert_eq!(q.get("a").unwrap(), "2");
    assert_eq!(q.get("c").unwrap(), "A");
    assert_eq!(q.get("").unwrap(), "e");
    assert!(q.get("b").is_none());
    assert!(parse_query("a=%zz").is_err());
}
