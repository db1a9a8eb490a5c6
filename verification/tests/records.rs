use dc34_vault::storage::hex;
use dc34_vault::storage::{
    setting_bytes, setting_value, BatchStore, ContentKind, Error, PasswordRecord, PasswordSerializationError, StorageContent,
    TOTPSerializationError, TotpAlgorithm, TotpRecord,
};
use std::convert::TryFrom;

fn sample_totp() -> TotpRecord {
    TotpRecord {
        version: 2,
        secret: "JBSWY3DPEHPK3PXP".to_string(),
        name: "Example:alice".to_string(),
        algorithm: TotpAlgorithm::HmacSha256,
        notes: "Example".to_string(),
        digits: 8,
        timestep: 60,
        ctime: 1700000000,
        is_hotp: false,
    }
}

#[test]
fn totp_record_is_written_tag_by_tag() {
    let bytes = sample_totp().to_bytes();
    assert_eq!(
        String::from_utf8(bytes).unwrap(),
        "version:2\nsecret:JBSWY3DPEHPK3PXP\nname:Example:alice\nalgorithm:SHA256\nnotes:Example\ndigits:8\ntimestep:60\nhotp:0\nctime:1700000000\n"
    );
}

#[test]
fn totp_record_roundtrips() {
    let r = sample_totp();
    let back = TotpRecord::try_from(Vec::<u8>::from(r)).unwrap();
    let r = sample_totp();
    assert_eq!(back.version, r.version);
    assert_eq!(back.secret, r.secret);
    assert_eq!(back.name, r.name);
    assert_eq!(back.algorithm, r.algorithm);
    assert_eq!(back.notes, r.notes);
    assert_eq!(back.digits, r.digits);
    assert_eq!(back.timestep, r.timestep);
    assert_eq!(back.ctime, r.ctime);
    assert_eq!(back.is_hotp, r.is_hotp);
}

#[test]
fn totp_read_defaults_skips_and_appends() {
    let r = TotpRecord::try_from(b"name:a\nno colon here\nname:b\nbogus:1\nhotp:7".to_vec()).unwrap();
    assert_eq!(r.version, 2);
    assert_eq!(r.name, "ab");
    assert_eq!(r.algorithm, TotpAlgorithm::HmacSha1);
    assert!(!r.is_hotp);
    assert_eq!(r.digits, 0);
}

#[test]
fn only_hotp_one_marks_an_hotp_record() {
    assert!(TotpRecord::try_from(b"hotp:1
".to_vec()).unwrap().is_hotp);
    assert!(!TotpRecord::try_from(b"hotp:0
".to_vec()).unwrap().is_hotp);
    assert!(!TotpRecord::try_from(b"hotp:2
".to_vec()).unwrap().is_hotp);
    assert!(!TotpRecord::try_from(b"name:x
".to_vec()).unwrap().is_hotp);
}

#[test]
fn totp_read_errors() {
    let err = |b: &[u8]| TotpRecord::try_from(b.to_vec()).err().unwrap();
    assert_eq!(err(&[0xFF]), TOTPSerializationError::MalformedInput);
    assert_eq!(err(b"version:x"), TOTPSerializationError::BadVersion);
    assert_eq!(err(b"algorithm:MD5"), TOTPSerializationError::BadAlgorithm);
    assert_eq!(err(b"digits:4294967296"), TOTPSerializationError::BadDigitsAmount);
    assert_eq!(err(b"ctime:-1"), TOTPSerializationError::BadCtime);
    assert_eq!(err(b"timestep:"), TOTPSerializationError::BadTimestep);
    assert_eq!(err(b"hotp:256"), TOTPSerializationError::BadHotp);
}

#[test]
fn totp_from_vec_starts_at_version_zero_and_keeps_record_on_error() {
    let mut r = sample_totp();
    r.from_vec(b"name:x".to_vec()).unwrap();
    assert_eq!(r.version, 0);
    assert_eq!(r.name, "x");
    assert_eq!(r.secret, "");
    let mut r = sample_totp();
    assert!(matches!(r.from_vec(b"name:y\ndigits:z".to_vec()), Err(Error::TotpSerError(TOTPSerializationError::BadDigitsAmount))));
    assert_eq!(r.name, "Example:alice");
}

#[test]
fn totp_settings_and_key_input() {
    let r = sample_totp();
    let s = r.settings();
    assert_eq!(s.dict, "vault.totp");
    assert_eq!(s.alloc_hint, Some(128));
    assert_eq!(r.hash_input(), b"Example:alice".to_vec());
    let mut r = r;
    r.set_ctime(5);
    assert_eq!(r.ctime, 5);
}

fn sample_password() -> PasswordRecord {
    PasswordRecord {
        version: 1,
        description: "https://example.com".to_string(),
        username: "alice".to_string(),
        password: "s3cret:with:colons".to_string(),
        notes: "Notes".to_string(),
        ctime: 10,
        atime: 20,
        count: 3,
    }
}

#[test]
fn password_record_roundtrips() {
    let bytes = sample_password().to_vec();
    assert_eq!(
        String::from_utf8(bytes.clone()).unwrap(),
        "version:1\ndescription:https://example.com\nusername:alice\npassword:s3cret:with:colons\nnotes:Notes\nctime:10\natime:20\ncount:3\n"
    );
    let back = PasswordRecord::try_from(bytes).unwrap();
    assert_eq!(back.description, "https://example.com");
    assert_eq!(back.username, "alice");
    assert_eq!(back.password, "s3cret:with:colons");
    assert_eq!(back.notes, "Notes");
    assert_eq!((back.version, back.ctime, back.atime, back.count), (1, 10, 20, 3));
}

#[test]
fn password_read_errors() {
    let err = |b: &[u8]| PasswordRecord::try_from(b.to_vec()).err().unwrap();
    assert_eq!(err(&[0xC3]), PasswordSerializationError::MalformedInput);
    assert_eq!(err(b"version:1.0"), PasswordSerializationError::BadVersion);
    assert_eq!(err(b"count:x"), PasswordSerializationError::BadCount);
    assert_eq!(err(b"ctime:"), PasswordSerializationError::BadCtime);
    assert_eq!(err(b"atime:q"), PasswordSerializationError::BadAtime);
    assert_eq!(PasswordRecord::try_from(b"x:y".to_vec()).unwrap().version, 1);
}

#[test]
fn password_from_vec_clears_first_and_keeps_partial_read() {
    let mut r = sample_password();
    let res = r.from_vec(b"username:bob\natime:oops\npassword:never".to_vec());
    assert!(matches!(res, Err(Error::PasswordSerError(PasswordSerializationError::BadAtime))));
    assert_eq!(r.username, "bob");
    assert_eq!(r.password, "");
    assert_eq!(r.description, "");
    assert_eq!(r.version, 0);
    assert_eq!(r.count, 0);
}

#[test]
fn password_allocate_and_clear() {
    let r = PasswordRecord::allocate();
    assert_eq!((r.version, r.ctime, r.atime, r.count), (0, 0, 0, 0));
    assert!(r.description.is_empty() && r.username.is_empty() && r.password.is_empty() && r.notes.is_empty());
    assert!(r.notes.capacity() >= 1024);
    let mut p = sample_password();
    p.clear();
    assert_eq!((p.version, p.ctime, p.atime, p.count), (0, 0, 0, 0));
    assert!(p.description.is_empty() && p.notes.is_empty());
}

#[test]
fn password_key_input_and_use() {
    let mut p = sample_password();
    assert_eq!(p.hash_input(), b"https://example.comalice".to_vec());
    assert_eq!(p.settings().dict, "vault.passwords");
    assert_eq!(p.autotype_text(true), "alice");
    assert_eq!(p.autotype_text(false), "s3cret:with:colons");
    p.mark_used(99);
    assert_eq!((p.count, p.atime), (4, 99));
}

#[test]
fn content_kinds_name_their_dictionaries() {
    assert_eq!(ContentKind::TOTP.settings().dict, "vault.totp");
    assert_eq!(ContentKind::Password.settings().dict, "vault.passwords");
}

#[test]
fn batch_collects_duplicates_and_stops_on_other_errors() {
    let mut b = BatchStore::new();
    assert!(b.sync_due(false));
    assert!(b.record(Ok(())).is_none());
    assert!(!b.sync_due(false));
    assert!(b.sync_due(true));
    assert!(b.record(Err(Error::KeyExists)).is_none());
    assert!(b.record(Ok(())).is_none());
    assert!(b.record(Err(Error::KeyExists)).is_none());
    assert_eq!(b.index, 4);
    let stop = b.record(Err(Error::IoError(std::io::Error::new(std::io::ErrorKind::Other, "x"))));
    assert!(matches!(stop, Some(Error::IoError(_))));
    match b.finish() {
        Err(Error::DupesExist(d)) => assert_eq!(d, vec![1, 3]),
        _ => panic!("expected duplicates"),
    }
    assert!(BatchStore::new().finish().is_ok());
}

#[test]
fn algorithm_names() {
    assert_eq!(TotpAlgorithm::HmacSha1.name(), "SHA1");
    assert_eq!(TotpAlgorithm::HmacSha256.name(), "SHA256");
    assert_eq!(TotpAlgorithm::HmacSha512.name(), "SHA512");
    assert_eq!(TotpAlgorithm::default(), TotpAlgorithm::HmacSha1);
}

#[test]
fn settings_are_stored_little_endian() {
    assert_eq!(setting_bytes(0), [0, 0, 0, 0]);
    assert_eq!(setting_bytes(3), [3, 0, 0, 0]);
    assert_eq!(setting_bytes(0x1234_5678), [0x78, 0x56, 0x34, 0x12]);
}

#[test]
fn settings_read_back_what_was_written() {
    for v in [0usize, 1, 2, 9, 255, 256, 65_535, 0x00ff_ff00, 0xffff_ffff] {
        assert_eq!(setting_value(4, setting_bytes(v)), Some(v));
    }
}

#[test]
fn short_setting_reads_give_nothing() {
    assert_eq!(setting_value(0, [1, 0, 0, 0]), None);
    assert_eq!(setting_value(3, [1, 0, 0, 0]), None);
    assert_eq!(setting_value(4, [1, 0, 0, 0]), Some(1));
}

#[test]
fn storage_key_hex_is_two_upper_digits_a_byte() {
    assert_eq!(hex(vec![0x00, 0xAB, 0x7F]), "00AB7F");
    assert_eq!(hex(vec![]), "");
    assert_ne!(hex(vec![0x01, 0x23]), hex(vec![0x12, 0x30]));
}

#[test]
fn a_bad_line_anywhere_fails_the_totp_read() {
    let mut r = TotpRecord::try_from(b"name:keep".to_vec()).unwrap();
    assert!(r.from_vec(b"name:a\nsecret:b\ntimestep:-1\nnotes:c".to_vec()).is_err());
    assert_eq!(r.name, "keep");
    assert!(r.from_vec(b"name:a\nalgorithm:MD5".to_vec()).is_err());
    assert!(r.from_vec(b"hotp:300".to_vec()).is_err());
}
