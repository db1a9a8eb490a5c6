//! The vault's stored records: TOTP and password entries, their text format, and the
//! errors of reading them back.
use vstd::prelude::*;
use vstd::utf8::*;
use vstd::string::*;
use crate::lines::{
    split_lines, lemma_fold_lines_fails, fields_text, fold_fields, fold_lines, lemma_fields_text_push, lemma_fold_fields, push_field,
    push_field_num, tagged_line, fields_clean,
};
use crate::text::{
    decode_chars, digit_char_upper, find_char, find_in, lemma_find_char, lemma_num_chars,
    lemma_parse_num_chars, num_chars, parse_bounded, parse_uint, push_char, push_dec, push_range,
    range_eq, string_bytes, string_of, digit_to_char_upper, dec_chars, string_with_capacity,
    clear_string,
};
use crate::vault_api::{VAULT_BOOKMARKS_DICT, VAULT_PASSWORD_DICT, VAULT_TOTP_DICT};
pub use crate::bookmarks::{Bookmark, BookmarkError};

verus! {

broadcast use vstd::string::group_string_axioms;

/// Bytes to reserve for a TOTP or password record.
pub const VAULT_TOTP_ALLOC_HINT: usize = 128;
/// The password record format's version.
pub const VAULT_PASSWORD_REC_VERSION: u32 = 1;
/// The TOTP record format's version.
///
///  - v1: the basic TOTP record
///  - v2: adds HOTP. A `hotp` field of 1 marks an HOTP record, whose `timestep` holds the
///    counter; a v1 record reads as a v2 record with `hotp` false.
pub const VAULT_TOTP_REC_VERSION: u32 = 2;

#[verifier::external_type_specification]
#[verifier::external_body]
pub struct ExIoError(std::io::Error);

/// Errors of the record store.
#[derive(Debug)]
pub enum Error {
    IoError(std::io::Error),
    TotpSerError(TOTPSerializationError),
    PasswordSerError(PasswordSerializationError),
    KeyExists,
    DupesExist(Vec<usize>),
}

/// Why a stored TOTP record could not be read.
#[derive(Debug, Clone, Copy, PartialEq, Eq, Structural)]
pub enum TOTPSerializationError {
    BadVersion,
    BadAlgorithm,
    BadDigitsAmount,
    BadCtime,
    BadTimestep,
    BadHotp,
    MalformedInput,
}

/// Why a stored password record could not be read.
#[derive(Debug, Clone, Copy, PartialEq, Eq, Structural)]
pub enum PasswordSerializationError {
    MalformedInput,
    BadVersion,
    BadCount,
    BadCtime,
    BadAtime,
}

/// The HMAC a TOTP code is computed with.
#[derive(Debug, Clone, Copy, PartialEq, Eq, Structural)]
pub enum TotpAlgorithm {
    HmacSha1,
    HmacSha256,
    HmacSha512,
}

/// The name a TOTP algorithm is stored under.
pub open spec fn algorithm_text(a: TotpAlgorithm) -> Seq<char> {
    match a {
        TotpAlgorithm::HmacSha1 => "SHA1"@,
        TotpAlgorithm::HmacSha256 => "SHA256"@,
        TotpAlgorithm::HmacSha512 => "SHA512"@,
    }
}

/// The algorithm stored under the name `s`.
pub open spec fn algorithm_from_text(s: Seq<char>) -> Option<TotpAlgorithm> {
    if s == "SHA1"@ {
        Some(TotpAlgorithm::HmacSha1)
    } else if s == "SHA256"@ {
        Some(TotpAlgorithm::HmacSha256)
    } else if s == "SHA512"@ {
        Some(TotpAlgorithm::HmacSha512)
    } else {
        None
    }
}

impl TotpAlgorithm {
    /// The name the algorithm is stored and shown under.
    pub fn name(&self) -> (r: &'static str)
        ensures
            r@ == algorithm_text(*self),
    {
        match self {
            TotpAlgorithm::HmacSha1 => "SHA1",
            TotpAlgorithm::HmacSha256 => "SHA256",
            TotpAlgorithm::HmacSha512 => "SHA512",
        }
    }

    /// The algorithm named by `cs[lo..hi]`.
    pub fn from_range(cs: &Vec<char>, lo: usize, hi: usize) -> (r: Option<TotpAlgorithm>)
        requires
            lo <= hi <= cs@.len(),
        ensures
            r == algorithm_from_text(cs@.subrange(lo as int, hi as int)),
    {
        if range_eq(cs, lo, hi, "SHA1") {
            Some(TotpAlgorithm::HmacSha1)
        } else if range_eq(cs, lo, hi, "SHA256") {
            Some(TotpAlgorithm::HmacSha256)
        } else if range_eq(cs, lo, hi, "SHA512") {
            Some(TotpAlgorithm::HmacSha512)
        } else {
            None
        }
    }
}

impl Default for TotpAlgorithm {
    fn default() -> (r: Self)
        ensures
            r == TotpAlgorithm::HmacSha1,
    {
        TotpAlgorithm::HmacSha1
    }
}

/// Where a kind of record is stored: its PDDB dictionary and the space to reserve for it.
#[derive(Clone)]
pub struct ContentPDDBSettings {
    pub dict: String,
    pub alloc_hint: Option<usize>,
}

/// The kinds of record the vault stores.
pub enum ContentKind {
    TOTP,
    Password,
}

/// A record the vault can store: it names its dictionary, takes a creation time, reads
/// itself from and writes itself to bytes, and gives the bytes its storage key is the
/// SHA-256 of.
pub trait StorageContent {
    fn settings(&self) -> ContentPDDBSettings;

    fn set_ctime(&mut self, value: u64);

    fn from_vec(&mut self, data: Vec<u8>) -> Result<(), Error>;

    fn to_vec(&self) -> Vec<u8>;

    /// The bytes whose SHA-256 digest, in upper-case hex, is the record's storage key.
    fn hash_input(&self) -> Vec<u8>;
}

// ---------------------------------------------------------------------------------------
// TOTP records
// ---------------------------------------------------------------------------------------

/// A TOTP (or HOTP) secret and how to compute codes from it.
pub struct TotpRecord {
    pub version: u32,
    /// base32, RFC4648, no padding
    pub secret: String,
    pub name: String,
    pub algorithm: TotpAlgorithm,
    pub notes: String,
    pub digits: u32,
    /// the period in seconds; for an HOTP record, the counter
    pub timestep: u64,
    pub ctime: u64,
    pub is_hotp: bool,
}

/// The content of a `TotpRecord`.
#[verifier::ext_equal]
pub struct TotpModel {
    pub version: u32,
    pub secret: Seq<char>,
    pub name: Seq<char>,
    pub algorithm: TotpAlgorithm,
    pub notes: Seq<char>,
    pub digits: u32,
    pub timestep: u64,
    pub ctime: u64,
    pub is_hotp: bool,
}

impl View for TotpRecord {
    type V = TotpModel;

    open spec fn view(&self) -> TotpModel {
        TotpModel {
            version: self.version,
            secret: self.secret@,
            name: self.name@,
            algorithm: self.algorithm,
            notes: self.notes@,
            digits: self.digits,
            timestep: self.timestep,
            ctime: self.ctime,
            is_hotp: self.is_hotp,
        }
    }
}

/// A TOTP record with every field zero or empty, version `version`, and SHA-1.
pub open spec fn totp_blank(version: u32) -> TotpModel {
    TotpModel {
        version,
        secret: Seq::empty(),
        name: Seq::empty(),
        algorithm: TotpAlgorithm::HmacSha1,
        notes: Seq::empty(),
        digits: 0,
        timestep: 0,
        ctime: 0,
        is_hotp: false,
    }
}

/// What one `tag:value` line does to a TOTP record being read.
pub open spec fn totp_apply(pr: TotpModel, tag: Seq<char>, data: Seq<char>) -> Result<
    TotpModel,
    TOTPSerializationError,
> {
    if tag == "version"@ {
        match parse_bounded(data, 10, u32::MAX as nat) {
            Some(v) => Ok(TotpModel { version: v as u32, ..pr }),
            None => Err(TOTPSerializationError::BadVersion),
        }
    } else if tag == "secret"@ {
        Ok(TotpModel { secret: pr.secret + data, ..pr })
    } else if tag == "name"@ {
        Ok(TotpModel { name: pr.name + data, ..pr })
    } else if tag == "algorithm"@ {
        match algorithm_from_text(data) {
            Some(a) => Ok(TotpModel { algorithm: a, ..pr }),
            None => Err(TOTPSerializationError::BadAlgorithm),
        }
    } else if tag == "notes"@ {
        Ok(TotpModel { notes: pr.notes + data, ..pr })
    } else if tag == "digits"@ {
        match parse_bounded(data, 10, u32::MAX as nat) {
            Some(v) => Ok(TotpModel { digits: v as u32, ..pr }),
            None => Err(TOTPSerializationError::BadDigitsAmount),
        }
    } else if tag == "ctime"@ {
        match parse_bounded(data, 10, u64::MAX as nat) {
            Some(v) => Ok(TotpModel { ctime: v as u64, ..pr }),
            None => Err(TOTPSerializationError::BadCtime),
        }
    } else if tag == "timestep"@ {
        match parse_bounded(data, 10, u64::MAX as nat) {
            Some(v) => Ok(TotpModel { timestep: v as u64, ..pr }),
            None => Err(TOTPSerializationError::BadTimestep),
        }
    } else if tag == "hotp"@ {
        match parse_bounded(data, 10, u8::MAX as nat) {
            Some(v) => Ok(TotpModel { is_hotp: v == 1, ..pr }),
            None => Err(TOTPSerializationError::BadHotp),
        }
    } else {
        Ok(pr)
    }
}

/// A line of a stored TOTP record that cannot be read: a `version` or `digits` whose value
/// is not a `u32`, a `ctime` or `timestep` that is not a `u64`, an `hotp` that is not a `u8`,
/// or an `algorithm` that names none of the three.
pub open spec fn totp_bad_line(line: Seq<char>) -> bool {
    match find_char(line, ':') {
        None => false,
        Some(i) => {
            let tag = line.take(i);
            let x = line.skip(i + 1);
            ||| ((tag == "version"@ || tag == "digits"@) && parse_bounded(x, 10, u32::MAX as nat) is None)
            ||| ((tag == "ctime"@ || tag == "timestep"@) && parse_bounded(x, 10, u64::MAX as nat) is None)
            ||| (tag == "hotp"@ && parse_bounded(x, 10, u8::MAX as nat) is None)
            ||| (tag == "algorithm"@ && algorithm_from_text(x) is None)
        },
    }
}

/// Bytes that are not UTF-8, or that hold a line that cannot be read anywhere in them, fail
/// the read of a TOTP record, whatever record it starts from; `from_vec` then leaves the
/// record as it was.
pub proof fn lemma_totp_bad_line_fails(init: TotpModel, b: Seq<u8>, i: int)
    requires
        valid_utf8(b) ==> 0 <= i < split_lines(decode_utf8(b)).len() && totp_bad_line(
            split_lines(decode_utf8(b))[i],
        ),
    ensures
        totp_read(init, b).1 is Some,
{
    if valid_utf8(b) {
        let t = decode_utf8(b);
        let line = split_lines(t)[i];
        lemma_totp_tags();
        assert forall|s2: TotpModel| #[trigger] tagged_line(s2, line, totp_step()) is Err by {
            let j = find_char(line, ':')->Some_0;
            let tag = line.take(j);
            assert(totp_step()(s2, tag, line.skip(j + 1)) == totp_apply(s2, tag, line.skip(j + 1)));
        }
        lemma_fold_lines_fails(init, t, totp_step(), i);
    }
}

/// `totp_apply` as a function value.
pub open spec fn totp_step() -> spec_fn(TotpModel, Seq<char>, Seq<char>) -> Result<
    TotpModel,
    TOTPSerializationError,
> {
    |st: TotpModel, tag: Seq<char>, data: Seq<char>| totp_apply(st, tag, data)
}

/// Reads the stored bytes `b` into a TOTP record that starts as `init`.
pub open spec fn totp_read(init: TotpModel, b: Seq<u8>) -> (TotpModel, Option<
    TOTPSerializationError,
>) {
    if valid_utf8(b) {
        fold_lines(init, decode_utf8(b), totp_step())
    } else {
        (init, Some(TOTPSerializationError::MalformedInput))
    }
}

/// The `(tag, value)` lines a TOTP record is stored as, in order.
pub open spec fn totp_fields(m: TotpModel) -> Seq<(Seq<char>, Seq<char>)> {
    seq![
        ("version"@, dec_chars(m.version as nat)),
        ("secret"@, m.secret),
        ("name"@, m.name),
        ("algorithm"@, algorithm_text(m.algorithm)),
        ("notes"@, m.notes),
        ("digits"@, dec_chars(m.digits as nat)),
        ("timestep"@, dec_chars(m.timestep as nat)),
        ("hotp"@, if m.is_hotp { seq!['1'] } else { seq!['0'] }),
        ("ctime"@, dec_chars(m.ctime as nat)),
    ]
}

/// The text a TOTP record is stored as.
pub open spec fn totp_text(m: TotpModel) -> Seq<char> {
    fields_text(totp_fields(m))
}

/// The free-text fields of a TOTP record hold no line break, so it can be stored.
pub open spec fn totp_storable(m: TotpModel) -> bool {
    !m.secret.contains('\n') && !m.name.contains('\n') && !m.notes.contains('\n')
}

/// The stored tag names hold no colon or line break, and differ from each other.
proof fn lemma_totp_tags()
    ensures
        !"version"@.contains(':') && !"version"@.contains('\n'),
        !"secret"@.contains(':') && !"secret"@.contains('\n'),
        !"name"@.contains(':') && !"name"@.contains('\n'),
        !"algorithm"@.contains(':') && !"algorithm"@.contains('\n'),
        !"notes"@.contains(':') && !"notes"@.contains('\n'),
        !"digits"@.contains(':') && !"digits"@.contains('\n'),
        !"timestep"@.contains(':') && !"timestep"@.contains('\n'),
        !"hotp"@.contains(':') && !"hotp"@.contains('\n'),
        !"ctime"@.contains(':') && !"ctime"@.contains('\n'),
        "secret"@ != "version"@,
        "name"@ != "version"@ && "name"@ != "secret"@,
        "algorithm"@ != "version"@ && "algorithm"@ != "secret"@ && "algorithm"@ != "name"@,
        "notes"@ != "version"@ && "notes"@ != "secret"@ && "notes"@ != "name"@ && "notes"@
            != "algorithm"@,
        "digits"@ != "version"@ && "digits"@ != "secret"@ && "digits"@ != "name"@ && "digits"@
            != "algorithm"@ && "digits"@ != "notes"@,
        "timestep"@ != "version"@ && "timestep"@ != "secret"@ && "timestep"@ != "name"@
            && "timestep"@ != "algorithm"@ && "timestep"@ != "notes"@ && "timestep"@ != "digits"@
            && "timestep"@ != "ctime"@,
        "hotp"@ != "version"@ && "hotp"@ != "secret"@ && "hotp"@ != "name"@ && "hotp"@
            != "algorithm"@ && "hotp"@ != "notes"@ && "hotp"@ != "digits"@ && "hotp"@ != "ctime"@
            && "hotp"@ != "timestep"@,
        "ctime"@ != "version"@ && "ctime"@ != "secret"@ && "ctime"@ != "name"@ && "ctime"@
            != "algorithm"@ && "ctime"@ != "notes"@ && "ctime"@ != "digits"@,
        !"SHA1"@.contains('\n') && !"SHA256"@.contains('\n') && !"SHA512"@.contains('\n'),
        "SHA256"@ != "SHA1"@ && "SHA512"@ != "SHA1"@ && "SHA512"@ != "SHA256"@,
{
    reveal_strlit("version");
    reveal_strlit("secret");
    reveal_strlit("name");
    reveal_strlit("algorithm");
    reveal_strlit("notes");
    reveal_strlit("digits");
    reveal_strlit("timestep");
    reveal_strlit("hotp");
    reveal_strlit("ctime");
    reveal_strlit("SHA1");
    reveal_strlit("SHA256");
    reveal_strlit("SHA512");
    assert("secret"@[0] != "version"@[0]);
    assert("name"@[0] != "version"@[0] && "name"@[0] != "secret"@[0]);
    assert("notes"@[2] != "name"@[2]);
    assert("timestep"@[1] != "version"@[1]);
    assert("digits"@[0] != "version"@[0]);
    assert("hotp"@[0] != "version"@[0]);
    assert("ctime"@[0] != "version"@[0]);
    assert("SHA256"@[3] != "SHA1"@[3]);
    assert("SHA512"@[3] != "SHA1"@[3]);
    assert("SHA512"@[3] != "SHA256"@[3]);
}

/// Neither stored algorithm name holds a line break, and each reads back as itself.
proof fn lemma_algorithm_text(a: TotpAlgorithm)
    ensures
        algorithm_from_text(algorithm_text(a)) == Some(a),
        !algorithm_text(a).contains('\n'),
{
    lemma_totp_tags();
}

/// Reading back the stored text of a TOTP record, from a blank record, gives the record.
pub proof fn lemma_totp_roundtrip(m: TotpModel, v: u32)
    requires
        totp_storable(m),
    ensures
        totp_read(totp_blank(v), encode_utf8(totp_text(m))) == (m, None::<TOTPSerializationError>),
{
    let fs = totp_fields(m);
    lemma_totp_tags();
    lemma_algorithm_text(m.algorithm);
    lemma_num_chars(m.version as nat, 10);
    lemma_num_chars(m.digits as nat, 10);
    lemma_num_chars(m.timestep as nat, 10);
    lemma_num_chars(m.ctime as nat, 10);
    lemma_parse_num_chars(m.version as nat, 10, u32::MAX as nat);
    lemma_parse_num_chars(m.digits as nat, 10, u32::MAX as nat);
    lemma_parse_num_chars(m.timestep as nat, 10, u64::MAX as nat);
    lemma_parse_num_chars(m.ctime as nat, 10, u64::MAX as nat);
    lemma_parse_num_chars(1, 10, 255);
    lemma_parse_num_chars(0, 10, 255);
    assert(num_chars(1, 10) =~= seq!['1']);
    assert(num_chars(0, 10) =~= seq!['0']);
    assert(fields_clean(fs)) by {
        assert forall|i: int| 0 <= i < fs.len() implies !(#[trigger] fs[i]).0.contains(':')
            && !fs[i].0.contains('\n') && !fs[i].1.contains('\n') by {
            if i == 0 {
                assert(!dec_chars(m.version as nat).contains('\n'));
            } else if i == 5 {
                assert(!dec_chars(m.digits as nat).contains('\n'));
            } else if i == 6 {
                assert(!dec_chars(m.timestep as nat).contains('\n'));
            } else if i == 7 {
                assert(!seq!['1'].contains('\n'));
                assert(!seq!['0'].contains('\n'));
            } else if i == 8 {
                assert(!dec_chars(m.ctime as nat).contains('\n'));
            }
        }
    }
    let text = totp_text(m);
    vstd::utf8::encode_utf8_valid_utf8(text);
    vstd::utf8::encode_utf8_decode_utf8(text);
    lemma_fold_fields(totp_blank(v), fs, totp_step());
    reveal_with_fuel(fold_fields, 10);
    let s0 = totp_blank(v);
    let s1 = TotpModel { version: m.version, ..s0 };
    let s2 = TotpModel { secret: m.secret, ..s1 };
    let s3 = TotpModel { name: m.name, ..s2 };
    let s4 = TotpModel { algorithm: m.algorithm, ..s3 };
    let s5 = TotpModel { notes: m.notes, ..s4 };
    let s6 = TotpModel { digits: m.digits, ..s5 };
    let s7 = TotpModel { timestep: m.timestep, ..s6 };
    let s8 = TotpModel { is_hotp: m.is_hotp, ..s7 };
    let s9 = TotpModel { ctime: m.ctime, ..s8 };
    assert(Seq::<char>::empty() + m.secret =~= m.secret);
    assert(Seq::<char>::empty() + m.name =~= m.name);
    assert(Seq::<char>::empty() + m.notes =~= m.notes);
    assert(totp_apply(s0, fs[0].0, fs[0].1) == Ok::<TotpModel, TOTPSerializationError>(s1));
    assert(totp_apply(s1, fs[1].0, fs[1].1) == Ok::<TotpModel, TOTPSerializationError>(s2));
    assert(totp_apply(s2, fs[2].0, fs[2].1) == Ok::<TotpModel, TOTPSerializationError>(s3));
    assert(totp_apply(s3, fs[3].0, fs[3].1) == Ok::<TotpModel, TOTPSerializationError>(s4));
    assert(totp_apply(s4, fs[4].0, fs[4].1) == Ok::<TotpModel, TOTPSerializationError>(s5));
    assert(totp_apply(s5, fs[5].0, fs[5].1) == Ok::<TotpModel, TOTPSerializationError>(s6));
    assert(totp_apply(s6, fs[6].0, fs[6].1) == Ok::<TotpModel, TOTPSerializationError>(s7));
    assert(totp_apply(s7, fs[7].0, fs[7].1) == Ok::<TotpModel, TOTPSerializationError>(s8));
    assert(totp_apply(s8, fs[8].0, fs[8].1) == Ok::<TotpModel, TOTPSerializationError>(s9));
    assert(s9 =~= m);
    assert(fs.drop_first().drop_first().drop_first().drop_first().drop_first().drop_first()
        .drop_first().drop_first().drop_first() =~= Seq::<(Seq<char>, Seq<char>)>::empty());
}

impl Default for TotpRecord {
    fn default() -> (r: Self)
        ensures
            r@ == totp_blank(0),
    {
        TotpRecord {
            version: 0,
            secret: String::new(),
            name: String::new(),
            algorithm: TotpAlgorithm::HmacSha1,
            notes: String::new(),
            digits: 0,
            timestep: 0,
            ctime: 0,
            is_hotp: false,
        }
    }
}

/// Applies the line `cs[lo..hi]` to `pr`.
fn totp_apply_line(pr: &mut TotpRecord, cs: &Vec<char>, lo: usize, hi: usize) -> (r: Result<
    (),
    TOTPSerializationError,
>)
    requires
        lo <= hi <= cs@.len(),
    ensures
        match tagged_line(old(pr)@, cs@.subrange(lo as int, hi as int), totp_step()) {
            Ok(m) => r is Ok && final(pr)@ == m,
            Err(e) => r == Err::<(), TOTPSerializationError>(e),
        },
{
    let ghost line = cs@.subrange(lo as int, hi as int);
    let colon = match find_in(cs, lo, hi, ':') {
        Some(i) => i,
        None => return Ok(()),
    };
    assert(line.take(colon - lo) =~= cs@.subrange(lo as int, colon as int));
    assert(line.skip(colon - lo + 1) =~= cs@.subrange(colon + 1, hi as int));
    let d = colon + 1;
    if range_eq(cs, lo, colon, "version") {
        match parse_uint(cs, d, hi, 10, u32::MAX as u64) {
            Some(v) => {
                pr.version = v as u32;
                Ok(())
            },
            None => Err(TOTPSerializationError::BadVersion),
        }
    } else if range_eq(cs, lo, colon, "secret") {
        push_range(&mut pr.secret, cs, d, hi);
        Ok(())
    } else if range_eq(cs, lo, colon, "name") {
        push_range(&mut pr.name, cs, d, hi);
        Ok(())
    } else if range_eq(cs, lo, colon, "algorithm") {
        match TotpAlgorithm::from_range(cs, d, hi) {
            Some(a) => {
                pr.algorithm = a;
                Ok(())
            },
            None => Err(TOTPSerializationError::BadAlgorithm),
        }
    } else if range_eq(cs, lo, colon, "notes") {
        push_range(&mut pr.notes, cs, d, hi);
        Ok(())
    } else if range_eq(cs, lo, colon, "digits") {
        match parse_uint(cs, d, hi, 10, u32::MAX as u64) {
            Some(v) => {
                pr.digits = v as u32;
                Ok(())
            },
            None => Err(TOTPSerializationError::BadDigitsAmount),
        }
    } else if range_eq(cs, lo, colon, "ctime") {
        match parse_uint(cs, d, hi, 10, u64::MAX) {
            Some(v) => {
                pr.ctime = v;
                Ok(())
            },
            None => Err(TOTPSerializationError::BadCtime),
        }
    } else if range_eq(cs, lo, colon, "timestep") {
        match parse_uint(cs, d, hi, 10, u64::MAX) {
            Some(v) => {
                pr.timestep = v;
                Ok(())
            },
            None => Err(TOTPSerializationError::BadTimestep),
        }
    } else if range_eq(cs, lo, colon, "hotp") {
        match parse_uint(cs, d, hi, 10, u8::MAX as u64) {
            Some(v) => {
                pr.is_hotp = v == 1;
                Ok(())
            },
            None => Err(TOTPSerializationError::BadHotp),
        }
    } else {
        Ok(())
    }
}

/// Reads the bytes `data` into a TOTP record that starts as `pr`.
fn totp_read_into(start: TotpRecord, data: &Vec<u8>) -> (r: Result<TotpRecord, TOTPSerializationError>)
    ensures
        match totp_read(start@, data@) {
            (m, None) => r matches Ok(x) && x@ == m,
            (_, Some(e)) => r == Err::<TotpRecord, TOTPSerializationError>(e),
        },
{
    let mut pr = start;
    let ghost init = pr@;
    let cs = match decode_chars(data.as_slice()) {
        Some(cs) => cs,
        None => return Err(TOTPSerializationError::MalformedInput),
    };
    let n = cs.len();
    let mut p: usize = 0;
    assert(cs@.skip(0) =~= cs@);
    loop
        invariant
            p <= n == cs@.len(),
            cs@ == decode_utf8(data@),
            valid_utf8(data@),
            init == start@,
            totp_read(init, data@) == fold_lines(pr@, cs@.skip(p as int), totp_step()),
        decreases n - p,
    {
        let ghost t = cs@.skip(p as int);
        assert(cs@.subrange(p as int, n as int) =~= t);
        let nl = find_in(&cs, p, n, '\n');
        let end = match nl {
            Some(i) => i,
            None => n,
        };
        proof {
            if let Some(i) = nl {
                assert(t.take(i - p) =~= cs@.subrange(p as int, i as int));
                assert(t.skip(i - p + 1) =~= cs@.skip(i + 1));
            }
        }
        let ghost before = pr@;
        let res = totp_apply_line(&mut pr, &cs, p, end);
        proof {
            match nl {
                Some(i) => {
                    assert(find_char(t, '\n') == Some(i - p));
                    assert(cs@.subrange(p as int, end as int) =~= t.take(i - p));
                },
                None => {
                    assert(find_char(t, '\n') is None);
                    assert(cs@.subrange(p as int, end as int) =~= t);
                },
            }
        }
        match res {
            Ok(()) => {},
            Err(e) => {
                assert(fold_lines(before, t, totp_step()).1 == Some(e));
                return Err(e);
            },
        }
        match nl {
            Some(i) => {
                p = i + 1;
            },
            None => {
                return Ok(pr);
            },
        }
    }
}

impl TotpRecord {
    /// Reads a stored TOTP record. Every field starts zero or empty, with version
    /// `VAULT_TOTP_REC_VERSION` and SHA-1; each `tag:value` line then sets its field (the
    /// text fields are appended to), lines without a colon and unknown tags are skipped,
    /// and the first bad value fails the read.
    pub fn try_from_bytes(value: Vec<u8>) -> (r: Result<TotpRecord, TOTPSerializationError>)
        ensures
            match totp_read(totp_blank(VAULT_TOTP_REC_VERSION), value@) {
                (m, None) => r matches Ok(x) && x@ == m,
                (_, Some(e)) => r == Err::<TotpRecord, TOTPSerializationError>(e),
            },
    {
        let pr = TotpRecord {
            version: VAULT_TOTP_REC_VERSION,
            secret: String::new(),
            name: String::new(),
            algorithm: TotpAlgorithm::HmacSha1,
            notes: String::new(),
            digits: 0,
            ctime: 0,
            timestep: 0,
            is_hotp: false,
        };
        totp_read_into(pr, &value)
    }

    /// The stored text of this record, as bytes.
    pub fn to_bytes(&self) -> (r: Vec<u8>)
        ensures
            r@ == encode_utf8(totp_text(self@)),
    {
        let ghost fs = totp_fields(self@);
        let mut s = String::new();
        assert(fs.take(0) =~= Seq::<(Seq<char>, Seq<char>)>::empty());
        push_field_num(&mut s, "version", self.version as u64);
        proof { lemma_fields_text_push(fs, 0); assert(s@ =~= fields_text(fs.take(1))); }
        push_field(&mut s, "secret", self.secret.as_str());
        proof { lemma_fields_text_push(fs, 1); assert(s@ =~= fields_text(fs.take(2))); }
        push_field(&mut s, "name", self.name.as_str());
        proof { lemma_fields_text_push(fs, 2); assert(s@ =~= fields_text(fs.take(3))); }
        push_field(&mut s, "algorithm", self.algorithm.name());
        proof { lemma_fields_text_push(fs, 3); assert(s@ =~= fields_text(fs.take(4))); }
        push_field(&mut s, "notes", self.notes.as_str());
        proof { lemma_fields_text_push(fs, 4); assert(s@ =~= fields_text(fs.take(5))); }
        push_field_num(&mut s, "digits", self.digits as u64);
        proof { lemma_fields_text_push(fs, 5); assert(s@ =~= fields_text(fs.take(6))); }
        push_field_num(&mut s, "timestep", self.timestep);
        proof { lemma_fields_text_push(fs, 6); assert(s@ =~= fields_text(fs.take(7))); }
        push_field(&mut s, "hotp", if self.is_hotp { "1" } else { "0" });
        proof {
            reveal_strlit("1");
            reveal_strlit("0");
            lemma_fields_text_push(fs, 7);
            assert(s@ =~= fields_text(fs.take(8)));
        }
        push_field_num(&mut s, "ctime", self.ctime);
        proof {
            lemma_fields_text_push(fs, 8);
            assert(s@ =~= fields_text(fs.take(9)));
            assert(fs.take(9) =~= fs);
        }
        string_bytes(&s)
    }
}

impl StorageContent for TotpRecord {
    /// Stored in `VAULT_TOTP_DICT`, with `VAULT_TOTP_ALLOC_HINT` bytes reserved.
    fn settings(&self) -> (s: ContentPDDBSettings)
        ensures
            s.dict@ == VAULT_TOTP_DICT@,
            s.alloc_hint == Some(VAULT_TOTP_ALLOC_HINT),
    {
        ContentPDDBSettings { dict: string_of(VAULT_TOTP_DICT), alloc_hint: Some(VAULT_TOTP_ALLOC_HINT) }
    }

    fn set_ctime(&mut self, value: u64)
        ensures
            final(self)@ == (TotpModel { ctime: value, ..old(self)@ }),
    {
        self.ctime = value;
    }

    /// Replaces this record by the one read from `data`, starting from a blank record of
    /// version 0; on failure the record is left as it was.
    fn from_vec(&mut self, data: Vec<u8>) -> (r: Result<(), Error>)
        ensures
            match totp_read(totp_blank(0), data@) {
                (m, None) => r is Ok && final(self)@ == m,
                (_, Some(e)) => r == Err::<(), Error>(Error::TotpSerError(e)) && final(self)@ == old(
                    self,
                )@,
            },
    {
        match totp_read_into(TotpRecord::default(), &data) {
            Ok(pr) => {
                *self = pr;
                Ok(())
            },
            Err(e) => Err(Error::TotpSerError(e)),
        }
    }

    fn to_vec(&self) -> (r: Vec<u8>)
        ensures
            r@ == encode_utf8(totp_text(self@)),
    {
        self.to_bytes()
    }

    /// The name's bytes: a TOTP record is keyed by its name.
    fn hash_input(&self) -> (r: Vec<u8>)
        ensures
            r@ == encode_utf8(self.name@),
    {
        string_bytes(&self.name)
    }
}

impl TryFrom<Vec<u8>> for TotpRecord {
    type Error = TOTPSerializationError;

    fn try_from(value: Vec<u8>) -> (r: Result<Self, Self::Error>)
        ensures
            match totp_read(totp_blank(VAULT_TOTP_REC_VERSION), value@) {
                (m, None) => r matches Ok(x) && x@ == m,
                (_, Some(e)) => r == Err::<TotpRecord, TOTPSerializationError>(e),
            },
    {
        TotpRecord::try_from_bytes(value)
    }
}

impl vstd::std_specs::convert::TryFromSpecImpl<Vec<u8>> for TotpRecord {
    open spec fn obeys_try_from_spec() -> bool {
        false
    }

    open spec fn try_from_spec(v: Vec<u8>) -> Result<Self, Self::Error> {
        vstd::pervasive::arbitrary()
    }
}

impl From<TotpRecord> for Vec<u8> {
    fn from(tr: TotpRecord) -> (r: Vec<u8>)
        ensures
            r@ == encode_utf8(totp_text(tr@)),
    {
        tr.to_bytes()
    }
}

impl vstd::std_specs::convert::FromSpecImpl<TotpRecord> for Vec<u8> {
    open spec fn obeys_from_spec() -> bool {
        false
    }

    open spec fn from_spec(v: TotpRecord) -> Vec<u8> {
        vstd::pervasive::arbitrary()
    }
}

// ---------------------------------------------------------------------------------------
// Password records
// ---------------------------------------------------------------------------------------

/// A site's login.
pub struct PasswordRecord {
    pub version: u32,
    /// the site's URL
    pub description: String,
    /// the user name used at the site
    pub username: String,
    pub password: String,
    /// at first just "Notes"; an updated record keeps the old password here
    pub notes: String,
    pub ctime: u64,
    pub atime: u64,
    pub count: u64,
}

/// The content of a `PasswordRecord`.
#[verifier::ext_equal]
pub struct PasswordModel {
    pub version: u32,
    pub description: Seq<char>,
    pub username: Seq<char>,
    pub password: Seq<char>,
    pub notes: Seq<char>,
    pub ctime: u64,
    pub atime: u64,
    pub count: u64,
}

impl View for PasswordRecord {
    type V = PasswordModel;

    open spec fn view(&self) -> PasswordModel {
        PasswordModel {
            version: self.version,
            description: self.description@,
            username: self.username@,
            password: self.password@,
            notes: self.notes@,
            ctime: self.ctime,
            atime: self.atime,
            count: self.count,
        }
    }
}

/// A password record with every field zero or empty, and version `version`.
pub open spec fn password_blank(version: u32) -> PasswordModel {
    PasswordModel {
        version,
        description: Seq::empty(),
        username: Seq::empty(),
        password: Seq::empty(),
        notes: Seq::empty(),
        ctime: 0,
        atime: 0,
        count: 0,
    }
}

/// What one `tag:value` line does to a password record being read.
pub open spec fn password_apply(pr: PasswordModel, tag: Seq<char>, data: Seq<char>) -> Result<
    PasswordModel,
    PasswordSerializationError,
> {
    if tag == "version"@ {
        match parse_bounded(data, 10, u32::MAX as nat) {
            Some(v) => Ok(PasswordModel { version: v as u32, ..pr }),
            None => Err(PasswordSerializationError::BadVersion),
        }
    } else if tag == "description"@ {
        Ok(PasswordModel { description: pr.description + data, ..pr })
    } else if tag == "username"@ {
        Ok(PasswordModel { username: pr.username + data, ..pr })
    } else if tag == "password"@ {
        Ok(PasswordModel { password: pr.password + data, ..pr })
    } else if tag == "notes"@ {
        Ok(PasswordModel { notes: pr.notes + data, ..pr })
    } else if tag == "ctime"@ {
        match parse_bounded(data, 10, u64::MAX as nat) {
            Some(v) => Ok(PasswordModel { ctime: v as u64, ..pr }),
            None => Err(PasswordSerializationError::BadCtime),
        }
    } else if tag == "atime"@ {
        match parse_bounded(data, 10, u64::MAX as nat) {
            Some(v) => Ok(PasswordModel { atime: v as u64, ..pr }),
            None => Err(PasswordSerializationError::BadAtime),
        }
    } else if tag == "count"@ {
        match parse_bounded(data, 10, u64::MAX as nat) {
            Some(v) => Ok(PasswordModel { count: v as u64, ..pr }),
            None => Err(PasswordSerializationError::BadCount),
        }
    } else {
        Ok(pr)
    }
}

/// `password_apply` as a function value.
pub open spec fn password_step() -> spec_fn(PasswordModel, Seq<char>, Seq<char>) -> Result<
    PasswordModel,
    PasswordSerializationError,
> {
    |st: PasswordModel, tag: Seq<char>, data: Seq<char>| password_apply(st, tag, data)
}

/// Reads the stored bytes `b` into a password record that starts as `init`: the record
/// reached, and the error that stopped the read, if one did.
pub open spec fn password_read(init: PasswordModel, b: Seq<u8>) -> (PasswordModel, Option<
    PasswordSerializationError,
>) {
    if valid_utf8(b) {
        fold_lines(init, decode_utf8(b), password_step())
    } else {
        (init, Some(PasswordSerializationError::MalformedInput))
    }
}

/// The `(tag, value)` lines a password record is stored as, in order.
pub open spec fn password_fields(m: PasswordModel) -> Seq<(Seq<char>, Seq<char>)> {
    seq![
        ("version"@, dec_chars(m.version as nat)),
        ("description"@, m.description),
        ("username"@, m.username),
        ("password"@, m.password),
        ("notes"@, m.notes),
        ("ctime"@, dec_chars(m.ctime as nat)),
        ("atime"@, dec_chars(m.atime as nat)),
        ("count"@, dec_chars(m.count as nat)),
    ]
}

/// The text a password record is stored as.
pub open spec fn password_text(m: PasswordModel) -> Seq<char> {
    fields_text(password_fields(m))
}

/// The free-text fields of a password record hold no line break, so it can be stored.
pub open spec fn password_storable(m: PasswordModel) -> bool {
    !m.description.contains('\n') && !m.username.contains('\n') && !m.password.contains('\n')
        && !m.notes.contains('\n')
}

/// The stored tag names hold no colon or line break, and differ from each other.
proof fn lemma_password_tags()
    ensures
        !"version"@.contains(':') && !"version"@.contains('\n'),
        !"description"@.contains(':') && !"description"@.contains('\n'),
        !"username"@.contains(':') && !"username"@.contains('\n'),
        !"password"@.contains(':') && !"password"@.contains('\n'),
        !"notes"@.contains(':') && !"notes"@.contains('\n'),
        !"ctime"@.contains(':') && !"ctime"@.contains('\n'),
        !"atime"@.contains(':') && !"atime"@.contains('\n'),
        !"count"@.contains(':') && !"count"@.contains('\n'),
        "description"@ != "version"@,
        "username"@ != "version"@ && "username"@ != "description"@,
        "password"@ != "version"@ && "password"@ != "description"@ && "password"@ != "username"@,
        "notes"@ != "version"@ && "notes"@ != "description"@ && "notes"@ != "username"@ && "notes"@
            != "password"@,
        "ctime"@ != "version"@ && "ctime"@ != "description"@ && "ctime"@ != "username"@ && "ctime"@
            != "password"@ && "ctime"@ != "notes"@,
        "atime"@ != "version"@ && "atime"@ != "description"@ && "atime"@ != "username"@ && "atime"@
            != "password"@ && "atime"@ != "notes"@ && "atime"@ != "ctime"@,
        "count"@ != "version"@ && "count"@ != "description"@ && "count"@ != "username"@ && "count"@
            != "password"@ && "count"@ != "notes"@ && "count"@ != "ctime"@ && "count"@ != "atime"@,
{
    reveal_strlit("version");
    reveal_strlit("description");
    reveal_strlit("username");
    reveal_strlit("password");
    reveal_strlit("notes");
    reveal_strlit("ctime");
    reveal_strlit("atime");
    reveal_strlit("count");
    assert("description"@[0] != "version"@[0]);
    assert("username"@[0] != "version"@[0] && "username"@[0] != "description"@[0]);
    assert("password"@[0] != "version"@[0] && "password"@[0] != "description"@[0]
        && "password"@[0] != "username"@[0]);
    assert("notes"@[0] != "version"@[0]);
    assert("ctime"@[0] != "version"@[0]);
    assert("atime"@[0] != "version"@[0]);
    assert("count"@[0] != "version"@[0]);
    assert("count"@[1] != "ctime"@[1]);
}

/// Reading back the stored text of a password record, from a blank record, gives the
/// record.
pub proof fn lemma_password_roundtrip(m: PasswordModel, v: u32)
    requires
        password_storable(m),
    ensures
        password_read(password_blank(v), encode_utf8(password_text(m))) == (m, None::<
            PasswordSerializationError,
        >),
{
    let fs = password_fields(m);
    lemma_password_tags();
    lemma_num_chars(m.version as nat, 10);
    lemma_num_chars(m.ctime as nat, 10);
    lemma_num_chars(m.atime as nat, 10);
    lemma_num_chars(m.count as nat, 10);
    lemma_parse_num_chars(m.version as nat, 10, u32::MAX as nat);
    lemma_parse_num_chars(m.ctime as nat, 10, u64::MAX as nat);
    lemma_parse_num_chars(m.atime as nat, 10, u64::MAX as nat);
    lemma_parse_num_chars(m.count as nat, 10, u64::MAX as nat);
    assert(fields_clean(fs)) by {
        assert forall|i: int| 0 <= i < fs.len() implies !(#[trigger] fs[i]).0.contains(':')
            && !fs[i].0.contains('\n') && !fs[i].1.contains('\n') by {
            if i == 0 {
                assert(!dec_chars(m.version as nat).contains('\n'));
            } else if i == 5 {
                assert(!dec_chars(m.ctime as nat).contains('\n'));
            } else if i == 6 {
                assert(!dec_chars(m.atime as nat).contains('\n'));
            } else if i == 7 {
                assert(!dec_chars(m.count as nat).contains('\n'));
            }
        }
    }
    let text = password_text(m);
    vstd::utf8::encode_utf8_valid_utf8(text);
    vstd::utf8::encode_utf8_decode_utf8(text);
    lemma_fold_fields(password_blank(v), fs, password_step());
    reveal_with_fuel(fold_fields, 9);
    let s0 = password_blank(v);
    let s1 = PasswordModel { version: m.version, ..s0 };
    let s2 = PasswordModel { description: m.description, ..s1 };
    let s3 = PasswordModel { username: m.username, ..s2 };
    let s4 = PasswordModel { password: m.password, ..s3 };
    let s5 = PasswordModel { notes: m.notes, ..s4 };
    let s6 = PasswordModel { ctime: m.ctime, ..s5 };
    let s7 = PasswordModel { atime: m.atime, ..s6 };
    let s8 = PasswordModel { count: m.count, ..s7 };
    assert(Seq::<char>::empty() + m.description =~= m.description);
    assert(Seq::<char>::empty() + m.username =~= m.username);
    assert(Seq::<char>::empty() + m.password =~= m.password);
    assert(Seq::<char>::empty() + m.notes =~= m.notes);
    assert(password_apply(s0, fs[0].0, fs[0].1) == Ok::<PasswordModel, PasswordSerializationError>(s1));
    assert(password_apply(s1, fs[1].0, fs[1].1) == Ok::<PasswordModel, PasswordSerializationError>(s2));
    assert(password_apply(s2, fs[2].0, fs[2].1) == Ok::<PasswordModel, PasswordSerializationError>(s3));
    assert(password_apply(s3, fs[3].0, fs[3].1) == Ok::<PasswordModel, PasswordSerializationError>(s4));
    assert(password_apply(s4, fs[4].0, fs[4].1) == Ok::<PasswordModel, PasswordSerializationError>(s5));
    assert(password_apply(s5, fs[5].0, fs[5].1) == Ok::<PasswordModel, PasswordSerializationError>(s6));
    assert(password_apply(s6, fs[6].0, fs[6].1) == Ok::<PasswordModel, PasswordSerializationError>(s7));
    assert(password_apply(s7, fs[7].0, fs[7].1) == Ok::<PasswordModel, PasswordSerializationError>(s8));
    assert(s8 =~= m);
    assert(fs.drop_first().drop_first().drop_first().drop_first().drop_first().drop_first()
        .drop_first().drop_first() =~= Seq::<(Seq<char>, Seq<char>)>::empty());
}

/// `a` and `b` differ at most in their versions, which are either equal or `va` and `vb`.
pub open spec fn same_but_version(a: PasswordModel, b: PasswordModel, va: u32, vb: u32) -> bool {
    &&& a == PasswordModel { version: a.version, ..b }
    &&& (a.version == b.version || (a.version == va && b.version == vb))
}

proof fn lemma_password_fold_same_but_version(
    a: PasswordModel,
    b: PasswordModel,
    va: u32,
    vb: u32,
    t: Seq<char>,
)
    requires
        same_but_version(a, b, va, vb),
    ensures
        fold_lines(a, t, password_step()).1 == fold_lines(b, t, password_step()).1,
        same_but_version(fold_lines(a, t, password_step()).0, fold_lines(b, t, password_step()).0, va, vb),
    decreases t.len(),
{
    let line = match find_char(t, '\n') {
        None => t,
        Some(i) => t.take(i),
    };
    let ra = tagged_line(a, line, password_step());
    let rb = tagged_line(b, line, password_step());
    assert(ra is Ok <==> rb is Ok);
    assert(ra matches Err(e) ==> rb == Err::<PasswordModel, PasswordSerializationError>(e));
    assert(ra matches Ok(x) ==> rb matches Ok(y) && same_but_version(x, y, va, vb));
    match find_char(t, '\n') {
        None => {},
        Some(i) => {
            lemma_find_char(t, '\n');
            match ra {
                Ok(x) => {
                    let y = rb->Ok_0;
                    lemma_password_fold_same_but_version(x, y, va, vb, t.skip(i + 1));
                },
                Err(_) => {},
            }
        },
    }
}

/// The version a line gives: the value of a `version` line that reads as a `u32`.
pub open spec fn version_line(line: Seq<char>) -> Option<u32> {
    match find_char(line, ':') {
        Some(i) => if line.take(i) == "version"@ {
            match parse_bounded(line.skip(i + 1), 10, u32::MAX as nat) {
                Some(v) => Some(v as u32),
                None => None,
            }
        } else {
            None
        },
        None => None,
    }
}

/// The version the last `version` line of `lines` gives, if any line gives one.
pub open spec fn last_version(lines: Seq<Seq<char>>) -> Option<u32>
    decreases lines.len(),
{
    if lines.len() == 0 {
        None
    } else {
        match version_line(lines.last()) {
            Some(v) => Some(v),
            None => last_version(lines.drop_last()),
        }
    }
}

proof fn lemma_last_version_prepend(l0: Seq<char>, rest: Seq<Seq<char>>)
    ensures
        last_version(seq![l0] + rest) == match last_version(rest) {
            Some(v) => Some(v),
            None => version_line(l0),
        },
    decreases rest.len(),
{
    let all = seq![l0] + rest;
    if rest.len() == 0 {
        assert(all.drop_last() =~= Seq::<Seq<char>>::empty());
        assert(all.last() == l0);
        assert(last_version(Seq::<Seq<char>>::empty()) is None);
    } else {
        assert(all.drop_last() =~= seq![l0] + rest.drop_last());
        assert(all.last() == rest.last());
        lemma_last_version_prepend(l0, rest.drop_last());
    }
}

proof fn lemma_password_line_version(st: PasswordModel, line: Seq<char>)
    ensures
        tagged_line(st, line, password_step()) matches Ok(m) ==> m.version == match version_line(line) {
            Some(v) => v,
            None => st.version,
        },
{
    lemma_password_tags();
    match find_char(line, ':') {
        None => {},
        Some(i) => {
            let tag = line.take(i);
            let x = line.skip(i + 1);
            assert(password_step()(st, tag, x) == password_apply(st, tag, x));
        },
    }
}

proof fn lemma_password_fold_version(st: PasswordModel, t: Seq<char>)
    ensures
        fold_lines(st, t, password_step()).1 is None ==> fold_lines(st, t, password_step()).0.version == match last_version(
            split_lines(t),
        ) {
            Some(v) => v,
            None => st.version,
        },
    decreases t.len(),
{
    lemma_password_tags();
    let ls = split_lines(t);
    match find_char(t, '\n') {
        None => {
            assert(ls == seq![t]);
            assert(ls.drop_last() =~= Seq::<Seq<char>>::empty());
            assert(ls.last() == t);
            assert(last_version(ls) == match version_line(t) {
                Some(v) => Some(v),
                None => last_version(Seq::<Seq<char>>::empty()),
            });
            lemma_password_line_version(st, t);
        },
        Some(k) => {
            lemma_find_char(t, '\n');
            let l0 = t.take(k);
            let rest = t.skip(k + 1);
            assert(ls == seq![l0] + split_lines(rest));
            lemma_last_version_prepend(l0, split_lines(rest));
            lemma_password_line_version(st, l0);
            match tagged_line(st, l0, password_step()) {
                Ok(m) => {
                    lemma_password_fold_version(m, rest);
                    assert(fold_lines(st, t, password_step()) == fold_lines(m, rest, password_step()));
                    assert(last_version(ls) == match last_version(split_lines(rest)) {
                        Some(v) => Some(v),
                        None => version_line(l0),
                    });
                },
                Err(_) => {},
            }
        },
    }
}

/// A password record read without error has the version of its last `version` line, or the
/// version it started from when it has none: so `from_vec` (which starts from 0) and
/// `try_from` (which starts from the current version) give different versions exactly when
/// the data has no `version` line.
pub proof fn lemma_password_read_version(start: u32, b: Seq<u8>)
    requires
        valid_utf8(b),
    ensures
        password_read(password_blank(start), b).1 is None ==> password_read(password_blank(start), b).0.version
            == match last_version(split_lines(decode_utf8(b))) {
            Some(v) => v,
            None => start,
        },
{
    lemma_password_fold_version(password_blank(start), decode_utf8(b));
}

/// Reading a password record does not depend on the version it starts from, but for the
/// version itself when the text has no `version` line: both reads fail with the same error
/// or neither does, they reach the same fields, and their versions are equal or are the two
/// starting versions.
pub proof fn lemma_password_read_start_version(va: u32, vb: u32, b: Seq<u8>)
    ensures
        password_read(password_blank(va), b).1 == password_read(password_blank(vb), b).1,
        same_but_version(password_read(password_blank(va), b).0, password_read(password_blank(vb), b).0, va, vb),
{
    if valid_utf8(b) {
        lemma_password_fold_same_but_version(password_blank(va), password_blank(vb), va, vb, decode_utf8(b));
    }
}

impl Default for PasswordRecord {
    fn default() -> (r: Self)
        ensures
            r@ == password_blank(0),
    {
        PasswordRecord {
            version: 0,
            description: String::new(),
            username: String::new(),
            password: String::new(),
            notes: String::new(),
            ctime: 0,
            atime: 0,
            count: 0,
        }
    }
}

/// Applies the line `cs[lo..hi]` to `pr`.
fn password_apply_line(pr: &mut PasswordRecord, cs: &Vec<char>, lo: usize, hi: usize) -> (r: Result<
    (),
    PasswordSerializationError,
>)
    requires
        lo <= hi <= cs@.len(),
    ensures
        match tagged_line(old(pr)@, cs@.subrange(lo as int, hi as int), password_step()) {
            Ok(m) => r is Ok && final(pr)@ == m,
            Err(e) => r == Err::<(), PasswordSerializationError>(e) && final(pr)@ == old(pr)@,
        },
{
    let ghost line = cs@.subrange(lo as int, hi as int);
    let colon = match find_in(cs, lo, hi, ':') {
        Some(i) => i,
        None => return Ok(()),
    };
    assert(line.take(colon - lo) =~= cs@.subrange(lo as int, colon as int));
    assert(line.skip(colon - lo + 1) =~= cs@.subrange(colon + 1, hi as int));
    let d = colon + 1;
    if range_eq(cs, lo, colon, "version") {
        match parse_uint(cs, d, hi, 10, u32::MAX as u64) {
            Some(v) => {
                pr.version = v as u32;
                Ok(())
            },
            None => Err(PasswordSerializationError::BadVersion),
        }
    } else if range_eq(cs, lo, colon, "description") {
        push_range(&mut pr.description, cs, d, hi);
        Ok(())
    } else if range_eq(cs, lo, colon, "username") {
        push_range(&mut pr.username, cs, d, hi);
        Ok(())
    } else if range_eq(cs, lo, colon, "password") {
        push_range(&mut pr.password, cs, d, hi);
        Ok(())
    } else if range_eq(cs, lo, colon, "notes") {
        push_range(&mut pr.notes, cs, d, hi);
        Ok(())
    } else if range_eq(cs, lo, colon, "ctime") {
        match parse_uint(cs, d, hi, 10, u64::MAX) {
            Some(v) => {
                pr.ctime = v;
                Ok(())
            },
            None => Err(PasswordSerializationError::BadCtime),
        }
    } else if range_eq(cs, lo, colon, "atime") {
        match parse_uint(cs, d, hi, 10, u64::MAX) {
            Some(v) => {
                pr.atime = v;
                Ok(())
            },
            None => Err(PasswordSerializationError::BadAtime),
        }
    } else if range_eq(cs, lo, colon, "count") {
        match parse_uint(cs, d, hi, 10, u64::MAX) {
            Some(v) => {
                pr.count = v;
                Ok(())
            },
            None => Err(PasswordSerializationError::BadCount),
        }
    } else {
        Ok(())
    }
}

/// Reads the bytes `data` into `pr`, line by line. A failing line stops the read and leaves
/// `pr` as the lines before it made it.
fn password_read_into(pr: &mut PasswordRecord, data: &Vec<u8>) -> (r: Result<(), PasswordSerializationError>)
    ensures
        final(pr)@ == password_read(old(pr)@, data@).0,
        match password_read(old(pr)@, data@).1 {
            None => r is Ok,
            Some(e) => r == Err::<(), PasswordSerializationError>(e),
        },
{
    let ghost init = pr@;
    let cs = match decode_chars(data.as_slice()) {
        Some(cs) => cs,
        None => return Err(PasswordSerializationError::MalformedInput),
    };
    let n = cs.len();
    let mut p: usize = 0;
    assert(cs@.skip(0) =~= cs@);
    loop
        invariant
            p <= n == cs@.len(),
            cs@ == decode_utf8(data@),
            valid_utf8(data@),
            init == old(pr)@,
            password_read(init, data@) == fold_lines(pr@, cs@.skip(p as int), password_step()),
        decreases n - p,
    {
        let ghost t = cs@.skip(p as int);
        assert(cs@.subrange(p as int, n as int) =~= t);
        let nl = find_in(&cs, p, n, '\n');
        let end = match nl {
            Some(i) => i,
            None => n,
        };
        proof {
            if let Some(i) = nl {
                assert(t.take(i - p) =~= cs@.subrange(p as int, i as int));
                assert(t.skip(i - p + 1) =~= cs@.skip(i + 1));
            }
        }
        let ghost before = pr@;
        let res = password_apply_line(pr, &cs, p, end);
        proof {
            match nl {
                Some(i) => {
                    assert(find_char(t, '\n') == Some(i - p));
                    assert(cs@.subrange(p as int, end as int) =~= t.take(i - p));
                },
                None => {
                    assert(find_char(t, '\n') is None);
                    assert(cs@.subrange(p as int, end as int) =~= t);
                },
            }
        }
        match res {
            Ok(()) => {},
            Err(e) => {
                assert(fold_lines(before, t, password_step()) == (before, Some(e)));
                return Err(e);
            },
        }
        match nl {
            Some(i) => {
                p = i + 1;
            },
            None => {
                return Ok(());
            },
        }
    }
}

impl PasswordRecord {
    /// A blank record of version 0 whose text fields have room reserved, so one record can
    /// be reused without reallocating.
    pub fn allocate() -> (r: Self)
        ensures
            r@ == password_blank(0),
    {
        PasswordRecord {
            version: 0,
            description: string_with_capacity(256),
            username: string_with_capacity(256),
            password: string_with_capacity(256),
            notes: string_with_capacity(1024),
            ctime: 0,
            atime: 0,
            count: 0,
        }
    }

    /// Empties every text field and zeroes every number, version included.
    pub fn clear(&mut self)
        ensures
            final(self)@ == password_blank(0),
    {
        clear_string(&mut self.description);
        clear_string(&mut self.username);
        clear_string(&mut self.password);
        clear_string(&mut self.notes);
        self.version = 0;
        self.ctime = 0;
        self.atime = 0;
        self.count = 0;
    }

    /// Reads a stored password record, starting from a blank record of version
    /// `VAULT_PASSWORD_REC_VERSION`; each `tag:value` line sets its field (the text fields
    /// are appended to), lines without a colon and unknown tags are skipped, and the first
    /// bad value fails the read.
    pub fn try_from_bytes(data: Vec<u8>) -> (r: Result<PasswordRecord, PasswordSerializationError>)
        ensures
            match password_read(password_blank(VAULT_PASSWORD_REC_VERSION), data@) {
                (m, None) => r matches Ok(x) && x@ == m,
                (_, Some(e)) => r == Err::<PasswordRecord, PasswordSerializationError>(e),
            },
    {
        let mut pr = PasswordRecord {
            version: VAULT_PASSWORD_REC_VERSION,
            description: String::new(),
            username: String::new(),
            password: String::new(),
            notes: String::new(),
            ctime: 0,
            atime: 0,
            count: 0,
        };
        match password_read_into(&mut pr, &data) {
            Ok(()) => Ok(pr),
            Err(e) => Err(e),
        }
    }

    /// The stored text of this record, as bytes.
    pub fn to_bytes(&self) -> (r: Vec<u8>)
        ensures
            r@ == encode_utf8(password_text(self@)),
    {
        let ghost fs = password_fields(self@);
        let mut s = String::new();
        assert(fs.take(0) =~= Seq::<(Seq<char>, Seq<char>)>::empty());
        push_field_num(&mut s, "version", self.version as u64);
        proof { lemma_fields_text_push(fs, 0); assert(s@ =~= fields_text(fs.take(1))); }
        push_field(&mut s, "description", self.description.as_str());
        proof { lemma_fields_text_push(fs, 1); assert(s@ =~= fields_text(fs.take(2))); }
        push_field(&mut s, "username", self.username.as_str());
        proof { lemma_fields_text_push(fs, 2); assert(s@ =~= fields_text(fs.take(3))); }
        push_field(&mut s, "password", self.password.as_str());
        proof { lemma_fields_text_push(fs, 3); assert(s@ =~= fields_text(fs.take(4))); }
        push_field(&mut s, "notes", self.notes.as_str());
        proof { lemma_fields_text_push(fs, 4); assert(s@ =~= fields_text(fs.take(5))); }
        push_field_num(&mut s, "ctime", self.ctime);
        proof { lemma_fields_text_push(fs, 5); assert(s@ =~= fields_text(fs.take(6))); }
        push_field_num(&mut s, "atime", self.atime);
        proof { lemma_fields_text_push(fs, 6); assert(s@ =~= fields_text(fs.take(7))); }
        push_field_num(&mut s, "count", self.count);
        proof {
            lemma_fields_text_push(fs, 7);
            assert(s@ =~= fields_text(fs.take(8)));
            assert(fs.take(8) =~= fs);
        }
        string_bytes(&s)
    }
}

/// The bytes of `a` followed by the bytes of `b`.
fn concat_bytes(a: Vec<u8>, b: Vec<u8>) -> (r: Vec<u8>)
    ensures
        r@ == a@ + b@,
{
    let mut r = a;
    let mut i: usize = 0;
    while i < b.len()
        invariant
            i <= b@.len(),
            r@ == a@ + b@.take(i as int),
        decreases b@.len() - i,
    {
        r.push(b[i]);
        assert(b@.take(i + 1) =~= b@.take(i as int).push(b@[i as int]));
        i += 1;
    }
    assert(b@.take(b@.len() as int) =~= b@);
    r
}

impl StorageContent for PasswordRecord {
    /// Stored in `VAULT_PASSWORD_DICT`, with `VAULT_TOTP_ALLOC_HINT` bytes reserved.
    fn settings(&self) -> (s: ContentPDDBSettings)
        ensures
            s.dict@ == VAULT_PASSWORD_DICT@,
            s.alloc_hint == Some(VAULT_TOTP_ALLOC_HINT),
    {
        ContentPDDBSettings {
            dict: string_of(VAULT_PASSWORD_DICT),
            alloc_hint: Some(VAULT_TOTP_ALLOC_HINT),
        }
    }

    fn set_ctime(&mut self, value: u64)
        ensures
            final(self)@ == (PasswordModel { ctime: value, ..old(self)@ }),
    {
        self.ctime = value;
    }

    /// Clears this record, then reads `data` into it. A failing line stops the read and
    /// leaves the record as the lines before it made it.
    fn from_vec(&mut self, data: Vec<u8>) -> (r: Result<(), Error>)
        ensures
            final(self)@ == password_read(password_blank(0), data@).0,
            match password_read(password_blank(0), data@).1 {
                None => r is Ok,
                Some(e) => r == Err::<(), Error>(Error::PasswordSerError(e)),
            },
    {
        self.clear();
        match password_read_into(self, &data) {
            Ok(()) => Ok(()),
            Err(e) => Err(Error::PasswordSerError(e)),
        }
    }

    fn to_vec(&self) -> (r: Vec<u8>)
        ensures
            r@ == encode_utf8(password_text(self@)),
    {
        self.to_bytes()
    }

    /// The description's bytes followed by the user name's: a password record is keyed by
    /// site and user.
    fn hash_input(&self) -> (r: Vec<u8>)
        ensures
            r@ == encode_utf8(self.description@) + encode_utf8(self.username@),
    {
        concat_bytes(string_bytes(&self.description), string_bytes(&self.username))
    }
}

impl TryFrom<Vec<u8>> for PasswordRecord {
    type Error = PasswordSerializationError;

    fn try_from(data: Vec<u8>) -> (r: Result<Self, Self::Error>)
        ensures
            match password_read(password_blank(VAULT_PASSWORD_REC_VERSION), data@) {
                (m, None) => r matches Ok(x) && x@ == m,
                (_, Some(e)) => r == Err::<PasswordRecord, PasswordSerializationError>(e),
            },
    {
        PasswordRecord::try_from_bytes(data)
    }
}

impl vstd::std_specs::convert::TryFromSpecImpl<Vec<u8>> for PasswordRecord {
    open spec fn obeys_try_from_spec() -> bool {
        false
    }

    open spec fn try_from_spec(v: Vec<u8>) -> Result<Self, Self::Error> {
        vstd::pervasive::arbitrary()
    }
}

impl From<PasswordRecord> for Vec<u8> {
    fn from(pr: PasswordRecord) -> (r: Vec<u8>)
        ensures
            r@ == encode_utf8(password_text(pr@)),
    {
        pr.to_bytes()
    }
}

impl vstd::std_specs::convert::FromSpecImpl<PasswordRecord> for Vec<u8> {
    open spec fn obeys_from_spec() -> bool {
        false
    }

    open spec fn from_spec(v: PasswordRecord) -> Vec<u8> {
        vstd::pervasive::arbitrary()
    }
}

impl ContentKind {
    /// Where records of this kind are stored.
    pub fn settings(&self) -> (s: ContentPDDBSettings)
        ensures
            s.alloc_hint == Some(VAULT_TOTP_ALLOC_HINT),
            match self {
                ContentKind::TOTP => s.dict@ == VAULT_TOTP_DICT@,
                ContentKind::Password => s.dict@ == VAULT_PASSWORD_DICT@,
            },
    {
        match self {
            ContentKind::TOTP => TotpRecord::default().settings(),
            ContentKind::Password => PasswordRecord::default().settings(),
        }
    }
}

impl From<TOTPSerializationError> for Error {
    fn from(e: TOTPSerializationError) -> (r: Self)
        ensures
            r == Error::TotpSerError(e),
    {
        Error::TotpSerError(e)
    }
}

impl vstd::std_specs::convert::FromSpecImpl<TOTPSerializationError> for Error {
    open spec fn obeys_from_spec() -> bool {
        true
    }

    open spec fn from_spec(e: TOTPSerializationError) -> Error {
        Error::TotpSerError(e)
    }
}

impl From<PasswordSerializationError> for Error {
    fn from(e: PasswordSerializationError) -> (r: Self)
        ensures
            r == Error::PasswordSerError(e),
    {
        Error::PasswordSerError(e)
    }
}

impl vstd::std_specs::convert::FromSpecImpl<PasswordSerializationError> for Error {
    open spec fn obeys_from_spec() -> bool {
        true
    }

    open spec fn from_spec(e: PasswordSerializationError) -> Error {
        Error::PasswordSerError(e)
    }
}

impl From<std::io::Error> for Error {
    fn from(e: std::io::Error) -> (r: Self)
        ensures
            r == Error::IoError(e),
    {
        Error::IoError(e)
    }
}

impl vstd::std_specs::convert::FromSpecImpl<std::io::Error> for Error {
    open spec fn obeys_from_spec() -> bool {
        true
    }

    open spec fn from_spec(e: std::io::Error) -> Error {
        Error::IoError(e)
    }
}

// ---------------------------------------------------------------------------------------
// Keys and dictionaries
// ---------------------------------------------------------------------------------------

/// `data` in upper-case hex, two digits a byte.
pub open spec fn hex_upper(data: Seq<u8>) -> Seq<char>
    decreases data.len(),
{
    if data.len() == 0 {
        Seq::empty()
    } else {
        let b = data.last();
        hex_upper(data.drop_last()) + seq![
            digit_char_upper((b / 16) as nat),
            digit_char_upper((b % 16) as nat),
        ]
    }
}

/// An upper-case hex digit: `0`-`9` or `A`-`F`.
pub open spec fn is_upper_hex_digit(c: char) -> bool {
    ('0' <= c && c <= '9') || ('A' <= c && c <= 'F')
}

/// The digits of `hex_upper`, and their codes: distinct digits for distinct values.
proof fn lemma_digit_char_upper(d: nat)
    requires
        d < 16,
    ensures
        digit_char_upper(d) as u32 == if d < 10 { d + 48 } else { d + 55 },
        is_upper_hex_digit(digit_char_upper(d)),
{
}

/// The hex of `data` is two upper-case digits a byte, high digit first.
pub proof fn lemma_hex_upper_shape(data: Seq<u8>)
    ensures
        hex_upper(data).len() == 2 * data.len(),
        forall|i: int|
            0 <= i < data.len() ==> #[trigger] hex_upper(data)[2 * i] == digit_char_upper((data[i] / 16) as nat)
                && hex_upper(data)[2 * i + 1] == digit_char_upper((data[i] % 16) as nat),
        forall|k: int| 0 <= k < hex_upper(data).len() ==> is_upper_hex_digit(#[trigger] hex_upper(data)[k]),
    decreases data.len(),
{
    if data.len() > 0 {
        let d = data.drop_last();
        lemma_hex_upper_shape(d);
        let b = data.last();
        lemma_digit_char_upper((b / 16) as nat);
        lemma_digit_char_upper((b % 16) as nat);
        let h = hex_upper(data);
        assert forall|i: int| 0 <= i < data.len() implies #[trigger] h[2 * i] == digit_char_upper(
            (data[i] / 16) as nat,
        ) && h[2 * i + 1] == digit_char_upper((data[i] % 16) as nat) by {
            if i < d.len() {
                assert(data[i] == d[i]);
                assert(h[2 * i] == hex_upper(d)[2 * i]);
                assert(h[2 * i + 1] == hex_upper(d)[2 * i + 1]);
            }
        }
        assert forall|k: int| 0 <= k < h.len() implies is_upper_hex_digit(#[trigger] h[k]) by {
            if k < hex_upper(d).len() {
                assert(h[k] == hex_upper(d)[k]);
            }
        }
    }
}

/// Different bytes give different hex, so different digests give different storage keys.
pub proof fn lemma_hex_upper_injective(a: Seq<u8>, b: Seq<u8>)
    requires
        hex_upper(a) == hex_upper(b),
    ensures
        a == b,
{
    lemma_hex_upper_shape(a);
    lemma_hex_upper_shape(b);
    assert forall|i: int| 0 <= i < a.len() implies a[i] == b[i] by {
        let h = hex_upper(a);
        assert(h[2 * i] == hex_upper(b)[2 * i]);
        assert(h[2 * i + 1] == hex_upper(b)[2 * i + 1]);
        lemma_digit_char_upper((a[i] / 16) as nat);
        lemma_digit_char_upper((a[i] % 16) as nat);
        lemma_digit_char_upper((b[i] / 16) as nat);
        lemma_digit_char_upper((b[i] % 16) as nat);
        assert(a[i] / 16 == b[i] / 16);
        assert(a[i] % 16 == b[i] % 16);
    }
    assert(a =~= b);
}

/// `data` in upper-case hex, two digits a byte, as a record's storage key is written from
/// its digest.
pub fn hex(data: Vec<u8>) -> (s: String)
    ensures
        s@ == hex_upper(data@),
{
    // a `Vec<u8>` never holds more than `isize::MAX` bytes, so the product fits
    let room = match data.len().checked_mul(2) {
        Some(n) => n,
        None => data.len(),
    };
    let mut s = string_with_capacity(room);
    let mut i: usize = 0;
    while i < data.len()
        invariant
            i <= data@.len(),
            s@ == hex_upper(data@.take(i as int)),
        decreases data@.len() - i,
    {
        let b = data[i];
        push_char(&mut s, digit_to_char_upper((b / 16) as u64));
        push_char(&mut s, digit_to_char_upper((b % 16) as u64));
        assert(data@.take(i + 1).drop_last() =~= data@.take(i as int));
        assert(s@ =~= hex_upper(data@.take(i + 1)));
        i += 1;
    }
    assert(data@.take(data@.len() as int) =~= data@);
    s
}

/// Whether `a` and `b` are the same text, compared byte by byte.
pub fn const_str_eq(a: &str, b: &str) -> (r: bool)
    ensures
        r == (a@ == b@),
{
    let ab = a.as_bytes();
    let bb = b.as_bytes();
    proof {
        vstd::utf8::encode_utf8_decode_utf8(a@);
        vstd::utf8::encode_utf8_decode_utf8(b@);
    }
    if ab.len() != bb.len() {
        return false;
    }
    let mut i: usize = 0;
    while i < ab.len()
        invariant
            ab@ == a.spec_bytes(),
            bb@ == b.spec_bytes(),
            ab@.len() == bb@.len(),
            i <= ab@.len(),
            forall|j: int| 0 <= j < i ==> ab@[j] == bb@[j],
        decreases ab@.len() - i,
    {
        if ab[i] != bb[i] {
            return false;
        }
        i += 1;
    }
    assert(ab@ =~= bb@);
    true
}

/// The bookmarks are never stored in the badge's own `dc34` dictionary, which holds its
/// gene.
pub proof fn lemma_bookmarks_dict_is_not_dc34()
    ensures
        VAULT_BOOKMARKS_DICT@ != "dc34"@,
{
    reveal_strlit("vault.bookmarks");
    reveal_strlit("dc34");
    assert(VAULT_BOOKMARKS_DICT@.len() != "dc34"@.len());
}

// ---------------------------------------------------------------------------------------
// Storing a batch of records
// ---------------------------------------------------------------------------------------

/// A store that found its key already there.
pub open spec fn is_dup(r: Result<(), Error>) -> bool {
    r matches Err(Error::KeyExists)
}

/// The positions of the stores in `rs` that found their key already there, in order.
pub open spec fn dup_indices(rs: Seq<Result<(), Error>>) -> Seq<usize>
    decreases rs.len(),
{
    if rs.len() == 0 {
        Seq::empty()
    } else if is_dup(rs.last()) {
        dup_indices(rs.drop_last()).push((rs.len() - 1) as usize)
    } else {
        dup_indices(rs.drop_last())
    }
}

/// The duplicates of a batch are exactly the positions whose store found its key there, each
/// once, in increasing order.
pub proof fn lemma_dup_indices(rs: Seq<Result<(), Error>>)
    requires
        rs.len() <= usize::MAX,
    ensures
        forall|a: int, b: int| 0 <= a < b < dup_indices(rs).len() ==> #[trigger] dup_indices(rs)[a] < #[trigger] dup_indices(rs)[b],
        forall|a: int| 0 <= a < dup_indices(rs).len() ==> #[trigger] dup_indices(rs)[a] < rs.len() && is_dup(rs[dup_indices(rs)[a] as int]),
        forall|i: int| 0 <= i < rs.len() && #[trigger] is_dup(rs[i]) ==> dup_indices(rs).contains(i as usize),
    decreases rs.len(),
{
    if rs.len() > 0 {
        let d = rs.drop_last();
        lemma_dup_indices(d);
        assert forall|a: int| 0 <= a < dup_indices(d).len() implies is_dup(rs[dup_indices(d)[a] as int]) by {
            assert(rs[dup_indices(d)[a] as int] == d[dup_indices(d)[a] as int]);
        }
        assert forall|i: int| 0 <= i < rs.len() && #[trigger] is_dup(rs[i]) implies dup_indices(rs).contains(i as usize) by {
            if i < d.len() {
                assert(rs[i] == d[i]);
                let a = choose|a: int| 0 <= a < dup_indices(d).len() && dup_indices(d)[a] == i as usize;
                assert(dup_indices(rs)[a] == i as usize);
            } else {
                assert(dup_indices(rs).last() == i as usize);
            }
        }
    }
}

/// A store that failed other than by finding its key there: it ends the batch.
pub open spec fn is_fail(r: Result<(), Error>) -> bool {
    r is Err && !is_dup(r)
}

/// The position of the first store in `s` that ends the batch.
pub open spec fn first_failure(s: Seq<Result<(), Error>>) -> Option<int>
    decreases s.len(),
{
    if s.len() == 0 {
        None
    } else if is_fail(s[0]) {
        Some(0)
    } else {
        match first_failure(s.drop_first()) {
            Some(j) => Some(j + 1),
            None => None,
        }
    }
}

/// How a batch ends: at the store in the given position, or with every record tried and the
/// duplicates found, in order.
pub enum BatchEnd {
    Failed(int),
    Done(Seq<usize>),
}

/// The batch driven by `BatchStore::record`, from position `k` with the duplicates `d` so far,
/// over the store results `s` still to come: each result taken as `record` takes it, stopping
/// at the first that ends the batch.
pub open spec fn batch_run(k: int, d: Seq<usize>, s: Seq<Result<(), Error>>) -> BatchEnd
    decreases s.len(),
{
    if s.len() == 0 {
        BatchEnd::Done(d)
    } else if is_fail(s[0]) {
        BatchEnd::Failed(k)
    } else {
        batch_run(k + 1, if is_dup(s[0]) { d.push(k as usize) } else { d }, s.drop_first())
    }
}

/// The duplicates among `s`, numbered from `k`, front first.
pub open spec fn dups_from(s: Seq<Result<(), Error>>, k: int) -> Seq<usize>
    decreases s.len(),
{
    if s.len() == 0 {
        Seq::empty()
    } else {
        (if is_dup(s[0]) { seq![k as usize] } else { Seq::empty() }) + dups_from(s.drop_first(), k + 1)
    }
}

proof fn lemma_batch_run(k: int, d: Seq<usize>, s: Seq<Result<(), Error>>)
    ensures
        batch_run(k, d, s) == match first_failure(s) {
            Some(j) => BatchEnd::Failed(k + j),
            None => BatchEnd::Done(d + dups_from(s, k)),
        },
    decreases s.len(),
{
    if s.len() == 0 {
        assert(d + Seq::<usize>::empty() =~= d);
    } else if !is_fail(s[0]) {
        let d2 = if is_dup(s[0]) { d.push(k as usize) } else { d };
        lemma_batch_run(k + 1, d2, s.drop_first());
        let head = if is_dup(s[0]) { seq![k as usize] } else { Seq::<usize>::empty() };
        assert(d2 + dups_from(s.drop_first(), k + 1) =~= d + (head + dups_from(s.drop_first(), k + 1)));
    }
}

proof fn lemma_dups_from_push(s: Seq<Result<(), Error>>, x: Result<(), Error>, k: int)
    ensures
        dups_from(s.push(x), k) == dups_from(s, k) + if is_dup(x) {
            seq![(k + s.len()) as usize]
        } else {
            Seq::<usize>::empty()
        },
    decreases s.len(),
{
    let tail = if is_dup(x) { seq![(k + s.len()) as usize] } else { Seq::<usize>::empty() };
    if s.len() == 0 {
        assert(s.push(x).drop_first() =~= Seq::<Result<(), Error>>::empty());
        assert(s.push(x)[0] == x);
        assert(dups_from(Seq::<Result<(), Error>>::empty(), k + 1) =~= Seq::<usize>::empty());
        assert(tail + Seq::<usize>::empty() =~= tail);
        assert(dups_from(s.push(x), k) =~= tail);
        assert(Seq::<usize>::empty() + tail =~= tail);
    } else {
        assert(s.push(x).drop_first() =~= s.drop_first().push(x));
        lemma_dups_from_push(s.drop_first(), x, k + 1);
        let head = if is_dup(s[0]) { seq![k as usize] } else { Seq::<usize>::empty() };
        assert(head + (dups_from(s.drop_first(), k + 1) + tail) =~= (head + dups_from(s.drop_first(), k + 1)) + tail);
    }
}

proof fn lemma_dups_from_indices(rs: Seq<Result<(), Error>>)
    ensures
        dups_from(rs, 0) == dup_indices(rs),
    decreases rs.len(),
{
    if rs.len() > 0 {
        let d = rs.drop_last();
        lemma_dups_from_indices(d);
        assert(d.push(rs.last()) =~= rs);
        lemma_dups_from_push(d, rs.last(), 0);
        if is_dup(rs.last()) {
            assert(dup_indices(d) + seq![(rs.len() - 1) as usize] =~= dup_indices(d).push((rs.len() - 1) as usize));
        } else {
            assert(dup_indices(d) + Seq::<usize>::empty() =~= dup_indices(d));
        }
    }
}

/// A batch, driven one store result at a time by `BatchStore::record` as `new_records` does,
/// ends at the first store that failed other than by finding its key there, not trying the
/// rest; else it tries every record, and its duplicates are the positions whose key was found,
/// in order (`finish` then gives `Ok` when there are none, `DupesExist` of them otherwise).
pub proof fn lemma_batch_outcome(rs: Seq<Result<(), Error>>)
    ensures
        batch_run(0, Seq::empty(), rs) == match first_failure(rs) {
            Some(j) => BatchEnd::Failed(j),
            None => BatchEnd::Done(dup_indices(rs)),
        },
{
    lemma_batch_run(0, Seq::empty(), rs);
    lemma_dups_from_indices(rs);
    assert(Seq::<usize>::empty() + dups_from(rs, 0) =~= dups_from(rs, 0));
}

/// Progress through storing a batch of records, one at a time: the index of the record being
/// stored, and the indices of those that were already stored under their key.
pub struct BatchStore {
    pub index: usize,
    pub dupes: Vec<usize>,
}

impl BatchStore {
    /// The duplicates noted are records already passed, each once, in the order they came.
    pub open spec fn well_ordered(&self) -> bool {
        &&& forall|i: int, j: int|
            0 <= i < j < self.dupes@.len() ==> #[trigger] self.dupes@[i] < #[trigger] self.dupes@[j]
        &&& forall|i: int| 0 <= i < self.dupes@.len() ==> #[trigger] self.dupes@[i] < self.index
    }

    /// A batch not yet started.
    pub fn new() -> (r: Self)
        ensures
            r.index == 0,
            r.dupes@ == Seq::<usize>::empty(),
            r.well_ordered(),
    {
        BatchStore { index: 0, dupes: Vec::new() }
    }

    /// Whether to sync after storing the current record: after the last one, and after every
    /// tenth, starting with the first.
    pub fn sync_due(&self, is_last: bool) -> (r: bool)
        ensures
            r == (is_last || self.index % 10 == 0),
    {
        is_last || self.index % 10 == 0
    }

    /// Takes how storing the current record went. A record whose key already exists is noted
    /// as a duplicate and the batch goes on; any other failure ends the batch, and is handed
    /// back.
    pub fn record(&mut self, result: Result<(), Error>) -> (r: Option<Error>)
        requires
            old(self).index < usize::MAX,
        ensures
            match result {
                Ok(()) => r is None && final(self).index == old(self).index + 1 && final(self).dupes@ == old(self).dupes@,
                Err(Error::KeyExists) => r is None && final(self).index == old(self).index + 1
                    && final(self).dupes@ == old(self).dupes@.push(old(self).index),
                Err(e) => r == Some(e) && final(self).index == old(self).index && final(self).dupes@ == old(self).dupes@,
            },
            old(self).well_ordered() ==> final(self).well_ordered(),
            forall|rs: Seq<Result<(), Error>>|
                old(self).index == rs.len() && old(self).dupes@ == #[trigger] dup_indices(rs) && (result is Ok
                    || is_dup(result)) ==> final(self).index == rs.push(result).len()
                    && final(self).dupes@ == dup_indices(rs.push(result)),
            forall|rest: Seq<Result<(), Error>>|
                #[trigger] batch_run(old(self).index as int, old(self).dupes@, seq![result] + rest) == if is_fail(
                    result,
                ) {
                    BatchEnd::Failed(old(self).index as int)
                } else {
                    batch_run(final(self).index as int, final(self).dupes@, rest)
                },
            r is Some <==> is_fail(result),
    {
        proof {
            assert forall|rest: Seq<Result<(), Error>>|
                #[trigger] batch_run(self.index as int, self.dupes@, seq![result] + rest) == if is_fail(result) {
                    BatchEnd::Failed(self.index as int)
                } else {
                    batch_run(
                        self.index + 1,
                        if is_dup(result) { self.dupes@.push(self.index) } else { self.dupes@ },
                        rest,
                    )
                } by {
                assert((seq![result] + rest)[0] == result);
                assert((seq![result] + rest).drop_first() =~= rest);
            }
        }
        proof {
            assert forall|rs: Seq<Result<(), Error>>| #[trigger] dup_indices(rs.push(result)) == if is_dup(result) {
                dup_indices(rs).push(rs.len() as usize)
            } else {
                dup_indices(rs)
            } by {
                assert(rs.push(result).drop_last() =~= rs);
            }
        }
        match result {
            Ok(()) => {
                self.index = self.index + 1;
                None
            },
            Err(Error::KeyExists) => {
                self.dupes.push(self.index);
                self.index = self.index + 1;
                None
            },
            Err(e) => Some(e),
        }
    }

    /// How the batch ended once every record was stored: `DupesExist` with the duplicates'
    /// indices, in order, when there were any.
    pub fn finish(self) -> (r: Result<(), Error>)
        ensures
            self.dupes@.len() == 0 ==> r is Ok,
            self.dupes@.len() > 0 ==> (r matches Err(Error::DupesExist(d)) && d@ == self.dupes@),
    {
        if self.dupes.len() == 0 {
            Ok(())
        } else {
            Err(Error::DupesExist(self.dupes))
        }
    }
}

// ---------------------------------------------------------------------------------------
// Numeric settings
// ---------------------------------------------------------------------------------------

/// The four little-endian bytes of `x`.
pub open spec fn le_bytes(x: u32) -> Seq<u8> {
    seq![
        (x % 0x100) as u8,
        ((x / 0x100) % 0x100) as u8,
        ((x / 0x1_0000) % 0x100) as u8,
        (x / 0x100_0000) as u8,
    ]
}

/// The number whose little-endian bytes are `b[0..4]`.
pub open spec fn le_value(b: Seq<u8>) -> nat {
    b[0] as nat + 0x100 * b[1] as nat + 0x1_0000 * b[2] as nat + 0x100_0000 * b[3] as nat
}

/// The bytes a numeric setting `v` is stored as: its low 32 bits, little-endian.
pub fn setting_bytes(v: usize) -> (r: [u8; 4])
    ensures
        r@ == le_bytes((v as nat % 0x1_0000_0000) as u32),
{
    let x: u32 = ((v as u64) % 0x1_0000_0000) as u32;
    [(x % 0x100) as u8, ((x / 0x100) % 0x100) as u8, ((x / 0x1_0000) % 0x100) as u8, (x / 0x100_0000) as u8]
}

/// The setting read back from the `n` bytes that a read of its key gave in `buf`: nothing
/// unless the read gave all four.
pub fn setting_value(n: usize, buf: [u8; 4]) -> (r: Option<usize>)
    ensures
        n != 4 ==> r is None,
        n == 4 ==> r == Some(le_value(buf@) as usize),
{
    if n != 4 {
        return None;
    }
    let x: u32 = buf[0] as u32 + 0x100 * (buf[1] as u32) + 0x1_0000 * (buf[2] as u32) + 0x100_0000
        * (buf[3] as u32);
    Some(x as usize)
}

/// A numeric setting below 2^32 reads back as the value that was written.
pub proof fn lemma_setting_roundtrip(v: usize)
    requires
        v < 0x1_0000_0000,
    ensures
        le_value(le_bytes(v as u32)) == v,
{
    let x = v as u32;
    assert(x == (x % 0x100) + 0x100 * ((x / 0x100) % 0x100) + 0x1_0000 * ((x / 0x1_0000) % 0x100)
        + 0x100_0000 * (x / 0x100_0000)) by (bit_vector);
    assert(x / 0x100_0000 < 0x100) by (bit_vector);
}

impl PasswordRecord {
    /// What autotype types: the user name or the password.
    pub fn autotype_text(&self, type_username: bool) -> (r: &String)
        ensures
            r@ == if type_username {
                self.username@
            } else {
                self.password@
            },
    {
        if type_username {
            &self.username
        } else {
            &self.password
        }
    }

    /// Notes a use of the record at time `atime`: one more to its count, and the access time.
    pub fn mark_used(&mut self, atime: u64)
        requires
            old(self).count < u64::MAX,
        ensures
            final(self)@ == (PasswordModel { count: (old(self).count + 1) as u64, atime, ..old(self)@ }),
    {
        self.count = self.count + 1;
        self.atime = atime;
    }
}

/// The stored login `data` after one use at time `now`: one more to its count, and the access
/// time.
pub open spec fn used_login(m: PasswordModel, now: u64) -> PasswordModel {
    PasswordModel { count: (m.count + 1) as u64, atime: now, ..m }
}

/// One autotype of the stored login `data` at time `now`: the text to type (the user name or
/// the password) and the bytes to store back, the login with one more use at `now`. Fails as
/// reading the login fails. Stored back and read again, the bytes give that login.
pub fn autotype_use(data: Vec<u8>, type_username: bool, now: u64) -> (r: Result<
    (String, Vec<u8>),
    PasswordSerializationError,
>)
    requires
        password_read(password_blank(VAULT_PASSWORD_REC_VERSION), data@) matches (m, None) ==> m.count
            < u64::MAX,
    ensures
        match password_read(password_blank(VAULT_PASSWORD_REC_VERSION), data@) {
            (m, None) => r matches Ok((t, b)) && t@ == (if type_username {
                m.username
            } else {
                m.password
            }) && b@ == encode_utf8(password_text(used_login(m, now))) && (password_storable(m)
                ==> password_read(password_blank(VAULT_PASSWORD_REC_VERSION), b@) == (
                used_login(m, now),
                None::<PasswordSerializationError>,
            )),
            (_, Some(e)) => r == Err::<(String, Vec<u8>), PasswordSerializationError>(e),
        },
{
    let mut pw = PasswordRecord::try_from_bytes(data)?;
    let text = pw.autotype_text(type_username).clone();
    pw.mark_used(now);
    let bytes = pw.to_bytes();
    proof {
        if password_storable(pw@) {
            lemma_password_roundtrip(pw@, VAULT_PASSWORD_REC_VERSION);
        }
    }
    Ok((text, bytes))
}

} // verus!
