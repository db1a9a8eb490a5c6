//! Names and formats shared between the vault app, its FIDO side and the console: the
//! dictionary names, and the text format of a FIDO app registration.
use vstd::prelude::*;
use vstd::utf8::*;
use vstd::string::*;
use crate::lines::{
    fields_clean, fields_text, fold_fields, fold_lines, lemma_fields_text_push, lemma_fold_fields,
    push_field, push_field_num, tagged_line,
};
use crate::text::{
    dec_chars, decode_chars, digit_char, find_char, find_in, lemma_num_chars, lemma_parse_num_chars,
    parse_bounded, parse_uint, push_range, range_eq, string_bytes, string_from_range,
};

verus! {

/// Vault-specific CTAP command: restore TOTP codes.
pub const COMMAND_RESTORE_TOTP_CODES: u8 = 0x71;
/// Vault-specific CTAP command: back up TOTP codes.
pub const COMMAND_BACKUP_TOTP_CODES: u8 = 0x72;
/// Vault-specific CTAP command: reset the session.
pub const COMMAND_RESET_SESSION: u8 = 0x74;

/// PDDB dictionary of password records.
pub const VAULT_PASSWORD_DICT: &'static str = "vault.passwords";
/// PDDB dictionary of TOTP records.
pub const VAULT_TOTP_DICT: &'static str = "vault.totp";
/// PDDB dictionary of saved URLs.
pub const VAULT_BOOKMARKS_DICT: &'static str = "vault.bookmarks";
/// FIDO2 / U2F registrations, surfaced to the user as PASSKEYS.
pub const U2F_APP_DICT: &'static str = "fido.u2fapps";
/// The reserved key, inside the bookmarks dictionary, that holds the key counter.
pub const VAULT_BOOKMARKS_COUNTER_KEY: &'static str = "__counter__";
/// Contains the list of usernames.
pub const VAULT_CONFIG_USERNAMES: &'static str = "vault.config/usernames";
/// Contains the generator configuration record.
pub const VAULT_CONFIG_GENERATOR: &'static str = "vault.config/generator";

/// Bytes to reserve for a key entry. Slightly larger saves some churn as entries change.
pub const VAULT_ALLOC_HINT: usize = 256;

// ---------------------------------------------------------------------------------------
// Hex, as the `hex` crate writes and reads it
// ---------------------------------------------------------------------------------------

/// The value of the hex digit whose byte is `c`, in either case.
pub open spec fn hex_val(c: u8) -> Option<u8> {
    if 48 <= c <= 57 {
        Some((c - 48) as u8)
    } else if 97 <= c <= 102 {
        Some((c - 87) as u8)
    } else if 65 <= c <= 70 {
        Some((c - 55) as u8)
    } else {
        None
    }
}

/// The bytes that the hex text `s` (as bytes) spells: an even number of hex digits, each
/// pair a byte, high digit first.
pub open spec fn hex_decoded(s: Seq<u8>) -> Option<Seq<u8>>
    decreases s.len(),
{
    if s.len() % 2 != 0 {
        None
    } else if s.len() == 0 {
        Some(Seq::empty())
    } else {
        match (hex_val(s[0]), hex_val(s[1])) {
            (Some(h), Some(l)) => match hex_decoded(s.skip(2)) {
                Some(r) => Some(seq![(h * 16 + l) as u8] + r),
                None => None,
            },
            _ => None,
        }
    }
}

/// `data` in lower-case hex, two digits a byte, high digit first.
pub open spec fn hex_lower(data: Seq<u8>) -> Seq<char>
    decreases data.len(),
{
    if data.len() == 0 {
        Seq::empty()
    } else {
        seq![digit_char((data[0] / 16) as nat), digit_char((data[0] % 16) as nat)] + hex_lower(
            data.drop_first(),
        )
    }
}

/// `hex::decode`: the bytes that the hex text `data` spells, or `None` when its length is
/// odd or it holds a character that is no hex digit (the crate's `FromHexError`).
#[verifier::external_body]
fn hex_decode(data: &str) -> (r: Option<Vec<u8>>)
    ensures
        match hex_decoded(data.spec_bytes()) {
            Some(v) => r matches Some(x) && x@ == v,
            None => r is None,
        },
{
    hex::decode(data).ok()
}

/// `hex::encode`: `data` in lower-case hex, two digits a byte.
#[verifier::external_body]
fn hex_encode(data: &[u8]) -> (r: String)
    ensures
        r@ == hex_lower(data@),
{
    hex::encode(data)
}

/// An ASCII character is encoded as its own code.
proof fn lemma_ascii_scalar(c: char)
    requires
        (c as u32) < 128,
    ensures
        encode_scalar(c as u32) == seq![(c as u32) as u8],
{
    let u = c as u32;
    assert(u & 0x7F == u) by (bit_vector)
        requires
            u < 128,
    ;
    assert(encode_scalar(u) =~= seq![u as u8]);
}

/// Decoding the lower-case hex of some bytes gives the bytes back.
proof fn lemma_hex_roundtrip(data: Seq<u8>)
    ensures
        hex_decoded(encode_utf8(hex_lower(data))) == Some(data),
        hex_lower(data).len() == 2 * data.len(),
        forall|i: int| 0 <= i < hex_lower(data).len() ==> (#[trigger] hex_lower(data)[i] as u32) < 128
            && hex_lower(data)[i] != '\n',
    decreases data.len(),
{
    if data.len() > 0 {
        let d = data[0];
        let a = digit_char((d / 16) as nat);
        let b = digit_char((d % 16) as nat);
        let rest = hex_lower(data.drop_first());
        let s = seq![a, b] + rest;
        lemma_hex_roundtrip(data.drop_first());
        assert(s.drop_first() =~= seq![b] + rest);
        assert((seq![b] + rest).drop_first() =~= rest);
        let e = encode_utf8(s);
        assert((a as u32) < 128 && (b as u32) < 128);
        lemma_ascii_scalar(a);
        lemma_ascii_scalar(b);
        assert(e == encode_scalar(s[0] as u32) + encode_utf8(s.drop_first()));
        assert(encode_utf8(seq![b] + rest) == encode_scalar((seq![b] + rest)[0] as u32)
            + encode_utf8((seq![b] + rest).drop_first()));
        assert(e =~= seq![a as u32 as u8, b as u32 as u8] + encode_utf8(rest));
        assert(e.skip(2) =~= encode_utf8(rest));
        assert(hex_val(e[0]) == Some((d / 16) as u8));
        assert(hex_val(e[1]) == Some((d % 16) as u8));
        assert(seq![d] + data.drop_first() =~= data);
        assert forall|i: int| 0 <= i < s.len() implies (#[trigger] s[i] as u32) < 128 && s[i] != '\n' by {
            if i >= 2 {
                assert(s[i] == rest[i - 2]);
            }
        }
    } else {
        assert(encode_utf8(Seq::<char>::empty()) =~= Seq::<u8>::empty());
    }
}

// ---------------------------------------------------------------------------------------
// App registrations
// ---------------------------------------------------------------------------------------

/// A FIDO app registration, as it is stored:
///
///  - name: free-form text up to the line break
///  - id: the app's hash, in lower-case hex
///  - ctime: the creation time, decimal seconds since the epoch
///  - atime: the last authentication time, likewise; 0 for never
///  - count: how many times it was used
pub struct AppInfo {
    pub name: String,
    pub id: [u8; 32],
    pub notes: String,
    pub ctime: u64,
    pub atime: u64,
    pub count: u64,
}

/// The content of an `AppInfo`.
#[verifier::ext_equal]
pub struct AppInfoModel {
    pub name: Seq<char>,
    pub id: Seq<u8>,
    pub notes: Seq<char>,
    pub ctime: u64,
    pub atime: u64,
    pub count: u64,
}

impl View for AppInfo {
    type V = AppInfoModel;

    open spec fn view(&self) -> AppInfoModel {
        AppInfoModel {
            name: self.name@,
            id: self.id@,
            notes: self.notes@,
            ctime: self.ctime,
            atime: self.atime,
            count: self.count,
        }
    }
}

/// Why reading a registration stopped: the text was rejected, or an `id` spelled a number of
/// bytes other than 32, which a registration cannot hold.
#[derive(Clone, Copy, PartialEq, Eq, Structural)]
pub enum AppInfoStop {
    Rejected,
    BadIdLength,
}

/// An id of 32 zero bytes: no id.
pub open spec fn zero_id() -> Seq<u8> {
    Seq::new(32, |i: int| 0u8)
}

/// A registration with no name, notes or times, and no id.
pub open spec fn app_blank() -> AppInfoModel {
    AppInfoModel {
        name: Seq::empty(),
        id: zero_id(),
        notes: Seq::empty(),
        ctime: 0,
        atime: 0,
        count: 0,
    }
}

/// What one `tag:value` line does to a registration being read. A bad `count` is ignored,
/// as registrations from before it existed lack it; any tag it does not know rejects the text.
pub open spec fn app_info_apply(m: AppInfoModel, tag: Seq<char>, data: Seq<char>) -> Result<
    AppInfoModel,
    AppInfoStop,
> {
    if tag == "name"@ {
        Ok(AppInfoModel { name: m.name + data, ..m })
    } else if tag == "notes"@ {
        Ok(AppInfoModel { notes: m.notes + data, ..m })
    } else if tag == "id"@ {
        match hex_decoded(encode_utf8(data)) {
            None => Err(AppInfoStop::Rejected),
            Some(v) => if v.len() == 32 {
                Ok(AppInfoModel { id: v, ..m })
            } else {
                Err(AppInfoStop::BadIdLength)
            },
        }
    } else if tag == "ctime"@ {
        match parse_bounded(data, 10, u64::MAX as nat) {
            Some(v) => Ok(AppInfoModel { ctime: v as u64, ..m }),
            None => Err(AppInfoStop::Rejected),
        }
    } else if tag == "atime"@ {
        match parse_bounded(data, 10, u64::MAX as nat) {
            Some(v) => Ok(AppInfoModel { atime: v as u64, ..m }),
            None => Err(AppInfoStop::Rejected),
        }
    } else if tag == "count"@ {
        match parse_bounded(data, 10, u64::MAX as nat) {
            Some(v) => Ok(AppInfoModel { count: v as u64, ..m }),
            None => Ok(m),
        }
    } else {
        Err(AppInfoStop::Rejected)
    }
}

/// `app_info_apply` as a function value.
pub open spec fn app_info_step() -> spec_fn(AppInfoModel, Seq<char>, Seq<char>) -> Result<
    AppInfoModel,
    AppInfoStop,
> {
    |m: AppInfoModel, tag: Seq<char>, data: Seq<char>| app_info_apply(m, tag, data)
}

/// Reads the stored bytes `b` from a blank registration: the state reached and why the read
/// stopped, if it did.
pub open spec fn app_info_read(b: Seq<u8>) -> (AppInfoModel, Option<AppInfoStop>) {
    if valid_utf8(b) {
        fold_lines(app_blank(), decode_utf8(b), app_info_step())
    } else {
        (app_blank(), Some(AppInfoStop::Rejected))
    }
}


/// The registration the stored bytes `b` hold: read without a stop, with a name and an id.
pub open spec fn app_info_of(b: Seq<u8>) -> Option<AppInfoModel> {
    match app_info_read(b) {
        (m, None) => if m.name.len() > 0 && m.id != zero_id() {
            Some(m)
        } else {
            None
        },
        _ => None,
    }
}

/// Applies the line `cs[lo..hi]` to `ai`.
fn app_info_apply_line(ai: &mut AppInfo, cs: &Vec<char>, lo: usize, hi: usize) -> (r: Result<
    (),
    AppInfoStop,
>)
    requires
        lo <= hi <= cs@.len(),
    ensures
        match tagged_line(old(ai)@, cs@.subrange(lo as int, hi as int), app_info_step()) {
            Ok(m) => r is Ok && final(ai)@ == m,
            Err(e) => r == Err::<(), AppInfoStop>(e) && final(ai)@ == old(ai)@,
        },
{
    let ghost line = cs@.subrange(lo as int, hi as int);
    let colon = match find_in(cs, lo, hi, ':') {
        Some(i) => i,
        None => return Ok(()),
    };
    assert(line.take(colon - lo) =~= cs@.subrange(lo as int, colon as int));
    assert(line.skip(colon - lo + 1) =~= cs@.subrange(colon + 1, hi as int));
    let d = colon + 1;
    if range_eq(cs, lo, colon, "name") {
        push_range(&mut ai.name, cs, d, hi);
        Ok(())
    } else if range_eq(cs, lo, colon, "notes") {
        push_range(&mut ai.notes, cs, d, hi);
        Ok(())
    } else if range_eq(cs, lo, colon, "id") {
        let text = string_from_range(cs, d, hi);
        match hex_decode(text.as_str()) {
            None => Err(AppInfoStop::Rejected),
            Some(v) => {
                if v.len() != 32 {
                    return Err(AppInfoStop::BadIdLength);
                }
                let mut i: usize = 0;
                while i < 32
                    invariant
                        v@.len() == 32,
                        i <= 32,
                        ai.name@ == old(ai).name@,
                        ai.notes@ == old(ai).notes@,
                        ai.ctime == old(ai).ctime,
                        ai.atime == old(ai).atime,
                        ai.count == old(ai).count,
                        forall|j: int| 0 <= j < i ==> ai.id@[j] == v@[j],
                    decreases 32 - i,
                {
                    ai.id[i] = v[i];
                    i += 1;
                }
                assert(ai.id@ =~= v@);
                Ok(())
            },
        }
    } else if range_eq(cs, lo, colon, "ctime") {
        match parse_uint(cs, d, hi, 10, u64::MAX) {
            Some(v) => {
                ai.ctime = v;
                Ok(())
            },
            None => Err(AppInfoStop::Rejected),
        }
    } else if range_eq(cs, lo, colon, "atime") {
        match parse_uint(cs, d, hi, 10, u64::MAX) {
            Some(v) => {
                ai.atime = v;
                Ok(())
            },
            None => Err(AppInfoStop::Rejected),
        }
    } else if range_eq(cs, lo, colon, "count") {
        match parse_uint(cs, d, hi, 10, u64::MAX) {
            Some(v) => {
                ai.count = v;
                Ok(())
            },
            None => Ok(()),
        }
    } else {
        Err(AppInfoStop::Rejected)
    }
}

/// Reads the bytes `data` into `ai`, line by line, up to the first line that stops it.
fn app_info_read_into(ai: &mut AppInfo, data: &Vec<u8>) -> (r: Result<(), AppInfoStop>)
    requires
        old(ai)@ == app_blank(),
    ensures
        final(ai)@ == app_info_read(data@).0,
        match app_info_read(data@).1 {
            None => r is Ok,
            Some(e) => r == Err::<(), AppInfoStop>(e),
        },
{
    let cs = match decode_chars(data.as_slice()) {
        Some(cs) => cs,
        None => return Err(AppInfoStop::Rejected),
    };
    let n = cs.len();
    let mut p: usize = 0;
    assert(cs@.skip(0) =~= cs@);
    loop
        invariant
            p <= n == cs@.len(),
            cs@ == decode_utf8(data@),
            valid_utf8(data@),
            app_info_read(data@) == fold_lines(ai@, cs@.skip(p as int), app_info_step()),
        decreases n - p,
    {
        let ghost t = cs@.skip(p as int);
        assert(cs@.subrange(p as int, n as int) =~= t);
        let nl = find_in(&cs, p, n, '\n');
        let end = match nl {
            Some(i) => i,
            None => n,
        };
        proof {
            if let Some(i) = nl {
                assert(t.take(i - p) =~= cs@.subrange(p as int, i as int));
                assert(t.skip(i - p + 1) =~= cs@.skip(i + 1));
            }
        }
        let ghost before = ai@;
        let res = app_info_apply_line(ai, &cs, p, end);
        proof {
            match nl {
                Some(i) => {
                    assert(find_char(t, '\n') == Some(i - p));
                    assert(cs@.subrange(p as int, end as int) =~= t.take(i - p));
                },
                None => {
                    assert(find_char(t, '\n') is None);
                    assert(cs@.subrange(p as int, end as int) =~= t);
                },
            }
        }
        match res {
            Ok(()) => {},
            Err(e) => {
                assert(fold_lines(before, t, app_info_step()) == (before, Some(e)));
                return Err(e);
            },
        }
        match nl {
            Some(i) => {
                p = i + 1;
            },
            None => {
                return Ok(());
            },
        }
    }
}

/// A registration with no name, notes or times, and no id.
fn blank_app_info() -> (r: AppInfo)
    ensures
        r@ == app_blank(),
{
    let r = AppInfo {
        name: String::new(),
        notes: String::new(),
        id: [0u8; 32],
        ctime: 0,
        atime: 0,
        count: 0,
    };
    assert(r.id@ =~= zero_id());
    r
}

/// Whether `id` is all zero bytes.
fn is_zero_id(id: &[u8; 32]) -> (r: bool)
    ensures
        r == (id@ == zero_id()),
{
    let mut i: usize = 0;
    while i < 32
        invariant
            i <= 32,
            id@.len() == 32,
            forall|j: int| 0 <= j < i ==> id@[j] == 0,
        decreases 32 - i,
    {
        if id[i] != 0 {
            assert(id@[i as int] != zero_id()[i as int]);
            return false;
        }
        i += 1;
    }
    assert(id@ =~= zero_id());
    true
}

/// Reads a stored registration: `None` when the bytes are not UTF-8, hold a tag it does not
/// know, an id that is not hex or not 32 bytes long, or a bad time, or lack a name or an id.
/// No stored bytes make it fail otherwise.
pub fn deserialize_app_info(descriptor: Vec<u8>) -> (r: Option<AppInfo>)
    ensures
        match app_info_of(descriptor@) {
            Some(m) => r matches Some(a) && a@ == m,
            None => r is None,
        },
{
    let mut ai = blank_app_info();
    match app_info_read_into(&mut ai, &descriptor) {
        Ok(()) => {},
        Err(_) => return None,
    }
    if ai.name.as_str().unicode_len() > 0 && !is_zero_id(&ai.id) {
        Some(ai)
    } else {
        None
    }
}

/// The `(tag, value)` lines a registration is stored as, in order. The notes are not stored.
pub open spec fn app_info_fields(m: AppInfoModel) -> Seq<(Seq<char>, Seq<char>)> {
    seq![
        ("name"@, m.name),
        ("id"@, hex_lower(m.id)),
        ("ctime"@, dec_chars(m.ctime as nat)),
        ("atime"@, dec_chars(m.atime as nat)),
        ("count"@, dec_chars(m.count as nat)),
    ]
}

/// The text a registration is stored as.
pub open spec fn app_info_text(m: AppInfoModel) -> Seq<char> {
    fields_text(app_info_fields(m))
}

/// The bytes a registration is stored as.
pub fn serialize_app_info(appinfo: &AppInfo) -> (r: Vec<u8>)
    ensures
        r@ == encode_utf8(app_info_text(appinfo@)),
{
    let ghost fs = app_info_fields(appinfo@);
    let mut s = String::new();
    assert(fs.take(0) =~= Seq::<(Seq<char>, Seq<char>)>::empty());
    push_field(&mut s, "name", appinfo.name.as_str());
    proof { lemma_fields_text_push(fs, 0); assert(s@ =~= fields_text(fs.take(1))); }
    let id = hex_encode(&appinfo.id);
    push_field(&mut s, "id", id.as_str());
    proof { lemma_fields_text_push(fs, 1); assert(s@ =~= fields_text(fs.take(2))); }
    push_field_num(&mut s, "ctime", appinfo.ctime);
    proof { lemma_fields_text_push(fs, 2); assert(s@ =~= fields_text(fs.take(3))); }
    push_field_num(&mut s, "atime", appinfo.atime);
    proof { lemma_fields_text_push(fs, 3); assert(s@ =~= fields_text(fs.take(4))); }
    push_field_num(&mut s, "count", appinfo.count);
    proof {
        lemma_fields_text_push(fs, 4);
        assert(s@ =~= fields_text(fs.take(5)));
        assert(fs.take(5) =~= fs);
    }
    string_bytes(&s)
}

/// The stored tag names hold no colon or line break, and differ from each other.
proof fn lemma_app_info_tags()
    ensures
        !"name"@.contains(':') && !"name"@.contains('\n'),
        !"id"@.contains(':') && !"id"@.contains('\n'),
        !"ctime"@.contains(':') && !"ctime"@.contains('\n'),
        !"atime"@.contains(':') && !"atime"@.contains('\n'),
        !"count"@.contains(':') && !"count"@.contains('\n'),
        "id"@ != "name"@ && "id"@ != "notes"@,
        "ctime"@ != "name"@ && "ctime"@ != "notes"@ && "ctime"@ != "id"@,
        "atime"@ != "name"@ && "atime"@ != "notes"@ && "atime"@ != "id"@ && "atime"@ != "ctime"@,
        "count"@ != "name"@ && "count"@ != "notes"@ && "count"@ != "id"@ && "count"@ != "ctime"@
            && "count"@ != "atime"@,
{
    reveal_strlit("name");
    reveal_strlit("notes");
    reveal_strlit("id");
    reveal_strlit("ctime");
    reveal_strlit("atime");
    reveal_strlit("count");
    assert("notes"@[0] != "id"@[0]);
    assert("notes"@[0] != "ctime"@[0]);
    assert("notes"@[0] != "atime"@[0]);
    assert("notes"@[0] != "count"@[0]);
    assert("atime"@[0] != "ctime"@[0]);
    assert("count"@[1] != "ctime"@[1]);
    assert("count"@[0] != "atime"@[0]);
    assert("name"@[0] != "count"@[0]);
}

/// Reading back a stored registration that has a name (with no line break) and an id gives
/// the registration, less its notes, which are not stored.
pub proof fn lemma_app_info_roundtrip(m: AppInfoModel)
    requires
        m.name.len() > 0,
        !m.name.contains('\n'),
        m.id.len() == 32,
        m.id != zero_id(),
    ensures
        app_info_of(encode_utf8(app_info_text(m))) == Some(AppInfoModel { notes: Seq::empty(), ..m }),
{
    let fs = app_info_fields(m);
    lemma_app_info_tags();
    lemma_hex_roundtrip(m.id);
    lemma_num_chars(m.ctime as nat, 10);
    lemma_num_chars(m.atime as nat, 10);
    lemma_num_chars(m.count as nat, 10);
    lemma_parse_num_chars(m.ctime as nat, 10, u64::MAX as nat);
    lemma_parse_num_chars(m.atime as nat, 10, u64::MAX as nat);
    lemma_parse_num_chars(m.count as nat, 10, u64::MAX as nat);
    assert(fields_clean(fs)) by {
        assert forall|i: int| 0 <= i < fs.len() implies !(#[trigger] fs[i]).0.contains(':')
            && !fs[i].0.contains('\n') && !fs[i].1.contains('\n') by {
            if i == 1 {
                assert(!hex_lower(m.id).contains('\n'));
            } else if i == 2 {
                assert(!dec_chars(m.ctime as nat).contains('\n'));
            } else if i == 3 {
                assert(!dec_chars(m.atime as nat).contains('\n'));
            } else if i == 4 {
                assert(!dec_chars(m.count as nat).contains('\n'));
            }
        }
    }
    let text = app_info_text(m);
    vstd::utf8::encode_utf8_valid_utf8(text);
    vstd::utf8::encode_utf8_decode_utf8(text);
    lemma_fold_fields(app_blank(), fs, app_info_step());
    reveal_with_fuel(fold_fields, 6);
    let s0 = app_blank();
    let s1 = AppInfoModel { name: m.name, ..s0 };
    let s2 = AppInfoModel { id: m.id, ..s1 };
    let s3 = AppInfoModel { ctime: m.ctime, ..s2 };
    let s4 = AppInfoModel { atime: m.atime, ..s3 };
    let s5 = AppInfoModel { count: m.count, ..s4 };
    assert(Seq::<char>::empty() + m.name =~= m.name);
    assert(app_info_apply(s0, fs[0].0, fs[0].1) == Ok::<AppInfoModel, AppInfoStop>(s1));
    assert(app_info_apply(s1, fs[1].0, fs[1].1) == Ok::<AppInfoModel, AppInfoStop>(s2));
    assert(app_info_apply(s2, fs[2].0, fs[2].1) == Ok::<AppInfoModel, AppInfoStop>(s3));
    assert(app_info_apply(s3, fs[3].0, fs[3].1) == Ok::<AppInfoModel, AppInfoStop>(s4));
    assert(app_info_apply(s4, fs[4].0, fs[4].1) == Ok::<AppInfoModel, AppInfoStop>(s5));
    assert(s5 =~= AppInfoModel { notes: Seq::empty(), ..m });
    assert(fs.drop_first().drop_first().drop_first().drop_first().drop_first() =~= Seq::<
        (Seq<char>, Seq<char>),
    >::empty());
}


// ---------------------------------------------------------------------------------------
// Application events
// ---------------------------------------------------------------------------------------

/// The vault app's top-level events. Each travels as a message number (`to_usize`); the
/// numbers cross process boundaries, so they are fixed: the graphics service sends back
/// `KeyPress` as it was registered, and the console writes `ImageLoad` and `SkipKey` as bare
/// numbers. The events from `ImageLoad` on are numbered from 1024 so that they never take a
/// number a component may already send.
#[derive(Copy, Clone, PartialEq, Eq, Debug, Structural)]
pub enum VaultOp {
    /// Redraw the screen
    Redraw,
    ReloadDbAndFullRedraw,
    KeyPress,
    /// Main menu
    MenuChangeFont,
    MenuDeleteStage1,
    MenuEditStage1,
    MenuAutotype,
    MenuReadoutMode,
    MenuAutotypeRate,
    MenuLeftyMode,
    MenuDone,
    BadgeMode,
    MenuTokenHelp,
    MenuUsernames,
    MenuFilter,
    /// Tour menu
    TourContinue,
    TourLater,
    TourNever,
    /// Gene menu
    KeepGene,
    RevertGene,
    /// Badge menu
    DefconHelp,
    About,
    TokenMode,
    PowerOff,
    ScreenOff,
    BasisChange,
    /// a QR response the action manager does not handle
    HandleQr,
    AbortQr,
    /// the action manager validated a saved URL; main builds its QR code
    BookmarkQrReady,
    /// open the saved-URL list
    ListBookmarks,
    /// a custom image arrives; the console sends this number
    ImageLoad,
    /// force jig mode, for units re-tested at the factory
    Jig,
    /// skip the first key after waking; the console sends this number
    SkipKey,
    /// BIO programs are loaded
    BioActive,
    /// a scan started from the menu, which main performs as it blocks
    ScanUrl,
    /// stored passwords
    ListPasswords,
    /// TOTP entries, shown as "2FA DIGITS"
    List2faDigits,
    /// FIDO2 credentials, shown as "PASSKEYS"
    ListPasskeys,
    /// captured photos
    ListPhotos,
    /// standby image selection
    SettingsBling,
    /// LED pattern selection
    SettingsBlinky,
    /// QR code of the project page
    ShowAbout,
    /// reopen the top-level menu
    MenuRoot,
    /// open the login-details submenu
    MenuLogin,
    /// open the settings submenu
    MenuSettings,
    /// the menu closed itself, on a selection or on LEFT
    MenuClosed,
}

/// The message number of event `op`.
pub open spec fn op_number(op: VaultOp) -> nat {
    match op {
        VaultOp::Redraw => 0,
        VaultOp::ReloadDbAndFullRedraw => 1,
        VaultOp::KeyPress => 2,
        VaultOp::MenuChangeFont => 3,
        VaultOp::MenuDeleteStage1 => 4,
        VaultOp::MenuEditStage1 => 5,
        VaultOp::MenuAutotype => 6,
        VaultOp::MenuReadoutMode => 7,
        VaultOp::MenuAutotypeRate => 8,
        VaultOp::MenuLeftyMode => 9,
        VaultOp::MenuDone => 10,
        VaultOp::BadgeMode => 11,
        VaultOp::MenuTokenHelp => 12,
        VaultOp::MenuUsernames => 13,
        VaultOp::MenuFilter => 14,
        VaultOp::TourContinue => 15,
        VaultOp::TourLater => 16,
        VaultOp::TourNever => 17,
        VaultOp::KeepGene => 18,
        VaultOp::RevertGene => 19,
        VaultOp::DefconHelp => 20,
        VaultOp::About => 21,
        VaultOp::TokenMode => 22,
        VaultOp::PowerOff => 23,
        VaultOp::ScreenOff => 24,
        VaultOp::BasisChange => 25,
        VaultOp::HandleQr => 26,
        VaultOp::AbortQr => 27,
        VaultOp::BookmarkQrReady => 28,
        VaultOp::ListBookmarks => 29,
        VaultOp::ImageLoad => 1024,
        VaultOp::Jig => 1025,
        VaultOp::SkipKey => 1026,
        VaultOp::BioActive => 1027,
        VaultOp::ScanUrl => 1028,
        VaultOp::ListPasswords => 1029,
        VaultOp::List2faDigits => 1030,
        VaultOp::ListPasskeys => 1031,
        VaultOp::ListPhotos => 1032,
        VaultOp::SettingsBling => 1033,
        VaultOp::SettingsBlinky => 1034,
        VaultOp::ShowAbout => 1036,
        VaultOp::MenuRoot => 1037,
        VaultOp::MenuLogin => 1038,
        VaultOp::MenuSettings => 1039,
        VaultOp::MenuClosed => 1040,
    }
}

impl VaultOp {
    /// The message number of this event; see `op_number`.
    pub fn to_usize(&self) -> (r: usize)
        ensures
            r == op_number(*self),
    {
        match self {
            VaultOp::Redraw => 0,
            VaultOp::ReloadDbAndFullRedraw => 1,
            VaultOp::KeyPress => 2,
            VaultOp::MenuChangeFont => 3,
            VaultOp::MenuDeleteStage1 => 4,
            VaultOp::MenuEditStage1 => 5,
            VaultOp::MenuAutotype => 6,
            VaultOp::MenuReadoutMode => 7,
            VaultOp::MenuAutotypeRate => 8,
            VaultOp::MenuLeftyMode => 9,
            VaultOp::MenuDone => 10,
            VaultOp::BadgeMode => 11,
            VaultOp::MenuTokenHelp => 12,
            VaultOp::MenuUsernames => 13,
            VaultOp::MenuFilter => 14,
            VaultOp::TourContinue => 15,
            VaultOp::TourLater => 16,
            VaultOp::TourNever => 17,
            VaultOp::KeepGene => 18,
            VaultOp::RevertGene => 19,
            VaultOp::DefconHelp => 20,
            VaultOp::About => 21,
            VaultOp::TokenMode => 22,
            VaultOp::PowerOff => 23,
            VaultOp::ScreenOff => 24,
            VaultOp::BasisChange => 25,
            VaultOp::HandleQr => 26,
            VaultOp::AbortQr => 27,
            VaultOp::BookmarkQrReady => 28,
            VaultOp::ListBookmarks => 29,
            VaultOp::ImageLoad => 1024,
            VaultOp::Jig => 1025,
            VaultOp::SkipKey => 1026,
            VaultOp::BioActive => 1027,
            VaultOp::ScanUrl => 1028,
            VaultOp::ListPasswords => 1029,
            VaultOp::List2faDigits => 1030,
            VaultOp::ListPasskeys => 1031,
            VaultOp::ListPhotos => 1032,
            VaultOp::SettingsBling => 1033,
            VaultOp::SettingsBlinky => 1034,
            VaultOp::ShowAbout => 1036,
            VaultOp::MenuRoot => 1037,
            VaultOp::MenuLogin => 1038,
            VaultOp::MenuSettings => 1039,
            VaultOp::MenuClosed => 1040,
        }
    }

    /// The event with message number `n`, if there is one.
    pub fn from_usize(n: usize) -> (r: Option<VaultOp>)
        ensures
            match r {
                Some(op) => op_number(op) == n,
                None => forall|op: VaultOp| op_number(op) != n,
            },
    {
        match n {
            0 => Some(VaultOp::Redraw),
            1 => Some(VaultOp::ReloadDbAndFullRedraw),
            2 => Some(VaultOp::KeyPress),
            3 => Some(VaultOp::MenuChangeFont),
            4 => Some(VaultOp::MenuDeleteStage1),
            5 => Some(VaultOp::MenuEditStage1),
            6 => Some(VaultOp::MenuAutotype),
            7 => Some(VaultOp::MenuReadoutMode),
            8 => Some(VaultOp::MenuAutotypeRate),
            9 => Some(VaultOp::MenuLeftyMode),
            10 => Some(VaultOp::MenuDone),
            11 => Some(VaultOp::BadgeMode),
            12 => Some(VaultOp::MenuTokenHelp),
            13 => Some(VaultOp::MenuUsernames),
            14 => Some(VaultOp::MenuFilter),
            15 => Some(VaultOp::TourContinue),
            16 => Some(VaultOp::TourLater),
            17 => Some(VaultOp::TourNever),
            18 => Some(VaultOp::KeepGene),
            19 => Some(VaultOp::RevertGene),
            20 => Some(VaultOp::DefconHelp),
            21 => Some(VaultOp::About),
            22 => Some(VaultOp::TokenMode),
            23 => Some(VaultOp::PowerOff),
            24 => Some(VaultOp::ScreenOff),
            25 => Some(VaultOp::BasisChange),
            26 => Some(VaultOp::HandleQr),
            27 => Some(VaultOp::AbortQr),
            28 => Some(VaultOp::BookmarkQrReady),
            29 => Some(VaultOp::ListBookmarks),
            1024 => Some(VaultOp::ImageLoad),
            1025 => Some(VaultOp::Jig),
            1026 => Some(VaultOp::SkipKey),
            1027 => Some(VaultOp::BioActive),
            1028 => Some(VaultOp::ScanUrl),
            1029 => Some(VaultOp::ListPasswords),
            1030 => Some(VaultOp::List2faDigits),
            1031 => Some(VaultOp::ListPasskeys),
            1032 => Some(VaultOp::ListPhotos),
            1033 => Some(VaultOp::SettingsBling),
            1034 => Some(VaultOp::SettingsBlinky),
            1036 => Some(VaultOp::ShowAbout),
            1037 => Some(VaultOp::MenuRoot),
            1038 => Some(VaultOp::MenuLogin),
            1039 => Some(VaultOp::MenuSettings),
            1040 => Some(VaultOp::MenuClosed),
            _ => None,
        }
    }
}

/// The wire numbers are pinned: `Redraw` is 0 and `KeyPress` 2, the numbered events hold
/// their numbers, the automatically numbered block stays below 1024, and no two events share
/// a number, so reading back the number of an event gives the event.
pub proof fn lemma_vault_op_numbers(a: VaultOp, b: VaultOp)
    ensures
        op_number(VaultOp::Redraw) == 0,
        op_number(VaultOp::KeyPress) == 2,
        op_number(VaultOp::ImageLoad) == 1024,
        op_number(VaultOp::Jig) == 1025,
        op_number(VaultOp::SkipKey) == 1026,
        op_number(VaultOp::BioActive) == 1027,
        op_number(VaultOp::ListBookmarks) < 1024,
        op_number(VaultOp::ScanUrl) == 1028,
        op_number(VaultOp::ListPasswords) == 1029,
        op_number(VaultOp::MenuClosed) == 1040,
        op_number(a) == op_number(b) ==> a == b,
{
}

// ---------------------------------------------------------------------------------------
// Last use of a registration
// ---------------------------------------------------------------------------------------

/// How long ago a registration was last used, in the largest unit that reads well.
#[derive(Copy, Clone, PartialEq, Eq, Debug, Structural)]
pub enum AuthAge {
    Never,
    Days(i64),
    Hours(i64),
    Minutes(i64),
    Seconds(i64),
}

/// `a / b` rounded toward zero, as Rust's `/` on integers rounds.
pub open spec fn div_toward_zero(a: int, b: int) -> int {
    if a >= 0 {
        a / b
    } else {
        -((-a) / b)
    }
}

/// How long ago a registration was last used, from its stored last-use time (`0` for never)
/// and the whole seconds elapsed since then (negative for a time ahead of the clock): days
/// once more than one day has passed, else hours once more than one hour, else minutes once
/// more than one minute, else seconds. Each count is in whole units, rounded toward zero.
pub open spec fn auth_age_of(req_atime: u64, elapsed: i64) -> AuthAge {
    if req_atime == 0 {
        AuthAge::Never
    } else if div_toward_zero(elapsed as int, 86400) > 1 {
        AuthAge::Days(div_toward_zero(elapsed as int, 86400) as i64)
    } else if div_toward_zero(elapsed as int, 3600) > 1 {
        AuthAge::Hours(div_toward_zero(elapsed as int, 3600) as i64)
    } else if div_toward_zero(elapsed as int, 60) > 1 {
        AuthAge::Minutes(div_toward_zero(elapsed as int, 60) as i64)
    } else {
        AuthAge::Seconds(elapsed)
    }
}

/// `elapsed` in whole units of `unit` seconds, rounded toward zero.
fn whole_units(elapsed: i64, unit: i64) -> (r: i64)
    requires
        unit > 1,
    ensures
        r as int == div_toward_zero(elapsed as int, unit as int),
{
    if elapsed >= 0 {
        elapsed / unit
    } else {
        let m: u64 = if elapsed == i64::MIN {
            0x8000_0000_0000_0000u64
        } else {
            (-elapsed) as u64
        };
        let q = m / (unit as u64);
        assert(q <= m / 2) by (nonlinear_arith)
            requires
                q == m / (unit as u64),
                unit > 1,
        ;
        -(q as i64)
    }
}

/// How long ago a registration was last used; see `auth_age_of`.
pub fn auth_age(req_atime: u64, elapsed: i64) -> (r: AuthAge)
    ensures
        r == auth_age_of(req_atime, elapsed),
{
    if req_atime == 0 {
        return AuthAge::Never;
    }
    let days = whole_units(elapsed, 86400);
    if days > 1 {
        return AuthAge::Days(days);
    }
    let hours = whole_units(elapsed, 3600);
    if hours > 1 {
        return AuthAge::Hours(hours);
    }
    let minutes = whole_units(elapsed, 60);
    if minutes > 1 {
        AuthAge::Minutes(minutes)
    } else {
        AuthAge::Seconds(elapsed)
    }
}

} // verus!
