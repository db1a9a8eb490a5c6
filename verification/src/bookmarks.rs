//! Bookmarks: their keys, the counter the keys come from, and the body each is stored as.
//!
//! A bookmark is stored under the zero-padded, 16-digit lower-case hex form of a counter that
//! only grows, so keys sort in the order the bookmarks were made and are never reused. The
//! counter itself is stored, in plain lower-case hex, under `VAULT_BOOKMARKS_COUNTER_KEY`.
//! A body is `url\nlabel\ntimestamp`.
use vstd::prelude::*;
use vstd::utf8::*;
use vstd::string::*;
use crate::order::{stable_rearrangement, lemma_text_lt_asym, lemma_text_lt_total, lemma_text_lt_trans, lemma_text_lt_push, sort_by_key, sorted_by_key, text_lt, SortKey};
use crate::vault_api::VAULT_BOOKMARKS_COUNTER_KEY;
use crate::text::{
    decode_chars, digit_char, digit_to_char, find_char, find_in, hex_chars, lemma_find_char_concat, lemma_find_char_none,
    lemma_num_chars, lemma_parse_num_chars, parse_bounded, parse_uint, push_char, push_dec, push_num,
    string_bytes, string_from_range, string_of, trim, trim_range, trim_start, trim_end, dec_chars,
    digit_val, is_ws, str_chars,
};

verus! {

broadcast use vstd::string::group_string_axioms;

/// Errors of the bookmark store.
#[derive(Debug)]
pub enum BookmarkError {
    IoError(std::io::Error),
    ParseError(String),
    CounterCorrupt,
}

impl From<std::io::Error> for BookmarkError {
    fn from(e: std::io::Error) -> (r: Self)
        ensures
            r == BookmarkError::IoError(e),
    {
        BookmarkError::IoError(e)
    }
}

impl vstd::std_specs::convert::FromSpecImpl<std::io::Error> for BookmarkError {
    open spec fn obeys_from_spec() -> bool {
        true
    }

    open spec fn from_spec(e: std::io::Error) -> BookmarkError {
        BookmarkError::IoError(e)
    }
}

/// A stored bookmark.
pub struct Bookmark {
    pub key: String,
    pub url: String,
    pub label: String,
    pub timestamp_unix: u64,
}

// ---------------------------------------------------------------------------------------
// Keys
// ---------------------------------------------------------------------------------------

/// The low `width` hex digits of `n`, lower case, most significant first, zero-padded.
pub open spec fn hex_padded(n: nat, width: nat) -> Seq<char>
    decreases width,
{
    if width == 0 {
        Seq::empty()
    } else {
        hex_padded(n / 16, (width - 1) as nat).push(digit_char(n % 16))
    }
}

/// The key of the bookmark made when the counter reached `n`: `format!("{:016x}", n)`.
pub open spec fn bookmark_key_text(n: u64) -> Seq<char> {
    hex_padded(n as nat, 16)
}

/// `16` to the power `w`.
pub open spec fn pow16(w: nat) -> nat
    decreases w,
{
    if w == 0 {
        1
    } else {
        16 * pow16((w - 1) as nat)
    }
}

/// Appends the low `width` hex digits of `n`, zero-padded.
fn push_hex_padded(out: &mut String, n: u64, width: u64)
    requires
        width <= 16,
    ensures
        final(out)@ == old(out)@ + hex_padded(n as nat, width as nat),
    decreases width,
{
    if width > 0 {
        push_hex_padded(out, n / 16, width - 1);
        push_char(out, digit_to_char(n % 16));
        assert(final(out)@ =~= old(out)@ + hex_padded(n as nat, width as nat));
    } else {
        assert(old(out)@ + Seq::<char>::empty() =~= old(out)@);
    }
}

/// The key of the bookmark made when the counter reached `n`: 16 lower-case hex digits.
pub fn bookmark_key(n: u64) -> (k: String)
    ensures
        k@ == bookmark_key_text(n),
{
    let mut s = String::new();
    push_hex_padded(&mut s, n, 16);
    assert(Seq::<char>::empty() + hex_padded(n as nat, 16) =~= hex_padded(n as nat, 16));
    s
}

/// `c` is a lower-case hex digit.
pub open spec fn is_lower_hex(c: char) -> bool {
    ('0' <= c && c <= '9') || ('a' <= c && c <= 'f')
}

/// `k` has the form of a bookmark key: 16 lower-case hex digits. Any other key in the
/// bookmark dictionary (the counter, or a key reserved later) is no bookmark.
pub open spec fn is_bookmark_key_text(k: Seq<char>) -> bool {
    k.len() == 16 && forall|i: int| 0 <= i < 16 ==> is_lower_hex(#[trigger] k[i])
}

/// Whether `k` has the form of a bookmark key.
pub fn is_bookmark_key(k: &str) -> (r: bool)
    ensures
        r == is_bookmark_key_text(k@),
{
    let n = k.unicode_len();
    if n != 16 {
        return false;
    }
    let mut i: usize = 0;
    while i < 16
        invariant
            n == k@.len() == 16,
            i <= 16,
            forall|j: int| 0 <= j < i ==> is_lower_hex(#[trigger] k@[j]),
        decreases 16 - i,
    {
        let c = k.get_char(i);
        if !(('0' <= c && c <= '9') || ('a' <= c && c <= 'f')) {
            assert(!is_lower_hex(k@[i as int]));
            return false;
        }
        i += 1;
    }
    true
}

/// Every key a counter value gives has the form of a bookmark key.
pub proof fn lemma_bookmark_key_form(n: u64)
    ensures
        is_bookmark_key_text(bookmark_key_text(n)),
{
    lemma_hex_padded_form(n as nat, 16);
}

proof fn lemma_hex_padded_form(n: nat, w: nat)
    ensures
        hex_padded(n, w).len() == w,
        forall|i: int| 0 <= i < w ==> is_lower_hex(#[trigger] hex_padded(n, w)[i]),
    decreases w,
{
    if w > 0 {
        lemma_hex_padded_form(n / 16, (w - 1) as nat);
        let p = hex_padded(n / 16, (w - 1) as nat);
        assert forall|i: int| 0 <= i < w implies is_lower_hex(#[trigger] hex_padded(n, w)[i]) by {
            if i < w - 1 {
                assert(hex_padded(n, w)[i] == p[i]);
            } else {
                assert(hex_padded(n, w)[i] == digit_char(n % 16));
            }
        }
    }
}

// ---------------------------------------------------------------------------------------
// Key order
// ---------------------------------------------------------------------------------------

/// Hex digits sort as the numbers they stand for.
proof fn lemma_digit_char_order(i: nat, j: nat)
    requires
        i < 16,
        j < 16,
    ensures
        ((digit_char(i) as u32) < (digit_char(j) as u32)) == (i < j),
        (digit_char(i) == digit_char(j)) == (i == j),
{
}

/// Two numbers below `16^w` written with `w` digits: the texts are equal exactly when the
/// numbers are, and sort as the numbers do.
proof fn lemma_hex_padded_order(a: nat, b: nat, w: nat)
    requires
        a < pow16(w),
        b < pow16(w),
    ensures
        (hex_padded(a, w) == hex_padded(b, w)) == (a == b),
        text_lt(hex_padded(a, w), hex_padded(b, w)) == (a < b),
    decreases w,
{
    if w == 0 {
    } else {
        let w1 = (w - 1) as nat;
        assert(a / 16 < pow16(w1)) by {
            vstd::arithmetic::div_mod::lemma_div_by_multiple_is_strongly_ordered(
                a as int, (pow16(w1) * 16) as int, pow16(w1) as int, 16);
        }
        assert(b / 16 < pow16(w1)) by {
            vstd::arithmetic::div_mod::lemma_div_by_multiple_is_strongly_ordered(
                b as int, (pow16(w1) * 16) as int, pow16(w1) as int, 16);
        }
        lemma_hex_padded_order(a / 16, b / 16, w1);
        lemma_hex_padded_form(a / 16, w1);
        lemma_hex_padded_form(b / 16, w1);
        lemma_text_lt_push(hex_padded(a / 16, w1), hex_padded(b / 16, w1), digit_char(a % 16),
            digit_char(b % 16));
        lemma_digit_char_order(a % 16, b % 16);
        vstd::arithmetic::div_mod::lemma_fundamental_div_mod(a as int, 16);
        vstd::arithmetic::div_mod::lemma_fundamental_div_mod(b as int, 16);
        let pa = hex_padded(a / 16, w1);
        let pb = hex_padded(b / 16, w1);
        if hex_padded(a, w) == hex_padded(b, w) {
            assert(hex_padded(a, w).drop_last() =~= pa);
            assert(hex_padded(b, w).drop_last() =~= pb);
            assert(hex_padded(a, w).last() == digit_char(a % 16));
        }
    }
}

proof fn lemma_pow16_16()
    ensures
        pow16(16) == 0x1_0000_0000_0000_0000,
{
    reveal_with_fuel(pow16, 17);
}

/// Keys sort as the counter values they come from: the key of `a` sorts before the key of
/// `b` exactly when `a < b`, and two keys are equal only for equal values. So bookmarks list
/// in the order they were made, and a key once used is never given again.
pub proof fn lemma_bookmark_key_order(a: u64, b: u64)
    ensures
        text_lt(bookmark_key_text(a), bookmark_key_text(b)) == (a < b),
        (bookmark_key_text(a) == bookmark_key_text(b)) == (a == b),
{
    lemma_pow16_16();
    lemma_hex_padded_order(a as nat, b as nat, 16);
}

// ---------------------------------------------------------------------------------------
// The counter
// ---------------------------------------------------------------------------------------

/// The counter value that the stored bytes `b` hold: UTF-8 text that, once trimmed, is a hex
/// number that fits in a `u64`.
pub open spec fn counter_value(b: Seq<u8>) -> Option<u64> {
    if valid_utf8(b) {
        match parse_bounded(trim(decode_utf8(b)), 16, u64::MAX as nat) {
            Some(v) => Some(v as u64),
            None => None,
        }
    } else {
        None
    }
}

/// Reads the stored counter. Bytes that are not UTF-8, or not a hex number in range once
/// trimmed, are `CounterCorrupt`.
pub fn parse_counter(data: &[u8]) -> (r: Result<u64, BookmarkError>)
    ensures
        match counter_value(data@) {
            Some(v) => r matches Ok(x) && x == v,
            None => r matches Err(BookmarkError::CounterCorrupt),
        },
{
    let cs = match decode_chars(data) {
        Some(cs) => cs,
        None => return Err(BookmarkError::CounterCorrupt),
    };
    let (a, b) = trim_range(&cs, 0, cs.len());
    assert(cs@.subrange(0, cs@.len() as int) =~= cs@);
    match parse_uint(&cs, a, b, 16, u64::MAX) {
        Some(v) => Ok(v),
        None => Err(BookmarkError::CounterCorrupt),
    }
}

/// The bytes the counter `n` is stored as: `n` in lower-case hex.
pub fn counter_bytes(n: u64) -> (r: Vec<u8>)
    ensures
        r@ == encode_utf8(hex_chars(n as nat)),
{
    let mut s = String::new();
    push_num(&mut s, n, 16);
    assert(Seq::<char>::empty() + hex_chars(n as nat) =~= hex_chars(n as nat));
    string_bytes(&s)
}

/// The key the next bookmark gets when the stored counter reads `current`, and the bytes the
/// counter is then stored as. The counter starts at 0, so the first bookmark's key is that of
/// 1.
pub fn next_bookmark_key(current: u64) -> (r: (String, Vec<u8>))
    requires
        current < u64::MAX,
    ensures
        r.0@ == bookmark_key_text((current + 1) as u64),
        r.1@ == encode_utf8(hex_chars((current + 1) as nat)),
        counter_value(r.1@) == Some((current + 1) as u64),
{
    let next = current + 1;
    proof {
        lemma_counter_roundtrip(next);
    }
    (bookmark_key(next), counter_bytes(next))
}

/// A text with no white space at either end trims to itself.
proof fn lemma_trim_clean(s: Seq<char>)
    requires
        s.len() > 0,
        !is_ws(s[0]),
        !is_ws(s.last()),
    ensures
        trim(s) == s,
{
}

/// The stored counter reads back as the value it was written from.
pub proof fn lemma_counter_roundtrip(n: u64)
    ensures
        counter_value(encode_utf8(hex_chars(n as nat))) == Some(n),
{
    let t = hex_chars(n as nat);
    lemma_num_chars(n as nat, 16);
    lemma_parse_num_chars(n as nat, 16, u64::MAX as nat);
    vstd::utf8::encode_utf8_valid_utf8(t);
    vstd::utf8::encode_utf8_decode_utf8(t);
    assert((t[0] as u32) < 128);
    assert((t.last() as u32) < 128 && t.last() != '\n');
    assert(digit_val(t[0], 16) is Some);
    assert(digit_val(t[t.len() - 1], 16) is Some);
    lemma_trim_clean(t);
}

// ---------------------------------------------------------------------------------------
// Bodies
// ---------------------------------------------------------------------------------------

/// The text a bookmark is stored as: `url\nlabel\ntimestamp`.
pub open spec fn bookmark_text(url: Seq<char>, label: Seq<char>, ts: u64) -> Seq<char> {
    url + seq!['\n'] + label + seq!['\n'] + dec_chars(ts as nat)
}

/// The bytes a bookmark is stored as.
pub fn bookmark_body(url: &str, label: &str, timestamp_unix: u64) -> (r: Vec<u8>)
    ensures
        r@ == encode_utf8(bookmark_text(url@, label@, timestamp_unix)),
{
    let mut s = string_of(url);
    push_char(&mut s, '\n');
    s.append(label);
    push_char(&mut s, '\n');
    push_dec(&mut s, timestamp_unix);
    assert(s@ =~= bookmark_text(url@, label@, timestamp_unix));
    string_bytes(&s)
}

/// `format!("{:?}", s)`: `s` quoted and escaped as `Debug` writes a `str`.
pub uninterp spec fn str_debug(s: Seq<char>) -> Seq<char>;

/// `format!("{:?}", s)` for a `str`: the text between double quotes, with quotes,
/// backslashes, control characters and other unprintable characters escaped. The contract
/// names the result, `str_debug` of the text, and says no more of it.
#[verifier::external_body]
fn debug_str(s: &str) -> (r: String)
    ensures
        r@ == str_debug(s@),
{
    format!("{:?}", s)
}

/// The text of `s` up to its first line break, or all of `s` when it has none.
pub open spec fn up_to_line_break(s: Seq<char>) -> Seq<char> {
    match find_char(s, '\n') {
        Some(k) => s.take(k),
        None => s,
    }
}

/// What reading a stored body gives: the url, the label and the timestamp, or the message
/// of the `ParseError` it fails with. The first three lines are the fields and any later
/// line is ignored; the third, trimmed, must be a decimal `u64`.
pub open spec fn bookmark_parse(b: Seq<u8>) -> Result<(Seq<char>, Seq<char>, u64), Seq<char>> {
    if !valid_utf8(b) {
        Err("non-UTF8 body"@)
    } else {
        let t = decode_utf8(b);
        match find_char(t, '\n') {
            None => Err("missing label field"@),
            Some(i) => {
                let rest = t.skip(i + 1);
                match find_char(rest, '\n') {
                    None => Err("missing timestamp field"@),
                    Some(j) => {
                        let ts = up_to_line_break(rest.skip(j + 1));
                        match parse_bounded(trim(ts), 10, u64::MAX as nat) {
                            Some(v) => Ok((t.take(i), rest.take(j), v as u64)),
                            None => Err("bad timestamp: "@ + str_debug(ts)),
                        }
                    },
                }
            },
        }
    }
}

/// Reads the bookmark stored under `key` from its body `data`.
#[verifier::rlimit(40)]
pub fn parse_bookmark_body(key: &str, data: &[u8]) -> (r: Result<Bookmark, BookmarkError>)
    ensures
        match bookmark_parse(data@) {
            Ok((url, label, ts)) => r matches Ok(bm) && bm.key@ == key@ && bm.url@ == url
                && bm.label@ == label && bm.timestamp_unix == ts,
            Err(msg) => r matches Err(BookmarkError::ParseError(m)) && m@ == msg,
        },
{
    let cs = match decode_chars(data) {
        Some(cs) => cs,
        None => return Err(BookmarkError::ParseError(string_of("non-UTF8 body"))),
    };
    let n = cs.len();
    let ghost t = cs@;
    assert(cs@.subrange(0, n as int) =~= t);
    let i = match find_in(&cs, 0, n, '\n') {
        Some(i) => i,
        None => return Err(BookmarkError::ParseError(string_of("missing label field"))),
    };
    let ghost rest = t.skip(i + 1);
    assert(cs@.subrange(i + 1, n as int) =~= rest);
    let j = match find_in(&cs, i + 1, n, '\n') {
        Some(j) => j,
        None => return Err(BookmarkError::ParseError(string_of("missing timestamp field"))),
    };
    let ghost after = rest.skip(j - i);
    assert(cs@.subrange(j + 1, n as int) =~= after);
    assert(cs@.subrange(0, i as int) =~= t.take(i as int));
    assert(cs@.subrange(i + 1, j as int) =~= rest.take(j - (i + 1)));
    let end = match find_in(&cs, j + 1, n, '\n') {
        Some(k) => k,
        None => n,
    };
    let ghost ts = up_to_line_break(after);
    assert(cs@.subrange(j + 1, end as int) =~= ts);
    let (a, b) = trim_range(&cs, j + 1, end);
    match parse_uint(&cs, a, b, 10, u64::MAX) {
        Some(v) => {
            let url = string_from_range(&cs, 0, i);
            let label = string_from_range(&cs, i + 1, j);
            Ok(Bookmark { key: string_of(key), url, label, timestamp_unix: v })
        },
        None => {
            let raw = string_from_range(&cs, j + 1, end);
            let mut msg = string_of("bad timestamp: ");
            let shown = debug_str(raw.as_str());
            msg.append(shown.as_str());
            Err(BookmarkError::ParseError(msg))
        },
    }
}

/// A bookmark whose url and label hold no line break reads back from its stored body as it
/// was written.
pub proof fn lemma_bookmark_body_roundtrip(url: Seq<char>, label: Seq<char>, ts: u64)
    requires
        !url.contains('\n'),
        !label.contains('\n'),
    ensures
        bookmark_parse(encode_utf8(bookmark_text(url, label, ts))) == Ok::<
            (Seq<char>, Seq<char>, u64),
            Seq<char>,
        >((url, label, ts)),
{
    let d = dec_chars(ts as nat);
    let t = bookmark_text(url, label, ts);
    vstd::utf8::encode_utf8_valid_utf8(t);
    vstd::utf8::encode_utf8_decode_utf8(t);
    let rest = label + seq!['\n'] + d;
    assert(t =~= url + seq!['\n'] + rest);
    lemma_find_char_concat(url, '\n', rest);
    lemma_find_char_concat(label, '\n', d);
    lemma_num_chars(ts as nat, 10);
    lemma_parse_num_chars(ts as nat, 10, u64::MAX as nat);
    assert(digit_val(d[0], 10) is Some);
    assert(digit_val(d[d.len() - 1], 10) is Some);
    lemma_trim_clean(d);
    lemma_find_char_none(d, '\n');
}

// ---------------------------------------------------------------------------------------
// The list of saved URLs
// ---------------------------------------------------------------------------------------

/// A row of the saved-URL list: the bookmark's key, its url and its label.
pub struct BookmarkEntry {
    pub key: String,
    pub url: String,
    pub label: String,
}

/// The url and label a listed body shows: its first line, and its second (empty when there
/// is none).
pub open spec fn entry_fields(t: Seq<char>) -> (Seq<char>, Seq<char>) {
    match find_char(t, '\n') {
        None => (t, Seq::empty()),
        Some(i) => {
            let rest = t.skip(i + 1);
            (t.take(i), match find_char(rest, '\n') {
                None => rest,
                Some(j) => rest.take(j),
            })
        },
    }
}

/// The row listed for the body `data` stored under `key`: none when the body is not UTF-8.
pub fn list_entry(key: &String, data: &[u8]) -> (r: Option<BookmarkEntry>)
    ensures
        match r {
            Some(e) => valid_utf8(data@) && e.key@ == key@ && (e.url@, e.label@) == entry_fields(
                decode_utf8(data@),
            ),
            None => !valid_utf8(data@),
        },
{
    let cs = match decode_chars(data) {
        Some(cs) => cs,
        None => return None,
    };
    let n = cs.len();
    let ghost t = cs@;
    assert(cs@.subrange(0, n as int) =~= t);
    match find_in(&cs, 0, n, '\n') {
        None => {
            let url = string_from_range(&cs, 0, n);
            Some(BookmarkEntry { key: key.clone(), url, label: String::new() })
        },
        Some(i) => {
            assert(cs@.subrange(0, i as int) =~= t.take(i as int));
            let ghost rest = t.skip(i + 1);
            assert(cs@.subrange(i + 1, n as int) =~= rest);
            let end = match find_in(&cs, i + 1, n, '\n') {
                Some(j) => {
                    assert(cs@.subrange(i + 1, j as int) =~= rest.take(j - i - 1));
                    j
                },
                None => n,
            };
            let url = string_from_range(&cs, 0, i);
            let label = string_from_range(&cs, i + 1, end);
            Some(BookmarkEntry { key: key.clone(), url, label })
        },
    }
}

impl SortKey for BookmarkEntry {
    open spec fn sort_key(&self) -> Seq<char> {
        self.key@
    }

    fn key_text(&self) -> (r: &String) {
        &self.key
    }
}

/// Puts the rows in key order, which is the order the bookmarks were made in. The rows are
/// the same ones, each as many times.
pub fn sort_entries(v: Vec<BookmarkEntry>) -> (r: Vec<BookmarkEntry>)
    ensures
        r@.to_multiset() == v@.to_multiset(),
        sorted_by_key(r@),
        exists|idx: Seq<int>| stable_rearrangement(v@, r@, idx),
{
    sort_by_key(v)
}

/// A listed row as plain text: key, url and label.
pub open spec fn entry_view(e: BookmarkEntry) -> (Seq<char>, Seq<char>, Seq<char>) {
    (e.key@, e.url@, e.label@)
}

/// The rows as plain text.
pub open spec fn entry_views(v: Seq<BookmarkEntry>) -> Seq<(Seq<char>, Seq<char>, Seq<char>)> {
    v.map_values(|e: BookmarkEntry| entry_view(e))
}

/// The rows that the stored `(key, body)` pairs `items` give, in their order: one for each
/// pair whose key has the form of a bookmark key and whose body is UTF-8, with the body's
/// first line as the url and its second as the label.
pub open spec fn listed_entries(items: Seq<(String, Vec<u8>)>) -> Seq<(Seq<char>, Seq<char>, Seq<char>)>
    decreases items.len(),
{
    if items.len() == 0 {
        Seq::empty()
    } else {
        let prev = listed_entries(items.drop_last());
        let (k, b) = items.last();
        if is_bookmark_key_text(k@) && valid_utf8(b@) {
            let (url, label) = entry_fields(decode_utf8(b@));
            prev.push((k@, url, label))
        } else {
            prev
        }
    }
}

/// Keys of distinct pairs differ, as they do in a dictionary.
pub open spec fn keys_distinct(items: Seq<(String, Vec<u8>)>) -> bool {
    forall|i: int, j: int| 0 <= i < j < items.len() ==> #[trigger] items[i].0@ != #[trigger] items[j].0@
}

/// Every listed row carries the key of one of the pairs, and with distinct keys no two rows
/// share one.
proof fn lemma_listed_keys(items: Seq<(String, Vec<u8>)>)
    ensures
        forall|a: int| 0 <= a < listed_entries(items).len() ==> exists|i: int|
            0 <= i < items.len() && #[trigger] listed_entries(items)[a].0 == items[i].0@,
        keys_distinct(items) ==> forall|a: int, b: int|
            0 <= a < b < listed_entries(items).len() ==> #[trigger] listed_entries(items)[a].0
                != #[trigger] listed_entries(items)[b].0,
    decreases items.len(),
{
    if items.len() > 0 {
        let d = items.drop_last();
        lemma_listed_keys(d);
        let l = listed_entries(items);
        let ld = listed_entries(d);
        assert forall|a: int| 0 <= a < l.len() implies exists|i: int|
            0 <= i < items.len() && #[trigger] l[a].0 == items[i].0@ by {
            if a < ld.len() {
                assert(l[a] == ld[a]);
                let i = choose|i: int| 0 <= i < d.len() && ld[a].0 == d[i].0@;
                assert(items[i] == d[i]);
            } else {
                assert(l[a].0 == items[items.len() - 1].0@);
            }
        }
        if keys_distinct(items) {
            assert(keys_distinct(d)) by {
                assert forall|i: int, j: int| 0 <= i < j < d.len() implies #[trigger] d[i].0@ != #[trigger] d[j].0@ by {
                    assert(d[i] == items[i] && d[j] == items[j]);
                }
            }
            assert forall|a: int, b: int| 0 <= a < b < l.len() implies #[trigger] l[a].0 != #[trigger] l[b].0 by {
                if b < ld.len() {
                    assert(l[a] == ld[a] && l[b] == ld[b]);
                } else {
                    assert(l[a] == ld[a]);
                    let i = choose|i: int| 0 <= i < d.len() && ld[a].0 == d[i].0@;
                    assert(items[i] == d[i]);
                    assert(l[b].0 == items[items.len() - 1].0@);
                }
            }
        }
    }
}

/// The saved-URL list from the stored `(key, body)` pairs: the rows of `listed_entries`, in
/// key order, which is the order the bookmarks were made in. Keys that are not bookmark keys
/// (the counter among them) and bodies that are not UTF-8 are skipped.
pub fn bookmark_entries(items: &Vec<(String, Vec<u8>)>) -> (r: Vec<BookmarkEntry>)
    ensures
        exists|v: Seq<BookmarkEntry>|
            entry_views(v) == listed_entries(items@) && #[trigger] v.to_multiset() == r@.to_multiset()
                && exists|idx: Seq<int>| stable_rearrangement(v, r@, idx),
        sorted_by_key(r@),
        keys_distinct(items@) ==> forall|i: int, j: int|
            0 <= i < j < r@.len() ==> text_lt(#[trigger] r@[i].key@, #[trigger] r@[j].key@),
{
    let mut v: Vec<BookmarkEntry> = Vec::new();
    let mut i: usize = 0;
    while i < items.len()
        invariant
            i <= items@.len(),
            entry_views(v@) == listed_entries(items@.take(i as int)),
        decreases items@.len() - i,
    {
        assert(items@.take(i + 1).drop_last() =~= items@.take(i as int));
        assert(items@.take(i + 1).last() == items@[i as int]);
        let key = &items[i].0;
        if is_bookmark_key(key.as_str()) {
            match list_entry(key, items[i].1.as_slice()) {
                Some(e) => {
                    v.push(e);
                    assert(entry_views(v@) =~= listed_entries(items@.take(i as int)).push(entry_view(v@.last())));
                },
                None => {},
            }
        }
        i += 1;
    }
    assert(items@.take(items@.len() as int) =~= items@);
    let ghost before = v@;
    let r = sort_entries(v);
    assert(entry_views(before) == listed_entries(items@) && before.to_multiset() == r@.to_multiset()
        && exists|idx: Seq<int>| stable_rearrangement(before, r@, idx));
    proof {
        if keys_distinct(items@) {
            lemma_listed_keys(items@);
            let idx = choose|idx: Seq<int>| stable_rearrangement(before, r@, idx);
            assert forall|i: int, j: int| 0 <= i < j < r@.len() implies text_lt(#[trigger] r@[i].key@, #[trigger] r@[j].key@) by {
                let a = idx[i];
                let b = idx[j];
                assert(r@[i] == before[a] && r@[j] == before[b]);
                assert(entry_views(before)[a] == entry_view(before[a]));
                assert(entry_views(before)[b] == entry_view(before[b]));
                if a < b {
                    assert(listed_entries(items@)[a].0 != listed_entries(items@)[b].0);
                } else {
                    assert(listed_entries(items@)[b].0 != listed_entries(items@)[a].0);
                }
                assert(r@[i].key@ != r@[j].key@);
                assert(!text_lt(r@[j].sort_key(), r@[i].sort_key()));
                lemma_text_lt_total(r@[i].key@, r@[j].key@);
            }
        }
    }
    r
}

// ---------------------------------------------------------------------------------------
// The bookmark dictionary across saves
// ---------------------------------------------------------------------------------------

/// The counter a bookmark dictionary `d` (key to stored bytes) holds: 0 when it has none yet,
/// none when the stored counter does not read.
pub open spec fn stored_counter(d: Map<Seq<char>, Seq<u8>>) -> Option<u64> {
    if d.dom().contains(VAULT_BOOKMARKS_COUNTER_KEY@) {
        counter_value(d[VAULT_BOOKMARKS_COUNTER_KEY@])
    } else {
        Some(0)
    }
}

/// Saving a bookmark with body `body` into the dictionary `d`: the body is written under the
/// key the counter gives next, and only then is the counter advanced, so a write of the body
/// that fails leaves the counter as it was. Nothing is saved when the counter does not read
/// or is spent.
pub open spec fn bookmark_save(d: Map<Seq<char>, Seq<u8>>, body: Seq<u8>) -> Option<
    (Seq<char>, Map<Seq<char>, Seq<u8>>),
> {
    match stored_counter(d) {
        Some(c) => if c < u64::MAX {
            let k = bookmark_key_text((c + 1) as u64);
            Some(
                (
                    k,
                    d.insert(k, body).insert(
                        VAULT_BOOKMARKS_COUNTER_KEY@,
                        encode_utf8(hex_chars((c + 1) as nat)),
                    ),
                ),
            )
        } else {
            None
        },
        None => None,
    }
}

/// Every bookmark key in `d` is at most the key of the counter it holds.
pub open spec fn counter_covers_keys(d: Map<Seq<char>, Seq<u8>>) -> bool {
    &&& stored_counter(d) is Some
    &&& forall|k: Seq<char>|
        #[trigger] d.dom().contains(k) && is_bookmark_key_text(k) ==> !text_lt(
            bookmark_key_text(stored_counter(d)->Some_0),
            k,
        )
}

/// A bookmark key has the form of a counter's key only as one of the counter's own keys:
/// the counter's own name is no bookmark key.
proof fn lemma_counter_key_is_no_bookmark_key()
    ensures
        !is_bookmark_key_text(VAULT_BOOKMARKS_COUNTER_KEY@),
{
    reveal_strlit("__counter__");
}

/// Saves keep the counter ahead of every bookmark key: each save gets a key that sorts after
/// every key saved before it, so none is ever used twice (deletions included); the counter
/// moves on by one; the body is stored under the new key; and every other entry stays as it
/// was. An empty dictionary starts with the counter covering every key.
pub proof fn lemma_bookmark_save_keys_increase(d: Map<Seq<char>, Seq<u8>>, body: Seq<u8>)
    requires
        counter_covers_keys(d),
        bookmark_save(d, body) is Some,
    ensures
        ({
            let (k, d2) = bookmark_save(d, body)->Some_0;
            &&& !d.dom().contains(k)
            &&& forall|k0: Seq<char>| #[trigger] d.dom().contains(k0) && is_bookmark_key_text(k0) ==> text_lt(k0, k)
            &&& d2.dom().contains(k) && d2[k] == body
            &&& stored_counter(d2) == Some((stored_counter(d)->Some_0 + 1) as u64)
            &&& forall|k0: Seq<char>| #[trigger] d.dom().contains(k0) && k0 != VAULT_BOOKMARKS_COUNTER_KEY@
                ==> d2.dom().contains(k0) && d2[k0] == d[k0]
            &&& counter_covers_keys(d2)
        }),
        counter_covers_keys(Map::<Seq<char>, Seq<u8>>::empty()),
{
    let c = stored_counter(d)->Some_0;
    let n = (c + 1) as u64;
    let k = bookmark_key_text(n);
    let d2 = bookmark_save(d, body)->Some_0.1;
    lemma_counter_key_is_no_bookmark_key();
    lemma_bookmark_key_form(n);
    lemma_bookmark_key_order(c, n);
    lemma_bookmark_key_order(n, n);
    lemma_counter_roundtrip(n);
    assert forall|k0: Seq<char>| #[trigger] d.dom().contains(k0) && is_bookmark_key_text(k0) implies text_lt(k0, k) by {
        let kc = bookmark_key_text(c);
        assert(!text_lt(kc, k0));
        lemma_text_lt_total(kc, k0);
        if k0 != kc {
            lemma_text_lt_trans(k0, kc, k);
        }
    }
    if d.dom().contains(k) {
        assert(text_lt(k, k));
        lemma_text_lt_asym(k, k);
    }
    assert(k != VAULT_BOOKMARKS_COUNTER_KEY@);
    assert(d2[VAULT_BOOKMARKS_COUNTER_KEY@] == encode_utf8(hex_chars(n as nat)));
    assert(stored_counter(d2) == Some(n));
    assert forall|k0: Seq<char>| #[trigger] d2.dom().contains(k0) && is_bookmark_key_text(k0) implies !text_lt(
        bookmark_key_text(stored_counter(d2)->Some_0),
        k0,
    ) by {
        if k0 == k {
            lemma_text_lt_asym(k, k);
        } else {
            assert(d.dom().contains(k0));
            assert(text_lt(k0, k));
            lemma_text_lt_asym(k0, k);
        }
    }
}

} // verus!
