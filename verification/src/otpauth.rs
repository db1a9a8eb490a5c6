//! Reading a TOTP or HOTP record from the part of an `otpauth://` URI after the scheme:
//! `type/label?query`, with percent-decoding of the label and of each query value.
use vstd::prelude::*;
use vstd::utf8::*;
use vstd::string::*;
use crate::text::{
    all_digits, digit_val, digits_value, parse_radix, find_char, find_in, lemma_find_char, lemma_find_char_none, parse_bounded, parse_uint, push_char, push_range,
    str_chars, string_from_range, string_of, string_with_capacity,
};
use crate::storage::{const_str_eq, TotpAlgorithm, TotpModel, TotpRecord};

verus! {

broadcast use vstd::string::group_string_axioms;

// ---------------------------------------------------------------------------------------
// Percent-decoding
// ---------------------------------------------------------------------------------------

/// How many characters a `%` takes as its hex digits: two, or fewer at the end of the text.
pub open spec fn pct_len(s: Seq<char>) -> int {
    if s.len() >= 3 {
        2
    } else {
        s.len() - 1
    }
}

/// Percent-decodes `s`, as a URI label or query value is decoded: `+` stands for a space,
/// and `%` is followed by the two characters of a byte in hex (an optional `+` and one digit
/// also reads, as `u8::from_str_radix` accepts it), which is taken as the character with
/// that code point. The two characters must be two bytes of UTF-8 text, else the encoding is
/// invalid. The first bad `%` fails the decoding with its message.
pub open spec fn url_decoded(s: Seq<char>) -> Result<Seq<char>, Seq<char>>
    decreases s.len(),
{
    if s.len() == 0 {
        Ok(Seq::empty())
    } else if s[0] == '%' {
        let n = pct_len(s);
        let h = s.subrange(1, 1 + n);
        if encode_utf8(h).len() != 2 {
            Err("Invalid percent encoding"@)
        } else {
            match parse_bounded(h, 16, 255) {
                None => Err("Invalid hex in percent encoding: "@ + h),
                Some(b) => match url_decoded(s.skip(1 + n)) {
                    Ok(r) => Ok(seq![(b as u8) as char] + r),
                    Err(e) => Err(e),
                },
            }
        }
    } else {
        let c = if s[0] == '+' {
            ' '
        } else {
            s[0]
        };
        match url_decoded(s.drop_first()) {
            Ok(r) => Ok(seq![c] + r),
            Err(e) => Err(e),
        }
    }
}

/// `s` with every `+` turned into a space.
pub open spec fn plus_to_space(s: Seq<char>) -> Seq<char> {
    s.map_values(|c: char| if c == '+' { ' ' } else { c })
}

/// Text without a `%` always decodes, to itself with each `+` read as a space; so only a
/// text with a `%` in it can fail to decode.
pub proof fn lemma_url_decoded_without_percent(s: Seq<char>)
    requires
        !s.contains('%'),
    ensures
        url_decoded(s) == Ok::<Seq<char>, Seq<char>>(plus_to_space(s)),
    decreases s.len(),
{
    if s.len() > 0 {
        assert(s[0] != '%');
        assert(!s.drop_first().contains('%')) by {
            if s.drop_first().contains('%') {
                let i = choose|i: int| 0 <= i < s.drop_first().len() && s.drop_first()[i] == '%';
                assert(s[i + 1] == '%');
            }
        }
        lemma_url_decoded_without_percent(s.drop_first());
        let c = if s[0] == '+' { ' ' } else { s[0] };
        assert(seq![c] + plus_to_space(s.drop_first()) =~= plus_to_space(s));
    } else {
        assert(plus_to_space(s) =~= Seq::<char>::empty());
    }
}

/// Text without a `%` before the rest `t` decodes as itself with `+` read as a space, then
/// as `t` decodes.
pub proof fn lemma_url_decoded_prefix(p: Seq<char>, t: Seq<char>)
    requires
        !p.contains('%'),
    ensures
        url_decoded(p + t) == match url_decoded(t) {
            Ok(r) => Ok::<Seq<char>, Seq<char>>(plus_to_space(p) + r),
            Err(e) => Err(e),
        },
    decreases p.len(),
{
    if p.len() == 0 {
        assert(p + t =~= t);
        assert(plus_to_space(p) =~= Seq::<char>::empty());
        match url_decoded(t) {
            Ok(r) => assert(plus_to_space(p) + r =~= r),
            Err(_) => {},
        }
    } else {
        assert(p[0] != '%');
        assert(!p.drop_first().contains('%')) by {
            if p.drop_first().contains('%') {
                let i = choose|i: int| 0 <= i < p.drop_first().len() && p.drop_first()[i] == '%';
                assert(p[i + 1] == '%');
            }
        }
        lemma_url_decoded_prefix(p.drop_first(), t);
        assert((p + t)[0] == p[0]);
        assert((p + t).drop_first() =~= p.drop_first() + t);
        let c = if p[0] == '+' { ' ' } else { p[0] };
        assert(plus_to_space(p) =~= seq![c] + plus_to_space(p.drop_first()));
        match url_decoded(t) {
            Ok(r) => assert(seq![c] + (plus_to_space(p.drop_first()) + r) =~= plus_to_space(p) + r),
            Err(_) => {},
        }
    }
}

/// A `%` followed by two hex digits, in either case, decodes to the one character whose code
/// is the byte they spell (no UTF-8 is put back together: `%C3%A9` is two characters).
pub proof fn lemma_url_decoded_percent(p: Seq<char>, h0: char, h1: char, rest: Seq<char>)
    requires
        !p.contains('%'),
        digit_val(h0, 16) is Some,
        digit_val(h1, 16) is Some,
    ensures
        url_decoded(p + seq!['%', h0, h1] + rest) == match url_decoded(rest) {
            Ok(r) => Ok::<Seq<char>, Seq<char>>(
                plus_to_space(p) + seq![
                    ((16 * digit_val(h0, 16)->Some_0 + digit_val(h1, 16)->Some_0) as u8) as char,
                ] + r,
            ),
            Err(e) => Err(e),
        },
{
    let t = seq!['%', h0, h1] + rest;
    assert(p + seq!['%', h0, h1] + rest =~= p + t);
    lemma_url_decoded_prefix(p, t);
    let h = seq![h0, h1];
    assert(t.subrange(1, 3) =~= h);
    assert(t.skip(3) =~= rest);
    assert((h0 as u32) < 128 && (h1 as u32) < 128);
    assert(h.drop_first() =~= seq![h1]);
    assert(seq![h1].drop_first() =~= Seq::<char>::empty());
    assert(encode_utf8(h) == encode_scalar(h0 as u32) + encode_utf8(seq![h1]));
    assert(encode_utf8(seq![h1]) == encode_scalar(h1 as u32) + encode_utf8(Seq::<char>::empty()));
    assert(encode_utf8(h).len() == 2);
    assert(all_digits(h, 16));
    assert(h.drop_last() =~= seq![h0]);
    assert(seq![h0].drop_last() =~= Seq::<char>::empty());
    let d0 = digit_val(h0, 16)->Some_0;
    let d1 = digit_val(h1, 16)->Some_0;
    assert(h[0] != '+');
    assert(h.last() == h1 && seq![h0].last() == h0);
    assert(digits_value(Seq::<char>::empty(), 16) == 0);
    assert(digits_value(seq![h0], 16) == d0);
    assert(digits_value(h, 16) == d0 * 16 + d1);
    assert(d0 < 16 && d1 < 16);
    assert(parse_radix(h, 16) == Some(d0 * 16 + d1));
    assert(parse_bounded(h, 16, 255) == Some(16 * d0 + d1));
    match url_decoded(rest) {
        Ok(r) => {
            assert(plus_to_space(p) + (seq![
                ((16 * digit_val(h0, 16)->Some_0 + digit_val(h1, 16)->Some_0) as u8) as char,
            ] + r) =~= plus_to_space(p) + seq![
                ((16 * digit_val(h0, 16)->Some_0 + digit_val(h1, 16)->Some_0) as u8) as char,
            ] + r);
        },
        Err(_) => {},
    }
}

/// A `%` not followed by two characters that `u8::from_str_radix(_, 16)` reads fails the
/// decoding, as does one with fewer than two characters after it.
pub proof fn lemma_url_decoded_bad_percent(p: Seq<char>, t: Seq<char>)
    requires
        !p.contains('%'),
        t.len() < 2 || parse_radix(t.take(2), 16) is None,
    ensures
        url_decoded(p + seq!['%'] + t) is Err,
{
    let s = seq!['%'] + t;
    assert(p + seq!['%'] + t =~= p + s);
    lemma_url_decoded_prefix(p, s);
    if t.len() >= 2 {
        assert(s.subrange(1, 3) =~= t.take(2));
    } else {
        assert(s.subrange(1, 1 + pct_len(s)) =~= t);
        if encode_utf8(t).len() == 2 {
            if t.len() == 1 {
                vstd::utf8::char_is_scalar(t[0]);
                assert(t.drop_first() =~= Seq::<char>::empty());
                assert(encode_utf8(t) == encode_scalar(t[0] as u32) + encode_utf8(Seq::<char>::empty()));
                assert(digit_val(t[0], 16) is None);
                assert(!all_digits(t, 16));
            }
        }
    }
}

/// A `%` followed by two characters that `u8::from_str_radix(_, 16)` reads (two hex digits in
/// either case, or `+` and one) decodes to the one character whose code is that byte.
pub proof fn lemma_url_decoded_good_percent(p: Seq<char>, t: Seq<char>)
    requires
        !p.contains('%'),
        t.len() >= 2,
        parse_radix(t.take(2), 16) is Some,
    ensures
        parse_radix(t.take(2), 16)->Some_0 <= 255,
        url_decoded(p + seq!['%'] + t) == match url_decoded(t.skip(2)) {
            Ok(r) => Ok::<Seq<char>, Seq<char>>(
                plus_to_space(p) + seq![((parse_radix(t.take(2), 16)->Some_0) as u8) as char] + r,
            ),
            Err(e) => Err(e),
        },
{
    let s = seq!['%'] + t;
    assert(p + seq!['%'] + t =~= p + s);
    lemma_url_decoded_prefix(p, s);
    let h = t.take(2);
    assert(s.subrange(1, 3) =~= h);
    assert(s.skip(3) =~= t.skip(2));
    let v = parse_radix(h, 16)->Some_0;
    // both characters are ASCII: a digit, or a `+` then a digit
    let h0 = h[0];
    let h1 = h[1];
    assert(digit_val(h1, 16) is Some) by {
        if h0 == '+' {
            assert(h.drop_first()[0] == h1);
        } else {
            assert(h[1] == h1);
        }
    }
    assert(h0 == '+' || digit_val(h0, 16) is Some);
    assert((h0 as u32) < 128 && (h1 as u32) < 128);
    assert(h.drop_first() =~= seq![h1]);
    assert(seq![h1].drop_first() =~= Seq::<char>::empty());
    assert(h =~= seq![h0, h1]);
    assert(encode_utf8(h) == encode_scalar(h0 as u32) + encode_utf8(seq![h1]));
    assert(encode_utf8(seq![h1]) == encode_scalar(h1 as u32) + encode_utf8(Seq::<char>::empty()));
    assert(encode_utf8(h).len() == 2);
    assert(seq![h1].drop_last() =~= Seq::<char>::empty());
    assert(seq![h0, h1].drop_last() =~= seq![h0]);
    assert(seq![h0].drop_last() =~= Seq::<char>::empty());
    assert(digits_value(Seq::<char>::empty(), 16) == 0);
    if h0 == '+' {
        assert(digits_value(seq![h1], 16) == digit_val(h1, 16)->Some_0);
        assert(v == digits_value(seq![h1], 16));
    } else {
        assert(digits_value(seq![h0], 16) == digit_val(h0, 16)->Some_0);
        assert(v == digits_value(seq![h0, h1], 16));
        assert(v == digit_val(h0, 16)->Some_0 * 16 + digit_val(h1, 16)->Some_0);
    }
    assert(parse_bounded(h, 16, 255) == Some(v));
    assert(pct_len(s) == 2);
    assert(url_decoded(s) == match url_decoded(t.skip(2)) {
        Ok(r) => Ok::<Seq<char>, Seq<char>>(seq![(v as u8) as char] + r),
        Err(e) => Err(e),
    });
    match url_decoded(t.skip(2)) {
        Ok(r) => {
            assert(plus_to_space(p) + (seq![(v as u8) as char] + r) =~= plus_to_space(p) + seq![(v as u8) as char] + r);
        },
        Err(_) => {},
    }
}

/// Percent-decoding read left to right: text up to the first `%` decodes as itself with `+`
/// read as a space; a `%` followed by two characters that `u8::from_str_radix(_, 16)` reads
/// becomes the one character with that byte's code, and the decoding goes on after them; any
/// other `%` (too near the end, or not followed by such a pair) fails the decoding.
pub proof fn lemma_url_decoded_scan(s: Seq<char>)
    ensures
        match find_char(s, '%') {
            None => url_decoded(s) == Ok::<Seq<char>, Seq<char>>(plus_to_space(s)),
            Some(i) => {
                let t = s.skip(i + 1);
                if t.len() >= 2 && parse_radix(t.take(2), 16) is Some {
                    url_decoded(s) == match url_decoded(t.skip(2)) {
                        Ok(r) => Ok::<Seq<char>, Seq<char>>(
                            plus_to_space(s.take(i)) + seq![((parse_radix(t.take(2), 16)->Some_0) as u8) as char] + r,
                        ),
                        Err(e) => Err(e),
                    }
                } else {
                    url_decoded(s) is Err
                }
            },
        },
{
    lemma_find_char(s, '%');
    match find_char(s, '%') {
        None => {
            assert(!s.contains('%'));
            lemma_url_decoded_without_percent(s);
        },
        Some(i) => {
            let p = s.take(i);
            let t = s.skip(i + 1);
            assert(!p.contains('%')) by {
                if p.contains('%') {
                    let k = choose|k: int| 0 <= k < p.len() && p[k] == '%';
                    assert(s[k] == '%');
                }
            }
            assert(s =~= p + seq!['%'] + t);
            if t.len() >= 2 && parse_radix(t.take(2), 16) is Some {
                lemma_url_decoded_good_percent(p, t);
            } else {
                lemma_url_decoded_bad_percent(p, t);
            }
        },
    }
}

/// The number of bytes `c` takes in UTF-8.
fn utf8_width(c: char) -> (n: usize)
    ensures
        n == encode_utf8(seq![c]).len(),
        1 <= n <= 4,
{
    proof {
        vstd::utf8::char_is_scalar(c);
        assert(seq![c].drop_first() =~= Seq::<char>::empty());
        assert(encode_utf8(seq![c]) == encode_scalar(c as u32) + encode_utf8(Seq::<char>::empty()));
    }
    let u = c as u32;
    if u < 0x80 {
        1
    } else if u < 0x800 {
        2
    } else if u < 0x10000 {
        3
    } else {
        4
    }
}

/// Percent-decodes `cs[lo..hi]`.
fn url_decode_range(cs: &Vec<char>, lo: usize, hi: usize) -> (r: Result<String, String>)
    requires
        lo <= hi <= cs@.len(),
    ensures
        match url_decoded(cs@.subrange(lo as int, hi as int)) {
            Ok(d) => r matches Ok(x) && x@ == d,
            Err(e) => r matches Err(x) && x@ == e,
        },
{
    let mut out = string_with_capacity(hi - lo);
    let mut i = lo;
    loop
        invariant
            lo <= i <= hi <= cs@.len(),
            url_decoded(cs@.subrange(lo as int, hi as int)) == match url_decoded(
                cs@.subrange(i as int, hi as int),
            ) {
                Ok(d) => Ok(out@ + d),
                Err(e) => Err::<Seq<char>, Seq<char>>(e),
            },
        decreases hi - i,
    {
        let ghost s = cs@.subrange(i as int, hi as int);
        if i == hi {
            assert(s =~= Seq::<char>::empty());
            assert(out@ + Seq::<char>::empty() =~= out@);
            return Ok(out);
        }
        let c = cs[i];
        if c == '%' {
            let n: usize = if hi - i >= 3 {
                2
            } else {
                hi - i - 1
            };
            let ghost h = s.subrange(1, 1 + n);
            assert(h =~= cs@.subrange(i + 1, i + 1 + n));
            let width: usize = if n == 0 {
                0
            } else if n == 1 {
                utf8_width(cs[i + 1])
            } else {
                let a = utf8_width(cs[i + 1]);
                let b = utf8_width(cs[i + 2]);
                a + b
            };
            proof {
                if n == 0 {
                    assert(h =~= Seq::<char>::empty());
                } else if n == 1 {
                    assert(h =~= seq![cs@[i + 1]]);
                } else {
                    assert(h =~= seq![cs@[i + 1]] + seq![cs@[i + 2]]);
                    assert(h.drop_first() =~= seq![cs@[i + 2]]);
                    assert(seq![cs@[i + 1]].drop_first() =~= Seq::<char>::empty());
                    assert(encode_utf8(seq![cs@[i + 1]]) == encode_scalar(cs@[i + 1] as u32)
                        + encode_utf8(Seq::<char>::empty()));
                    assert(encode_utf8(h) == encode_scalar(cs@[i + 1] as u32) + encode_utf8(
                        seq![cs@[i + 2]],
                    ));
                }
            }
            if width != 2 {
                return Err(string_of("Invalid percent encoding"));
            }
            match parse_uint(cs, i + 1, i + 1 + n, 16, 255) {
                None => {
                    let mut msg = string_of("Invalid hex in percent encoding: ");
                    push_range(&mut msg, cs, i + 1, i + 1 + n);
                    return Err(msg);
                },
                Some(b) => {
                    let ch = (b as u8) as char;
                    let ghost before = out@;
                    push_char(&mut out, ch);
                    assert(s.skip(1 + n) =~= cs@.subrange(i + 1 + n, hi as int));
                    proof {
                        if let Ok(d) = url_decoded(s.skip(1 + n)) {
                            assert(before + (seq![ch] + d) =~= out@ + d);
                        }
                    }
                    i = i + 1 + n;
                },
            }
        } else {
            let ch = if c == '+' {
                ' '
            } else {
                c
            };
            let ghost before = out@;
            push_char(&mut out, ch);
            assert(s.drop_first() =~= cs@.subrange(i + 1, hi as int));
            proof {
                if let Ok(d) = url_decoded(s.drop_first()) {
                    assert(before + (seq![ch] + d) =~= out@ + d);
                }
            }
            i = i + 1;
        }
    }
}

/// Percent-decodes `s`; see `url_decoded`.
pub fn url_decode(s: &str) -> (r: Result<String, String>)
    ensures
        match url_decoded(s@) {
            Ok(d) => r matches Ok(x) && x@ == d,
            Err(e) => r matches Err(x) && x@ == e,
        },
{
    let cs = str_chars(s);
    assert(cs@.subrange(0, cs@.len() as int) =~= cs@);
    url_decode_range(&cs, 0, cs.len())
}

// ---------------------------------------------------------------------------------------
// Query parameters
// ---------------------------------------------------------------------------------------

/// The parameters of a query, as a lookup from name to value where a later parameter of a
/// name replaces an earlier one.
pub struct QueryParams {
    pairs: Vec<(String, String)>,
}

/// The lookup that a list of `(name, value)` pairs gives, later pairs winning.
pub open spec fn pairs_map(s: Seq<(String, String)>) -> Map<Seq<char>, Seq<char>>
    decreases s.len(),
{
    if s.len() == 0 {
        Map::empty()
    } else {
        pairs_map(s.drop_last()).insert(s.last().0@, s.last().1@)
    }
}

impl View for QueryParams {
    type V = Map<Seq<char>, Seq<char>>;

    closed spec fn view(&self) -> Map<Seq<char>, Seq<char>> {
        pairs_map(self.pairs@)
    }
}

/// Pairs after position `j` that do not name `k` leave the lookup of `k` as the first `j`
/// pairs give it.
proof fn lemma_pairs_map_suffix(s: Seq<(String, String)>, j: int, k: Seq<char>)
    requires
        0 <= j <= s.len(),
        forall|i: int| j <= i < s.len() ==> (#[trigger] s[i]).0@ != k,
    ensures
        pairs_map(s).dom().contains(k) == pairs_map(s.take(j)).dom().contains(k),
        pairs_map(s)[k] == pairs_map(s.take(j))[k],
    decreases s.len() - j,
{
    if j < s.len() {
        assert(s.drop_last().take(j) =~= s.take(j));
        assert forall|i: int| j <= i < s.drop_last().len() implies (
        #[trigger] s.drop_last()[i]).0@ != k by {
            assert(s.drop_last()[i] == s[i]);
        }
        lemma_pairs_map_suffix(s.drop_last(), j, k);
        assert(s.last() == s[s.len() - 1]);
    } else {
        assert(s.take(j) =~= s);
    }
}

impl QueryParams {
    /// No parameters.
    pub fn new() -> (q: Self)
        ensures
            q@ == Map::<Seq<char>, Seq<char>>::empty(),
    {
        QueryParams { pairs: Vec::new() }
    }

    /// Sets the parameter `k` to `v`, replacing any earlier value.
    pub fn insert(&mut self, k: String, v: String)
        ensures
            final(self)@ == old(self)@.insert(k@, v@),
    {
        self.pairs.push((k, v));
        assert(self.pairs@.drop_last() =~= old(self).pairs@);
    }

    /// The value of the parameter `k`, if it was given.
    pub fn get(&self, k: &str) -> (r: Option<&String>)
        ensures
            match r {
                Some(v) => self@.dom().contains(k@) && v@ == self@[k@],
                None => !self@.dom().contains(k@),
            },
    {
        let mut j = self.pairs.len();
        while j > 0
            invariant
                j <= self.pairs@.len(),
                forall|i: int| j <= i < self.pairs@.len() ==> (#[trigger] self.pairs@[i]).0@ != k@,
            decreases j,
        {
            let p = &self.pairs[j - 1];
            if const_str_eq(p.0.as_str(), k) {
                proof {
                    let s = self.pairs@;
                    lemma_pairs_map_suffix(s, j as int, k@);
                    assert(s.take(j as int).drop_last() =~= s.take(j - 1));
                    assert(s.take(j as int).last() == s[j - 1]);
                }
                return Some(&p.1);
            }
            j -= 1;
        }
        proof {
            lemma_pairs_map_suffix(self.pairs@, 0, k@);
            assert(self.pairs@.take(0) =~= Seq::<(String, String)>::empty());
        }
        None
    }
}

/// What one `&`-separated piece of a query does to the parameters read so far: with an `=`,
/// the name before it is set to the decoded value after it; without one, nothing.
pub open spec fn query_piece(m: Map<Seq<char>, Seq<char>>, piece: Seq<char>) -> Result<
    Map<Seq<char>, Seq<char>>,
    Seq<char>,
> {
    match find_char(piece, '=') {
        None => Ok(m),
        Some(j) => match url_decoded(piece.skip(j + 1)) {
            Ok(v) => Ok(m.insert(piece.take(j), v)),
            Err(e) => Err(e),
        },
    }
}

/// Reads the query `q` into the parameters `m`, piece by piece; the first value that fails
/// to decode fails the read. Names are taken as they stand.
pub open spec fn query_fold(m: Map<Seq<char>, Seq<char>>, q: Seq<char>) -> Result<
    Map<Seq<char>, Seq<char>>,
    Seq<char>,
>
    decreases q.len(),
{
    match find_char(q, '&') {
        None => query_piece(m, q),
        Some(i) => match query_piece(m, q.take(i)) {
            Ok(m2) => {
                proof {
                    lemma_find_char(q, '&');
                }
                query_fold(m2, q.skip(i + 1))
            },
            Err(e) => Err(e),
        },
    }
}

/// The parameters of the query `q`.
pub open spec fn query_params(q: Seq<char>) -> Result<Map<Seq<char>, Seq<char>>, Seq<char>> {
    query_fold(Map::empty(), q)
}

/// The first `c` of `a + b`, when `a` holds one, is the first `c` of `a`.
proof fn lemma_find_char_prefix(a: Seq<char>, b: Seq<char>, c: char)
    requires
        find_char(a, c) is Some,
    ensures
        find_char(a + b, c) == find_char(a, c),
        (a + b).take(find_char(a, c)->Some_0) =~= a.take(find_char(a, c)->Some_0),
        (a + b).skip(find_char(a, c)->Some_0 + 1) =~= a.skip(find_char(a, c)->Some_0 + 1) + b,
{
    lemma_find_char(a, c);
    let i = find_char(a, c)->Some_0;
    assert forall|j: int| 0 <= j < i implies (a + b)[j] != c by {
        assert((a + b)[j] == a[j]);
    }
    crate::text::lemma_find_char_at(a + b, c, i);
}

/// Reading a query is reading all but its last `&`-separated piece, then applying the last
/// piece: so a query reads exactly when every piece's value decodes, a piece without `=` is
/// ignored, and the last value given for a name is the one kept.
pub proof fn lemma_query_last_piece(m: Map<Seq<char>, Seq<char>>, q: Seq<char>, p: Seq<char>)
    requires
        !p.contains('&'),
    ensures
        query_fold(m, q + seq!['&'] + p) == match query_fold(m, q) {
            Ok(m2) => query_piece(m2, p),
            Err(e) => Err::<Map<Seq<char>, Seq<char>>, Seq<char>>(e),
        },
    decreases q.len(),
{
    let t = q + seq!['&'] + p;
    lemma_find_char_none(p, '&');
    match find_char(q, '&') {
        None => {
            lemma_find_char(q, '&');
            assert(!q.contains('&')) by {
                if q.contains('&') {
                    let k = choose|k: int| 0 <= k < q.len() && q[k] == '&';
                    assert(q[k] != '&');
                }
            }
            crate::text::lemma_find_char_concat(q, '&', p);
            assert(query_fold(m, q) == query_piece(m, q));
            match query_piece(m, q) {
                Ok(m2) => {
                    assert(query_fold(m2, p) == query_piece(m2, p));
                    assert(query_fold(m, t) == query_fold(m2, p));
                },
                Err(e) => {
                    assert(query_fold(m, t) == Err::<Map<Seq<char>, Seq<char>>, Seq<char>>(e));
                },
            }
        },
        Some(i) => {
            lemma_find_char(q, '&');
            lemma_find_char_prefix(q, seq!['&'] + p, '&');
            assert(t == q + (seq!['&'] + p));
            assert(t.skip(i + 1) =~= q.skip(i + 1) + seq!['&'] + p);
            assert(find_char(t, '&') == Some(i));
            assert(t.take(i) == q.take(i));
            match query_piece(m, q.take(i)) {
                Ok(m2) => {
                    lemma_query_last_piece(m2, q.skip(i + 1), p);
                    assert(query_fold(m, t) == query_fold(m2, t.skip(i + 1)));
                    assert(query_fold(m, q) == query_fold(m2, q.skip(i + 1)));
                },
                Err(e) => {
                    assert(query_fold(m, t) == Err::<Map<Seq<char>, Seq<char>>, Seq<char>>(e));
                },
            }
        },
    }
}

/// Applies the piece `cs[lo..hi]` to `params`.
fn apply_piece(params: &mut QueryParams, cs: &Vec<char>, lo: usize, hi: usize) -> (r: Result<(), String>)
    requires
        lo <= hi <= cs@.len(),
    ensures
        match query_piece(old(params)@, cs@.subrange(lo as int, hi as int)) {
            Ok(m) => r is Ok && final(params)@ == m,
            Err(e) => r matches Err(x) && x@ == e,
        },
{
    let ghost piece = cs@.subrange(lo as int, hi as int);
    match find_in(cs, lo, hi, '=') {
        None => Ok(()),
        Some(eq) => {
            assert(piece.take(eq - lo) =~= cs@.subrange(lo as int, eq as int));
            assert(piece.skip(eq - lo + 1) =~= cs@.subrange(eq + 1, hi as int));
            match url_decode_range(cs, eq + 1, hi) {
                Ok(v) => {
                    let k = string_from_range(cs, lo, eq);
                    params.insert(k, v);
                    Ok(())
                },
                Err(e) => Err(e),
            }
        },
    }
}

/// Reads the query `cs[lo..hi]`.
fn parse_query_range(cs: &Vec<char>, lo: usize, hi: usize) -> (r: Result<QueryParams, String>)
    requires
        lo <= hi <= cs@.len(),
    ensures
        match query_params(cs@.subrange(lo as int, hi as int)) {
            Ok(m) => r matches Ok(x) && x@ == m,
            Err(e) => r matches Err(x) && x@ == e,
        },
{
    let mut params = QueryParams::new();
    let mut p = lo;
    loop
        invariant
            lo <= p <= hi <= cs@.len(),
            query_params(cs@.subrange(lo as int, hi as int)) == query_fold(
                params@,
                cs@.subrange(p as int, hi as int),
            ),
        decreases hi - p,
    {
        let ghost t = cs@.subrange(p as int, hi as int);
        let amp = find_in(cs, p, hi, '&');
        let end = match amp {
            Some(i) => i,
            None => hi,
        };
        proof {
            if let Some(i) = amp {
                assert(t.take(i - p) =~= cs@.subrange(p as int, i as int));
                assert(t.skip(i - p + 1) =~= cs@.subrange(i + 1, hi as int));
            }
        }
        let res = apply_piece(&mut params, cs, p, end);
        match res {
            Ok(()) => {},
            Err(e) => {
                return Err(e);
            },
        }
        match amp {
            Some(i) => {
                p = i + 1;
            },
            None => {
                return Ok(params);
            },
        }
    }
}

/// Reads a query string into its parameters; see `query_params`.
pub fn parse_query(query: &str) -> (r: Result<QueryParams, String>)
    ensures
        match query_params(query@) {
            Ok(m) => r matches Ok(x) && x@ == m,
            Err(e) => r matches Err(x) && x@ == e,
        },
{
    let cs = str_chars(query);
    assert(cs@.subrange(0, cs@.len() as int) =~= cs@);
    parse_query_range(&cs, 0, cs.len())
}

// ---------------------------------------------------------------------------------------
// Case folding
// ---------------------------------------------------------------------------------------

/// `c` in lower case, for ASCII letters; every other character as it is.
pub open spec fn lower_ascii(c: char) -> char {
    if 'A' <= c && c <= 'Z' {
        ((c as u32) + 32) as char
    } else {
        c
    }
}

/// `s.to_lowercase()` is `t`, for a lower-case ASCII `t` with no `k`. No character outside
/// ASCII has a lower case in ASCII other than `k`, so a letter-by-letter ASCII fold decides
/// it.
pub open spec fn lowercases_to(s: Seq<char>, t: Seq<char>) -> bool {
    s.len() == t.len() && forall|i: int| 0 <= i < s.len() ==> lower_ascii(#[trigger] s[i]) == t[i]
}

/// The single character `c` upper-cases to, where that is an ASCII character: an ASCII
/// lower-case letter, `ſ` (to `S`) or `ı` (to `I`); every other character as it is.
pub open spec fn upper_fold(c: char) -> char {
    if 'a' <= c && c <= 'z' {
        ((c as u32) - 32) as char
    } else if c == '\u{17F}' {
        'S'
    } else if c == '\u{131}' {
        'I'
    } else {
        c
    }
}

/// `s.to_uppercase()` is `t`, for an upper-case ASCII `t` that holds none of `SS`, `ST`, `FF`,
/// `FI` and `FL` (the ASCII upper cases of the characters that upper-case to two or more).
pub open spec fn uppercases_to(s: Seq<char>, t: Seq<char>) -> bool {
    s.len() == t.len() && forall|i: int| 0 <= i < s.len() ==> upper_fold(#[trigger] s[i]) == t[i]
}

/// Whether `cs[lo..hi]` lower-cases to `t`.
pub(crate) fn lowercases_range(cs: &Vec<char>, lo: usize, hi: usize, t: &str) -> (r: bool)
    requires
        lo <= hi <= cs@.len(),
    ensures
        r == lowercases_to(cs@.subrange(lo as int, hi as int), t@),
{
    let n = t.unicode_len();
    if hi - lo != n {
        return false;
    }
    let ghost s = cs@.subrange(lo as int, hi as int);
    let mut i: usize = 0;
    while i < n
        invariant
            n == t@.len() == hi - lo,
            lo <= hi <= cs@.len(),
            s == cs@.subrange(lo as int, hi as int),
            i <= n,
            forall|j: int| 0 <= j < i ==> lower_ascii(#[trigger] s[j]) == t@[j],
        decreases n - i,
    {
        let c = cs[lo + i];
        let l = if 'A' <= c && c <= 'Z' {
            ((c as u32) + 32) as u8 as char
        } else {
            c
        };
        assert(s[i as int] == c);
        if l != t.get_char(i) {
            return false;
        }
        i += 1;
    }
    true
}

/// Whether `s` upper-cases to `t`.
fn uppercases_str(s: &str, t: &str) -> (r: bool)
    ensures
        r == uppercases_to(s@, t@),
{
    let v = str_chars(s);
    let n = t.unicode_len();
    if v.len() != n {
        return false;
    }
    let mut i: usize = 0;
    while i < n
        invariant
            n == t@.len() == v@.len(),
            v@ == s@,
            i <= n,
            forall|j: int| 0 <= j < i ==> upper_fold(#[trigger] v@[j]) == t@[j],
        decreases n - i,
    {
        let c = v[i];
        let u = if 'a' <= c && c <= 'z' {
            ((c as u32) - 32) as u8 as char
        } else if c == '\u{17F}' {
            'S'
        } else if c == '\u{131}' {
            'I'
        } else {
            c
        };
        if u != t.get_char(i) {
            return false;
        }
        i += 1;
    }
    true
}

// ---------------------------------------------------------------------------------------
// The record
// ---------------------------------------------------------------------------------------

/// The algorithm named by a URI's `algorithm` parameter, in any case.
pub open spec fn algorithm_named(a: Seq<char>) -> Result<TotpAlgorithm, Seq<char>> {
    if uppercases_to(a, "SHA1"@) {
        Ok(TotpAlgorithm::HmacSha1)
    } else if uppercases_to(a, "SHA256"@) {
        Ok(TotpAlgorithm::HmacSha256)
    } else if uppercases_to(a, "SHA512"@) {
        Ok(TotpAlgorithm::HmacSha512)
    } else {
        Err("Unknown algorithm: "@ + a)
    }
}

/// The record that a URI's kind, decoded label and parameters give. `secret` must be there;
/// `algorithm` defaults to SHA-1, `digits` to 6 and, for TOTP, `period` to 30 (an HOTP record
/// keeps a timestep of 0); `issuer` becomes the notes. Version and creation time are 0.
pub open spec fn uri_record(hotp: bool, name: Seq<char>, p: Map<Seq<char>, Seq<char>>) -> Result<
    TotpModel,
    Seq<char>,
> {
    if !p.dom().contains("secret"@) {
        Err("Missing required 'secret' parameter"@)
    } else {
        let alg = if p.dom().contains("algorithm"@) {
            algorithm_named(p["algorithm"@])
        } else {
            Ok(TotpAlgorithm::HmacSha1)
        };
        match alg {
            Err(e) => Err(e),
            Ok(algorithm) => {
                let digits = if p.dom().contains("digits"@) {
                    match parse_bounded(p["digits"@], 10, u32::MAX as nat) {
                        Some(d) => Ok(d as u32),
                        None => Err("Invalid digits value: "@ + p["digits"@]),
                    }
                } else {
                    Ok(6u32)
                };
                match digits {
                    Err(e) => Err(e),
                    Ok(digits) => {
                        let step = if hotp {
                            Ok(0u64)
                        } else if p.dom().contains("period"@) {
                            match parse_bounded(p["period"@], 10, u64::MAX as nat) {
                                Some(t) => Ok(t as u64),
                                None => Err("Invalid period value: "@ + p["period"@]),
                            }
                        } else {
                            Ok(30u64)
                        };
                        match step {
                            Err(e) => Err(e),
                            Ok(timestep) => Ok(
                                TotpModel {
                                    version: 0,
                                    secret: p["secret"@],
                                    name,
                                    algorithm,
                                    notes: if p.dom().contains("issuer"@) {
                                        p["issuer"@]
                                    } else {
                                        Seq::empty()
                                    },
                                    digits,
                                    timestep,
                                    ctime: 0,
                                    is_hotp: hotp,
                                },
                            ),
                        }
                    },
                }
            },
        }
    }
}

/// The record an `otpauth` URI, without its scheme, gives: `type/label?query`, where the
/// type is `hotp` or `totp` in any case, the label (percent-decoded) becomes the name, and
/// the query gives the rest (see `uri_record`). Each failure has its message.
pub open spec fn totp_from_uri(u: Seq<char>) -> Result<TotpModel, Seq<char>> {
    match find_char(u, '/') {
        None => Err("Invalid format: missing '/'"@),
        Some(i) => {
            let kind = u.take(i);
            let rest = u.skip(i + 1);
            if !lowercases_to(kind, "hotp"@) && !lowercases_to(kind, "totp"@) {
                Err("Unknown OTP type: "@ + kind)
            } else {
                match find_char(rest, '?') {
                    None => Err("Missing query parameters"@),
                    Some(j) => match url_decoded(rest.take(j)) {
                        Err(e) => Err(e),
                        Ok(name) => match query_params(rest.skip(j + 1)) {
                            Err(e) => Err(e),
                            Ok(p) => uri_record(lowercases_to(kind, "hotp"@), name, p),
                        },
                    },
                }
            }
        },
    }
}

/// Whether the parameters `p` of a URI of kind `hotp` (or TOTP) hold a fault: no `secret`, an
/// `algorithm` that is none of SHA1, SHA256, SHA512 in any case, a `digits` that is not a
/// `u32`, or, for TOTP, a `period` that is not a `u64`.
pub open spec fn params_fault(hotp: bool, p: Map<Seq<char>, Seq<char>>) -> bool {
    ||| !p.dom().contains("secret"@)
    ||| (p.dom().contains("algorithm"@) && algorithm_named(p["algorithm"@]) is Err)
    ||| (p.dom().contains("digits"@) && parse_bounded(p["digits"@], 10, u32::MAX as nat) is None)
    ||| (!hotp && p.dom().contains("period"@) && parse_bounded(p["period"@], 10, u64::MAX as nat)
        is None)
}

/// Whether the URI `u` (without its scheme) holds a fault: no `/`, a kind before the first
/// `/` that is neither `hotp` nor `totp` in any case, no `?` after it, a label that does not
/// percent-decode, a query that does not read, or parameters with a fault.
pub open spec fn uri_fault(u: Seq<char>) -> bool {
    match find_char(u, '/') {
        None => true,
        Some(i) => {
            let kind = u.take(i);
            let rest = u.skip(i + 1);
            ||| (!lowercases_to(kind, "hotp"@) && !lowercases_to(kind, "totp"@))
            ||| match find_char(rest, '?') {
                None => true,
                Some(j) => {
                    ||| url_decoded(rest.take(j)) is Err
                    ||| query_params(rest.skip(j + 1)) is Err
                    ||| params_fault(
                        lowercases_to(kind, "hotp"@),
                        query_params(rest.skip(j + 1))->Ok_0,
                    )
                },
            }
        },
    }
}

/// A URI fails to read exactly when it holds one of the faults `uri_fault` lists.
pub proof fn lemma_from_uri_fails_exactly_on_faults(u: Seq<char>)
    ensures
        totp_from_uri(u) is Err <==> uri_fault(u),
{
}

/// The parameters of an `otpauth` URI (without its scheme): those of the query after the
/// first `?` that follows the first `/`, when both are there and the query reads.
pub open spec fn uri_params(u: Seq<char>) -> Option<Map<Seq<char>, Seq<char>>> {
    match find_char(u, '/') {
        None => None,
        Some(i) => {
            let rest = u.skip(i + 1);
            match find_char(rest, '?') {
                None => None,
                Some(j) => match query_params(rest.skip(j + 1)) {
                    Ok(p) => Some(p),
                    Err(_) => None,
                },
            }
        },
    }
}

/// A URI that reads gives a record with the parameters it was given and the defaults for the
/// rest, for `hotp` and `totp` alike: the secret as given; 6 digits unless `digits` says
/// otherwise (then its value); SHA-1 unless `algorithm` names another; for TOTP a period of
/// 30 unless `period` says otherwise, for HOTP a timestep of 0; the issuer as the notes, or
/// none; version and creation time 0.
pub proof fn lemma_from_uri_defaults(u: Seq<char>)
    ensures
        totp_from_uri(u) matches Ok(m) ==> uri_params(u) matches Some(p) && {
            &&& p.dom().contains("secret"@) && m.secret == p["secret"@]
            &&& !p.dom().contains("digits"@) ==> m.digits == 6
            &&& p.dom().contains("digits"@) ==> parse_bounded(p["digits"@], 10, u32::MAX as nat) == Some(
                m.digits as nat,
            )
            &&& !p.dom().contains("algorithm"@) ==> m.algorithm == TotpAlgorithm::HmacSha1
            &&& (!m.is_hotp && !p.dom().contains("period"@)) ==> m.timestep == 30
            &&& (!m.is_hotp && p.dom().contains("period"@)) ==> parse_bounded(p["period"@], 10, u64::MAX as nat)
                == Some(m.timestep as nat)
            &&& m.is_hotp ==> m.timestep == 0
            &&& !p.dom().contains("issuer"@) ==> m.notes == Seq::<char>::empty()
            &&& p.dom().contains("issuer"@) ==> m.notes == p["issuer"@]
            &&& m.version == 0 && m.ctime == 0
        },
{
}

/// "hotp" and "totp" differ.
proof fn lemma_kinds_differ(s: Seq<char>)
    ensures
        !(lowercases_to(s, "hotp"@) && lowercases_to(s, "totp"@)),
{
    reveal_strlit("hotp");
    reveal_strlit("totp");
    if lowercases_to(s, "hotp"@) && lowercases_to(s, "totp"@) {
        assert(lower_ascii(s[0]) == "hotp"@[0]);
        assert(lower_ascii(s[0]) == "totp"@[0]);
    }
}

/// The algorithm a URI names, or the message for one it does not know.
fn algorithm_of(a: &String) -> (r: Result<TotpAlgorithm, String>)
    ensures
        match algorithm_named(a@) {
            Ok(x) => r == Ok::<TotpAlgorithm, String>(x),
            Err(e) => r matches Err(m) && m@ == e,
        },
{
    if uppercases_str(a.as_str(), "SHA1") {
        Ok(TotpAlgorithm::HmacSha1)
    } else if uppercases_str(a.as_str(), "SHA256") {
        Ok(TotpAlgorithm::HmacSha256)
    } else if uppercases_str(a.as_str(), "SHA512") {
        Ok(TotpAlgorithm::HmacSha512)
    } else {
        let mut m = string_of("Unknown algorithm: ");
        m.append(a.as_str());
        Err(m)
    }
}

/// Reads a whole decimal `u64` (or, with `max` `u32::MAX`, `u32`) from `s`.
fn parse_dec(s: &String, max: u64) -> (r: Option<u64>)
    ensures
        match parse_bounded(s@, 10, max as nat) {
            Some(v) => r == Some(v as u64),
            None => r is None,
        },
{
    let v = str_chars(s.as_str());
    assert(v@.subrange(0, v@.len() as int) =~= v@);
    parse_uint(&v, 0, v.len(), 10, max)
}

/// `prefix` followed by `s`.
fn message(prefix: &str, s: &String) -> (m: String)
    ensures
        m@ == prefix@ + s@,
{
    let mut m = string_of(prefix);
    m.append(s.as_str());
    m
}

/// The record the parameters give; see `uri_record`.
fn record_from_params(hotp: bool, name: String, p: &QueryParams) -> (r: Result<TotpRecord, String>)
    ensures
        match uri_record(hotp, name@, p@) {
            Ok(m) => r matches Ok(x) && x@ == m,
            Err(e) => r matches Err(x) && x@ == e,
        },
{
    let secret = match p.get("secret") {
        Some(s) => s.clone(),
        None => return Err(string_of("Missing required 'secret' parameter")),
    };
    let algorithm = match p.get("algorithm") {
        Some(a) => match algorithm_of(a) {
            Ok(x) => x,
            Err(e) => return Err(e),
        },
        None => TotpAlgorithm::HmacSha1,
    };
    let digits: u32 = match p.get("digits") {
        Some(d) => match parse_dec(d, u32::MAX as u64) {
            Some(v) => v as u32,
            None => return Err(message("Invalid digits value: ", d)),
        },
        None => 6,
    };
    let timestep: u64 = if hotp {
        0
    } else {
        match p.get("period") {
            Some(t) => match parse_dec(t, u64::MAX) {
                Some(v) => v,
                None => return Err(message("Invalid period value: ", t)),
            },
            None => 30,
        }
    };
    let notes = match p.get("issuer") {
        Some(i) => i.clone(),
        None => String::new(),
    };
    Ok(
        TotpRecord {
            version: 0,
            secret,
            name,
            algorithm,
            notes,
            digits,
            timestep,
            ctime: 0,
            is_hotp: hotp,
        },
    )
}

impl TotpRecord {
    /// Reads a record from an `otpauth` URI without its scheme; see `totp_from_uri`.
    pub fn from_uri(uri: &str) -> (r: Result<TotpRecord, String>)
        ensures
            match totp_from_uri(uri@) {
                Ok(m) => r matches Ok(x) && x@ == m,
                Err(e) => r matches Err(x) && x@ == e,
            },
    {
        let cs = str_chars(uri);
        let n = cs.len();
        let ghost u = cs@;
        assert(cs@.subrange(0, n as int) =~= u);
        let slash = match find_in(&cs, 0, n, '/') {
            Some(i) => i,
            None => return Err(string_of("Invalid format: missing '/'")),
        };
        assert(cs@.subrange(0, slash as int) =~= u.take(slash as int));
        let ghost rest = u.skip(slash + 1);
        assert(cs@.subrange(slash + 1, n as int) =~= rest);
        proof {
            lemma_kinds_differ(u.take(slash as int));
        }
        let is_hotp = if lowercases_range(&cs, 0, slash, "hotp") {
            true
        } else if lowercases_range(&cs, 0, slash, "totp") {
            false
        } else {
            let mut m = string_of("Unknown OTP type: ");
            push_range(&mut m, &cs, 0, slash);
            return Err(m);
        };
        let q = match find_in(&cs, slash + 1, n, '?') {
            Some(j) => j,
            None => return Err(string_of("Missing query parameters")),
        };
        assert(cs@.subrange(slash + 1, q as int) =~= rest.take(q - slash - 1));
        assert(cs@.subrange(q + 1, n as int) =~= rest.skip(q - slash));
        let name = match url_decode_range(&cs, slash + 1, q) {
            Ok(d) => d,
            Err(e) => return Err(e),
        };
        let params = match parse_query_range(&cs, q + 1, n) {
            Ok(p) => p,
            Err(e) => return Err(e),
        };
        record_from_params(is_hotp, name, &params)
    }
}

} // verus!
