//! Character-level helpers shared by the parsers and serialisers: reading a string's
//! characters, building strings, finding separators, trimming, and reading and writing
//! unsigned numbers the way `from_str_radix` and `{}` / `{:x}` do.
use vstd::prelude::*;
use vstd::utf8::*;
use vstd::string::*;
use vstd::arithmetic::div_mod::*;

verus! {

broadcast use vstd::string::group_string_axioms;

// ---------------------------------------------------------------------------------------
// Strings in and out
// ---------------------------------------------------------------------------------------

/// The characters of `s`, as a vector.
pub fn str_chars(s: &str) -> (v: Vec<char>)
    ensures
        v@ == s@,
{
    let mut v: Vec<char> = Vec::new();
    for c in it: s.chars()
        invariant
            it.seq() == s@,
            v@ == it.seq().take(it.index()),
    {
        v.push(c);
    }
    v
}

/// `String::push`: appends one character.
#[verifier::external_body]
pub(crate) fn push_char(s: &mut String, c: char)
    ensures
        final(s)@ == old(s)@.push(c),
{
    s.push(c);
}

/// `String::with_capacity`: an empty string with room reserved for `n` bytes.
#[verifier::external_body]
pub(crate) fn string_with_capacity(n: usize) -> (s: String)
    ensures
        s@ == Seq::<char>::empty(),
{
    String::with_capacity(n)
}

/// `String::clear`: empties `s`, keeping its allocation.
#[verifier::external_body]
pub(crate) fn clear_string(s: &mut String)
    ensures
        final(s)@ == Seq::<char>::empty(),
{
    s.clear();
}

/// Appends the characters `v[lo..hi]` to `s`.
pub fn push_range(s: &mut String, v: &Vec<char>, lo: usize, hi: usize)
    requires
        lo <= hi <= v@.len(),
    ensures
        final(s)@ == old(s)@ + v@.subrange(lo as int, hi as int),
{
    let mut i = lo;
    while i < hi
        invariant
            lo <= i <= hi <= v@.len(),
            s@ == old(s)@ + v@.subrange(lo as int, i as int),
        decreases hi - i,
    {
        push_char(s, v[i]);
        assert(v@.subrange(lo as int, i + 1) =~= v@.subrange(lo as int, i as int).push(v@[i as int]));
        i += 1;
    }
}

/// A string holding the characters `v[lo..hi]`.
pub fn string_from_range(v: &Vec<char>, lo: usize, hi: usize) -> (s: String)
    requires
        lo <= hi <= v@.len(),
    ensures
        s@ == v@.subrange(lo as int, hi as int),
{
    let mut s = String::new();
    push_range(&mut s, v, lo, hi);
    assert(Seq::<char>::empty() + v@.subrange(lo as int, hi as int) =~= v@.subrange(lo as int, hi as int));
    s
}

/// A string holding the given characters.
pub fn string_from_chars(v: &Vec<char>) -> (s: String)
    ensures
        s@ == v@,
{
    let s = string_from_range(v, 0, v.len());
    assert(v@.subrange(0, v@.len() as int) =~= v@);
    s
}

/// A string holding a copy of a literal or borrowed string.
pub fn string_of(s: &str) -> (r: String)
    ensures
        r@ == s@,
{
    String::from_str(s)
}

/// The UTF-8 bytes of `s`.
pub fn string_bytes(s: &String) -> (b: Vec<u8>)
    ensures
        b@ == encode_utf8(s@),
{
    vstd::slice::slice_to_vec(s.as_str().as_bytes())
}

/// `core::str::from_utf8`: the text that `bytes` encode, or `None` when they are not UTF-8.
#[verifier::external_body]
pub(crate) fn utf8_str(bytes: &[u8]) -> (r: Option<&str>)
    ensures
        r is Some <==> valid_utf8(bytes@),
        r matches Some(s) ==> s.spec_bytes() == bytes@,
{
    core::str::from_utf8(bytes).ok()
}

/// The characters that `bytes` encode, or `None` when they are not valid UTF-8.
pub fn decode_chars(bytes: &[u8]) -> (r: Option<Vec<char>>)
    ensures
        r is Some <==> valid_utf8(bytes@),
        r matches Some(v) ==> v@ == decode_utf8(bytes@),
{
    match utf8_str(bytes) {
        Some(s) => {
            proof {
                vstd::utf8::encode_utf8_decode_utf8(s@);
            }
            Some(str_chars(s))
        },
        None => None,
    }
}

// ---------------------------------------------------------------------------------------
// Searching
// ---------------------------------------------------------------------------------------

/// The index of the first `c` in `s`.
pub open spec fn find_char(s: Seq<char>, c: char) -> Option<int>
    decreases s.len(),
{
    if s.len() == 0 {
        None
    } else if s[0] == c {
        Some(0)
    } else {
        match find_char(s.drop_first(), c) {
            Some(i) => Some(i + 1),
            None => None,
        }
    }
}

/// `find_char` in terms of positions: the first occurrence, or none at all.
pub proof fn lemma_find_char(s: Seq<char>, c: char)
    ensures
        find_char(s, c) matches Some(i) ==> 0 <= i < s.len() && s[i] == c && (forall|j: int|
            0 <= j < i ==> s[j] != c),
        find_char(s, c) is None ==> forall|j: int| 0 <= j < s.len() ==> s[j] != c,
    decreases s.len(),
{
    if s.len() > 0 {
        lemma_find_char(s.drop_first(), c);
        if s[0] != c {
            assert forall|j: int| 1 <= j < s.len() implies s[j] == s.drop_first()[j - 1] by {}
        }
    }
}

/// A character at `i`, preceded only by other characters, is where `find_char` stops.
pub proof fn lemma_find_char_at(s: Seq<char>, c: char, i: int)
    requires
        0 <= i < s.len(),
        s[i] == c,
        forall|j: int| 0 <= j < i ==> s[j] != c,
    ensures
        find_char(s, c) == Some(i),
    decreases s.len(),
{
    if i > 0 {
        lemma_find_char_at(s.drop_first(), c, i - 1);
    }
}

/// With no `c` anywhere, `find_char` finds nothing.
pub proof fn lemma_find_char_none(s: Seq<char>, c: char)
    requires
        forall|j: int| 0 <= j < s.len() ==> s[j] != c,
    ensures
        find_char(s, c) is None,
    decreases s.len(),
{
    if s.len() > 0 {
        lemma_find_char_none(s.drop_first(), c);
    }
}

/// `a + [c] + b` where `a` holds no `c` splits at the end of `a`.
pub proof fn lemma_find_char_concat(a: Seq<char>, c: char, b: Seq<char>)
    requires
        !a.contains(c),
    ensures
        find_char(a + seq![c] + b, c) == Some(a.len() as int),
        (a + seq![c] + b).take(a.len() as int) =~= a,
        (a + seq![c] + b).skip((a.len() + 1) as int) =~= b,
{
    let s = a + seq![c] + b;
    assert forall|j: int| 0 <= j < a.len() implies s[j] != c by {
        assert(s[j] == a[j]);
        if a[j] == c {
            assert(a.contains(c));
        }
    }
    lemma_find_char_at(s, c, a.len() as int);
}

/// The index of the first `c` in `v[lo..hi]`, counted from the start of `v`.
pub fn find_in(v: &Vec<char>, lo: usize, hi: usize, c: char) -> (r: Option<usize>)
    requires
        lo <= hi <= v@.len(),
    ensures
        match r {
            Some(i) => lo <= i < hi && find_char(v@.subrange(lo as int, hi as int), c) == Some(
                i - lo,
            ),
            None => find_char(v@.subrange(lo as int, hi as int), c) is None,
        },
{
    let ghost sub = v@.subrange(lo as int, hi as int);
    let mut i = lo;
    while i < hi
        invariant
            lo <= i <= hi <= v@.len(),
            sub == v@.subrange(lo as int, hi as int),
            forall|j: int| 0 <= j < i - lo ==> sub[j] != c,
        decreases hi - i,
    {
        if v[i] == c {
            proof {
                lemma_find_char_at(sub, c, i - lo);
            }
            return Some(i);
        }
        i += 1;
    }
    proof {
        lemma_find_char_none(sub, c);
    }
    None
}

/// Whether `v[lo..hi]` is exactly the text `t`.
pub fn range_eq(v: &Vec<char>, lo: usize, hi: usize, t: &str) -> (r: bool)
    requires
        lo <= hi <= v@.len(),
    ensures
        r == (v@.subrange(lo as int, hi as int) == t@),
{
    let n = t.unicode_len();
    if hi - lo != n {
        return false;
    }
    let mut i: usize = 0;
    while i < n
        invariant
            n == t@.len(),
            hi - lo == n,
            lo <= hi <= v@.len(),
            i <= n,
            forall|j: int| 0 <= j < i ==> v@[lo + j] == t@[j],
        decreases n - i,
    {
        if v[lo + i] != t.get_char(i) {
            assert(v@.subrange(lo as int, hi as int)[i as int] != t@[i as int]);
            return false;
        }
        i += 1;
    }
    assert(v@.subrange(lo as int, hi as int) =~= t@);
    true
}

// ---------------------------------------------------------------------------------------
// White space
// ---------------------------------------------------------------------------------------

/// `char::is_whitespace`: the Unicode `White_Space` property.
pub open spec fn is_ws(c: char) -> bool {
    let u = c as u32;
    (9 <= u <= 13) || u == 32 || u == 0x85 || u == 0xA0 || u == 0x1680 || (0x2000 <= u <= 0x200A)
        || u == 0x2028 || u == 0x2029 || u == 0x202F || u == 0x205F || u == 0x3000
}

/// Executable form of `is_ws`.
pub fn char_is_ws(c: char) -> (r: bool)
    ensures
        r == is_ws(c),
{
    let u = c as u32;
    (9 <= u && u <= 13) || u == 32 || u == 0x85 || u == 0xA0 || u == 0x1680 || (0x2000 <= u && u
        <= 0x200A) || u == 0x2028 || u == 0x2029 || u == 0x202F || u == 0x205F || u == 0x3000
}

/// `s` with leading white space removed.
pub open spec fn trim_start(s: Seq<char>) -> Seq<char>
    decreases s.len(),
{
    if s.len() > 0 && is_ws(s[0]) {
        trim_start(s.drop_first())
    } else {
        s
    }
}

/// `s` with trailing white space removed.
pub open spec fn trim_end(s: Seq<char>) -> Seq<char>
    decreases s.len(),
{
    if s.len() > 0 && is_ws(s.last()) {
        trim_end(s.drop_last())
    } else {
        s
    }
}

/// `str::trim`: `s` with white space removed from both ends.
pub open spec fn trim(s: Seq<char>) -> Seq<char> {
    trim_end(trim_start(s))
}

/// The bounds of `v[lo..hi]` once trimmed.
pub fn trim_range(v: &Vec<char>, lo: usize, hi: usize) -> (r: (usize, usize))
    requires
        lo <= hi <= v@.len(),
    ensures
        lo <= r.0 <= r.1 <= hi,
        v@.subrange(r.0 as int, r.1 as int) == trim(v@.subrange(lo as int, hi as int)),
{
    let mut a = lo;
    while a < hi && char_is_ws(v[a])
        invariant
            lo <= a <= hi <= v@.len(),
            trim_start(v@.subrange(lo as int, hi as int)) == trim_start(
                v@.subrange(a as int, hi as int),
            ),
        decreases hi - a,
    {
        assert(v@.subrange(a as int, hi as int).drop_first() =~= v@.subrange(a + 1, hi as int));
        a += 1;
    }
    assert(trim_start(v@.subrange(a as int, hi as int)) == v@.subrange(a as int, hi as int));
    let mut b = hi;
    while b > a && char_is_ws(v[b - 1])
        invariant
            lo <= a <= b <= hi <= v@.len(),
            trim_end(v@.subrange(a as int, hi as int)) == trim_end(v@.subrange(a as int, b as int)),
        decreases b - a,
    {
        assert(v@.subrange(a as int, b as int).drop_last() =~= v@.subrange(a as int, b - 1));
        b -= 1;
    }
    (a, b)
}

// ---------------------------------------------------------------------------------------
// Reading unsigned numbers
// ---------------------------------------------------------------------------------------

/// The value of digit `c` in base `radix` (2 to 36), as `char::to_digit` reads it.
pub open spec fn digit_val(c: char, radix: nat) -> Option<nat> {
    let u = c as u32;
    let v: int = if 48 <= u <= 57 {
        u - 48
    } else if 97 <= u <= 122 {
        u - 97 + 10
    } else if 65 <= u <= 90 {
        u - 65 + 10
    } else {
        radix as int
    };
    if v < radix {
        Some(v as nat)
    } else {
        None
    }
}

/// Every character of `s` is a digit in base `radix`.
pub open spec fn all_digits(s: Seq<char>, radix: nat) -> bool {
    forall|i: int| 0 <= i < s.len() ==> #[trigger] digit_val(s[i], radix) is Some
}

/// The number that the digits `s` spell in base `radix`.
pub open spec fn digits_value(s: Seq<char>, radix: nat) -> nat
    decreases s.len(),
{
    if s.len() == 0 {
        0
    } else {
        let d = match digit_val(s.last(), radix) {
            Some(d) => d,
            None => 0,
        };
        digits_value(s.drop_last(), radix) * radix + d
    }
}

/// What `from_str_radix` accepts for an unsigned type: an optional `+`, then at least one
/// digit, and nothing else.
pub open spec fn parse_radix(s: Seq<char>, radix: nat) -> Option<nat> {
    let body = if s.len() > 0 && s[0] == '+' {
        s.drop_first()
    } else {
        s
    };
    if body.len() > 0 && all_digits(body, radix) {
        Some(digits_value(body, radix))
    } else {
        None
    }
}

/// `parse_radix`, failing also when the value exceeds `max` (the target type's range).
pub open spec fn parse_bounded(s: Seq<char>, radix: nat, max: nat) -> Option<nat> {
    match parse_radix(s, radix) {
        Some(v) => if v <= max {
            Some(v)
        } else {
            None
        },
        None => None,
    }
}

/// Executable form of `digit_val`.
pub fn digit_of(c: char, radix: u32) -> (r: Option<u32>)
    requires
        2 <= radix <= 36,
    ensures
        match r {
            Some(d) => digit_val(c, radix as nat) == Some(d as nat) && d < radix,
            None => digit_val(c, radix as nat) is None,
        },
{
    let u = c as u32;
    let v: u32 = if 48 <= u && u <= 57 {
        u - 48
    } else if 97 <= u && u <= 122 {
        u - 97 + 10
    } else if 65 <= u && u <= 90 {
        u - 65 + 10
    } else {
        radix
    };
    if v < radix {
        Some(v)
    } else {
        None
    }
}

/// More digits never spell a smaller number.
pub proof fn lemma_digits_value_mono(s: Seq<char>, radix: nat, j: int, k: int)
    requires
        0 <= j <= k <= s.len(),
        radix >= 1,
    ensures
        digits_value(s.take(j), radix) <= digits_value(s.take(k), radix),
    decreases k - j,
{
    if j < k {
        lemma_digits_value_mono(s, radix, j, k - 1);
        assert(s.take(k).drop_last() =~= s.take(k - 1));
        let a = digits_value(s.take(k - 1), radix);
        assert(a <= a * radix) by (nonlinear_arith)
            requires
                radix >= 1,
        ;
    }
}

/// Reads an unsigned number from `v[lo..hi]` as `from_str_radix` does for a type whose
/// largest value is `max`.
pub fn parse_uint(v: &Vec<char>, lo: usize, hi: usize, radix: u32, max: u64) -> (r: Option<u64>)
    requires
        lo <= hi <= v@.len(),
        2 <= radix <= 36,
    ensures
        match r {
            Some(n) => parse_bounded(v@.subrange(lo as int, hi as int), radix as nat, max as nat)
                == Some(n as nat),
            None => parse_bounded(v@.subrange(lo as int, hi as int), radix as nat, max as nat) is None,
        },
{
    let ghost s = v@.subrange(lo as int, hi as int);
    let mut i = lo;
    if i < hi && v[i] == '+' {
        i += 1;
    }
    let start = i;
    let ghost body = v@.subrange(start as int, hi as int);
    assert(body =~= (if s.len() > 0 && s[0] == '+' {
        s.drop_first()
    } else {
        s
    }));
    if i == hi {
        return None;
    }
    let mut acc: u64 = 0;
    assert(body.take(0) =~= Seq::<char>::empty());
    while i < hi
        invariant
            lo <= start <= i <= hi <= v@.len(),
            start < hi,
            2 <= radix <= 36,
            body == v@.subrange(start as int, hi as int),
            s == v@.subrange(lo as int, hi as int),
            body == (if s.len() > 0 && s[0] == '+' {
                s.drop_first()
            } else {
                s
            }),
            all_digits(body.take(i - start), radix as nat),
            acc as nat == digits_value(body.take(i - start), radix as nat),
            acc <= max,
        decreases hi - i,
    {
        let d = match digit_of(v[i], radix) {
            Some(d) => d,
            None => {
                assert(body[i - start] == v@[i as int]);
                assert(!(digit_val(body[i - start], radix as nat) is Some));
                return None;
            },
        };
        let ghost k = i - start;
        assert(body.take(k + 1).drop_last() =~= body.take(k));
        assert(body.take(k + 1).last() == body[k]);
        assert(body[k] == v@[i as int]);
        assert(all_digits(body.take(k + 1), radix as nat)) by {
            assert forall|j: int| 0 <= j < k + 1 implies #[trigger] digit_val(
                body.take(k + 1)[j],
                radix as nat,
            ) is Some by {
                if j < k {
                    assert(body.take(k + 1)[j] == body.take(k)[j]);
                }
            }
        }
        let ghost pv = digits_value(body.take(k + 1), radix as nat);
        assert(pv == acc * radix + d);
        let ghost whole = all_digits(body, radix as nat);
        proof {
            if whole {
                lemma_digits_value_mono(body, radix as nat, k + 1, body.len() as int);
                assert(body.take(body.len() as int) =~= body);
            }
        }
        if (d as u64) > max {
            assert(pv > max) by (nonlinear_arith)
                requires
                    pv == acc * radix + d,
                    d > max,
                    radix >= 2,
            ;
            return None;
        }
        let limit = (max - d as u64) / (radix as u64);
        proof {
            lemma_fundamental_div_mod((max - d) as int, radix as int);
        }
        if acc > limit {
            proof {
                let q = limit as int;
                let r = (max - d) as int % (radix as int);
                assert(pv > max) by (nonlinear_arith)
                    requires
                        pv == acc * radix + d,
                        acc as int >= q + 1,
                        (max - d) as int == radix * q + r,
                        r < radix,
                        radix >= 2,
                ;
            }
            return None;
        }
        proof {
            let q = limit as int;
            let r = (max - d) as int % (radix as int);
            assert(acc * radix + d <= max) by (nonlinear_arith)
                requires
                    acc as int <= q,
                    (max - d) as int == radix * q + r,
                    0 <= r,
                    radix >= 2,
                    d <= max,
            ;
        }
        acc = acc * (radix as u64) + d as u64;
        i += 1;
    }
    assert(body.take(hi - start) =~= body);
    Some(acc)
}

// ---------------------------------------------------------------------------------------
// Writing unsigned numbers
// ---------------------------------------------------------------------------------------

/// The character for digit `d` (below 16), lower-case for ten and above.
pub open spec fn digit_char(d: nat) -> char {
    if d < 10 {
        ((d + 48) as u32) as char
    } else {
        ((d + 87) as u32) as char
    }
}

/// The character for digit `d` (below 16), upper-case for ten and above.
pub open spec fn digit_char_upper(d: nat) -> char {
    if d < 10 {
        ((d + 48) as u32) as char
    } else {
        ((d + 55) as u32) as char
    }
}

/// Executable form of `digit_char`.
pub fn digit_to_char(d: u64) -> (c: char)
    requires
        d < 16,
    ensures
        c == digit_char(d as nat),
{
    if d < 10 {
        ((d as u8) + 48) as char
    } else {
        ((d as u8) + 87) as char
    }
}

/// Executable form of `digit_char_upper`.
pub fn digit_to_char_upper(d: u64) -> (c: char)
    requires
        d < 16,
    ensures
        c == digit_char_upper(d as nat),
{
    if d < 10 {
        ((d as u8) + 48) as char
    } else {
        ((d as u8) + 55) as char
    }
}

/// `n` written in base `radix` (10 or 16, lower case), as `{}` and `{:x}` write it.
pub open spec fn num_chars(n: nat, radix: nat) -> Seq<char>
    decreases n,
{
    if radix < 2 || n < radix {
        seq![digit_char(n)]
    } else {
        proof {
            lemma_div_decreases(n as int, radix as int);
        }
        num_chars(n / radix, radix).push(digit_char(n % radix))
    }
}

/// `n` in decimal, as `{}` writes an unsigned integer.
pub open spec fn dec_chars(n: nat) -> Seq<char> {
    num_chars(n, 10)
}

/// `n` in lower-case hex, as `{:x}` writes it.
pub open spec fn hex_chars(n: nat) -> Seq<char> {
    num_chars(n, 16)
}

/// Appends `n` written in base `radix` to `out`.
pub fn push_num(out: &mut String, n: u64, radix: u64)
    requires
        radix == 10 || radix == 16,
    ensures
        final(out)@ == old(out)@ + num_chars(n as nat, radix as nat),
    decreases n,
{
    if n >= radix {
        push_num(out, n / radix, radix);
    }
    push_char(out, digit_to_char(n % radix));
    proof {
        if n < radix {
            assert(n % radix == n) by {
                lemma_small_mod(n as nat, radix as nat);
            }
        }
    }
}

/// Appends `n` in decimal.
pub fn push_dec(out: &mut String, n: u64)
    ensures
        final(out)@ == old(out)@ + dec_chars(n as nat),
{
    push_num(out, n, 10);
}

/// The digits `num_chars` writes are all digits of `radix`, read back as `n`.
pub proof fn lemma_num_chars(n: nat, radix: nat)
    requires
        radix == 10 || radix == 16,
    ensures
        num_chars(n, radix).len() > 0,
        all_digits(num_chars(n, radix), radix),
        digits_value(num_chars(n, radix), radix) == n,
        num_chars(n, radix)[0] != '+',
        forall|i: int|
            0 <= i < num_chars(n, radix).len() ==> #[trigger] num_chars(n, radix)[i] != '\n'
                && num_chars(n, radix)[i] != ':' && num_chars(n, radix)[i] != '&'
                && num_chars(n, radix)[i] != '=' && (num_chars(n, radix)[i] as u32) < 128,
    decreases n,
{
    let s = num_chars(n, radix);
    if n < radix {
        assert(s.drop_last() =~= Seq::<char>::empty());
        assert(digit_val(digit_char(n), radix) == Some(n));
        assert(s.last() == digit_char(n));
        assert(digits_value(Seq::<char>::empty(), radix) == 0);
        assert(digits_value(s, radix) == digits_value(s.drop_last(), radix) * radix + n);
    } else {
        lemma_num_chars(n / radix, radix);
        let p = num_chars(n / radix, radix);
        assert(s.drop_last() =~= p);
        assert(s.last() == digit_char(n % radix));
        lemma_fundamental_div_mod(n as int, radix as int);
        vstd::arithmetic::mul::lemma_mul_is_commutative(radix as int, (n / radix) as int);
        assert(digit_val(digit_char(n % radix), radix) == Some(n % radix));
        assert(digits_value(s, radix) == digits_value(p, radix) * radix + n % radix);
        assert forall|i: int| 0 <= i < s.len() implies #[trigger] digit_val(s[i], radix) is Some by {
            if i < p.len() {
                assert(s[i] == p[i]);
            }
        }
        assert forall|i: int| 0 <= i < s.len() implies #[trigger] s[i] != '\n' && s[i] != ':' && s[i]
            != '&' && s[i] != '=' && (s[i] as u32) < 128 by {
            if i < p.len() {
                assert(s[i] == p[i]);
            }
        }
        assert(s[0] == p[0]);
    }
}

/// Reading back what `num_chars` wrote gives the number.
pub proof fn lemma_parse_num_chars(n: nat, radix: nat, max: nat)
    requires
        radix == 10 || radix == 16,
        n <= max,
    ensures
        parse_radix(num_chars(n, radix), radix) == Some(n),
        parse_bounded(num_chars(n, radix), radix, max) == Some(n),
{
    lemma_num_chars(n, radix);
}

} // verus!
