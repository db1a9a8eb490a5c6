//! URL sanitization and the HID character boundary.
//!
//! `SanitizedUrl` is the one type that URL data crossing task boundaries may have: any URL
//! shown on the ShowUrl screen, stored as a bookmark or typed over HID is one. Its
//! constructor accepts a string whole or rejects it; it never truncates or rewrites.
//!
//! The accepted set is the full printable ASCII range 0x20-0x7E, the characters that the
//! US-101 HID key map covers. It is defined here rather than taken from the USB service
//! because that table is compiled out of the badge build.
use vstd::prelude::*;
use vstd::utf8::*;
use vstd::string::*;
use crate::text::{str_chars, string_of};

verus! {

broadcast use vstd::string::group_string_axioms;

/// Maximum URL length for on-screen text display: 21 columns by 9 rows.
pub const CAP_URL_DISPLAY: usize = 189;

/// Maximum URL length for QR rendering and bookmark storage: the byte capacity of a
/// version-6 QR code at error-correction level M, (864 - 16) / 8.
pub const CAP_BOOKMARK_URL: usize = 106;

/// The QR display limit; the same number as `CAP_BOOKMARK_URL`, named for QR call sites.
pub const CAP_QR_DISPLAY: usize = CAP_BOOKMARK_URL;

/// Characters that have a US-101 HID key code: all of printable ASCII, 0x20 to 0x7E.
pub const HID_ACCEPTED: &'static str =
    " !\"#$%&'()*+,-./0123456789:;<=>?@ABCDEFGHIJKLMNOPQRSTUVWXYZ[\\]^_`abcdefghijklmnopqrstuvwxyz{|}~";

/// A URL whose every character is in `HID_ACCEPTED`, accepted whole by `SanitizedUrl::new`.
#[derive(Debug)]
pub struct SanitizedUrl(String);

/// The most bookmarks that can be saved.
pub const MAX_BOOKMARKS: usize = 100;

/// Why a URL could not be saved as a bookmark.
#[derive(Debug, Clone, Copy, PartialEq, Eq, Structural)]
pub enum BookmarkRefusal {
    /// `MAX_BOOKMARKS` bookmarks are saved already.
    Full,
    /// The URL itself was refused.
    Url(SanitizeError),
}

/// Why `SanitizedUrl::new` refused a string.
#[derive(Debug, Clone, Copy, PartialEq, Eq, Structural)]
pub enum SanitizeError {
    /// A control character (below 0x20), such as `\n`, `\r`, `\t`, BEL or NUL.
    ControlChar(char),
    /// A character outside the accepted HID set, such as DEL or an emoji.
    UnmappedChar(char),
    /// The string is longer, in bytes, than the cap it was checked against.
    TooLong { len: usize, cap: usize },
}

/// A control character: below 0x20.
pub open spec fn is_control(c: char) -> bool {
    (c as u32) < 0x20
}

/// A character that can be typed over HID.
pub open spec fn hid_accepted(c: char) -> bool {
    HID_ACCEPTED@.contains(c)
}

/// The first control character of `s`.
pub open spec fn first_control(s: Seq<char>) -> Option<char>
    decreases s.len(),
{
    if s.len() == 0 {
        None
    } else if is_control(s[0]) {
        Some(s[0])
    } else {
        first_control(s.drop_first())
    }
}

/// The first character of `s` that cannot be typed over HID.
pub open spec fn first_unmapped(s: Seq<char>) -> Option<char>
    decreases s.len(),
{
    if s.len() == 0 {
        None
    } else if !hid_accepted(s[0]) {
        Some(s[0])
    } else {
        first_unmapped(s.drop_first())
    }
}

/// The outcome of checking the text `s`, `byte_len` bytes long, against `cap`: the three
/// checks in order, control characters, then unmapped characters, then the length cap.
pub open spec fn sanitize_outcome(s: Seq<char>, byte_len: nat, cap: nat) -> Result<
    Seq<char>,
    SanitizeError,
> {
    match first_control(s) {
        Some(c) => Err(SanitizeError::ControlChar(c)),
        None => match first_unmapped(s) {
            Some(c) => Err(SanitizeError::UnmappedChar(c)),
            None => if byte_len > cap {
                Err(SanitizeError::TooLong { len: byte_len as usize, cap: cap as usize })
            } else {
                Ok(s)
            },
        },
    }
}

/// `HID_ACCEPTED` is exactly printable ASCII, in code order.
pub proof fn lemma_hid_accepted_is_printable_ascii()
    ensures
        HID_ACCEPTED@.len() == 95,
        forall|i: int| 0 <= i < 95 ==> (#[trigger] HID_ACCEPTED@[i] as u32) == i + 0x20,
        forall|c: char| hid_accepted(c) <==> 0x20 <= (c as u32) <= 0x7E,
{
    reveal_strlit(
        " !\"#$%&'()*+,-./0123456789:;<=>?@ABCDEFGHIJKLMNOPQRSTUVWXYZ[\\]^_`abcdefghijklmnopqrstuvwxyz{|}~",
    );
    assert forall|c: char| hid_accepted(c) <==> 0x20 <= (c as u32) <= 0x7E by {
        if 0x20 <= (c as u32) <= 0x7E {
            let i = (c as u32) - 0x20;
            assert(HID_ACCEPTED@[i as int] as u32 == c as u32);
            vstd::utf8::char_u32_cast(HID_ACCEPTED@[i as int], c as u32);
            vstd::utf8::char_u32_cast(c, c as u32);
            assert(HID_ACCEPTED@[i as int] == c);
        }
    }
}

proof fn lemma_printable_is_ascii(c: char)
    requires
        hid_accepted(c),
    ensures
        '\0' <= c <= '\u{7f}',
{
    lemma_hid_accepted_is_printable_ascii();
    assert((c as u32) <= 0x7e);
}

/// Whether `c` is in `HID_ACCEPTED`.
pub fn is_hid_accepted(c: char) -> (r: bool)
    ensures
        r == hid_accepted(c),
{
    proof {
        lemma_hid_accepted_is_printable_ascii();
    }
    let u = c as u32;
    0x20 <= u && u <= 0x7E
}

/// `first_control` finds nothing exactly when no character of `s` is a control character.
proof fn lemma_first_control_none(s: Seq<char>)
    ensures
        first_control(s) is None <==> forall|i: int| 0 <= i < s.len() ==> !is_control(#[trigger] s[i]),
    decreases s.len(),
{
    if s.len() > 0 {
        lemma_first_control_none(s.drop_first());
        assert forall|i: int| 1 <= i < s.len() implies s[i] == s.drop_first()[i - 1] by {}
    }
}

/// `first_unmapped` finds nothing exactly when every character of `s` can be typed.
proof fn lemma_first_unmapped_none(s: Seq<char>)
    ensures
        first_unmapped(s) is None <==> forall|i: int| 0 <= i < s.len() ==> hid_accepted(#[trigger] s[i]),
    decreases s.len(),
{
    if s.len() > 0 {
        lemma_first_unmapped_none(s.drop_first());
        assert forall|i: int| 1 <= i < s.len() implies s[i] == s.drop_first()[i - 1] by {}
    }
}

/// A string is accepted exactly when it is within the cap, in bytes, and every character is
/// printable ASCII (0x20 to 0x7E); an accepted string is kept whole.
pub proof fn lemma_sanitize_accepts_exactly_printable_within_cap(s: Seq<char>, cap: usize)
    ensures
        sanitize_outcome(s, encode_utf8(s).len(), cap as nat) is Ok <==> (encode_utf8(s).len() <= cap
            && forall|i: int| 0 <= i < s.len() ==> 0x20 <= (#[trigger] s[i] as u32) <= 0x7E),
        sanitize_outcome(s, encode_utf8(s).len(), cap as nat) matches Ok(t) ==> t == s,
{
    lemma_first_control_none(s);
    lemma_first_unmapped_none(s);
    lemma_hid_accepted_is_printable_ascii();
    if forall|i: int| 0 <= i < s.len() ==> 0x20 <= (#[trigger] s[i] as u32) <= 0x7E {
        assert forall|i: int| 0 <= i < s.len() implies !is_control(#[trigger] s[i]) && hid_accepted(s[i]) by {
            assert(0x20 <= (s[i] as u32) <= 0x7E);
        }
    }
    if first_control(s) is None && first_unmapped(s) is None {
        assert forall|i: int| 0 <= i < s.len() implies 0x20 <= (#[trigger] s[i] as u32) <= 0x7E by {
            assert(hid_accepted(s[i]));
        }
    }
}

impl View for SanitizedUrl {
    type V = Seq<char>;

    closed spec fn view(&self) -> Seq<char> {
        self.0@
    }
}

impl Clone for SanitizedUrl {
    fn clone(&self) -> (r: Self)
        ensures
            r@ == self@,
    {
        proof {
            use_type_invariant(self);
        }
        SanitizedUrl(self.0.clone())
    }
}

impl SanitizedUrl {
    #[verifier::type_invariant]
    spec fn inv(self) -> bool {
        forall|i: int| 0 <= i < self.0@.len() ==> hid_accepted(#[trigger] self.0@[i])
    }

    /// Accepts `s` whole if it holds no control character, no character outside
    /// `HID_ACCEPTED`, and is at most `cap` bytes long; otherwise says which check failed
    /// first. Never truncates.
    pub fn new(s: &str, cap: usize) -> (r: Result<Self, SanitizeError>)
        ensures
            match r {
                Ok(u) => sanitize_outcome(s@, s.spec_bytes().len(), cap as nat) == Ok::<
                    Seq<char>,
                    SanitizeError,
                >(u@),
                Err(e) => sanitize_outcome(s@, s.spec_bytes().len(), cap as nat) == Err::<
                    Seq<char>,
                    SanitizeError,
                >(e),
            },
    {
        let v = str_chars(s);
        assert(v@.skip(0) =~= v@);
        let mut i: usize = 0;
        while i < v.len()
            invariant
                i <= v@.len(),
                v@ == s@,
                first_control(s@) == first_control(v@.skip(i as int)),
            decreases v@.len() - i,
        {
            if (v[i] as u32) < 0x20 {
                return Err(SanitizeError::ControlChar(v[i]));
            }
            assert(v@.skip(i as int).drop_first() =~= v@.skip(i + 1));
            i += 1;
        }
        assert(v@.skip(v@.len() as int) =~= Seq::<char>::empty());
        let mut i: usize = 0;
        while i < v.len()
            invariant
                i <= v@.len(),
                v@ == s@,
                first_control(s@) is None,
                first_unmapped(s@) == first_unmapped(v@.skip(i as int)),
                forall|j: int| 0 <= j < i ==> hid_accepted(#[trigger] v@[j]),
            decreases v@.len() - i,
        {
            if !is_hid_accepted(v[i]) {
                return Err(SanitizeError::UnmappedChar(v[i]));
            }
            assert(v@.skip(i as int).drop_first() =~= v@.skip(i + 1));
            i += 1;
        }
        assert(v@.skip(v@.len() as int) =~= Seq::<char>::empty());
        proof {
            lemma_hid_accepted_is_printable_ascii();
            assert forall|j: int| 0 <= j < s@.len() implies '\0' <= #[trigger] s@[j] <= '\u{7f}' by {
                assert(hid_accepted(v@[j]));
                lemma_printable_is_ascii(s@[j]);
            }
            assert(is_ascii_chars(s@));
            is_ascii_chars_encode_utf8(s@);
        }
        let len = v.len();
        if len > cap {
            return Err(SanitizeError::TooLong { len, cap });
        }
        let r = SanitizedUrl(string_of(s));
        Ok(r)
    }

    /// Accepts `s` for saving as a bookmark when `count` bookmarks are saved already: refused
    /// as `Full` when that is `MAX_BOOKMARKS` or more, before the URL is looked at; else as
    /// `new` decides at the bookmark cap.
    pub fn new_bookmark(s: &str, count: usize) -> (r: Result<Self, BookmarkRefusal>)
        ensures
            count >= MAX_BOOKMARKS ==> r matches Err(BookmarkRefusal::Full),
            count < MAX_BOOKMARKS ==> match sanitize_outcome(s@, s.spec_bytes().len(), CAP_BOOKMARK_URL as nat) {
                Ok(t) => r matches Ok(u) && u@ == t,
                Err(e) => r matches Err(BookmarkRefusal::Url(x)) && x == e,
            },
    {
        if count >= MAX_BOOKMARKS {
            return Err(BookmarkRefusal::Full);
        }
        match SanitizedUrl::new(s, CAP_BOOKMARK_URL) {
            Ok(u) => Ok(u),
            Err(e) => Err(BookmarkRefusal::Url(e)),
        }
    }

    /// The validated URL: the exact text that was accepted, every character of which can be
    /// typed over HID.
    pub fn as_str(&self) -> (r: &str)
        ensures
            r@ == self@,
            forall|i: int| 0 <= i < r@.len() ==> hid_accepted(#[trigger] r@[i]),
    {
        proof {
            use_type_invariant(self);
        }
        self.0.as_str()
    }
}

} // verus!
