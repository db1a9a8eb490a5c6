//! Where a scanned QR code goes, and the small decisions of the main loop around scans and
//! deletions.
//!
//! A web URL is recognised before anything else is tried: a URL such as
//! `HTTPS://EXAMPLE.COM/PATH` is also valid base45, and would be misread as gene data if that
//! decoding came first.
use vstd::prelude::*;
use vstd::string::*;
use crate::otpauth::{lowercases_range, lowercases_to};
use crate::sanitize::{sanitize_outcome, SanitizeError, SanitizedUrl, CAP_URL_DISPLAY};
use crate::text::{find_char, find_in, lemma_find_char, str_chars};
use crate::ui::VaultMode;

verus! {

broadcast use vstd::string::group_string_axioms;

/// The non-URL schemes a scan can carry, each with a handler of its own.
#[derive(Copy, Clone, PartialEq, Eq, Debug, Structural)]
pub enum KnownScheme {
    Otpauth,
    Pwauth,
    Time,
    Search,
    Test,
    Factory,
    Dc34,
    Gene,
}

/// Where a scanned code goes.
#[derive(Debug)]
pub enum ScanRoute {
    /// a screen of the gene exchange is up: the payload is gene data
    Gene,
    /// a web URL that passed the checks, to be shown
    ShowUrl(SanitizedUrl),
    /// a web URL that failed the checks: an error, and back to standby
    UrlRefused(SanitizeError),
    /// a known scheme, for its handler
    Scheme(KnownScheme),
    /// anything else
    Unrecognized,
}

/// The screens of the gene exchange, where a scan is gene data.
pub open spec fn is_gene_mode(mode: VaultMode) -> bool {
    match mode {
        VaultMode::GeneScan => true,
        VaultMode::ResponseGene { .. } => true,
        VaultMode::ShowKey { .. } => true,
        _ => false,
    }
}

/// `s` starts with `p`, ASCII letters of `s` compared in lower case.
pub open spec fn starts_with_ci(s: Seq<char>, p: Seq<char>) -> bool {
    s.len() >= p.len() && lowercases_to(s.take(p.len() as int), p)
}

/// `s` starts with `http://` or `https://`, in any case.
pub open spec fn is_web_url(s: Seq<char>) -> bool {
    starts_with_ci(s, "http://"@) || starts_with_ci(s, "https://"@)
}

/// The scheme named `name`, if it is a known one.
pub open spec fn scheme_named(name: Seq<char>) -> Option<KnownScheme> {
    if name == "otpauth"@ {
        Some(KnownScheme::Otpauth)
    } else if name == "pwauth"@ {
        Some(KnownScheme::Pwauth)
    } else if name == "time"@ {
        Some(KnownScheme::Time)
    } else if name == "search"@ {
        Some(KnownScheme::Search)
    } else if name == "test"@ {
        Some(KnownScheme::Test)
    } else if name == "factory"@ {
        Some(KnownScheme::Factory)
    } else if name == "dc34"@ {
        Some(KnownScheme::Dc34)
    } else if name == "gene"@ {
        Some(KnownScheme::Gene)
    } else {
        None
    }
}

/// The known scheme of `s`: the text before its first `:`, when `://` follows it there. (A
/// known name holds no `:`, so no later `://` could give one.)
pub open spec fn known_scheme(s: Seq<char>) -> Option<KnownScheme> {
    match find_char(s, ':') {
        None => None,
        Some(i) => if s.skip(i).take(3) == "://"@ && s.len() >= i + 3 {
            scheme_named(s.take(i))
        } else {
            None
        },
    }
}

/// A name with no `:`, followed by `://`, is read as that name's scheme.
proof fn lemma_known_scheme_of(name: Seq<char>, rest: Seq<char>)
    requires
        !name.contains(':'),
    ensures
        known_scheme(name + "://"@ + rest) == scheme_named(name),
{
    reveal_strlit("://");
    let s = name + "://"@ + rest;
    assert forall|j: int| 0 <= j < name.len() implies s[j] != ':' by {
        assert(s[j] == name[j]);
        if name[j] == ':' {
            assert(name.contains(':'));
        }
    }
    crate::text::lemma_find_char_at(s, ':', name.len() as int);
    assert(s.take(name.len() as int) =~= name);
    assert(s.skip(name.len() as int).take(3) =~= "://"@);
}

/// Text whose first character is a lower-case letter other than `h` is no web URL.
proof fn lemma_not_web(s: Seq<char>)
    requires
        s.len() > 0,
        'a' <= s[0] <= 'z',
        s[0] != 'h',
    ensures
        !is_web_url(s),
{
    reveal_strlit("http://");
    reveal_strlit("https://");
    if s.len() >= 7 {
        assert(s.take(7)[0] == s[0]);
        assert(crate::otpauth::lower_ascii(s.take(7)[0]) != "http://"@[0]);
    }
    if s.len() >= 8 {
        assert(s.take(8)[0] == s[0]);
        assert(crate::otpauth::lower_ascii(s.take(8)[0]) != "https://"@[0]);
    }
}

/// Each of the eight known scheme names, followed by `://` and anything, goes to its own
/// handler: `otpauth`, `pwauth`, `time`, `search`, `test`, `factory`, `dc34` and `gene`. None
/// of them is a web URL, so the URL checks never take one.
pub proof fn lemma_known_schemes_route(rest: Seq<char>)
    ensures
        known_scheme("otpauth://"@ + rest) == Some(KnownScheme::Otpauth),
        known_scheme("pwauth://"@ + rest) == Some(KnownScheme::Pwauth),
        known_scheme("time://"@ + rest) == Some(KnownScheme::Time),
        known_scheme("search://"@ + rest) == Some(KnownScheme::Search),
        known_scheme("test://"@ + rest) == Some(KnownScheme::Test),
        known_scheme("factory://"@ + rest) == Some(KnownScheme::Factory),
        known_scheme("dc34://"@ + rest) == Some(KnownScheme::Dc34),
        known_scheme("gene://"@ + rest) == Some(KnownScheme::Gene),
        !is_web_url("otpauth://"@ + rest) && !is_web_url("pwauth://"@ + rest) && !is_web_url("time://"@ + rest)
            && !is_web_url("search://"@ + rest) && !is_web_url("test://"@ + rest) && !is_web_url(
            "factory://"@ + rest,
        ) && !is_web_url("dc34://"@ + rest) && !is_web_url("gene://"@ + rest),
{
    reveal_strlit("otpauth");
    reveal_strlit("pwauth");
    reveal_strlit("time");
    reveal_strlit("search");
    reveal_strlit("test");
    reveal_strlit("factory");
    reveal_strlit("dc34");
    reveal_strlit("gene");
    reveal_strlit("://");
    reveal_strlit("otpauth://");
    reveal_strlit("pwauth://");
    reveal_strlit("time://");
    reveal_strlit("search://");
    reveal_strlit("test://");
    reveal_strlit("factory://");
    reveal_strlit("dc34://");
    reveal_strlit("gene://");
    reveal_strlit("http://");
    reveal_strlit("https://");
    let names = seq!["otpauth"@, "pwauth"@, "time"@, "search"@, "test"@, "factory"@, "dc34"@, "gene"@];
    assert forall|i: int| 0 <= i < names.len() implies !(#[trigger] names[i]).contains(':') by {
        if names[i].contains(':') {
            let j = choose|j: int| 0 <= j < names[i].len() && names[i][j] == ':';
        }
    }
    assert(names[0] == "otpauth"@);
    lemma_known_scheme_of("otpauth"@, rest);
    assert("otpauth"@ + "://"@ + rest =~= "otpauth://"@ + rest);
    assert(names[1] == "pwauth"@);
    lemma_known_scheme_of("pwauth"@, rest);
    assert("pwauth"@ + "://"@ + rest =~= "pwauth://"@ + rest);
    assert(names[2] == "time"@);
    lemma_known_scheme_of("time"@, rest);
    assert("time"@ + "://"@ + rest =~= "time://"@ + rest);
    assert(names[3] == "search"@);
    lemma_known_scheme_of("search"@, rest);
    assert("search"@ + "://"@ + rest =~= "search://"@ + rest);
    assert(names[4] == "test"@);
    lemma_known_scheme_of("test"@, rest);
    assert("test"@ + "://"@ + rest =~= "test://"@ + rest);
    assert(names[5] == "factory"@);
    lemma_known_scheme_of("factory"@, rest);
    assert("factory"@ + "://"@ + rest =~= "factory://"@ + rest);
    assert(names[6] == "dc34"@);
    lemma_known_scheme_of("dc34"@, rest);
    assert("dc34"@ + "://"@ + rest =~= "dc34://"@ + rest);
    assert(names[7] == "gene"@);
    lemma_known_scheme_of("gene"@, rest);
    assert("gene"@ + "://"@ + rest =~= "gene://"@ + rest);
    // the names differ from each other where it matters
    assert("pwauth"@ != "otpauth"@);
    assert("time"@ != "otpauth"@ && "time"@ != "pwauth"@);
    assert("search"@ != "otpauth"@ && "search"@ != "pwauth"@ && "search"@ != "time"@);
    assert("search"@[0] != "pwauth"@[0]);
    assert("test"@[0] != "time"@[0] || "test"@[1] != "time"@[1]);
    assert("test"@[1] != "time"@[1]);
    assert("factory"@[0] != "otpauth"@[0]);
    assert("dc34"@[0] != "time"@[0] && "dc34"@[0] != "test"@[0]);
    assert("gene"@[0] != "time"@[0] && "gene"@[0] != "test"@[0] && "gene"@[0] != "dc34"@[0]);
    // and none starts like a web URL
    assert(("otpauth://"@ + rest)[0] == 'o');
    assert(("pwauth://"@ + rest)[0] == 'p');
    assert(("time://"@ + rest)[0] == 't');
    assert(("search://"@ + rest)[0] == 's');
    assert(("test://"@ + rest)[0] == 't');
    assert(("factory://"@ + rest)[0] == 'f');
    assert(("dc34://"@ + rest)[0] == 'd');
    assert(("gene://"@ + rest)[0] == 'g');
    lemma_not_web("otpauth://"@ + rest);
    lemma_not_web("pwauth://"@ + rest);
    lemma_not_web("time://"@ + rest);
    lemma_not_web("search://"@ + rest);
    lemma_not_web("test://"@ + rest);
    lemma_not_web("factory://"@ + rest);
    lemma_not_web("dc34://"@ + rest);
    lemma_not_web("gene://"@ + rest);
}

/// The scheme named by `cs[0..i]`, if it is a known one.
fn scheme_of_range(cs: &Vec<char>, i: usize) -> (r: Option<KnownScheme>)
    requires
        i <= cs@.len(),
    ensures
        r == scheme_named(cs@.take(i as int)),
{
    let name = crate::text::string_from_range(cs, 0, i);
    assert(cs@.subrange(0, i as int) =~= cs@.take(i as int));
    let n = name.as_str();
    if crate::storage::const_str_eq(n, "otpauth") {
        Some(KnownScheme::Otpauth)
    } else if crate::storage::const_str_eq(n, "pwauth") {
        Some(KnownScheme::Pwauth)
    } else if crate::storage::const_str_eq(n, "time") {
        Some(KnownScheme::Time)
    } else if crate::storage::const_str_eq(n, "search") {
        Some(KnownScheme::Search)
    } else if crate::storage::const_str_eq(n, "test") {
        Some(KnownScheme::Test)
    } else if crate::storage::const_str_eq(n, "factory") {
        Some(KnownScheme::Factory)
    } else if crate::storage::const_str_eq(n, "dc34") {
        Some(KnownScheme::Dc34)
    } else if crate::storage::const_str_eq(n, "gene") {
        Some(KnownScheme::Gene)
    } else {
        None
    }
}

/// Where the code `s`, scanned on screen `mode`, goes: on a gene exchange screen, to the
/// gene exchange; else a web URL (`http://` or `https://`, in any case) to the URL checks at
/// the display cap, shown when it passes and refused when it fails; else a known scheme to
/// its handler; else nowhere.
pub fn route_scan(mode: VaultMode, s: &str) -> (r: ScanRoute)
    ensures
        match r {
            ScanRoute::Gene => is_gene_mode(mode),
            ScanRoute::ShowUrl(u) => !is_gene_mode(mode) && is_web_url(s@) && sanitize_outcome(
                s@,
                s.spec_bytes().len(),
                CAP_URL_DISPLAY as nat,
            ) == Ok::<Seq<char>, SanitizeError>(u@),
            ScanRoute::UrlRefused(e) => !is_gene_mode(mode) && is_web_url(s@) && sanitize_outcome(
                s@,
                s.spec_bytes().len(),
                CAP_URL_DISPLAY as nat,
            ) == Err::<Seq<char>, SanitizeError>(e),
            ScanRoute::Scheme(k) => !is_gene_mode(mode) && !is_web_url(s@) && known_scheme(s@)
                == Some(k),
            ScanRoute::Unrecognized => !is_gene_mode(mode) && !is_web_url(s@) && known_scheme(s@)
                is None,
        },
{
    match mode {
        VaultMode::GeneScan | VaultMode::ResponseGene { .. } | VaultMode::ShowKey { .. } => {
            return ScanRoute::Gene;
        },
        _ => {},
    }
    let cs = str_chars(s);
    let n = cs.len();
    let http = n >= 7 && lowercases_range(&cs, 0, 7, "http://");
    let https = n >= 8 && lowercases_range(&cs, 0, 8, "https://");
    proof {
        assert(cs@.subrange(0, 7) =~= cs@.take(7));
        assert(cs@.subrange(0, 8) =~= cs@.take(8));
        reveal_strlit("http://");
        reveal_strlit("https://");
    }
    if http || https {
        return match SanitizedUrl::new(s, CAP_URL_DISPLAY) {
            Ok(u) => ScanRoute::ShowUrl(u),
            Err(e) => ScanRoute::UrlRefused(e),
        };
    }
    assert(cs@.subrange(0, n as int) =~= cs@);
    match find_in(&cs, 0, n, ':') {
        None => ScanRoute::Unrecognized,
        Some(i) => {
            if n - i >= 3 && cs[i + 1] == '/' && cs[i + 2] == '/' {
                proof {
                    lemma_find_char(cs@, ':');
                    reveal_strlit("://");
                    assert(cs@.skip(i as int).take(3) =~= "://"@);
                }
                match scheme_of_range(&cs, i) {
                    Some(k) => ScanRoute::Scheme(k),
                    None => ScanRoute::Unrecognized,
                }
            } else {
                proof {
                    lemma_find_char(cs@, ':');
                    reveal_strlit("://");
                    if cs@.skip(i as int).take(3) == "://"@ && cs@.len() >= i + 3 {
                        assert(cs@.skip(i as int).take(3)[1] == cs@[i + 1]);
                        assert(cs@.skip(i as int).take(3)[2] == cs@[i + 2]);
                    }
                }
                ScanRoute::Unrecognized
            }
        },
    }
}

/// What a delete from the actions menu removes, by the screen it was raised on.
#[derive(Copy, Clone, PartialEq, Eq, Debug, Structural)]
pub enum DeleteTarget {
    /// the photo under the cursor
    Photo,
    /// the saved URL under the cursor
    Bookmark,
    /// nothing: there is nothing to delete on this screen
    Nothing,
}

/// The photo list and a photo shown whole delete a photo; the saved URLs delete one of
/// them; every other screen has nothing to delete.
pub open spec fn delete_target_of(mode: VaultMode) -> DeleteTarget {
    match mode {
        VaultMode::PhotoList => DeleteTarget::Photo,
        VaultMode::PhotoView => DeleteTarget::Photo,
        VaultMode::BookmarkList => DeleteTarget::Bookmark,
        _ => DeleteTarget::Nothing,
    }
}

/// What a delete removes on screen `mode`; see `delete_target_of`.
pub fn delete_target(mode: VaultMode) -> (r: DeleteTarget)
    ensures
        r == delete_target_of(mode),
{
    match mode {
        VaultMode::PhotoList | VaultMode::PhotoView => DeleteTarget::Photo,
        VaultMode::BookmarkList => DeleteTarget::Bookmark,
        _ => DeleteTarget::Nothing,
    }
}

/// The screen after a scan is cancelled on screen `mode`: standby when a badge is attached,
/// else the screen it was cancelled from.
pub fn mode_after_scan_abort(badge_attached: bool, mode: VaultMode) -> (r: VaultMode)
    ensures
        r == if badge_attached {
            VaultMode::Idle
        } else {
            mode
        },
{
    if badge_attached {
        VaultMode::Idle
    } else {
        mode
    }
}

} // verus!
