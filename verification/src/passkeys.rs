//! The PASSKEYS screen's list: one row per FIDO registration, named by the site it was made
//! for, in alphabetical order regardless of case.
use vstd::prelude::*;
use crate::order::{stable_rearrangement, sort_by_key, sorted_by_key, SortKey};
use crate::text::{is_ws, push_char, str_chars, string_of, trim, trim_range};
use crate::vault_api::{app_info_of, deserialize_app_info, AppInfo};

verus! {

broadcast use vstd::string::group_string_axioms;

/// `str::to_lowercase`'s result for `s`.
pub uninterp spec fn lowercase(s: Seq<char>) -> Seq<char>;

/// `str::to_lowercase`: `s` with every character replaced by its lower case, as Unicode
/// defines it (a character may become several). The contract names the result,
/// `lowercase` of the text, and says no more of it.
#[verifier::external_body]
fn to_lowercase(s: &str) -> (r: String)
    ensures
        r@ == lowercase(s@),
{
    s.to_lowercase()
}

/// A row of the PASSKEYS list.
pub struct Passkey {
    /// the registration's storage key, its app id in hex; deleting it needs this
    pub key: String,
    /// the site's name, or a short form of the id when the registration has none
    pub name: String,
    /// the name in lower case, which the list sorts by; `new` sets it
    pub folded: String,
}

impl Passkey {
    /// A row for the registration stored under `key`, shown as `name`.
    pub fn new(key: String, name: String) -> (r: Self)
        ensures
            r.key@ == key@,
            r.name@ == name@,
            r.sort_key() == lowercase(name@),
    {
        let folded = to_lowercase(name.as_str());
        Passkey { key, name, folded }
    }
}

impl SortKey for Passkey {
    open spec fn sort_key(&self) -> Seq<char> {
        self.folded@
    }

    fn key_text(&self) -> (r: &String) {
        &self.folded
    }
}

/// Sorts the rows by name, ignoring case. The rows are the same ones, each as many times.
pub fn sort_passkeys(v: Vec<Passkey>) -> (r: Vec<Passkey>)
    ensures
        r@.to_multiset() == v@.to_multiset(),
        sorted_by_key(r@),
        exists|idx: Seq<int>| stable_rearrangement(v@, r@, idx),
{
    sort_by_key(v)
}

/// The name a registration is listed under: its own, unless that is blank or only white
/// space.
pub open spec fn listed_name(name: Seq<char>) -> Option<Seq<char>> {
    if trim(name).len() == 0 {
        None
    } else {
        Some(name)
    }
}

/// The name a read registration is listed under; see `listed_name`. `None` when it could
/// not be read.
pub fn passkey_name(info: Option<AppInfo>) -> (r: Option<String>)
    ensures
        match info {
            Some(i) => match listed_name(i.name@) {
                Some(n) => r matches Some(x) && x@ == n,
                None => r is None,
            },
            None => r is None,
        },
{
    match info {
        None => None,
        Some(i) => {
            let cs = str_chars(i.name.as_str());
            let (a, b) = trim_range(&cs, 0, cs.len());
            assert(cs@.subrange(0, cs@.len() as int) =~= cs@);
            if a == b {
                None
            } else {
                Some(i.name)
            }
        },
    }
}

/// The label of a registration with no name: its key's first eight characters in brackets,
/// with an ellipsis.
pub open spec fn fallback_label_text(key: Seq<char>) -> Seq<char> {
    seq!['('] + key.take(if key.len() < 8 { key.len() as int } else { 8 }) + seq!['\u{2026}', ')']
}

/// The label of a registration with no name; see `fallback_label_text`.
pub fn fallback_label(key: &str) -> (r: String)
    ensures
        r@ == fallback_label_text(key@),
{
    let cs = str_chars(key);
    let n = if cs.len() < 8 {
        cs.len()
    } else {
        8
    };
    let mut s = String::new();
    push_char(&mut s, '(');
    let mut i: usize = 0;
    while i < n
        invariant
            i <= n <= cs@.len(),
            n == if cs@.len() < 8 { cs@.len() } else { 8 },
            cs@ == key@,
            s@ == seq!['('] + cs@.take(i as int),
        decreases n - i,
    {
        push_char(&mut s, cs[i]);
        assert(s@ =~= seq!['('] + cs@.take(i + 1));
        i += 1;
    }
    push_char(&mut s, '\u{2026}');
    push_char(&mut s, ')');
    assert(s@ =~= fallback_label_text(key@));
    s
}

/// The label of the registration stored under `key`, whose stored bytes are `body` (`None`
/// when they could not be read): the name it was made with, unless it has none, is blank or
/// cannot be read, when the short form of its key stands in.
pub open spec fn passkey_label(key: Seq<char>, body: Option<Seq<u8>>) -> Seq<char> {
    match body {
        Some(b) => match app_info_of(b) {
            Some(m) => match listed_name(m.name) {
                Some(n) => n,
                None => fallback_label_text(key),
            },
            None => fallback_label_text(key),
        },
        None => fallback_label_text(key),
    }
}

/// A row as plain text: its key and its label.
pub open spec fn passkey_view(p: Passkey) -> (Seq<char>, Seq<char>) {
    (p.key@, p.name@)
}

/// The rows that the registrations `items`, each a key and its stored bytes, give, in order.
pub open spec fn listed_passkeys(items: Seq<(String, Option<Vec<u8>>)>) -> Seq<(Seq<char>, Seq<char>)> {
    items.map_values(
        |it: (String, Option<Vec<u8>>)|
            (
                it.0@,
                passkey_label(
                    it.0@,
                    match it.1 {
                        Some(b) => Some(b@),
                        None => None,
                    },
                ),
            ),
    )
}

/// The PASSKEYS list from the registrations `items`: one row per registration, labelled as
/// `passkey_label` says, sorted by label regardless of case.
pub fn passkey_entries(items: Vec<(String, Option<Vec<u8>>)>) -> (r: Vec<Passkey>)
    ensures
        exists|v: Seq<Passkey>|
            v.map_values(|p: Passkey| passkey_view(p)) == listed_passkeys(items@)
                && #[trigger] v.to_multiset() == r@.to_multiset()
                && exists|idx: Seq<int>| stable_rearrangement(v, r@, idx),
        sorted_by_key(r@),
        forall|i: int| 0 <= i < r@.len() ==> #[trigger] r@[i].sort_key() == lowercase(r@[i].name@),
{
    let ghost orig = items@;
    let mut out: Vec<Passkey> = Vec::new();
    let mut items = items;
    assert(orig.skip(0) =~= orig);
    while items.len() > 0
        invariant
            items@ == orig.skip(out@.len() as int),
            out@.len() + items@.len() == orig.len(),
            out@.map_values(|p: Passkey| passkey_view(p)) == listed_passkeys(orig).take(out@.len() as int),
            forall|i: int| 0 <= i < out@.len() ==> #[trigger] out@[i].sort_key() == lowercase(out@[i].name@),
        decreases items@.len(),
    {
        let ghost k = out@.len() as int;
        let (key, body) = items.remove(0);
        assert(orig[k] == (key, body)) by {
            assert(orig.skip(k)[0] == orig[k]);
        }
        let name = match body {
            Some(b) => passkey_name(deserialize_app_info(b)),
            None => None,
        };
        let label = match name {
            Some(n) => n,
            None => fallback_label(key.as_str()),
        };
        let row = Passkey::new(key, label);
        out.push(row);
        assert(out@.map_values(|p: Passkey| passkey_view(p)) =~= listed_passkeys(orig).take(k + 1));
        assert(items@ =~= orig.skip(k + 1));
    }
    assert(listed_passkeys(orig).take(out@.len() as int) =~= listed_passkeys(orig));
    let ghost before = out@;
    let r = sort_passkeys(out);
    assert(before.map_values(|p: Passkey| passkey_view(p)) == listed_passkeys(orig)
        && before.to_multiset() == r@.to_multiset() && exists|idx: Seq<int>| stable_rearrangement(before, r@, idx));
    proof {
        let idx = choose|idx: Seq<int>| stable_rearrangement(before, r@, idx);
        assert forall|i: int| 0 <= i < r@.len() implies #[trigger] r@[i].sort_key() == lowercase(r@[i].name@) by {
            assert(r@[i] == before[idx[i]]);
        }
    }
    r
}

} // verus!
