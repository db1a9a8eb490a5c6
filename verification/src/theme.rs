//! The screen furniture's arithmetic: how list rows are laid out, cut and scrolled, and where
//! the three button labels sit. Drawing itself is the graphics server's business.
use vstd::prelude::*;
use crate::text::{push_char, push_dec, dec_chars, str_chars, string_from_chars};

verus! {

broadcast use vstd::string::group_string_axioms;

/// The badge's name.
pub const BADGE_NAME: &'static str = "S-CAM";
/// URL the About screen shows as a QR code.
pub const ABOUT_URL: &'static str = "https://github.com/heckseven/s-cam";
/// Height of the heading and of the button-label bar, in pixels.
pub const LABEL_BAR_H: isize = 14;
/// Width of the left gutter of a list whose rows carry a check mark, in pixels.
pub const GUTTER_W: isize = 10;
/// How long a row stays still after it gains focus, before it starts scrolling.
pub const MARQUEE_HOLD_MS: u64 = 1000;
/// How long each character step takes once a row is scrolling.
pub const MARQUEE_STEP_MS: u64 = 250;

// ---------------------------------------------------------------------------------------
// Cutting and scrolling text
// ---------------------------------------------------------------------------------------

/// The scrolling form of `t`: `t` followed by a gap of three spaces.
pub open spec fn marquee_loop(t: Seq<char>) -> Seq<char> {
    t + seq![' ', ' ', ' ']
}

/// What a row of `visible` cells shows of `t` after holding focus for `held` ms. Text that
/// fits is shown whole. Longer text shows its start until `hold` ms have passed, then scrolls
/// one character every `MARQUEE_STEP_MS`, wrapping round through a three-space gap.
pub open spec fn marquee_text(t: Seq<char>, held: u64, visible: nat, hold: u64) -> Seq<char> {
    if t.len() <= visible {
        t
    } else if held < hold {
        t.take(visible as int)
    } else {
        let p = marquee_loop(t);
        let off = ((held - hold) / (MARQUEE_STEP_MS as int)) % (p.len() as int);
        Seq::new(visible, |i: int| p[(off + i) % (p.len() as int)])
    }
}

/// The slice of `text` to show right now in a row of `visible` cells; see `marquee_text`.
pub fn marquee(text: &str, held_ms: u64, visible: usize, hold_ms: u64) -> (r: String)
    ensures
        r@ == marquee_text(text@, held_ms, visible as nat, hold_ms),
{
    let cs = str_chars(text);
    let count = cs.len();
    if count <= visible {
        return string_of_chars(&cs, text);
    }
    if held_ms < hold_ms {
        let mut out = String::new();
        let mut i: usize = 0;
        while i < visible
            invariant
                i <= visible < cs@.len(),
                out@ == cs@.take(i as int),
            decreases visible - i,
        {
            push_char(&mut out, cs[i]);
            assert(cs@.take(i + 1) =~= cs@.take(i as int).push(cs@[i as int]));
            i += 1;
        }
        assert(cs@ == text@);
        return out;
    }
    let mut p = cs;
    p.push(' ');
    p.push(' ');
    p.push(' ');
    assert(p@ =~= marquee_loop(text@));
    let plen = p.len();
    let off = (((held_ms - hold_ms) / MARQUEE_STEP_MS) % (plen as u64)) as usize;
    let mut out = String::new();
    let mut i: usize = 0;
    let mut j: usize = off;
    proof {
        vstd::arithmetic::div_mod::lemma_small_mod(off as nat, plen as nat);
        assert(out@ =~= Seq::new(0, |k: int| p@[(off + k) % (plen as int)]));
    }
    while i < visible
        invariant
            p@ == marquee_loop(text@),
            plen == p@.len() > 0,
            off < plen,
            off == ((held_ms - hold_ms) / (MARQUEE_STEP_MS as int)) % (plen as int),
            i <= visible,
            j < plen,
            j == (off + i) % (plen as int),
            out@ == Seq::new(i as nat, |k: int| p@[(off + k) % (plen as int)]),
        decreases visible - i,
    {
        push_char(&mut out, p[j]);
        assert(out@ =~= Seq::new((i + 1) as nat, |k: int| p@[(off + k) % (plen as int)]));
        let ghost oj = j;
        j = if j + 1 == plen {
            0
        } else {
            j + 1
        };
        proof {
            let q = plen as int;
            vstd::arithmetic::div_mod::lemma_add_mod_noop(off + i, 1, q);
            if q > 1 {
                vstd::arithmetic::div_mod::lemma_small_mod(1, q as nat);
            } else {
                vstd::arithmetic::div_mod::lemma_mod_self_0(q);
            }
            if (oj as int) + 1 < q {
                vstd::arithmetic::div_mod::lemma_small_mod((oj + 1) as nat, q as nat);
            } else {
                vstd::arithmetic::div_mod::lemma_mod_self_0(q);
            }
        }
        i += 1;
    }
    out
}

/// A fresh copy of the characters `cs`, which are those of `text`.
fn string_of_chars(cs: &Vec<char>, text: &str) -> (r: String)
    requires
        cs@ == text@,
    ensures
        r@ == text@,
{
    string_from_chars(cs)
}

/// A row never shows more than it has cells for: text that fits is shown as it is, and text
/// that does not fills exactly the `visible` cells, whether it is still holding or scrolling.
pub proof fn lemma_marquee_fills_row(t: Seq<char>, held: u64, visible: nat, hold: u64)
    ensures
        t.len() <= visible ==> marquee_text(t, held, visible, hold) == t,
        t.len() > visible ==> marquee_text(t, held, visible, hold).len() == visible,
{
}

/// A cut text takes at most its cells (one, for the ellipsis, when there are none), and text
/// that fits is left as it is.
pub proof fn lemma_fit_within(t: Seq<char>, cols: nat)
    ensures
        fit_text(t, cols).len() <= if cols == 0 { 1 } else { cols },
        t.len() <= cols ==> fit_text(t, cols) == t,
        clip_text(t, cols).len() <= cols,
{
}

/// `t` cut to `cols` cells: whole if it fits, else its first `cols - 1` characters and an
/// ellipsis (just the ellipsis when `cols` is 0).
pub open spec fn fit_text(t: Seq<char>, cols: nat) -> Seq<char> {
    if t.len() <= cols {
        t
    } else {
        t.take((if cols == 0 { 0 } else { cols - 1 }) as int).push('\u{2026}')
    }
}

/// Cuts `text` to `cols` cells, marking a cut with an ellipsis; see `fit_text`.
pub fn fit(text: &str, cols: usize) -> (r: String)
    ensures
        r@ == fit_text(text@, cols as nat),
{
    let cs = str_chars(text);
    if cs.len() <= cols {
        return string_of_chars(&cs, text);
    }
    let keep = if cols == 0 {
        0
    } else {
        cols - 1
    };
    let mut out = clip_chars(&cs, keep);
    push_char(&mut out, '\u{2026}');
    out
}

/// The first `n` characters of `cs` (all of them when there are fewer).
fn clip_chars(cs: &Vec<char>, n: usize) -> (r: String)
    ensures
        r@ == cs@.take(if n <= cs@.len() { n as int } else { cs@.len() as int }),
{
    let m = if n <= cs.len() {
        n
    } else {
        cs.len()
    };
    let mut out = String::new();
    let mut i: usize = 0;
    while i < m
        invariant
            i <= m <= cs@.len(),
            out@ == cs@.take(i as int),
        decreases m - i,
    {
        push_char(&mut out, cs[i]);
        assert(cs@.take(i + 1) =~= cs@.take(i as int).push(cs@[i as int]));
        i += 1;
    }
    out
}

/// At most the first `cols` characters of `t`, with no mark for the cut.
pub open spec fn clip_text(t: Seq<char>, cols: nat) -> Seq<char> {
    if t.len() <= cols {
        t
    } else {
        t.take(cols as int)
    }
}

/// Takes at most `cols` characters of `text`; see `clip_text`.
pub fn clip(text: &str, cols: usize) -> (r: String)
    ensures
        r@ == clip_text(text@, cols as nat),
{
    let cs = str_chars(text);
    let r = clip_chars(&cs, cols);
    assert(cs@.take(cs@.len() as int) =~= cs@);
    r
}

// ---------------------------------------------------------------------------------------
// List layout
// ---------------------------------------------------------------------------------------

/// How many rows of height `row_h` fit between the heading and the button bar of a screen
/// `screen_y` pixels tall: at least one.
pub open spec fn rows_that_fit(screen_y: int, row_h: int) -> int {
    let span = screen_y - 2 * LABEL_BAR_H;
    if span <= 0 || span / row_h < 1 {
        1
    } else {
        span / row_h
    }
}

/// The number of list rows on a screen `screen_y` pixels tall; see `rows_that_fit`.
pub fn list_rows(screen_y: isize, row_h: isize) -> (r: usize)
    requires
        row_h > 0,
        screen_y >= isize::MIN + 2 * LABEL_BAR_H,
    ensures
        r == rows_that_fit(screen_y as int, row_h as int),
        r >= 1,
{
    let span = (screen_y - LABEL_BAR_H) - LABEL_BAR_H;
    if span <= 0 {
        return 1;
    }
    let n = span / row_h;
    if n < 1 {
        1
    } else {
        n as usize
    }
}

/// The index of the first row shown, so that the cursor's row is on screen: the list scrolls
/// just far enough to bring the cursor to the last row.
pub open spec fn first_shown(cursor: nat, rows: nat) -> nat {
    if cursor >= rows {
        (cursor + 1 - rows) as nat
    } else {
        0
    }
}

/// The index of the first row shown; see `first_shown`.
pub fn list_first(cursor: usize, rows: usize) -> (r: usize)
    requires
        rows >= 1,
    ensures
        r == first_shown(cursor as nat, rows as nat),
        r <= cursor < r + rows,
{
    if cursor >= rows {
        (cursor - rows) + 1
    } else {
        0
    }
}

/// How many cells of text fit in a row: the row's width less the gutter and a one-pixel
/// margin each side, in cells of `cell` pixels, less one cell held back for the server's
/// own margins; at least one.
pub open spec fn row_columns(screen_x: int, gutter: int, cell: int) -> nat {
    let usable = screen_x - gutter - 2;
    let fit = if usable / cell < 1 {
        1
    } else {
        usable / cell
    };
    if fit <= 1 {
        1
    } else {
        (fit - 1) as nat
    }
}

/// How many cells of text fit in a row; see `row_columns`.
pub fn list_columns(screen_x: isize, gutter: isize, cell: isize) -> (r: usize)
    requires
        cell > 0,
        isize::MIN + 2 <= screen_x - gutter <= isize::MAX,
    ensures
        r == row_columns(screen_x as int, gutter as int, cell as int),
        r >= 1,
{
    let usable = screen_x - gutter - 2;
    let fit: isize = if usable < 0 {
        1
    } else if usable / cell < 1 {
        1
    } else {
        usable / cell
    };
    proof {
        if usable < 0 {
            let u = usable as int;
            let c = cell as int;
            assert(u / c < 1) by (nonlinear_arith)
                requires
                    u < 0,
                    c > 0,
            ;
        }
    }
    if fit <= 1 {
        1
    } else {
        (fit - 1) as usize
    }
}

/// The width of one character cell, from the measured width of eight of them: rounded up,
/// so a cell that is really 7.5 pixels is budgeted as 8; 7 when the measurement failed.
pub open spec fn cell_from_probe(measured: int) -> int {
    if measured > 0 {
        (measured + 7) / 8
    } else {
        7
    }
}

/// The width of one character cell; see `cell_from_probe`.
pub fn cell_width_of(measured: isize) -> (r: isize)
    requires
        measured < isize::MAX - 7,
    ensures
        r == cell_from_probe(measured as int),
        r >= 1,
{
    if measured > 0 {
        (measured + 7) / 8
    } else {
        7
    }
}

/// How a numbered row's text is chosen.
#[derive(Copy, Clone, PartialEq, Eq, Debug, Structural)]
pub enum RowCut {
    /// not scrolling: cut with an ellipsis
    Fit,
    /// the focused row of a scrolling list, which has held focus this long (ms)
    Scroll(u64),
    /// another row of a scrolling list: cut plainly
    Clip,
}

/// The text of row `index` of a numbered list: its number from 1, a dot and a space, then
/// the item in the cells that are left.
pub open spec fn numbered_row_text(index: nat, item: Seq<char>, cols: nat, cut: RowCut) -> Seq<
    char,
> {
    let prefix = dec_chars(index + 1) + seq!['.', ' '];
    let room: nat = if cols >= prefix.len() {
        (cols - prefix.len()) as nat
    } else {
        0
    };
    prefix + match cut {
        RowCut::Fit => fit_text(item, room),
        RowCut::Scroll(held) => marquee_text(item, held, room, MARQUEE_HOLD_MS),
        RowCut::Clip => clip_text(item, room),
    }
}

/// The text of row `index` of a numbered list; see `numbered_row_text`.
pub fn numbered_row(index: usize, item: &str, cols: usize, cut: RowCut) -> (r: String)
    requires
        index < usize::MAX,
    ensures
        r@ == numbered_row_text(index as nat, item@, cols as nat, cut),
{
    let mut prefix = String::new();
    push_dec(&mut prefix, (index + 1) as u64);
    push_char(&mut prefix, '.');
    push_char(&mut prefix, ' ');
    assert(prefix@ =~= dec_chars((index + 1) as nat) + seq!['.', ' ']);
    let plen = prefix.as_str().unicode_len();
    let room = if cols >= plen {
        cols - plen
    } else {
        0
    };
    let body = match cut {
        RowCut::Fit => fit(item, room),
        RowCut::Scroll(held) => marquee(item, held, room, MARQUEE_HOLD_MS),
        RowCut::Clip => clip(item, room),
    };
    prefix.append(body.as_str());
    prefix
}

// ---------------------------------------------------------------------------------------
// The button bar
// ---------------------------------------------------------------------------------------

/// The left and right edges of button label `slot` (0 left, 1 middle, 2 right) on a screen
/// `screen_x` pixels wide: thirds, the last taking the remainder.
pub open spec fn slot_edges(slot: int, screen_x: int) -> (int, int) {
    let third = screen_x / 3;
    let x0 = slot * third;
    (x0, if slot == 2 {
        screen_x
    } else {
        x0 + third
    })
}

/// The edges of button label `slot`; see `slot_edges`.
pub fn label_slot(slot: usize, screen_x: isize) -> (r: (isize, isize))
    requires
        slot < 3,
        screen_x >= 0,
    ensures
        r.0 as int == slot_edges(slot as int, screen_x as int).0,
        r.1 as int == slot_edges(slot as int, screen_x as int).1,
{
    let third = screen_x / 3;
    assert(0 <= (slot as int) * (third as int) <= 2 * (third as int)) by (nonlinear_arith)
        requires
            0 <= slot < 3,
            third >= 0,
    ;
    let x0 = (slot as isize) * third;
    (x0, if slot == 2 {
        screen_x
    } else {
        x0 + third
    })
}

/// The three label slots tile the bar: the first starts at the left edge, each starts where
/// the one before it ends, and the last ends at the right edge.
pub proof fn lemma_label_slots_tile(screen_x: int)
    requires
        screen_x >= 0,
    ensures
        slot_edges(0, screen_x).0 == 0,
        slot_edges(1, screen_x).0 == slot_edges(0, screen_x).1,
        slot_edges(2, screen_x).0 == slot_edges(1, screen_x).1,
        slot_edges(2, screen_x).1 == screen_x,
        slot_edges(0, screen_x).0 <= slot_edges(0, screen_x).1 <= slot_edges(1, screen_x).1
            <= slot_edges(2, screen_x).1,
{
}

// ---------------------------------------------------------------------------------------
// List styles
// ---------------------------------------------------------------------------------------

/// How a list presents its rows; the list screens differ only in what the left gutter
/// carries.
#[derive(Copy, Clone, PartialEq, Eq, Debug, Structural)]
pub enum ListStyle {
    /// No gutter: a row is just a name (passkeys, bookmarks).
    Plain,
    /// Rows numbered from 1, for lists where position is how an item is referred to.
    Numbered,
    /// Rows carrying a persistent choice; the applied one (not the cursor) gets a check mark.
    Select { marked: Option<usize> },
}

/// Which rows a list repaints: all of them, or only the focused one while it scrolls.
#[derive(Copy, Clone, PartialEq, Eq, Debug, Structural)]
pub enum Repaint {
    All,
    FocusedRow,
}

/// The width of a list's gutter: only a check mark needs one.
pub fn gutter_width(style: ListStyle) -> (r: isize)
    ensures
        r == match style {
            ListStyle::Select { .. } => GUTTER_W,
            _ => 0,
        },
{
    match style {
        ListStyle::Select { .. } => GUTTER_W,
        _ => 0,
    }
}

/// Whether row `index` is painted: every row on a full repaint, only the cursor's row while
/// it scrolls.
pub fn row_painted(repaint: Repaint, index: usize, cursor: usize) -> (r: bool)
    ensures
        r == (repaint == Repaint::All || index == cursor),
{
    match repaint {
        Repaint::All => true,
        Repaint::FocusedRow => index == cursor,
    }
}

/// The rows `lo..hi` that a repaint of kind `repaint` paints, in order.
pub open spec fn painted_rows(lo: nat, hi: nat, cursor: nat, repaint: Repaint) -> Seq<usize>
    decreases hi,
{
    if hi <= lo {
        Seq::empty()
    } else {
        let prev = painted_rows(lo, (hi - 1) as nat, cursor, repaint);
        if repaint == Repaint::All || (hi - 1) as nat == cursor {
            prev.push((hi - 1) as usize)
        } else {
            prev
        }
    }
}

/// The rows a list of `len` items with the cursor on row `cursor` paints, `rows` to a screen:
/// the screenful that `first_shown` starts, cut at the end of the list, each row painted by
/// `row_painted`, in order. A full repaint of a list whose cursor is on an item paints that
/// item; a repaint of the focused row paints it alone.
pub fn rows_to_paint(cursor: usize, rows: usize, len: usize, repaint: Repaint) -> (r: Vec<usize>)
    requires
        rows >= 1,
    ensures
        r@ == painted_rows(
            first_shown(cursor as nat, rows as nat),
            if first_shown(cursor as nat, rows as nat) + rows <= len {
                (first_shown(cursor as nat, rows as nat) + rows) as nat
            } else {
                len as nat
            },
            cursor as nat,
            repaint,
        ),
        cursor < len ==> r@.contains(cursor),
        repaint == Repaint::FocusedRow && cursor < len ==> r@ == seq![cursor],
{
    let first = list_first(cursor, rows);
    let end = if rows <= len && first <= len - rows {
        first + rows
    } else {
        len
    };
    let mut v: Vec<usize> = Vec::new();
    let mut i: usize = first;
    if first < end {
        while i < end
            invariant
                first <= i <= end,
                v@ == painted_rows(first as nat, i as nat, cursor as nat, repaint),
                forall|j: int| 0 <= j < v@.len() ==> first <= #[trigger] v@[j] < i,
                first <= cursor < first + rows,
                (cursor < i) ==> v@.contains(cursor) || cursor < first,
                repaint == Repaint::FocusedRow ==> (v@ == if cursor < i { seq![cursor] } else { Seq::<usize>::empty() }),
            decreases end - i,
        {
            if row_painted(repaint, i, cursor) {
                let ghost before = v@;
                v.push(i);
                proof {
                    if cursor < i && before.contains(cursor) {
                        let k = choose|k: int| 0 <= k < before.len() && before[k] == cursor;
                        assert(v@[k] == cursor);
                    } else if cursor == i {
                        assert(v@[v@.len() - 1] == cursor);
                    }
                }
            }
            i += 1;
        }
    }
    proof {
        if cursor < len {
            assert(cursor < end);
            if first >= end {
                assert(false);
            }
        }
    }
    v
}

/// Whether row `index` carries the check mark.
pub fn row_marked(style: ListStyle, index: usize) -> (r: bool)
    ensures
        r == (style == ListStyle::Select { marked: Some(index) }),
{
    match style {
        ListStyle::Select { marked: Some(m) } => m == index,
        _ => false,
    }
}

/// How row `index` of a `Numbered` list is cut: the cursor's row of a scrolling list scrolls,
/// the other rows of a scrolling list are clipped, and a list that does not scroll cuts with
/// an ellipsis.
pub fn numbered_cut(scroll: Option<u64>, index: usize, cursor: usize) -> (r: RowCut)
    ensures
        r == match scroll {
            Some(held) => if index == cursor {
                RowCut::Scroll(held)
            } else {
                RowCut::Clip
            },
            None => RowCut::Fit,
        },
{
    match scroll {
        Some(held) => if index == cursor {
            RowCut::Scroll(held)
        } else {
            RowCut::Clip
        },
        None => RowCut::Fit,
    }
}

// ---------------------------------------------------------------------------------------
// Font choice
// ---------------------------------------------------------------------------------------

/// The glyph styles a user can pick for the lists.
#[derive(Copy, Clone, PartialEq, Eq, Debug, Structural)]
pub enum FontStyle {
    Regular,
    Tall,
    Monospace,
    Cjk,
    Bold,
    Large,
    Small,
}

/// The style stored under the name `name`, if `name` is one of the seven style names.
pub open spec fn style_named(name: Seq<char>) -> Option<FontStyle> {
    if name == "regular"@ {
        Some(FontStyle::Regular)
    } else if name == "tall"@ {
        Some(FontStyle::Tall)
    } else if name == "mono"@ {
        Some(FontStyle::Monospace)
    } else if name == "cjk"@ {
        Some(FontStyle::Cjk)
    } else if name == "bold"@ {
        Some(FontStyle::Bold)
    } else if name == "large"@ {
        Some(FontStyle::Large)
    } else if name == "small"@ {
        Some(FontStyle::Small)
    } else {
        None
    }
}

/// The style named `name`; see `style_named`.
pub fn name_to_style(name: &str) -> (r: Option<FontStyle>)
    ensures
        r == style_named(name@),
{
    if crate::storage::const_str_eq(name, "regular") {
        Some(FontStyle::Regular)
    } else if crate::storage::const_str_eq(name, "tall") {
        Some(FontStyle::Tall)
    } else if crate::storage::const_str_eq(name, "mono") {
        Some(FontStyle::Monospace)
    } else if crate::storage::const_str_eq(name, "cjk") {
        Some(FontStyle::Cjk)
    } else if crate::storage::const_str_eq(name, "bold") {
        Some(FontStyle::Bold)
    } else if crate::storage::const_str_eq(name, "large") {
        Some(FontStyle::Large)
    } else if crate::storage::const_str_eq(name, "small") {
        Some(FontStyle::Small)
    } else {
        None
    }
}

} // verus!
