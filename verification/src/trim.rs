//! Backscroll-aware history trimming.
//!
//! A raw terminal byte stream is scanned from its end towards its start while
//! visual lines are counted; the scan stops once a budget of lines is met and
//! the position it stopped at is where the kept suffix begins.

use vstd::prelude::*;
use vstd::slice::slice_subrange;
use vstd::string::StrSliceExecFns;
use vstd::string::StringSliceAdditionalSpecFns;
use vstd::utf8::decode_utf8;
use vstd::utf8::encode_utf8_decode_utf8;
use vstd::utf8::is_char_boundary;
use vstd::utf8::is_char_boundary_iff_not_is_continuation_byte;
use vstd::utf8::is_char_boundary_start_end_of_seq;
use vstd::utf8::is_continuation_byte;
use vstd::utf8::valid_utf8;

verus! {

/// Lines kept beyond the viewport and its scrollback, to cover redraws of an
/// alternate screen.
pub const SAFETY_MARGIN: u64 = 50;

/// The byte that ends a line.
pub const LINE_FEED: u8 = 0x0a;

/// The byte that begins an escape sequence.
pub const ESCAPE: u8 = 0x1b;

/// The byte `m`, which ends a graphic-rendition escape.
pub const SGR_FINAL: u8 = 0x6d;

/// The byte `[`, which follows the escape byte in a graphic-rendition escape.
pub const SGR_INTRO: u8 = 0x5b;

/// State of the backward scan: the scan has accounted for `buf[pos..]`, has
/// counted `lines` visual lines in it, and stands `col` columns away from the
/// nearest line break it knows of.
pub struct Scan {
    pub pos: int,
    pub lines: nat,
    pub col: nat,
}

/// True of the printable ASCII bytes, which take one column each.
pub open spec fn is_printable(b: u8) -> bool {
    0x20 <= b <= 0x7e
}

/// Start of the run that ends at `i`: the nearest index at or left of `i`
/// whose byte is not a continuation byte, or 0 if there is none.
pub open spec fn glyph_start(buf: Seq<u8>, i: int) -> int
    decreases i,
{
    if 0 < i < buf.len() && is_continuation_byte(buf[i]) {
        glyph_start(buf, i - 1)
    } else {
        i
    }
}

/// The character a run of bytes stands for: its first code point when the
/// run is well-formed UTF-8, a space otherwise.
pub open spec fn glyph_char(bytes: Seq<u8>) -> char {
    if valid_utf8(bytes) && decode_utf8(bytes).len() > 0 {
        decode_utf8(bytes)[0]
    } else {
        ' '
    }
}

/// Displayed width of a character in columns as the Unicode width tables
/// give it; `None` for a control character.
pub uninterp spec fn char_columns(c: char) -> Option<usize>;

/// Columns by which a character of the given width moves the scan; a
/// character without a width counts as one column.
pub open spec fn width_or_one(width: Option<usize>) -> nat {
    match width {
        Some(w) => w as nat,
        None => 1,
    }
}

/// Columns taken by the glyph that a run of bytes stands for.
pub open spec fn glyph_columns(bytes: Seq<u8>) -> nat {
    width_or_one(char_columns(glyph_char(bytes)))
}

/// Index of the last `m` in `buf[..=i]`, if there is one.
pub open spec fn last_final_upto(buf: Seq<u8>, i: int) -> Option<int>
    decreases i + 1,
{
    if i < 0 || i >= buf.len() {
        None
    } else if buf[i] == SGR_FINAL {
        Some(i)
    } else {
        last_final_upto(buf, i - 1)
    }
}

/// Scan state after a glyph of `width` columns was met at `start`.
pub open spec fn after_glyph(s: Scan, start: int, width: nat, cols: nat) -> Scan {
    if s.col + width >= cols {
        Scan { pos: start, lines: s.lines + 1, col: (s.col + width - cols) as nat }
    } else {
        Scan { pos: start, lines: s.lines, col: s.col + width }
    }
}

/// One step of the backward scan, which looks at the byte left of `s.pos`.
pub open spec fn scan_step(buf: Seq<u8>, cols: nat, s: Scan) -> Scan
    recommends
        0 < s.pos <= buf.len(),
{
    let i = s.pos - 1;
    let b = buf[i];
    if b == LINE_FEED {
        Scan { pos: i, lines: s.lines + 1, col: 0 }
    } else if is_printable(b) {
        if s.col + 1 == cols {
            Scan { pos: i, lines: s.lines + 1, col: 0 }
        } else {
            Scan { pos: i, lines: s.lines, col: s.col + 1 }
        }
    } else if b >= 0x80 {
        let start = glyph_start(buf, i);
        after_glyph(s, start, glyph_columns(buf.subrange(start, i + 1)), cols)
    } else if b == ESCAPE {
        match last_final_upto(buf, i) {
            Some(p) => Scan { pos: if p > 0 { p - 1 } else { 0 }, lines: s.lines, col: s.col },
            None => Scan { pos: i, lines: s.lines, col: s.col },
        }
    } else {
        Scan { pos: i, lines: s.lines, col: s.col }
    }
}

/// True while the scan goes on: bytes are left and the budget is not met.
pub open spec fn scan_continues(buf: Seq<u8>, max_lines: nat, s: Scan) -> bool {
    0 < s.pos <= buf.len() && s.lines < max_lines
}

/// State in which the scan that starts in `s` comes to rest. Every step
/// moves left ([`lemma_scan_step`]), so the inner test never fails; it is
/// there for the definition's termination.
pub open spec fn scan(buf: Seq<u8>, cols: nat, max_lines: nat, s: Scan) -> Scan
    decreases s.pos,
{
    if scan_continues(buf, max_lines, s) {
        let t = scan_step(buf, cols, s);
        if 0 <= t.pos < s.pos {
            scan(buf, cols, max_lines, t)
        } else {
            s
        }
    } else {
        s
    }
}

/// State in which every scan starts: at the end of the buffer.
pub open spec fn scan_origin(buf: Seq<u8>) -> Scan {
    Scan { pos: buf.len() as int, lines: 0, col: 0 }
}

/// Offset at which the kept suffix of `buf` begins for a budget of
/// `max_lines` visual lines on a terminal `cols` wide.
pub open spec fn trim_offset(buf: Seq<u8>, cols: nat, max_lines: nat) -> int {
    scan(buf, cols, max_lines, scan_origin(buf)).pos
}

/// Visual lines that the backward scan counts in the whole of `buf`.
pub open spec fn visual_lines(buf: Seq<u8>, cols: nat) -> nat {
    scan(buf, cols, buf.len() + 1, scan_origin(buf)).lines
}

/// True when `p` does not point into the middle of a code point: it is an end
/// of the buffer or the byte there is no continuation byte.
pub open spec fn on_glyph_boundary(buf: Seq<u8>, p: int) -> bool {
    p == 0 || p == buf.len() || (0 < p < buf.len() && !is_continuation_byte(buf[p]))
}

/// Budget of visual lines for a viewport of `rows` rows with `scrollback`
/// lines above it.
pub open spec fn line_budget(rows: u16, scrollback: u32) -> nat {
    (rows as nat) + (scrollback as nat) + (SAFETY_MARGIN as nat)
}

/// The start of a run lies at or left of its end, is the start of the
/// buffer or no continuation byte, and has only continuation bytes after it.
pub proof fn lemma_glyph_start(buf: Seq<u8>, i: int)
    requires
        0 <= i < buf.len(),
    ensures
        0 <= glyph_start(buf, i) <= i,
        glyph_start(buf, i) == 0 || !is_continuation_byte(buf[glyph_start(buf, i)]),
        forall|k: int| glyph_start(buf, i) < k <= i ==> is_continuation_byte(#[trigger] buf[k]),
    decreases i,
{
    if 0 < i && is_continuation_byte(buf[i]) {
        lemma_glyph_start(buf, i - 1);
    }
}

/// What [`last_final_upto`] finds is an `m` with no `m` between it and `i`,
/// and it finds one whenever there is one.
pub proof fn lemma_last_final_upto(buf: Seq<u8>, i: int)
    requires
        -1 <= i < buf.len(),
    ensures
        match last_final_upto(buf, i) {
            Some(p) => 0 <= p <= i && buf[p] == SGR_FINAL && forall|k: int|
                p < k <= i ==> #[trigger] buf[k] != SGR_FINAL,
            None => forall|k: int| 0 <= k <= i ==> #[trigger] buf[k] != SGR_FINAL,
        },
    decreases i + 1,
{
    if i >= 0 && buf[i] != SGR_FINAL {
        lemma_last_final_upto(buf, i - 1);
    }
}

/// A step moves the scan left, counts at most one line, and counts one only
/// at a line feed, a printable byte or the start of a glyph.
pub proof fn lemma_scan_step(buf: Seq<u8>, cols: nat, s: Scan)
    requires
        0 < s.pos <= buf.len(),
    ensures
        0 <= scan_step(buf, cols, s).pos < s.pos,
        s.lines <= scan_step(buf, cols, s).lines <= s.lines + 1,
        scan_step(buf, cols, s).lines == s.lines + 1 ==> on_glyph_boundary(
            buf,
            scan_step(buf, cols, s).pos,
        ),
{
    let i = s.pos - 1;
    lemma_glyph_start(buf, i);
    lemma_last_final_upto(buf, i);
}

/// The scan state `s` as seen from the suffix that starts at `from`.
pub open spec fn rebase(s: Scan, from: int) -> Scan {
    Scan { pos: s.pos - from, lines: s.lines, col: s.col }
}

/// True when `buf[esc..=fin]` is one whole graphic-rendition escape: the
/// escape byte, `[`, parameters made of digits and `;`, and the final `m`.
pub open spec fn is_sgr(buf: Seq<u8>, esc: int, fin: int) -> bool {
    &&& 0 <= esc
    &&& esc + 2 <= fin < buf.len()
    &&& buf[esc] == ESCAPE
    &&& buf[esc + 1] == SGR_INTRO
    &&& buf[fin] == SGR_FINAL
    &&& forall|k: int| esc + 2 <= k < fin ==> is_sgr_parameter(#[trigger] buf[k])
}

/// True of the bytes that make up the parameters of an escape: digits and `;`.
pub open spec fn is_sgr_parameter(b: u8) -> bool {
    (0x30 <= b <= 0x39) || b == 0x3b
}

/// True when a cut at `p` would part a graphic-rendition escape: some escape
/// begins left of `p` and ends at or right of it.
pub open spec fn inside_sgr(buf: Seq<u8>, p: int) -> bool {
    exists|esc: int, fin: int| is_sgr(buf, esc, fin) && esc < p <= fin
}

/// The scan never moves right, never leaves the buffer, and never counts more
/// lines than its budget.
pub proof fn lemma_scan_bounds(buf: Seq<u8>, cols: nat, max_lines: nat, s: Scan)
    requires
        0 <= s.pos <= buf.len(),
    ensures
        0 <= scan(buf, cols, max_lines, s).pos <= s.pos,
        s.lines <= scan(buf, cols, max_lines, s).lines,
        s.lines <= max_lines ==> scan(buf, cols, max_lines, s).lines <= max_lines,
        scan(buf, cols, max_lines, s).pos > 0 ==> scan(buf, cols, max_lines, s).lines
            >= max_lines,
        s.lines < max_lines || on_glyph_boundary(buf, s.pos) ==> on_glyph_boundary(
            buf,
            scan(buf, cols, max_lines, s).pos,
        ),
    decreases s.pos,
{
    if scan_continues(buf, max_lines, s) {
        lemma_scan_step(buf, cols, s);
        lemma_scan_bounds(buf, cols, max_lines, scan_step(buf, cols, s));
    }
}

proof fn lemma_glyph_start_in_suffix(buf: Seq<u8>, from: int, i: int)
    requires
        0 <= from <= glyph_start(buf, i),
        from <= i < buf.len(),
    ensures
        glyph_start(buf.subrange(from, buf.len() as int), i - from) == glyph_start(buf, i) - from,
    decreases i,
{
    let tail = buf.subrange(from, buf.len() as int);
    lemma_glyph_start(buf, i);
    if i > from {
        assert(tail[i - from] == buf[i]);
        if is_continuation_byte(buf[i]) {
            lemma_glyph_start_in_suffix(buf, from, i - 1);
        }
    }
}

proof fn lemma_last_final_in_suffix(buf: Seq<u8>, from: int, i: int)
    requires
        0 <= from,
        from - 1 <= i < buf.len(),
    ensures
        last_final_upto(buf.subrange(from, buf.len() as int), i - from) == match last_final_upto(
            buf,
            i,
        ) {
            Some(p) => if p >= from {
                Some(p - from)
            } else {
                None
            },
            None => None,
        },
    decreases i + 1,
{
    let tail = buf.subrange(from, buf.len() as int);
    lemma_last_final_upto(buf, i);
    if i >= from {
        assert(tail[i - from] == buf[i]);
        if buf[i] != SGR_FINAL {
            lemma_last_final_in_suffix(buf, from, i - 1);
        }
    }
}

/// A step that stays within the suffix `buf[from..]` is the same step when
/// the scan runs on that suffix alone.
proof fn lemma_step_in_suffix(buf: Seq<u8>, cols: nat, s: Scan, from: int)
    requires
        0 <= from < s.pos <= buf.len(),
        from <= scan_step(buf, cols, s).pos,
    ensures
        scan_step(buf.subrange(from, buf.len() as int), cols, rebase(s, from)) == rebase(
            scan_step(buf, cols, s),
            from,
        ),
{
    let tail = buf.subrange(from, buf.len() as int);
    let i = s.pos - 1;
    assert(tail[i - from] == buf[i]);
    lemma_glyph_start(buf, i);
    lemma_last_final_upto(buf, i);
    if buf[i] >= 0x80 {
        let start = glyph_start(buf, i);
        lemma_glyph_start_in_suffix(buf, from, i);
        assert(tail.subrange(start - from, i - from + 1) == buf.subrange(start, i + 1));
    } else if buf[i] == ESCAPE {
        lemma_last_final_in_suffix(buf, from, i);
    }
}

/// The scan of `buf` that comes to rest at `from` counts the lines that an
/// unbounded scan counts in `buf[from..]`.
proof fn lemma_scan_in_suffix(
    buf: Seq<u8>,
    cols: nat,
    max_lines: nat,
    s: Scan,
    from: int,
    unbounded: nat,
)
    requires
        0 <= s.pos <= buf.len(),
        from == scan(buf, cols, max_lines, s).pos,
        s.lines + (s.pos - from) < unbounded,
    ensures
        scan(buf.subrange(from, buf.len() as int), cols, unbounded, rebase(s, from)) == rebase(
            scan(buf, cols, max_lines, s),
            from,
        ),
    decreases s.pos,
{
    let tail = buf.subrange(from, buf.len() as int);
    lemma_scan_bounds(buf, cols, max_lines, s);
    if scan_continues(buf, max_lines, s) {
        let t = scan_step(buf, cols, s);
        lemma_scan_step(buf, cols, s);
        lemma_scan_bounds(buf, cols, max_lines, t);
        lemma_step_in_suffix(buf, cols, s, from);
        lemma_scan_in_suffix(buf, cols, max_lines, t, from, unbounded);
        assert(scan_continues(tail, unbounded, rebase(s, from)));
    }
}

/// Where the scan stops and what it leaves.
///
/// The offset lies within the buffer and does not split a code point. The
/// suffix kept from it holds no more visual lines than the budget, and holds
/// exactly the budget whenever anything is cut off.
pub proof fn lemma_trim_offset(buf: Seq<u8>, cols: nat, max_lines: nat)
    ensures
        0 <= trim_offset(buf, cols, max_lines) <= buf.len(),
        on_glyph_boundary(buf, trim_offset(buf, cols, max_lines)),
        visual_lines(buf.subrange(trim_offset(buf, cols, max_lines), buf.len() as int), cols)
            <= max_lines,
        trim_offset(buf, cols, max_lines) > 0 ==> visual_lines(
            buf.subrange(trim_offset(buf, cols, max_lines), buf.len() as int),
            cols,
        ) == max_lines,
{
    let from = trim_offset(buf, cols, max_lines);
    let tail = buf.subrange(from, buf.len() as int);
    lemma_scan_bounds(buf, cols, max_lines, scan_origin(buf));
    lemma_scan_in_suffix(buf, cols, max_lines, scan_origin(buf), from, tail.len() + 1);
    assert(rebase(scan_origin(buf), from) == scan_origin(tail));
}

/// In well-formed UTF-8 a glyph boundary is a character boundary.
pub proof fn lemma_boundary_in_utf8(buf: Seq<u8>, p: int)
    requires
        valid_utf8(buf),
        0 <= p <= buf.len(),
        on_glyph_boundary(buf, p),
    ensures
        is_char_boundary(buf, p),
{
    is_char_boundary_start_end_of_seq(buf);
    if 0 < p < buf.len() {
        is_char_boundary_iff_not_is_continuation_byte(buf, p);
    }
}

/// A cut at a line feed, at a byte outside the printable range or at an end
/// of the buffer parts no graphic-rendition escape: every byte of an escape
/// after its first is printable.
pub proof fn lemma_cut_outside_sgr(buf: Seq<u8>, p: int)
    requires
        0 <= p <= buf.len(),
        p < buf.len() ==> !is_printable(buf[p]),
    ensures
        !inside_sgr(buf, p),
{
    assert forall|esc: int, fin: int| is_sgr(buf, esc, fin) && esc < p <= fin implies false by {
        if p == esc + 1 {
        } else if p == fin {
        } else {
            assert(is_sgr_parameter(buf[p]));
        }
    }
}

/// Bytes of one code point as text, when they are well-formed.
///
/// Calls `std::str::from_utf8`: the text is returned exactly when the bytes
/// are valid UTF-8, and it is made of those bytes.
#[verifier::external_body]
fn utf8_text(bytes: &[u8]) -> (res: Option<&str>)
    ensures
        res is Some <==> valid_utf8(bytes@),
        res matches Some(s) ==> s.spec_bytes() == bytes@,
{
    std::str::from_utf8(bytes).ok()
}

/// Displayed width of a character.
///
/// Calls `unicode_width::UnicodeWidthChar::width`; the result is whatever its
/// tables hold for the character, known here only by name.
#[verifier::external_body]
fn char_width(c: char) -> (w: Option<usize>)
    ensures
        w == char_columns(c),
{
    unicode_width::UnicodeWidthChar::width(c)
}

/// Last position of a byte in a slice.
///
/// Calls `memchr::memrchr`: the index of the last occurrence of `needle`, or
/// `None` when it does not occur.
#[verifier::external_body]
fn last_position(needle: u8, haystack: &[u8]) -> (res: Option<usize>)
    ensures
        match res {
            Some(p) => p < haystack@.len() && haystack@[p as int] == needle && forall|k: int|
                p < k < haystack@.len() ==> #[trigger] haystack@[k] != needle,
            None => forall|k: int| 0 <= k < haystack@.len() ==> #[trigger] haystack@[k] != needle,
        },
{
    memchr::memrchr(needle, haystack)
}

/// Columns taken by the glyph that `bytes` stands for.
fn glyph_width(bytes: &[u8]) -> (w: Option<usize>)
    ensures
        w == char_columns(glyph_char(bytes@)),
{
    let ch: char = match utf8_text(bytes) {
        Some(s) => {
            proof {
                encode_utf8_decode_utf8(s@);
            }
            if s.is_empty() {
                ' '
            } else {
                s.get_char(0)
            }
        },
        None => ' ',
    };
    char_width(ch)
}

/// Places a glyph of the given width after `col` columns on a line `cols`
/// wide: whether a visual line was completed, and the column the scan is at
/// afterwards. A glyph that reaches or crosses the margin completes the line
/// and carries the excess over.
pub fn place_glyph(col: u128, width: Option<usize>, cols: u16) -> (res: (bool, u128))
    requires
        col + width_or_one(width) <= u128::MAX,
    ensures
        res.0 == (col + width_or_one(width) >= cols),
        res.1 == if res.0 {
            col + width_or_one(width) - cols
        } else {
            col + width_or_one(width)
        },
{
    let w: usize = match width {
        Some(w) => w,
        None => 1,
    };
    let reached: u128 = col + w as u128;
    if reached >= cols as u128 {
        (true, reached - cols as u128)
    } else {
        (false, reached)
    }
}

/// Index where the run of continuation bytes that ends at `i` begins.
fn find_glyph_start(buf: &[u8], i: usize) -> (start: usize)
    requires
        i < buf@.len(),
    ensures
        start == glyph_start(buf@, i as int),
{
    let mut start: usize = i;
    while start > 0 && buf[start] >= 0x80 && buf[start] <= 0xbf
        invariant
            start <= i < buf@.len(),
            glyph_start(buf@, start as int) == glyph_start(buf@, i as int),
        decreases start,
    {
        start -= 1;
    }
    start
}

/// The backward scan itself, for a budget of any size.
fn scan_back(buf: &[u8], cols: u16, max_lines: u64) -> (start: usize)
    ensures
        start == trim_offset(buf@, cols as nat, max_lines as nat),
        start <= buf@.len(),
{
    let mut lines: u64 = 0;
    let mut col: u128 = 0;
    let mut i: usize = buf.len();
    while i > 0 && lines < max_lines
        invariant
            i <= buf@.len(),
            col <= (buf@.len() - i) * 0xffff_ffff_ffff_ffff,
            scan(buf@, cols as nat, max_lines as nat, scan_origin(buf@)) == scan(
                buf@,
                cols as nat,
                max_lines as nat,
                Scan { pos: i as int, lines: lines as nat, col: col as nat },
            ),
        decreases i,
    {
        let ghost before = Scan { pos: i as int, lines: lines as nat, col: col as nat };
        proof {
            lemma_scan_step(buf@, cols as nat, before);
        }
        i -= 1;
        let b: u8 = buf[i];
        if b == LINE_FEED {
            lines += 1;
            col = 0;
        } else if b >= 0x20 && b <= 0x7e {
            col += 1;
            if col == cols as u128 {
                lines += 1;
                col = 0;
            }
        } else if b >= 0x80 {
            let start: usize = find_glyph_start(buf, i);
            proof {
                lemma_glyph_start(buf@, i as int);
            }
            let width: Option<usize> = glyph_width(slice_subrange(buf, start, i + 1));
            let placed: (bool, u128) = place_glyph(col, width, cols);
            if placed.0 {
                lines += 1;
            }
            col = placed.1;
            i = start;
        } else if b == ESCAPE {
            proof {
                lemma_last_final_upto(buf@, i as int);
            }
            let ghost upto = i as int;
            match last_position(SGR_FINAL, slice_subrange(buf, 0, i + 1)) {
                Some(p) => {
                    assert(buf@.subrange(0, upto + 1)[p as int] == buf@[p as int]);
                    assert(last_final_upto(buf@, upto) == Some(p as int)) by {
                        let q = last_final_upto(buf@, upto);
                        if q is Some && q->0 > p {
                            assert(buf@.subrange(0, upto + 1)[q->0] == buf@[q->0]);
                        }
                    }
                    i = if p > 0 {
                        p - 1
                    } else {
                        0
                    };
                },
                None => {
                    assert(last_final_upto(buf@, upto) is None) by {
                        let q = last_final_upto(buf@, upto);
                        if q is Some {
                            assert(buf@.subrange(0, upto + 1)[q->0] == buf@[q->0]);
                        }
                    }
                },
            }
        }
        assert(Scan { pos: i as int, lines: lines as nat, col: col as nat } == scan_step(
            buf@,
            cols as nat,
            before,
        ));
    }
    i
}

/// Offset at which to cut `buf` so that what is left holds the last
/// `max_lines` visual lines on a terminal `cols` columns wide.
///
/// The buffer is scanned from its end. A line feed counts a line; a printable
/// byte takes one column and counts a line when it fills the row; a run of
/// non-ASCII bytes is taken as one glyph of its Unicode width, which counts a
/// line when it reaches or crosses the margin; at an escape byte the scan
/// jumps to just before the nearest `m` on its left; other bytes take no
/// room. The scan stops when the budget is met or the buffer is used up.
pub fn buf_trim(buf: &[u8], cols: u16, max_lines: u32) -> (start: usize)
    ensures
        start == trim_offset(buf@, cols as nat, max_lines as nat),
        start <= buf@.len(),
        on_glyph_boundary(buf@, start as int),
        visual_lines(buf@.subrange(start as int, buf@.len() as int), cols as nat) <= max_lines,
        start > 0 ==> visual_lines(buf@.subrange(start as int, buf@.len() as int), cols as nat)
            == max_lines,
{
    proof {
        lemma_trim_offset(buf@, cols as nat, max_lines as nat);
    }
    scan_back(buf, cols, max_lines as u64)
}

/// Offset at which to cut `buf` before it is sent to a viewer whose terminal
/// has `rows` rows and `cols` columns and keeps `scrollback` lines: the scan
/// of [`buf_trim`] with a budget of `rows + scrollback + 50` lines.
pub fn scrollback_lines(buf: &[u8], rows: u16, cols: u16, scrollback: u32) -> (start: usize)
    ensures
        start == trim_offset(buf@, cols as nat, line_budget(rows, scrollback)),
        start <= buf@.len(),
        on_glyph_boundary(buf@, start as int),
        visual_lines(buf@.subrange(start as int, buf@.len() as int), cols as nat) <= line_budget(
            rows,
            scrollback,
        ),
        start > 0 ==> visual_lines(buf@.subrange(start as int, buf@.len() as int), cols as nat)
            == line_budget(rows, scrollback),
{
    proof {
        lemma_trim_offset(buf@, cols as nat, line_budget(rows, scrollback));
    }
    scan_back(buf, cols, rows as u64 + scrollback as u64 + SAFETY_MARGIN)
}

} // verus!
