//! How many terminal rows a word-wrapped footer line takes. Words are packed
//! onto rows by their own widths, the spaces between them not counted, and a
//! word that does not fit after what its row holds opens a new row.

use unicode_width::UnicodeWidthStr;
use vstd::prelude::*;

use crate::declarations::strs;
use crate::text::{chars_of, is_whitespace, is_ws};

verus! {

/// One grapheme of a line: how many columns it takes, and whether it is
/// whitespace.
#[derive(Debug, Clone, Copy, PartialEq, Eq, Structural)]
pub struct Grapheme {
    /// Its display width in columns.
    pub width: u16,
    /// Whether every character of it is whitespace.
    pub whitespace: bool,
}

/// The measure's running state: rows opened, the width of the words placed
/// on the current row, and the width of the word being read.
pub struct WrapState {
    /// Rows opened so far.
    pub rows: int,
    /// Width of the words already placed on the current row.
    pub row: int,
    /// Width of the word being read.
    pub word: int,
}

/// The width the line is wrapped at: at least one column.
pub open spec fn effective_width(width: u16) -> int {
    if width == 0 {
        1
    } else {
        width as int
    }
}

/// Whether placing the pending word would overflow a row that already holds
/// something.
pub open spec fn overflows(s: WrapState, w: int) -> bool {
    s.row > 0 && s.row + s.word > w
}

/// Read one grapheme. One wider than the line is skipped. Whitespace places
/// the word read so far — on a new row if it would overflow a non-empty one —
/// and is not counted itself; anything else extends the word.
pub open spec fn wrap_step(s: WrapState, g: Grapheme, w: int) -> WrapState {
    if g.width > w {
        s
    } else if g.whitespace {
        if s.word > 0 {
            if overflows(s, w) {
                WrapState { rows: s.rows + 1, row: s.word, word: 0 }
            } else {
                WrapState { rows: s.rows, row: s.row + s.word, word: 0 }
            }
        } else {
            s
        }
    } else {
        WrapState { word: s.word + g.width, ..s }
    }
}

/// The state after reading all of `gs`.
pub open spec fn wrap_run(gs: Seq<Grapheme>, w: int) -> WrapState
    decreases gs.len(),
{
    if gs.len() == 0 {
        WrapState { rows: 1, row: 0, word: 0 }
    } else {
        wrap_step(wrap_run(gs.drop_last(), w), gs.last(), w)
    }
}

/// How many rows `gs` takes at `width`: the rows opened, and one more if the
/// last word does not fit after what its row holds.
pub open spec fn wrapped_rows(gs: Seq<Grapheme>, width: u16) -> int {
    let w = effective_width(width);
    let s = wrap_run(gs, w);
    if s.word > 0 && overflows(s, w) {
        s.rows + 1
    } else {
        s.rows
    }
}

/// Whether reading `g` in state `s` keeps every sum the measure forms within
/// a `u16`.
pub open spec fn step_fits(s: WrapState, g: Grapheme, w: int) -> bool {
    if g.width > w {
        true
    } else if g.whitespace {
        s.word > 0 ==> s.row + s.word <= u16::MAX
    } else {
        s.word + g.width <= u16::MAX
    }
}

/// Whether measuring `gs` keeps every sum within a `u16`: the inputs on which
/// the measure is defined.
pub open spec fn wrap_fits(gs: Seq<Grapheme>, width: u16) -> bool
    decreases gs.len(),
{
    let w = effective_width(width);
    if gs.len() == 0 {
        true
    } else {
        wrap_fits(gs.drop_last(), width) && step_fits(wrap_run(gs.drop_last(), w), gs.last(), w)
    }
}

/// The final overflow test's sum fits too.
pub open spec fn line_fits(gs: Seq<Grapheme>, width: u16) -> bool {
    let s = wrap_run(gs, effective_width(width));
    &&& wrap_fits(gs, width)
    &&& (s.word > 0 && s.row > 0 ==> s.row + s.word <= u16::MAX)
}

/// The state stays in range: non-negative widths, and at least one row.
proof fn lemma_run_bounds(gs: Seq<Grapheme>, width: u16)
    requires
        wrap_fits(gs, width),
    ensures
        wrap_run(gs, effective_width(width)).rows >= 1,
        wrap_run(gs, effective_width(width)).rows <= gs.len() + 1,
        0 <= wrap_run(gs, effective_width(width)).row <= u16::MAX,
        0 <= wrap_run(gs, effective_width(width)).word <= u16::MAX,
    decreases gs.len(),
{
    if gs.len() > 0 {
        lemma_run_bounds(gs.drop_last(), width);
    }
}

/// The number of terminal rows `line` occupies when wrapped at `width`.
pub fn wrapped_line_height(line: &[Grapheme], width: u16) -> (r: usize)
    requires
        line_fits(line@, width),
        line@.len() < usize::MAX - 1,
    ensures
        r == wrapped_rows(line@, width),
{
    let wrap_at = if width == 0 {
        1
    } else {
        width
    };
    let ghost w = wrap_at as int;
    let mut rows: usize = 1;
    let mut row_width: u16 = 0;
    let mut word_width: u16 = 0;
    let mut i: usize = 0;
    while i < line.len()
        invariant
            i <= line@.len(),
            w == effective_width(width),
            w == wrap_at,
            line_fits(line@, width),
            line@.len() < usize::MAX - 1,
            wrap_run(line@.take(i as int), w) == (WrapState {
                rows: rows as int,
                row: row_width as int,
                word: word_width as int,
            }),
            rows <= i + 1,
        decreases line@.len() - i,
    {
        proof {
            let pre = line@.take(i + 1);
            assert(pre.drop_last() =~= line@.take(i as int));
            assert(pre.last() == line@[i as int]);
            lemma_fits_prefix(line@, width, i + 1);
        }
        let g = line[i];
        if g.width > wrap_at {
        } else if g.whitespace {
            if word_width > 0 {
                if row_width > 0 && row_width + word_width > wrap_at {
                    rows += 1;
                    row_width = 0;
                }
                row_width = row_width + word_width;
                word_width = 0;
            }
        } else {
            word_width = word_width + g.width;
        }
        i += 1;
    }
    assert(line@.take(line@.len() as int) =~= line@);
    if word_width > 0 && row_width > 0 && row_width + word_width > wrap_at {
        rows += 1;
    }
    rows
}

/// A prefix of a line that fits fits too, and so does its last step.
proof fn lemma_fits_prefix(gs: Seq<Grapheme>, width: u16, n: int)
    requires
        wrap_fits(gs, width),
        0 < n <= gs.len(),
    ensures
        wrap_fits(gs.take(n), width),
        step_fits(
            wrap_run(gs.take(n - 1), effective_width(width)),
            gs[n - 1],
            effective_width(width),
        ),
    decreases gs.len() - n,
{
    if n == gs.len() {
        assert(gs.take(n) =~= gs);
    } else {
        lemma_fits_prefix(gs, width, n + 1);
        assert(gs.take(n + 1).drop_last() =~= gs.take(n));
    }
    let pre = gs.take(n);
    assert(wrap_fits(pre, width));
    assert(pre.drop_last() =~= gs.take(n - 1));
    assert(pre.last() == gs[n - 1]);
    assert(step_fits(wrap_run(pre.drop_last(), effective_width(width)), pre.last(), effective_width(width)));
}


/// The rows all of `lines` take at `width`.
pub open spec fn total_rows(lines: Seq<Vec<Grapheme>>, width: u16) -> int
    decreases lines.len(),
{
    if lines.len() == 0 {
        0
    } else {
        total_rows(lines.drop_last(), width) + wrapped_rows(lines.last()@, width)
    }
}

/// Row counts are never negative.
proof fn lemma_total_nonneg(lines: Seq<Vec<Grapheme>>, width: u16)
    requires
        forall|i: int| 0 <= i < lines.len() ==> line_fits(#[trigger] lines[i]@, width),
    ensures
        total_rows(lines, width) >= 0,
    decreases lines.len(),
{
    if lines.len() > 0 {
        lemma_total_nonneg(lines.drop_last(), width);
        lemma_run_bounds(lines.last()@, width);
    }
}

/// Row counts are positive, so a longer list never takes fewer rows.
proof fn lemma_total_grows(lines: Seq<Vec<Grapheme>>, width: u16, n: int)
    requires
        0 <= n <= lines.len(),
        forall|i: int| 0 <= i < lines.len() ==> line_fits(#[trigger] lines[i]@, width),
    ensures
        0 <= total_rows(lines.take(n), width) <= total_rows(lines, width),
    decreases lines.len() - n,
{
    if n < lines.len() {
        lemma_total_grows(lines, width, n + 1);
        assert(lines.take(n + 1).drop_last() =~= lines.take(n));
        assert(lines.take(n + 1).last() == lines[n]);
        lemma_run_bounds(lines[n]@, width);
    } else {
        assert(lines.take(n) =~= lines);
    }
    lemma_total_nonneg(lines.take(n), width);
}

/// The number of terminal rows the wrapped footer `lines` occupy at `width`,
/// saturating at the largest row count a terminal can report.
pub fn rendered_height(lines: &[Vec<Grapheme>], width: u16) -> (r: u16)
    requires
        forall|i: int|
            0 <= i < lines@.len() ==> line_fits(#[trigger] lines@[i]@, width) && lines@[i]@.len()
                < usize::MAX - 1,
        total_rows(lines@, width) <= usize::MAX,
    ensures
        r == if total_rows(lines@, width) < u16::MAX {
            total_rows(lines@, width)
        } else {
            u16::MAX as int
        },
{
    let mut total: usize = 0;
    let mut i: usize = 0;
    while i < lines.len()
        invariant
            i <= lines@.len(),
            forall|j: int|
                0 <= j < lines@.len() ==> line_fits(#[trigger] lines@[j]@, width) && lines@[j]@.len()
                    < usize::MAX - 1,
            total_rows(lines@, width) <= usize::MAX,
            total == total_rows(lines@.take(i as int), width),
        decreases lines@.len() - i,
    {
        proof {
            assert(lines@.take(i + 1).drop_last() =~= lines@.take(i as int));
            assert(lines@.take(i + 1).last() == lines@[i as int]);
            lemma_total_grows(lines@, width, i + 1);
        }
        let h = wrapped_line_height(lines[i].as_slice(), width);
        total = total + h;
        i += 1;
    }
    assert(lines@.take(lines@.len() as int) =~= lines@);
    if total < 65535 {
        total as u16
    } else {
        65535
    }
}


/// The display width in columns `unicode-width` gives a string.
pub uninterp spec fn text_width(s: Seq<char>) -> nat;

/// Wraps `UnicodeWidthStr::width` of `unicode-width`, the display width of a
/// string in columns with ambiguous characters one column wide. Nothing is
/// claimed of it but that it is a function of the string: its tables are the
/// crate's.
#[verifier::external_body]
fn str_width(s: &str) -> (r: usize)
    ensures
        r == text_width(s@),
{
    UnicodeWidthStr::width(s)
}

/// Whether every character of `s` is whitespace.
pub open spec fn all_whitespace(s: Seq<char>) -> bool {
    forall|i: int| 0 <= i < s.len() ==> is_ws(#[trigger] s[i])
}

/// The measure's view of a grapheme: its width, cut to 16 bits as the
/// renderer does, and whether it is all whitespace.
pub open spec fn spec_grapheme(symbol: Seq<char>) -> Grapheme {
    Grapheme { width: text_width(symbol) as u16, whitespace: all_whitespace(symbol) }
}

/// The measure's view of a grapheme's symbol.
pub fn grapheme_of(symbol: &str) -> (g: Grapheme)
    ensures
        g == spec_grapheme(symbol@),
{
    let width = str_width(symbol) as u16;
    let chars = chars_of(symbol);
    let mut all = true;
    let mut i: usize = 0;
    while i < chars.len()
        invariant
            i <= chars@.len(),
            chars@ == symbol@,
            all == forall|j: int| 0 <= j < i ==> is_ws(#[trigger] chars@[j]),
        decreases chars@.len() - i,
    {
        if !is_whitespace(chars[i]) {
            all = false;
        }
        i += 1;
    }
    Grapheme { width, whitespace: all }
}

/// The graphemes of a line given by their symbols.
pub open spec fn spec_graphemes(symbols: Seq<String>) -> Seq<Grapheme> {
    symbols.map_values(|s: String| spec_grapheme(s@))
}

/// Whether measuring `gs` at `width` keeps every sum within a `u16`.
fn fits(gs: &[Grapheme], width: u16) -> (r: bool)
    ensures
        r == line_fits(gs@, width),
{
    let w: u32 = if width == 0 {
        1
    } else {
        width as u32
    };
    let max: u32 = 65535;
    let mut row: u32 = 0;
    let mut word: u32 = 0;
    let mut i: usize = 0;
    while i < gs.len()
        invariant
            i <= gs@.len(),
            w == effective_width(width),
            max == u16::MAX,
            wrap_fits(gs@.take(i as int), width),
            row == wrap_run(gs@.take(i as int), w as int).row,
            word == wrap_run(gs@.take(i as int), w as int).word,
            row <= max && word <= max,
        decreases gs@.len() - i,
    {
        proof {
            let pre = gs@.take(i + 1);
            assert(pre.drop_last() =~= gs@.take(i as int));
            assert(pre.last() == gs@[i as int]);
        }
        let g = gs[i];
        let gw = g.width as u32;
        if gw > w {
        } else if g.whitespace {
            if word > 0 {
                let sum = row + word;
                if sum > max {
                    proof {
                        lemma_fits_prefix_only(gs@, width, i + 1);
                    }
                    return false;
                }
                if row > 0 && sum > w {
                    row = word;
                } else {
                    row = sum;
                }
                word = 0;
            }
        } else {
            if word + gw > max {
                proof {
                    lemma_fits_prefix_only(gs@, width, i + 1);
                }
                return false;
            }
            word = word + gw;
        }
        i += 1;
    }
    assert(gs@.take(gs@.len() as int) =~= gs@);
    !(word > 0 && row > 0 && row + word > max)
}

/// A line that fits has prefixes that fit.
proof fn lemma_fits_prefix_only(gs: Seq<Grapheme>, width: u16, n: int)
    requires
        0 < n <= gs.len(),
        !wrap_fits(gs.take(n), width),
    ensures
        !line_fits(gs, width),
{
    if wrap_fits(gs, width) {
        lemma_fits_prefix(gs, width, n);
    }
}

/// The rows a line given by its graphemes' symbols takes at `width`, or
/// nothing when measuring it would overflow the 16-bit widths the measure
/// keeps.
pub fn symbol_line_height(symbols: &[String], width: u16) -> (r: Option<usize>)
    requires
        symbols@.len() < usize::MAX - 1,
    ensures
        r == if line_fits(spec_graphemes(symbols@), width) {
            Some(wrapped_rows(spec_graphemes(symbols@), width) as usize)
        } else {
            None::<usize>
        },
{
    let mut gs: Vec<Grapheme> = Vec::new();
    let mut i: usize = 0;
    while i < symbols.len()
        invariant
            i <= symbols@.len(),
            gs@ == spec_graphemes(symbols@).take(i as int),
        decreases symbols@.len() - i,
    {
        gs.push(grapheme_of(symbols[i].as_str()));
        assert(gs@ =~= spec_graphemes(symbols@).take(i + 1));
        i += 1;
    }
    assert(spec_graphemes(symbols@).take(symbols@.len() as int) =~= spec_graphemes(symbols@));
    if fits(gs.as_slice(), width) {
        Some(wrapped_line_height(gs.as_slice(), width))
    } else {
        None
    }
}


/// The rows all of `lines`, each given by its graphemes' symbols, take at
/// `width`, or nothing when some line cannot be measured in 16-bit widths.
pub open spec fn symbol_lines_rows(lines: Seq<Vec<String>>, width: u16) -> Option<int>
    decreases lines.len(),
{
    if lines.len() == 0 {
        Some(0)
    } else {
        match symbol_lines_rows(lines.drop_last(), width) {
            Some(n) => {
                let gs = spec_graphemes(lines.last()@);
                if line_fits(gs, width) {
                    Some(n + wrapped_rows(gs, width))
                } else {
                    None
                }
            },
            None => None,
        }
    }
}

/// The number of terminal rows the wrapped footer `lines` (each given by its
/// graphemes' symbols) occupy at `width`, saturating at the largest row count
/// a terminal can report; nothing when a line is too wide to measure or the
/// sum would overflow.
pub fn symbol_lines_height(lines: &[Vec<String>], width: u16) -> (r: Option<u16>)
    requires
        forall|i: int| 0 <= i < lines@.len() ==> (#[trigger] lines@[i])@.len() < usize::MAX - 1,
    ensures
        r is Some ==> (symbol_lines_rows(lines@, width) matches Some(n) && r->0 == if n < u16::MAX {
            n
        } else {
            u16::MAX as int
        }),
        symbol_lines_rows(lines@, width) is None ==> r is None,
        (symbol_lines_rows(lines@, width) matches Some(n) && n <= usize::MAX) ==> r is Some,
{
    let mut total: usize = 0;
    let mut i: usize = 0;
    while i < lines.len()
        invariant
            i <= lines@.len(),
            forall|j: int| 0 <= j < lines@.len() ==> (#[trigger] lines@[j])@.len() < usize::MAX - 1,
            symbol_lines_rows(lines@.take(i as int), width) == Some(total as int),
        decreases lines@.len() - i,
    {
        assert(lines@.take(i + 1).drop_last() =~= lines@.take(i as int));
        assert(lines@.take(i + 1).last() == lines@[i as int]);
        let rows = symbol_line_height(lines[i].as_slice(), width);
        match rows {
            None => {
                proof { lemma_symbol_rows_none_stays(lines@, width, i + 1); }
                return None;
            },
            Some(h) => {
                proof { lemma_run_bounds(spec_graphemes(lines@[i as int]@), width); }
                match total.checked_add(h) {
                    None => {
                        proof { lemma_symbol_rows_grow(lines@, width, i + 1); }
                        return None;
                    },
                    Some(t) => {
                        total = t;
                    },
                }
            },
        }
        i += 1;
    }
    assert(lines@.take(lines@.len() as int) =~= lines@);
    if total < 65535 {
        Some(total as u16)
    } else {
        Some(65535)
    }
}

/// Once a prefix cannot be measured, neither can the whole.
proof fn lemma_symbol_rows_none_stays(lines: Seq<Vec<String>>, width: u16, n: int)
    requires
        0 <= n <= lines.len(),
        symbol_lines_rows(lines.take(n), width) is None,
    ensures
        symbol_lines_rows(lines, width) is None,
    decreases lines.len() - n,
{
    if n < lines.len() {
        assert(lines.take(n + 1).drop_last() =~= lines.take(n));
        lemma_symbol_rows_none_stays(lines, width, n + 1);
    } else {
        assert(lines.take(n) =~= lines);
    }
}

/// Row counts only grow along the lines: the whole takes at least what a
/// prefix takes.
proof fn lemma_symbol_rows_grow(lines: Seq<Vec<String>>, width: u16, n: int)
    requires
        0 <= n <= lines.len(),
        symbol_lines_rows(lines.take(n), width) is Some,
    ensures
        (symbol_lines_rows(lines, width) matches Some(m) && m >= symbol_lines_rows(lines.take(n), width)->0)
            || symbol_lines_rows(lines, width) is None,
    decreases lines.len() - n,
{
    if n < lines.len() {
        assert(lines.take(n + 1).drop_last() =~= lines.take(n));
        assert(lines.take(n + 1).last() == lines[n]);
        if symbol_lines_rows(lines.take(n + 1), width) is Some {
            lemma_run_bounds(spec_graphemes(lines[n]@), width);
            lemma_symbol_rows_grow(lines, width, n + 1);
        } else {
            lemma_symbol_rows_none_stays(lines, width, n + 1);
        }
    } else {
        assert(lines.take(n) =~= lines);
    }
}

/// The columns all of `gs` take, side by side.
pub open spec fn total_width(gs: Seq<Grapheme>) -> int
    decreases gs.len(),
{
    if gs.len() == 0 {
        0
    } else {
        total_width(gs.drop_last()) + gs.last().width
    }
}

/// While everything read fits on one row, nothing has wrapped and the
/// running widths are at most what was read.
proof fn lemma_one_row_run(gs: Seq<Grapheme>, w: int)
    requires
        w >= 1,
        total_width(gs) <= w,
    ensures
        wrap_run(gs, w).rows == 1,
        wrap_run(gs, w).row + wrap_run(gs, w).word <= total_width(gs),
        wrap_run(gs, w).row >= 0 && wrap_run(gs, w).word >= 0,
    decreases gs.len(),
{
    if gs.len() > 0 {
        lemma_total_width_nonneg(gs.drop_last());
        lemma_one_row_run(gs.drop_last(), w);
    }
}

/// Widths are never negative.
proof fn lemma_total_width_nonneg(gs: Seq<Grapheme>)
    ensures
        total_width(gs) >= 0,
    decreases gs.len(),
{
    if gs.len() > 0 {
        lemma_total_width_nonneg(gs.drop_last());
    }
}

/// A line no wider than the pane takes exactly one row.
pub proof fn lemma_a_line_that_fits_takes_one_row(gs: Seq<Grapheme>, width: u16)
    requires
        total_width(gs) <= effective_width(width),
    ensures
        wrapped_rows(gs, width) == 1,
{
    lemma_one_row_run(gs, effective_width(width));
}


/// The graphemes ratatui cuts a span's text into, control characters
/// dropped.
pub uninterp spec fn grapheme_split(text: Seq<char>) -> Seq<Seq<char>>;

/// The grapheme symbols of one span's text.
///
/// Wraps ratatui's `Span::styled_graphemes`, which splits the text into
/// extended grapheme clusters (`unicode-segmentation`) and drops those with
/// a control character; the result is a function of the text alone.
#[verifier::external_body]
fn span_graphemes(text: &str) -> (r: Vec<String>)
    ensures
        strs(r@) == grapheme_split(text@),
{
    ratatui::text::Span::raw(text)
        .styled_graphemes(ratatui::style::Style::default())
        .map(|grapheme| grapheme.symbol.to_string())
        .collect()
}

/// The grapheme symbols of a line given by its spans' texts, span by span.
pub open spec fn line_symbols(spans: Seq<String>) -> Seq<Seq<char>>
    decreases spans.len(),
{
    if spans.len() == 0 {
        Seq::empty()
    } else {
        line_symbols(spans.drop_last()) + grapheme_split(spans.last()@)
    }
}

/// The graphemes of a line given by its symbols' texts.
pub open spec fn view_graphemes(symbols: Seq<Seq<char>>) -> Seq<Grapheme> {
    symbols.map_values(|s: Seq<char>| spec_grapheme(s))
}

/// The rows all of `lines`, each given by its spans' texts, take at `width`,
/// or nothing when some line cannot be measured in 16-bit widths.
pub open spec fn spans_rows(lines: Seq<Vec<String>>, width: u16) -> Option<int>
    decreases lines.len(),
{
    if lines.len() == 0 {
        Some(0)
    } else {
        match spans_rows(lines.drop_last(), width) {
            Some(n) => {
                let gs = view_graphemes(line_symbols(lines.last()@));
                if line_fits(gs, width) {
                    Some(n + wrapped_rows(gs, width))
                } else {
                    None
                }
            },
            None => None,
        }
    }
}

/// The grapheme symbols of the line with spans `spans`.
fn line_symbol_texts(spans: &Vec<String>) -> (r: Vec<String>)
    ensures
        strs(r@) == line_symbols(spans@),
{
    let mut out: Vec<String> = Vec::new();
    let mut j: usize = 0;
    while j < spans.len()
        invariant
            j <= spans@.len(),
            strs(out@) == line_symbols(spans@.take(j as int)),
        decreases spans@.len() - j,
    {
        let gs = span_graphemes(spans[j].as_str());
        let ghost before = out@;
        let mut k: usize = 0;
        while k < gs.len()
            invariant
                k <= gs@.len(),
                strs(out@) == strs(before) + strs(gs@.take(k as int)),
            decreases gs@.len() - k,
        {
            out.push(gs[k].clone());
            proof {
                assert(strs(gs@.take(k + 1)) =~= strs(gs@.take(k as int)).push(gs@[k as int]@));
                assert(strs(out@) =~= (strs(before) + strs(gs@.take(k as int))).push(gs@[k as int]@));
            }
            k += 1;
        }
        proof {
            assert(gs@.take(gs@.len() as int) =~= gs@);
            assert(spans@.take(j + 1).drop_last() =~= spans@.take(j as int));
            assert(spans@.take(j + 1).last() == spans@[j as int]);
        }
        j += 1;
    }
    assert(spans@.take(spans@.len() as int) =~= spans@);
    out
}

/// Measuring symbols as strings is measuring their texts.
proof fn lemma_spans_rows(syms: Seq<Vec<String>>, lines: Seq<Vec<String>>, width: u16)
    requires
        syms.len() == lines.len(),
        forall|i: int| 0 <= i < syms.len() ==> strs(#[trigger] syms[i]@) == line_symbols(lines[i]@),
    ensures
        symbol_lines_rows(syms, width) == spans_rows(lines, width),
    decreases syms.len(),
{
    if syms.len() > 0 {
        lemma_spans_rows(syms.drop_last(), lines.drop_last(), width);
        let last = syms.last()@;
        assert(strs(syms[syms.len() - 1]@) == line_symbols(lines[lines.len() - 1]@));
        assert(spec_graphemes(last) =~= view_graphemes(strs(last)));
    }
}

/// The number of terminal rows the wrapped footer `lines` occupy at `width`,
/// each line given by the texts of its spans, saturating at the largest row
/// count a terminal can report; nothing when a line is too wide to measure,
/// has too many graphemes to count, or the sum would overflow.
pub fn spans_height(lines: &Vec<Vec<String>>, width: u16) -> (r: Option<u16>)
    ensures
        r is Some ==> (spans_rows(lines@, width) matches Some(n) && r->0 == if n < u16::MAX {
            n
        } else {
            u16::MAX as int
        }),
        spans_rows(lines@, width) is None ==> r is None,
        (spans_rows(lines@, width) matches Some(n) && n <= usize::MAX && forall|i: int|
            0 <= i < lines@.len() ==> line_symbols(#[trigger] lines@[i]@).len() < usize::MAX - 1)
            ==> r is Some,
{
    let mut syms: Vec<Vec<String>> = Vec::new();
    let mut i: usize = 0;
    while i < lines.len()
        invariant
            i <= lines@.len(),
            syms@.len() == i,
            forall|j: int| 0 <= j < i ==> strs(#[trigger] syms@[j]@) == line_symbols(lines@[j]@),
            forall|j: int| 0 <= j < i ==> (#[trigger] syms@[j])@.len() < usize::MAX - 1,
        decreases lines@.len() - i,
    {
        let line = line_symbol_texts(&lines[i]);
        if line.len() >= usize::MAX - 1 {
            proof {
                assert(strs(line@).len() == line@.len());
            }
            return None;
        }
        syms.push(line);
        i += 1;
    }
    proof {
        lemma_spans_rows(syms@, lines@, width);
    }
    symbol_lines_height(syms.as_slice(), width)
}
} // verus!
