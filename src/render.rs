use crate::color::{hex_to_rgb, is_hex_color, rgb_of, strip_hash};
use crate::error::HeatmapError;
use crate::grid::{grid_view, DayContribution};
use owo_colors::OwoColorize;
use unicode_width::UnicodeWidthStr;
use vstd::prelude::*;

verus! {

/// The display width in terminal columns of the text `s`.
pub uninterp spec fn str_width(s: Seq<char>) -> nat;

/// The text `glyph` wrapped in the terminal escapes that tint it with the
/// 24-bit foreground color `(r, g, b)`.
pub uninterp spec fn tinted(glyph: Seq<char>, r: u8, g: u8, b: u8) -> Seq<char>;

/// Relies on unicode_width's `UnicodeWidthStr::width`: the display width of a
/// string, which depends on its characters alone.
#[verifier::external_body]
fn display_width(s: &str) -> (r: usize)
    ensures
        r as nat == str_width(s@),
{
    s.width()
}

/// Relies on owo_colors' `OwoColorize::color` with `DynColors::Rgb`, written
/// out through its `Display`: the glyph between the escapes that set and reset
/// the foreground color, which depend on the glyph and the channels alone.
#[verifier::external_body]
fn tint(glyph: &str, r: u8, g: u8, b: u8) -> (t: String)
    ensures
        t@ == tinted(glyph@, r, g, b),
{
    format!("{}", glyph.color(owo_colors::DynColors::Rgb(r, g, b)))
}

/// The text of one row: each day's glyph, tinted with the day's color.
pub open spec fn row_text(glyph: Seq<char>, row: Seq<DayContribution>) -> Seq<char>
    decreases row.len(),
{
    if row.len() == 0 {
        Seq::empty()
    } else {
        let rgb = rgb_of(row.last().color@);
        row_text(glyph, row.drop_last()) + tinted(glyph, rgb.0, rgb.1, rgb.2)
    }
}

/// Whether every day of the grid has a hex color.
pub open spec fn colors_valid(mat: Seq<Seq<DayContribution>>) -> bool {
    forall|r: int, i: int|
        0 <= r < mat.len() && 0 <= i < mat[r].len() ==> is_hex_color(#[trigger] mat[r][i].color@)
}

/// The lines of the heatmap: one per row of `rows`, top row first, each the
/// row's days in order as `glyph` tinted with the day's color. Fails before
/// producing anything when `glyph` is not `width` columns wide, and on the
/// first day, row by row, whose color is not hex.
pub fn render(rows: &[Vec<&DayContribution>], glyph: &str, width: usize) -> (r: Result<
    Vec<String>,
    HeatmapError,
>)
    ensures
        match r {
            Ok(lines) => {
                &&& str_width(glyph@) == width
                &&& colors_valid(grid_view(rows@))
                &&& lines@.len() == rows@.len()
                &&& forall|k: int|
                    0 <= k < lines@.len() ==> (#[trigger] lines@[k])@ == row_text(
                        glyph@,
                        grid_view(rows@)[k],
                    )
            },
            Err(e) => if str_width(glyph@) != width {
                e is InvalidGlyphWidth && e->InvalidGlyphWidth_0 as nat == str_width(glyph@)
            } else {
                &&& !colors_valid(grid_view(rows@))
                &&& e is MalformedColor
                &&& exists|k: int, i: int|
                    0 <= k < rows@.len() && 0 <= i < grid_view(rows@)[k].len() && !is_hex_color(
                        #[trigger] grid_view(rows@)[k][i].color@,
                    ) && e->MalformedColor_0@ == strip_hash(grid_view(rows@)[k][i].color@)
            },
        },
{
    let ghost mat = grid_view(rows@);
    let w = display_width(glyph);
    if w != width {
        return Err(HeatmapError::InvalidGlyphWidth(w));
    }
    let mut lines: Vec<String> = Vec::new();
    let mut k: usize = 0;
    while k < rows.len()
        invariant
            0 <= k <= rows@.len(),
            mat == grid_view(rows@),
            str_width(glyph@) == width,
            lines@.len() == k,
            forall|j: int| 0 <= j < k ==> (#[trigger] lines@[j])@ == row_text(glyph@, mat[j]),
            forall|j: int, i: int|
                0 <= j < k && 0 <= i < mat[j].len() ==> is_hex_color(#[trigger] mat[j][i].color@),
        decreases rows@.len() - k,
    {
        let row = &rows[k];
        let ghost cells = mat[k as int];
        let mut line = String::from_str("");
        proof {
            reveal_strlit("");
        }
        let mut i: usize = 0;
        while i < row.len()
            invariant
                0 <= i <= row@.len(),
                0 <= k < rows@.len(),
                mat == grid_view(rows@),
                str_width(glyph@) == width,
                row == rows@[k as int],
                cells == mat[k as int],
                cells.len() == row@.len(),
                line@ == row_text(glyph@, cells.take(i as int)),
                forall|j: int| 0 <= j < i ==> is_hex_color(#[trigger] cells[j].color@),
            decreases row@.len() - i,
        {
            let day: &DayContribution = row[i];
            assert(cells[i as int] == *day);
            assert(cells.take(i + 1).drop_last() =~= cells.take(i as int));
            match hex_to_rgb(day.color.as_str()) {
                Ok(rgb) => {
                    let t = tint(glyph, rgb.0, rgb.1, rgb.2);
                    line.append(t.as_str());
                },
                Err(e) => {
                    assert(mat[k as int][i as int] == *day);
                    return Err(e);
                },
            }
            i = i + 1;
        }
        assert(cells.take(row@.len() as int) =~= cells);
        lines.push(line);
        k = k + 1;
    }
    Ok(lines)
}

} // verus!
