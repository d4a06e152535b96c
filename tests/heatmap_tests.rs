use heatmap::color::hex_to_rgb;
use heatmap::error::HeatmapError;
use heatmap::grid::{transpose, DayContribution};
use heatmap::labels::{column_count, column_dominant, label_line, month_labels};
use heatmap::render::render;
use owo_colors::{DynColors, OwoColorize};

fn day(date: &str, color: &str) -> DayContribution {
    DayContribution::new(date.to_string(), color.to_string())
}

fn week(year_month: &str, first: u32, count: u32, color: &str) -> Vec<DayContribution> {
    (first..first + count)
        .map(|d| day(&format!("{}-{:02}", year_month, d), color))
        .collect()
}

#[test]
fn hex_with_hash() {
    assert_eq!(hex_to_rgb("#9be9a8"), Ok((155, 233, 168)));
}

#[test]
fn hex_without_hash() {
    assert_eq!(hex_to_rgb("216e39"), Ok((33, 110, 57)));
}

#[test]
fn hex_upper_case() {
    assert_eq!(hex_to_rgb("#EBEDF0"), Ok((235, 237, 240)));
    assert_eq!(hex_to_rgb("#ffFFff"), Ok((255, 255, 255)));
    assert_eq!(hex_to_rgb("000000"), Ok((0, 0, 0)));
}

#[test]
fn hex_round_trip_values() {
    for s in ["#9be9a8", "216e39", "#40C463", "30a14e", "#000000", "ffffff"] {
        let (r, g, b) = hex_to_rgb(s).unwrap();
        let back = format!("{:02x}{:02x}{:02x}", r, g, b);
        assert_eq!(back, s.trim_start_matches('#').to_lowercase());
    }
}

#[test]
fn hex_too_short() {
    assert_eq!(
        hex_to_rgb("#12345"),
        Err(HeatmapError::MalformedColor("12345".to_string()))
    );
    assert_eq!(hex_to_rgb(""), Err(HeatmapError::MalformedColor("".to_string())));
}

#[test]
fn hex_not_hex_digit() {
    assert_eq!(
        hex_to_rgb("#12g456"),
        Err(HeatmapError::MalformedColor("12g456".to_string()))
    );
    assert_eq!(
        hex_to_rgb("##123456"),
        Err(HeatmapError::MalformedColor("#123456".to_string()))
    );
}

#[test]
fn month_of_valid_dates() {
    assert_eq!(day("2024-03-15", "#ebedf0").get_month(), Ok(3));
    assert_eq!(day("2024-12-01", "#ebedf0").get_month(), Ok(12));
    assert_eq!(day("2024-1-01", "#ebedf0").get_month(), Ok(1));
}

#[test]
fn month_of_invalid_dates() {
    for date in ["2024/03/15", "2024-13-01", "2024-00-01", "2024-0a-01", "2024--01", "2024-03-15-1", ""] {
        assert_eq!(
            day(date, "#ebedf0").get_month(),
            Err(HeatmapError::InvalidDate(date.to_string()))
        );
    }
}

#[test]
fn transpose_full_weeks() {
    let weeks = vec![week("2024-01", 1, 7, "#ebedf0"), week("2024-01", 8, 7, "#9be9a8")];
    let rows = transpose(&weeks);
    assert_eq!(rows.len(), 7);
    for r in 0..7 {
        assert_eq!(rows[r].len(), 2);
        for c in 0..2 {
            assert_eq!(rows[r][c].date, weeks[c][r].date);
        }
    }
}

#[test]
fn transpose_partial_leading_week() {
    let weeks = vec![
        week("2024-01", 1, 3, "#ebedf0"),
        week("2024-01", 4, 7, "#ebedf0"),
        week("2024-01", 11, 7, "#ebedf0"),
    ];
    let rows = transpose(&weeks);
    assert_eq!(rows.len(), 7);
    for r in 0..3 {
        assert_eq!(rows[r].len(), 3);
        assert_eq!(rows[r][0].date, weeks[0][r].date);
    }
    for r in 3..7 {
        assert_eq!(rows[r].len(), 2);
        assert_eq!(rows[r][0].date, weeks[1][r].date);
        assert_eq!(rows[r][1].date, weeks[2][r].date);
    }
}

#[test]
fn transpose_empty() {
    let rows = transpose(&[]);
    assert_eq!(rows.len(), 7);
    assert!(rows.iter().all(|r| r.is_empty()));
}

#[test]
fn labels_from_dominant_months() {
    let dom = [Some(1), Some(1), Some(1), Some(2), Some(2), Some(3)];
    assert_eq!(month_labels(&dom), "01    02  03");
    assert_eq!(month_labels(&dom).len(), 12);
}

#[test]
fn labels_skip_empty_columns() {
    assert_eq!(month_labels(&[Some(1), None, Some(1), Some(12)]), "01    12");
    assert_eq!(month_labels(&[]), "");
}

#[test]
fn label_line_single_month() {
    let weeks = vec![
        week("2024-01", 1, 7, "#ebedf0"),
        week("2024-01", 8, 7, "#ebedf0"),
        week("2024-01", 15, 7, "#ebedf0"),
    ];
    let rows = transpose(&weeks);
    assert_eq!(column_count(&rows), 3);
    assert_eq!(label_line(&rows), Ok("01    ".to_string()));
}

#[test]
fn label_line_majority_and_change() {
    // Week of 2024-01-29 has three days in January and four in February.
    let mut w2 = week("2024-01", 29, 3, "#ebedf0");
    w2.extend(week("2024-02", 1, 4, "#ebedf0"));
    let weeks = vec![week("2024-01", 22, 7, "#ebedf0"), w2, week("2024-02", 5, 7, "#ebedf0")];
    let rows = transpose(&weeks);
    assert_eq!(column_dominant(&rows, 1), Ok(Some(2)));
    assert_eq!(label_line(&rows), Ok("0102  ".to_string()));
}

#[test]
fn label_line_tie_takes_lowest_month() {
    let mut w = week("2024-03", 1, 3, "#ebedf0");
    w.extend(week("2024-04", 1, 3, "#ebedf0"));
    let weeks = vec![w];
    let rows = transpose(&weeks);
    assert_eq!(column_dominant(&rows, 0), Ok(Some(3)));
    assert_eq!(label_line(&rows), Ok("03".to_string()));
}

#[test]
fn label_line_invalid_date() {
    let mut w = week("2024-01", 1, 6, "#ebedf0");
    w.push(day("2024-xx-07", "#ebedf0"));
    let weeks = vec![w];
    let rows = transpose(&weeks);
    assert_eq!(
        label_line(&rows),
        Err(HeatmapError::InvalidDate("2024-xx-07".to_string()))
    );
}

#[test]
fn render_single_week() {
    let weeks = vec![week("2024-01", 1, 7, "#ebedf0")];
    let rows = transpose(&weeks);
    let lines = render(&rows, "  ", 2).unwrap();
    let expected = format!("{}", "  ".color(DynColors::Rgb(235, 237, 240)));
    assert_eq!(lines.len(), 7);
    for line in &lines {
        assert_eq!(line, &expected);
        assert!(line.contains("\u{1b}[38;2;235;237;240m"));
        assert_ne!(line, "  ");
    }
}

#[test]
fn render_rows_in_order() {
    let mut w = week("2024-01", 1, 7, "#ebedf0");
    w[1].color = "#216e39".to_string();
    let weeks = vec![w, week("2024-01", 8, 7, "#9be9a8")];
    let rows = transpose(&weeks);
    let lines = render(&rows, "##", 2).unwrap();
    let a = format!("{}", "##".color(DynColors::Rgb(33, 110, 57)));
    let b = format!("{}", "##".color(DynColors::Rgb(155, 233, 168)));
    assert_eq!(lines[1], format!("{}{}", a, b));
}

#[test]
fn render_wrong_glyph_width() {
    let weeks = vec![week("2024-01", 1, 7, "#ebedf0")];
    let rows = transpose(&weeks);
    assert_eq!(render(&rows, " ", 2), Err(HeatmapError::InvalidGlyphWidth(1)));
    assert_eq!(render(&rows, "\u{4e00}\u{4e00}", 2), Err(HeatmapError::InvalidGlyphWidth(4)));
    assert!(render(&rows, "\u{4e00}", 2).is_ok());
}

#[test]
fn render_malformed_color() {
    let mut w = week("2024-01", 1, 7, "#ebedf0");
    w[3].color = "#zzzzzz".to_string();
    let weeks = vec![w];
    let rows = transpose(&weeks);
    assert_eq!(
        render(&rows, "  ", 2),
        Err(HeatmapError::MalformedColor("zzzzzz".to_string()))
    );
}
