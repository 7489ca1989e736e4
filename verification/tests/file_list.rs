use termconnect::filesystem::Entry;
use termconnect::tui::panels::Row;
use termconnect::tui::widgets::file_list::{format_permissions, format_size, row_label, truncate_name, Columns};

#[test]
fn format_permissions_renders_rwx_triplets() {
    assert_eq!(format_permissions(Some(0o755)), "rwxr-xr-x");
    assert_eq!(format_permissions(Some(0o640)), "rw-r-----");
}

#[test]
fn format_permissions_renders_dashes_when_unknown() {
    assert_eq!(format_permissions(None), "---------");
}

#[test]
fn format_permissions_ignores_bits_above_the_low_nine() {
    assert_eq!(format_permissions(Some(0o100644)), "rw-r--r--");
}

#[test]
fn truncate_name_keeps_short_names_and_cuts_long_ones() {
    assert_eq!(truncate_name("readme.txt", 10), "readme.txt");
    assert_eq!(truncate_name("readme.txt", 7), "readme\u{2026}");
    assert_eq!(truncate_name("readme.txt", 1), "\u{2026}");
    assert_eq!(truncate_name("readme.txt", 0), "\u{2026}");
}

#[test]
fn columns_drop_permissions_then_size_as_the_panel_narrows() {
    let wide = Columns::for_width(60);
    assert!(wide.show_size && wide.show_permissions);
    assert_eq!(wide.name_width, 60 - 2 - 9 - 10);
    let middle = Columns::for_width(30);
    assert!(middle.show_size && !middle.show_permissions);
    assert_eq!(middle.name_width, 30 - 2 - 9);
    let narrow = Columns::for_width(20);
    assert!(!narrow.show_size && !narrow.show_permissions);
    assert_eq!(narrow.name_width, 18);
    assert_eq!(Columns::for_width(3).name_width, 4);
}

#[test]
fn format_size_shows_raw_bytes_under_1024() {
    assert_eq!(format_size(0, false), "0");
    assert_eq!(format_size(999, false), "999");
}

#[test]
fn format_size_uses_kilobyte_units_above_1024() {
    assert_eq!(format_size(1024, false), "1.0K");
    assert_eq!(format_size(1536, false), "1.5K");
}

#[test]
fn format_size_uses_megabyte_and_gigabyte_units() {
    assert_eq!(format_size(2 * 1024 * 1024, false), "2.0M");
    assert_eq!(format_size(3 * 1024 * 1024 * 1024, false), "3.0G");
}

#[test]
fn format_size_shows_an_em_dash_for_directories() {
    assert_eq!(format_size(4096, true), "\u{2014}");
}

/// The same sizes written with `f64` arithmetic and `{:.1}`.
fn size_in_floats(size: u64) -> String {
    if size < 1024 {
        return size.to_string();
    }
    let units = ["K", "M", "G", "T"];
    let mut value = size as f64 / 1024.0;
    let mut unit = 0;
    while value >= 1024.0 && unit < units.len() - 1 {
        value /= 1024.0;
        unit += 1;
    }
    format!("{value:.1}{}", units[unit])
}

#[test]
fn format_size_agrees_with_floating_point_formatting() {
    let mut sizes: Vec<u64> = vec![
        1023, 1024, 1075, 1076, 1280, 1792, 123_456, 1_048_575, 1_048_576, 1_101_004, 1_073_741_823,
        (1 << 53) - 1, 1 << 53, (1 << 53) + 1, (1 << 53) + 3, (1 << 54) + 2, (1 << 54) + 6,
        u64::MAX - 1, u64::MAX,
    ];
    let mut x: u64 = 0x9E37_79B9_7F4A_7C15;
    for _ in 0..20_000 {
        x ^= x << 13;
        x ^= x >> 7;
        x ^= x << 17;
        sizes.push(x >> (x % 60));
        sizes.push((x % 4096) * 256);
    }
    for size in sizes {
        assert_eq!(format_size(size, false), size_in_floats(size), "size {size}");
    }
    assert_eq!(format_size(1280, false), "1.2K");
    assert_eq!(format_size(120 * 1024 + 614, false), "120.6K");
}

/// A listing line written with `format!`, column by column.
fn line_by_format(row: &Row, selected: bool, columns: Columns) -> String {
    match row {
        Row::Parent => "  ..".to_string(),
        Row::Entry(entry) => {
            let marker = if selected { '*' } else { ' ' };
            let suffix = if entry.is_dir { "/" } else { "" };
            let name = truncate_name(&format!("{}{suffix}", entry.name), columns.name_width);
            let mut label = format!("{marker} {name:<width$}", width = columns.name_width);
            if columns.show_size {
                let size = format_size(entry.size, entry.is_dir);
                label = format!("{label} {size:>width$}", width = 8);
            }
            if columns.show_permissions {
                label = format!("{label} {}", format_permissions(entry.permissions));
            }
            label
        }
    }
}

#[test]
fn listing_lines_show_marker_name_size_and_permissions() {
    let file = Row::Entry(Entry {
        name: "readme.txt".to_string(),
        path: "/r/readme.txt".to_string(),
        is_dir: false,
        size: 123_456,
        permissions: Some(0o644),
    });
    let dir = Row::Entry(Entry { name: "src".to_string(), path: "/r/src".to_string(), is_dir: true, size: 4096, permissions: None });
    let wide = Columns::for_width(60);
    assert_eq!(row_label(&file, true, wide), format!("* readme.txt{}   120.6K rw-r--r--", " ".repeat(wide.name_width - 10)));
    assert_eq!(row_label(&Row::Parent, false, wide), "  ..");
    for width in [0u16, 10, 20, 27, 28, 39, 40, 60, 120] {
        let columns = Columns::for_width(width);
        for row in [&file, &dir, &Row::Parent] {
            for selected in [false, true] {
                assert_eq!(row_label(row, selected, columns), line_by_format(row, selected, columns));
            }
        }
    }
    let narrow = Columns::for_width(20);
    assert_eq!(row_label(&dir, false, narrow), format!("  src/{}", " ".repeat(narrow.name_width - 4)));
}
