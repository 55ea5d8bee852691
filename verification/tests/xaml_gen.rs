use devtoolbox::xaml_gen::{
    assign_control_ids, build_grid, build_sectioned, cell_size, command_for_id, GridCell,
    GridEntry, GridSection, SectionRow, CELL_MAX, CELL_MIN, CONTROL_ID_BASE,
};

fn entries(names: &[&str]) -> Vec<GridEntry> {
    names.iter().map(|s| GridEntry::label_only(*s)).collect()
}

fn cell(row: u32, col: u32, label: &str) -> GridCell {
    GridCell {
        row,
        col,
        label: label.into(),
        icon: String::new(),
        command_id: None,
    }
}

#[test]
fn empty_labels_produces_empty_cells() {
    let model = build_grid(&[], 3);
    assert!(model.cells.is_empty());
    assert_eq!(model.row_count(), 0);
}

#[test]
fn single_item_is_row_zero_col_zero() {
    let model = build_grid(&entries(&["Notepad"]), 3);
    assert_eq!(model.cells.len(), 1);
    assert_eq!(model.cells[0].row, 0);
    assert_eq!(model.cells[0].col, 0);
    assert_eq!(model.cells[0].label, "Notepad");
}

#[test]
fn three_items_with_two_cols_gives_two_rows() {
    let model = build_grid(&entries(&["A", "B", "C"]), 2);
    assert_eq!(model.cols, 2);
    assert_eq!(model.row_count(), 2);
    // Row 0: A(0,0) B(0,1)
    assert_eq!(model.cells[0], cell(0, 0, "A"));
    assert_eq!(model.cells[1], cell(0, 1, "B"));
    // Row 1: C(1,0)
    assert_eq!(model.cells[2], cell(1, 0, "C"));
}

#[test]
fn preferred_cols_clamped_to_item_count() {
    // Requesting 10 columns with only 3 items: cols should be 3.
    let model = build_grid(&entries(&["X", "Y", "Z"]), 10);
    assert_eq!(model.cols, 3);
    assert_eq!(model.row_count(), 1);
}

#[test]
fn exact_fill_grid_is_rectangular() {
    // 4 items, 2 cols → 2 rows × 2 cols
    let model = build_grid(&entries(&["A", "B", "C", "D"]), 2);
    assert_eq!(model.cols, 2);
    assert_eq!(model.row_count(), 2);
    assert_eq!(model.cells.len(), 4);
}

#[test]
fn grid_entry_preserves_icon_and_command_id() {
    let entry = GridEntry {
        label: "Notepad".into(),
        icon: "notepad.png".into(),
        command_id: Some("notepad".into()),
    };
    let model = build_grid(&[entry], 3);
    assert_eq!(model.cells[0].icon, "notepad.png");
    assert_eq!(model.cells[0].command_id, Some("notepad".into()));
    assert_eq!(model.cells[0].label, "Notepad");
}

#[test]
fn label_only_entry_has_empty_icon() {
    let entry = GridEntry::label_only("Cmd");
    let model = build_grid(&[entry], 3);
    assert_eq!(model.cells[0].icon, "");
    assert_eq!(model.cells[0].command_id, None);
}

// -----------------------------------------------------------------------
// build_sectioned
// -----------------------------------------------------------------------

fn section(header: &str, names: &[&str]) -> GridSection {
    GridSection {
        header: header.to_string(),
        entries: entries(names),
    }
}

#[test]
fn build_sectioned_empty_sections_produces_no_rows() {
    let model = build_sectioned(&[], 3);
    assert!(model.rows.is_empty());
}

#[test]
fn build_sectioned_single_section_emits_header_then_cells() {
    // 2 entries, 3 cols → clamped to 2 → 1 Cells row
    let model = build_sectioned(&[section("Système", &["Notepad", "Cmd"])], 3);

    assert_eq!(model.rows.len(), 2, "header + 1 cell row");
    assert!(matches!(
        &model.rows[0],
        SectionRow::Header { label, .. } if label == "Système"
    ));
    if let SectionRow::Cells { cells, .. } = &model.rows[1] {
        assert_eq!(cells.len(), 2);
        assert_eq!(cells[0].label, "Notepad");
        assert_eq!(cells[1].label, "Cmd");
    } else {
        panic!("row[1] must be Cells");
    }
}

#[test]
fn build_sectioned_wraps_per_section_columns() {
    // 3 entries, 2 cols → 2 rows of cells (row0: 2 items, row1: 1 item)
    let model = build_sectioned(&[section("A", &["X", "Y", "Z"])], 2);

    // header + 2 cell rows
    assert_eq!(model.rows.len(), 3);
    if let SectionRow::Cells { cells, .. } = &model.rows[1] {
        assert_eq!(cells.len(), 2);
        assert_eq!(cells[0].col, 0);
        assert_eq!(cells[1].col, 1);
    } else {
        panic!("row[1] must be Cells");
    }
    if let SectionRow::Cells { cells, .. } = &model.rows[2] {
        assert_eq!(cells.len(), 1);
        assert_eq!(cells[0].col, 0);
    } else {
        panic!("row[2] must be Cells");
    }
}

#[test]
fn build_sectioned_preserves_section_order() {
    let sections = vec![
        section("First", &["A"]),
        section("Second", &["B"]),
        section("Third", &["C"]),
    ];
    let model = build_sectioned(&sections, 3);

    // 3 headers + 3 cell rows = 6 rows total
    assert_eq!(model.rows.len(), 6);

    // Headers appear in order.
    let headers: Vec<&str> = model
        .rows
        .iter()
        .filter_map(|r| {
            if let SectionRow::Header { label, .. } = r {
                Some(label.as_str())
            } else {
                None
            }
        })
        .collect();
    assert_eq!(headers, vec!["First", "Second", "Third"]);
}

#[test]
fn build_sectioned_omits_empty_sections() {
    let sections = vec![
        section("Non-empty", &["A"]),
        section("Empty", &[]),
        section("Also non-empty", &["B"]),
    ];
    let model = build_sectioned(&sections, 3);

    // Only 2 non-empty sections → 2 headers + 2 cell rows = 4 rows.
    assert_eq!(model.rows.len(), 4);
    let headers: Vec<&str> = model
        .rows
        .iter()
        .filter_map(|r| {
            if let SectionRow::Header { label, .. } = r {
                Some(label.as_str())
            } else {
                None
            }
        })
        .collect();
    assert_eq!(headers, vec!["Non-empty", "Also non-empty"]);
}

#[test]
fn build_sectioned_section_idx_matches_original_position() {
    let sections = vec![
        section("First", &["A"]),
        section("Empty", &[]),    // idx=1, skipped
        section("Third", &["B"]), // idx=2
    ];
    let model = build_sectioned(&sections, 3);

    // Headers must reference the original section indices.
    let idxs: Vec<usize> = model
        .rows
        .iter()
        .filter_map(|r| {
            if let SectionRow::Header { section_idx, .. } = r {
                Some(*section_idx)
            } else {
                None
            }
        })
        .collect();
    assert_eq!(idxs, vec![0, 2]);
}

#[test]
fn build_sectioned_flat_path_unchanged_by_addition() {
    // The flat grid is laid out independently of the sectioned builder.
    let model = build_grid(&entries(&["A", "B", "C"]), 2);
    assert_eq!(model.cols, 2);
    assert_eq!(model.row_count(), 2);
    assert_eq!(model.cells[0], cell(0, 0, "A"));
    assert_eq!(model.cells[1], cell(0, 1, "B"));
    assert_eq!(model.cells[2], cell(1, 0, "C"));
}

// -----------------------------------------------------------------------
// cell_size
// -----------------------------------------------------------------------

#[test]
fn cell_size_normal_value_passes_through_with_padding() {
    // icon_size = 48: w = 48+16 = 64, h = 48+20 = 68 (both in [40,256])
    let (w, h) = cell_size(48);
    assert_eq!(w, 64);
    assert_eq!(h, 68);
}

#[test]
fn cell_size_zero_clamps_to_min() {
    let (w, h) = cell_size(0);
    assert_eq!(w, CELL_MIN, "width must be CELL_MIN for icon_size=0");
    assert_eq!(h, CELL_MIN, "height must be CELL_MIN for icon_size=0");
}

#[test]
fn cell_size_tiny_clamps_to_min() {
    // icon_size = 1: w = 1+16 = 17 < 40 → clamped; h = 1+20 = 21 < 40 → clamped
    let (w, h) = cell_size(1);
    assert_eq!(w, CELL_MIN);
    assert_eq!(h, CELL_MIN);
}

#[test]
fn cell_size_huge_clamps_to_max() {
    let (w, h) = cell_size(u32::MAX);
    assert_eq!(
        w, CELL_MAX,
        "width must be CELL_MAX for very large icon_size"
    );
    assert_eq!(
        h, CELL_MAX,
        "height must be CELL_MAX for very large icon_size"
    );
}

#[test]
fn cell_size_large_value_clamps_to_max() {
    // icon_size = 512: both padded values exceed 256 → clamped
    let (w, h) = cell_size(512);
    assert_eq!(w, CELL_MAX);
    assert_eq!(h, CELL_MAX);
}

#[test]
fn cell_size_never_zero() {
    for icon_size in [
        0u32,
        1,
        8,
        16,
        24,
        32,
        48,
        64,
        80,
        96,
        128,
        256,
        512,
        u32::MAX,
    ] {
        let (w, h) = cell_size(icon_size);
        assert!(w > 0, "width must never be 0 (icon_size={icon_size})");
        assert!(h > 0, "height must never be 0 (icon_size={icon_size})");
    }
}

#[test]
fn cell_size_monotonic_in_unclamped_range() {
    // In the unclamped range both w and h should grow with icon_size.
    // CELL_MIN=40, WIDTH_PAD=16 → icon_size >= 24 gives w unclamped at 40+.
    // CELL_MAX=256, WIDTH_PAD=16 → icon_size <= 240 keeps w <= 256.
    let sizes = [24u32, 32, 48, 64, 80, 96, 128, 200, 240];
    for i in 0..sizes.len() - 1 {
        let (w0, h0) = cell_size(sizes[i]);
        let (w1, h1) = cell_size(sizes[i + 1]);
        assert!(
            w1 >= w0,
            "width must be non-decreasing: cell_size({})={w0} > cell_size({})={w1}",
            sizes[i],
            sizes[i + 1]
        );
        assert!(
            h1 >= h0,
            "height must be non-decreasing: cell_size({})={h0} > cell_size({})={h1}",
            sizes[i],
            sizes[i + 1]
        );
    }
}

#[test]
fn cell_size_within_bounds() {
    for icon_size in (0u32..=512).step_by(8) {
        let (w, h) = cell_size(icon_size);
        assert!(
            (CELL_MIN..=CELL_MAX).contains(&w),
            "width {w} out of [{CELL_MIN},{CELL_MAX}]"
        );
        assert!(
            (CELL_MIN..=CELL_MAX).contains(&h),
            "height {h} out of [{CELL_MIN},{CELL_MAX}]"
        );
    }
}

// -----------------------------------------------------------------------
// assign_control_ids / command_for_id
// -----------------------------------------------------------------------

fn cell_with_id(label: &str, command_id: Option<&str>) -> GridCell {
    GridCell {
        row: 0,
        col: 0,
        label: label.to_string(),
        icon: String::new(),
        command_id: command_id.map(|s| s.to_string()),
    }
}

#[test]
fn assign_control_ids_empty_cells_returns_empty() {
    let map = assign_control_ids(&[]);
    assert!(map.is_empty());
}

#[test]
fn assign_control_ids_skips_cells_without_command_id() {
    let cells = vec![
        cell_with_id("No ID", None),
        cell_with_id("With ID", Some("notepad")),
    ];
    let map = assign_control_ids(&cells);
    assert_eq!(map.len(), 1, "only cells with command_id get an id");
    assert_eq!(map[0].1, "notepad");
}

#[test]
fn assign_control_ids_starts_at_base() {
    let cells = vec![cell_with_id("A", Some("cmd_a"))];
    let map = assign_control_ids(&cells);
    assert_eq!(
        map[0].0, CONTROL_ID_BASE,
        "first id must be CONTROL_ID_BASE"
    );
}

#[test]
fn assign_control_ids_are_unique_and_sequential() {
    let cells = vec![
        cell_with_id("Notepad", Some("notepad")),
        cell_with_id("Cmd", Some("cmd")),
        cell_with_id("Paint", Some("paint")),
    ];
    let map = assign_control_ids(&cells);
    assert_eq!(map.len(), 3);

    // Ids must be unique.
    let ids: Vec<u16> = map.iter().map(|(id, _)| *id).collect();
    let mut sorted = ids.clone();
    sorted.sort_unstable();
    sorted.dedup();
    assert_eq!(sorted.len(), ids.len(), "control ids must be unique");

    // Ids must be sequential from base.
    assert_eq!(ids[0], CONTROL_ID_BASE);
    assert_eq!(ids[1], CONTROL_ID_BASE + 1);
    assert_eq!(ids[2], CONTROL_ID_BASE + 2);
}

#[test]
fn assign_control_ids_order_matches_cell_order() {
    let cells = vec![
        cell_with_id("A", Some("cmd_a")),
        cell_with_id("B", Some("cmd_b")),
        cell_with_id("C", Some("cmd_c")),
    ];
    let map = assign_control_ids(&cells);
    assert_eq!(map[0].1, "cmd_a");
    assert_eq!(map[1].1, "cmd_b");
    assert_eq!(map[2].1, "cmd_c");
}

#[test]
fn command_for_id_resolves_assigned_id() {
    let cells = vec![
        cell_with_id("Notepad", Some("notepad")),
        cell_with_id("Cmd", Some("cmd")),
    ];
    let map = assign_control_ids(&cells);
    assert_eq!(
        command_for_id(&map, CONTROL_ID_BASE),
        Some("notepad"),
        "first id must resolve to first command"
    );
    assert_eq!(
        command_for_id(&map, CONTROL_ID_BASE + 1),
        Some("cmd"),
        "second id must resolve to second command"
    );
}

#[test]
fn command_for_id_unknown_id_returns_none() {
    let cells = vec![cell_with_id("Notepad", Some("notepad"))];
    let map = assign_control_ids(&cells);
    assert_eq!(
        command_for_id(&map, 9999),
        None,
        "unassigned id must resolve to None"
    );
    assert_eq!(command_for_id(&map, 0), None, "id 0 must resolve to None");
}

#[test]
fn command_for_id_on_empty_map_returns_none() {
    let map: Vec<(u16, String)> = Vec::new();
    assert_eq!(command_for_id(&map, CONTROL_ID_BASE), None);
}

#[test]
fn row_count_is_one_past_the_last_cell_row() {
    let model = build_grid(&entries(&["a", "b", "c", "d", "e"]), 2);
    assert_eq!(model.row_count(), 3);
    assert_eq!(model.cells.last().unwrap().row + 1, model.row_count());
    let full = build_grid(&entries(&["a", "b", "c", "d"]), 2);
    assert_eq!(full.row_count(), 2);
    assert_eq!(full.cells.last().unwrap().row + 1, full.row_count());
}
