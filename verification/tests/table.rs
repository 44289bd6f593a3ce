use localhost_build::table::{Cell, Header, Row, Table, TableError};

#[test]
pub fn cells_and_headers_know_their_length_in_bytes() {
    let cell = Cell::new("d\u{e9}j\u{e0}".to_string());
    assert_eq!(cell.content, "d\u{e9}j\u{e0}");
    assert_eq!(cell.length, 6);
    let header = Header::new("Name".to_string());
    assert_eq!(header.content, "Name");
    assert_eq!(header.length, 4);
    assert_eq!(Cell::new(String::new()).length, 0);
}

#[test]
pub fn a_table_takes_headers_and_rows() {
    let mut table = Table::new(3);
    assert_eq!(table.cell_margin, 3);
    assert!(table.headers.is_empty() && table.rows.is_empty());
    table.set_headers(vec!["a".to_string(), "bc".to_string()]);
    table.add_row(vec!["1".to_string()]);
    table.add_row(vec![]);
    table.set_headers(vec!["only".to_string()]);
    assert_eq!(table.headers.len(), 1);
    assert_eq!(table.headers[0].content, "only");
    assert_eq!(table.headers[0].length, 4);
    assert_eq!(table.rows.len(), 2);
    assert_eq!(table.rows[0].cells[0].content, "1");
    assert_eq!(table.rows[0].cells[0].length, 1);
    assert!(table.rows[1].cells.is_empty());
    assert_eq!(table.cell_margin, 3);
}

#[test]
pub fn columns_are_as_wide_as_their_widest_text() {
    let mut table = Table::new(2);
    table.set_headers(vec!["Name".to_string(), "Size".to_string()]);
    table.add_row(vec!["a".to_string(), "123456".to_string(), "not printed".to_string()]);
    table.add_row(vec!["longer name".to_string(), "".to_string()]);
    assert_eq!(
        table.try_render(),
        Ok(vec![
            "Name         Size    ".to_string(),
            "----         ----    ".to_string(),
            "a            123456  ".to_string(),
            "longer name          ".to_string(),
        ])
    );
}

#[test]
pub fn a_table_without_headers_has_empty_lines() {
    let mut table = Table::new(5);
    assert_eq!(table.try_render(), Ok(vec![String::new(), String::new()]));
    table.add_row(vec!["a".to_string()]);
    assert_eq!(table.try_render(), Ok(vec![String::new(), String::new(), String::new()]));
}

#[test]
pub fn tables_that_cannot_be_printed() {
    let mut table = Table::new(0);
    table.set_headers(vec!["a".to_string(), "b".to_string()]);
    assert_eq!(table.try_render(), Err(TableError::NoRows));
    table.add_row(vec!["1".to_string(), "2".to_string()]);
    table.add_row(vec!["1".to_string()]);
    assert_eq!(table.try_render(), Err(TableError::MissingCell));
    let mut table = Table::new(usize::MAX);
    table.set_headers(vec!["ab".to_string()]);
    table.add_row(vec!["a".to_string()]);
    assert_eq!(table.try_render(), Err(TableError::TooWide));
}

#[test]
pub fn the_lengths_that_cells_carry_are_the_ones_that_count() {
    let table = Table {
        headers: vec![Header { content: "h".to_string(), length: 3 }],
        rows: vec![Row { cells: vec![Cell { content: "wide".to_string(), length: 1 }] }],
        cell_margin: 1,
    };
    assert_eq!(
        table.try_render(),
        Ok(vec!["h ".to_string(), "--- ".to_string(), "wide   ".to_string()])
    );
}

#[test]
pub fn a_table_that_can_be_printed_is_printed() {
    let mut table = Table::new(1);
    table.set_headers(vec!["n".to_string()]);
    table.add_row(vec!["12".to_string()]);
    assert_eq!(table.render(), vec!["n  ", "-  ", "12 "]);
}
