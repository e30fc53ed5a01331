use maiq_parser::table::{normalize, parse_all, parse_first, parse_last, table_from_cells, Table};
use maiq_parser::text::collapse_whitespace;

const ONE_TABLE_TWO_ROWS: &str = r#"
    <table>
        <tr><th>Header</th><th>Value</th></tr>
        <tr><td>A</td><td>B</td></tr>
    </table>"#;

const SPECIAL_SYMBOL: &str = r#"<table>
        <tr><th>A</th><th>&lt;</th></tr>
    </table>"#;

const TWO_TABLES: &str = r#"<table>
        <tr><th>Header</th><th>Value</th></tr>
        <tr><td>A</td><td>B</td></tr>
    </table>
    <table>
        <tr><th>Header</th><th>Value</th></tr>
        <tr><td>C</td><td>D</td></tr>
    </table>"#;

fn table(rows: &[&[&str]]) -> Table {
    Table { rows: rows.iter().map(|r| r.iter().map(|c| c.to_string()).collect()).collect() }
}

#[test]
fn first_table_with_two_rows() {
    assert_eq!(parse_first(ONE_TABLE_TWO_ROWS), Some(table(&[&["Header", "Value"], &["A", "B"]])));
}

#[test]
fn entity_in_cell_is_decoded() {
    assert_eq!(parse_first(SPECIAL_SYMBOL), Some(table(&[&["A", "<"]])));
}

#[test]
fn table_without_rows_is_absent() {
    assert_eq!(parse_first("<table>Hey</table>"), None);
}

#[test]
fn page_without_table_is_absent() {
    assert_eq!(parse_first("<div>Hi</div>"), None);
    assert_eq!(parse_last("<div>Hi</div>"), None);
}

#[test]
fn all_tables_are_read() {
    assert_eq!(
        parse_all(TWO_TABLES),
        Some(vec![table(&[&["Header", "Value"], &["A", "B"]]), table(&[&["Header", "Value"], &["C", "D"]])])
    );
    assert_eq!(parse_all("<div>Hi</div>"), None);
}

#[test]
fn last_table_is_picked() {
    assert_eq!(parse_last(TWO_TABLES), Some(table(&[&["Header", "Value"], &["C", "D"]])));
    assert_eq!(parse_first(TWO_TABLES), Some(table(&[&["Header", "Value"], &["A", "B"]])));
}

#[test]
fn all_blank_table_is_absent() {
    let html = "<table><tr><td> </td><td>&nbsp;</td></tr><tr><td></td></tr></table>";
    assert_eq!(parse_first(html), None);
    assert_eq!(parse_all(html), None);
}

#[test]
fn n_rows_beyond_header_give_n_plus_one_rows() {
    let html = "<table><tr><th>Группа</th><th>Пара</th></tr>\
        <tr><td>Г1</td><td>1</td></tr><tr><td> </td></tr><tr><td>Г2</td><td>2,3</td></tr></table>";
    let t = parse_first(html).unwrap();
    assert_eq!(t.rows.len(), 3);
    assert_eq!(t.rows[2], vec!["Г2".to_string(), "2,3".to_string()]);
}

#[test]
fn cells_are_collapsed_and_decoded() {
    let html = "<table><tr><td>  Физика,\n   Иванов&nbsp;И.И.  </td><td>a &laquo;b&raquo;</td></tr></table>";
    assert_eq!(parse_first(html), Some(table(&[&["Физика, Иванов И.И.", "a «b»"]])));
}

#[test]
fn special_symbols() {
    assert_eq!(normalize("&lt;"), "<");
    assert_eq!(normalize("&nbsp;  af&lt;"), "af<");
    assert_eq!(normalize("f&nbsp;f"), "f f");
    assert_eq!(normalize("f  f"), "f f");
    assert_eq!(normalize("a&hellip;&mdash;&sect;"), "a...—§");
}

#[test]
fn whitespace_runs_collapse() {
    assert_eq!(collapse_whitespace("  a \n\t b  "), "a b");
    assert_eq!(collapse_whitespace("a\nb"), "a b");
    assert_eq!(collapse_whitespace(""), "");
    assert_eq!(collapse_whitespace(" \n "), "");
}

#[test]
fn blank_cells_and_rows_are_dropped() {
    let raw = vec![
        vec![" a ".to_string(), "  ".to_string(), "b".to_string()],
        vec!["   ".to_string()],
        vec![],
        vec!["&nbsp;".to_string()],
    ];
    assert_eq!(table_from_cells(&raw), vec![vec!["a".to_string(), "b".to_string()]]);
}

#[test]
fn blank_tables_are_left_out_of_all_tables() {
    let html = "<table><tr><td> </td></tr></table><table><tr><td>A</td></tr></table><table></table>";
    assert_eq!(parse_all(html), Some(vec![table(&[&["A"]])]));
    assert_eq!(parse_first(html), None);
    assert_eq!(parse_last(html), None);
}

#[test]
fn attributes_do_not_reach_cells() {
    let html = "<table><tr><td a=1 b=2 c=3 d=4>x <b e=5 f=6 g=7>y</b></td><td>z</td></tr></table>";
    for _ in 0..4 {
        assert_eq!(parse_first(html), Some(table(&[&["x y", "z"]])));
    }
}

#[test]
fn one_table_with_n_rows() {
    let html = "<table><tr><td>h</td></tr><tr><td>a</td><td> </td><td>b&amp;c</td></tr><tr><td>d</td></tr></table>";
    assert_eq!(parse_all(html), Some(vec![table(&[&["h"], &["a", "b&c"], &["d"]])]));
    assert_eq!(normalize("&amp;lt;"), "&lt;");
}
