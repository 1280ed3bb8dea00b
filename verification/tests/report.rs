use retirement_simulator::report::format_table;

fn row(cells: &[&str]) -> Vec<String> {
    cells.iter().map(|c| c.to_string()).collect()
}

#[test]
fn an_empty_table_is_empty_text() {
    assert_eq!(format_table(Vec::new()), "");
    assert_eq!(format_table(vec![Vec::new()]), "\n");
    assert_eq!(format_table(vec![Vec::new(), Vec::new()]), "\n\n");
}

#[test]
fn cells_are_set_to_the_right_of_their_columns() {
    let table = vec![
        row(&["", "Year", "Balance"]),
        row(&["0", "2030", "1,000,315"]),
        row(&["12", "2031", "998"]),
    ];
    assert_eq!(
        format_table(table),
        "   Year   Balance \n 0 2030 1,000,315 \n12 2031       998 \n"
    );
}

#[test]
fn a_single_cell() {
    assert_eq!(format_table(vec![row(&["x"])]), "x \n");
    assert_eq!(format_table(vec![row(&[""])]), " \n");
}

#[test]
fn shorter_rows_leave_later_columns_alone() {
    let table = vec![row(&["a", "bb", "ccc"]), row(&["dddd"]), row(&["e", "f"])];
    assert_eq!(format_table(table), "   a bb ccc \ndddd \n   e  f \n");
}

#[test]
fn columns_are_as_wide_as_the_most_bytes_of_a_cell() {
    let table = vec![row(&["é", "x"]), row(&["ab", "y"])];
    assert_eq!(format_table(table), " é x \nab y \n");
    let table = vec![row(&["éé"]), row(&["abc"])];
    assert_eq!(format_table(table), "  éé \n abc \n");
}
