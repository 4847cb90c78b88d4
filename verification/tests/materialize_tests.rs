use whitenoise_runtime::materialize::{
    arrange_columns, label_columns, resolve_column_count, ColumnKey, ColumnNames, MaterializeError,
};

fn strings(cells: &[&str]) -> Vec<String> {
    cells.iter().map(|c| c.to_string()).collect()
}

#[test]
fn column_count_comes_from_names_or_count() {
    let names = ColumnNames::OneDimensional(strings(&["a", "b", "c"]));
    assert_eq!(resolve_column_count(&names, None), Ok(3));
    assert_eq!(resolve_column_count(&ColumnNames::Absent, Some(4)), Ok(4));
    assert_eq!(
        resolve_column_count(&ColumnNames::MultiDimensional, None),
        Err(MaterializeError::ColumnNamesNotOneDimensional)
    );
    assert_eq!(resolve_column_count(&names, Some(3)), Err(MaterializeError::ColumnCountMissing));
    assert_eq!(resolve_column_count(&ColumnNames::Absent, None), Err(MaterializeError::ColumnCountMissing));
    assert_eq!(resolve_column_count(&ColumnNames::Absent, Some(-1)), Ok(usize::MAX));
}

#[test]
fn cells_go_to_their_columns() {
    let records = vec![strings(&["1", "2", "3"]), strings(&["4", "5", "6"])];
    let columns = arrange_columns(2, &records);
    assert_eq!(columns, vec![strings(&["1", "4"]), strings(&["2", "5"])]);
}

#[test]
fn short_records_fill_fewer_columns() {
    let records = vec![strings(&["1", "2"]), strings(&["3"])];
    let columns = arrange_columns(2, &records);
    assert_eq!(columns, vec![strings(&["1", "3"]), strings(&["2"])]);
}

#[test]
fn missing_columns_are_padded_with_empty_strings() {
    let records = vec![strings(&["1"]), strings(&["2"]), strings(&["3"])];
    let columns = arrange_columns(3, &records);
    assert_eq!(columns, vec![strings(&["1", "2", "3"]), strings(&["", "", ""]), strings(&["", "", ""])]);
}

#[test]
fn no_records_give_empty_columns() {
    let columns = arrange_columns(2, &vec![]);
    assert_eq!(columns, vec![Vec::<String>::new(), Vec::new()]);
}

#[test]
fn columns_are_keyed_by_name_or_index() {
    let columns = vec![strings(&["1"]), strings(&["2"])];
    let labeled = label_columns(Some(strings(&["x", "y"])), columns.clone());
    assert_eq!(labeled.len(), 2);
    assert!(matches!(&labeled[0].0, ColumnKey::Name(n) if n == "x"));
    assert!(matches!(&labeled[1].0, ColumnKey::Name(n) if n == "y"));
    assert_eq!(labeled[1].1, strings(&["2"]));
    let labeled = label_columns(None, columns);
    assert!(matches!(labeled[0].0, ColumnKey::Index(0)));
    assert!(matches!(labeled[1].0, ColumnKey::Index(1)));
    assert_eq!(labeled[0].1, strings(&["1"]));
}
