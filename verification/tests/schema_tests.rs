use legs::schema::{
    array_first_cell_code, array_row_indices, build_schema, matrix_child_names, matrix_col_indices, nrow, leaf_count, row_indices,
    slice_dim_names, total_pillar_cols, value_step, cell_pick, CellPick, PathObject, RColumn, RSchema, RShape, RowSource,
    SchemaError, ValueStep,
};

fn s(x: &str) -> String {
    x.to_string()
}

fn nested_frame() -> RShape {
    RShape::Frame {
        columns: vec![
            (s("id"), RShape::Other),
            (
                s("pos"),
                RShape::Frame { columns: vec![(s("x"), RShape::Other), (s("y"), RShape::Other)] },
            ),
            (s("m"), RShape::Matrix { ncols: 2, colnames: Some(vec![s("a"), s("b")]) }),
            (s("n"), RShape::Matrix { ncols: 2, colnames: None }),
        ],
    }
}

#[test]
fn frame_schema_counts_leaf_columns() {
    let schema = RSchema::build(&nested_frame(), 5);
    assert_eq!(schema.len(), 7);
    assert!(!schema.is_empty());
    assert_eq!(schema.nrow, 5);
}

#[test]
fn frame_schema_names_and_paths() {
    let schema = RSchema::build(&nested_frame(), 5);
    let names: Vec<String> = (0..schema.len()).map(|i| schema.full_name(i).unwrap().to_string()).collect();
    assert_eq!(
        names,
        vec!["id", "pos$x", "pos$y", "m[, \"a\"]", "m[, \"b\"]", "n[, 1]", "n[, 2]"]
    );
    let shown: Vec<String> = (0..schema.len()).map(|i| match schema.column_at(i) {
        Ok((name, _)) => name.to_string(),
        Err(_) => panic!("column out of range"),
    }).collect();
    assert_eq!(shown, vec!["id", "pos$x", "$y", "m[, \"a\"]", "[, \"b\"]", "n[, 1]", "[, 2]"]);
    match schema.column_at(2) {
        Ok((_, path)) => assert_eq!(path, &vec![1usize, 1]),
        Err(_) => panic!("column out of range"),
    }
    match schema.column_at(6) {
        Ok((_, path)) => assert_eq!(path, &vec![3usize, 1]),
        Err(_) => panic!("column out of range"),
    }
}

#[test]
fn column_out_of_range() {
    let schema = RSchema::build(&nested_frame(), 5);
    assert!(matches!(schema.column_at(7), Err(SchemaError::ColumnOutOfRange(7))));
    assert!(schema.full_name(7).is_none());
}

#[test]
fn vector_schema_is_one_unnamed_column() {
    let schema = RSchema::build(&RShape::Other, 3);
    assert_eq!(schema.len(), 1);
    assert_eq!(schema.full_name(0), Some(""));
    assert_eq!(schema.full_name_len(0), 0);
}

#[test]
fn matrix_schema_columns() {
    let schema = RSchema::build(&RShape::Matrix { ncols: 3, colnames: None }, 4);
    assert_eq!(schema.len(), 3);
    assert_eq!(schema.full_name(2), Some("[, 3]"));
    let empty = RSchema::build(&RShape::Frame { columns: vec![] }, 0);
    assert!(empty.is_empty());
}

#[test]
fn matrix_names_need_one_per_column() {
    assert_eq!(matrix_child_names(&Some(vec![s("a")]), 2), vec!["[, 1]", "[, 2]"]);
    assert_eq!(matrix_child_names(&Some(vec![s("a"), s("b")]), 2), vec!["[, \"a\"]", "[, \"b\"]"]);
}

#[test]
fn built_columns_record_their_width() {
    let col = build_schema(&nested_frame(), true);
    assert_eq!(total_pillar_cols(&col), 7);
    assert_eq!(total_pillar_cols(&RColumn::Flat), 1);
    match col {
        RColumn::Packed { children, .. } => {
            assert_eq!(children[1].0, "pos");
            match &children[1].1 {
                RColumn::Packed { ncols, children } => {
                    assert_eq!(*ncols, 2);
                    assert_eq!(children[0].0, "$x");
                },
                RColumn::Flat => panic!("expected a packed column"),
            }
        },
        RColumn::Flat => panic!("expected a packed column"),
    }
}

#[test]
fn vector_row_positions_are_one_based() {
    assert_eq!(row_indices(&(2..5)), vec![3, 4, 5]);
    assert!(row_indices(&(4..4)).is_empty());
}

#[test]
fn matrix_column_positions() {
    assert_eq!(matrix_col_indices(2, 10, Some(3..5)), vec![24, 25]);
    assert_eq!(matrix_col_indices(1, 3, None), vec![4, 5, 6]);
}

#[test]
fn array_row_positions_cover_every_slice() {
    let (idx, dim) = array_row_indices(&vec![4, 2, 3], &(1..3)).ok().unwrap();
    assert_eq!(idx, vec![2, 3, 6, 7, 10, 11, 14, 15, 18, 19, 22, 23]);
    assert_eq!(dim, vec![2, 2, 3]);
    assert!(matches!(array_row_indices(&vec![], &(0..1)), Err(SchemaError::EmptyDim)));
}

#[test]
fn dim_names_of_rows() {
    let names = vec![s("a"), s("b"), s("c")];
    assert_eq!(slice_dim_names(&names, &(1..3)).ok().unwrap(), vec!["b", "c"]);
    assert!(matches!(slice_dim_names(&names, &(2..5)), Err(SchemaError::RowOutOfRange(3))));
}

#[test]
fn first_cell_code_per_dimension() {
    assert_eq!(array_first_cell_code(1), "value[1]");
    assert_eq!(array_first_cell_code(3), "value[1,,]");
}

#[test]
fn row_counts_by_kind_of_object() {
    assert!(matches!(nrow(&RowSource::RowNames(7)), Ok(7)));
    assert!(matches!(nrow(&RowSource::Dims(vec![4, 3, 2])), Ok(4)));
    assert!(matches!(nrow(&RowSource::Dims(Vec::new())), Err(SchemaError::EmptyDim)));
    assert!(matches!(nrow(&RowSource::Length(12)), Ok(12)));
}

#[test]
fn leaf_columns_are_counted() {
    assert_eq!(leaf_count(&nested_frame()), Some(RSchema::build(&nested_frame(), 1).len()));
    assert_eq!(leaf_count(&RShape::Other), Some(1));
    assert_eq!(leaf_count(&RShape::Matrix { ncols: 4, colnames: None }), Some(4));
    let wide = RShape::Frame {
        columns: vec![
            (s("a"), RShape::Matrix { ncols: usize::MAX, colnames: None }),
            (s("b"), RShape::Other),
        ],
    };
    assert_eq!(leaf_count(&wide), None);
}

#[test]
fn following_a_column_path() {
    let path = vec![2, 1];
    assert!(matches!(value_step(&path, 0, &PathObject::Frame, &Some(0..3)), Ok(ValueStep::Column(2))));
    match value_step(&path, 1, &PathObject::Matrix { nrow: 10 }, &Some(3..5)) {
        Ok(ValueStep::MatrixPositions(ix)) => assert_eq!(ix, vec![14, 15]),
        _ => panic!("expected matrix positions"),
    }
    match value_step(&path, 1, &PathObject::Matrix { nrow: 4 }, &None) {
        Ok(ValueStep::MatrixPositions(ix)) => assert_eq!(ix, vec![5, 6, 7, 8]),
        _ => panic!("expected matrix positions"),
    }
    assert!(matches!(value_step(&path, 0, &PathObject::Matrix { nrow: 4 }, &None), Err(SchemaError::PathPastLeaf)));
    assert!(matches!(value_step(&path, 0, &PathObject::Other, &None), Err(SchemaError::PathPastLeaf)));
    assert!(matches!(value_step(&path, 1, &PathObject::Other, &Some(0..1)), Ok(ValueStep::Rows)));
    assert!(matches!(value_step(&path, 2, &PathObject::Frame, &Some(0..1)), Ok(ValueStep::Rows)));
    assert!(matches!(value_step(&path, 2, &PathObject::Other, &None), Ok(ValueStep::Whole)));
}

#[test]
fn picking_a_cell() {
    assert!(matches!(cell_pick(true, Some(3)), CellPick::FirstElement));
    assert!(matches!(cell_pick(false, None), CellPick::Whole));
    match cell_pick(false, Some(3)) {
        CellPick::ArrayCode(code) => assert_eq!(code, "value[1,,]"),
        _ => panic!("expected array code"),
    }
}
