use csvstream::infer_schema;

fn ratio(null_count: usize, row_count: usize) -> f64 {
    if row_count > 0 {
        null_count as f64 / row_count as f64
    } else {
        0.0
    }
}

#[test]
fn test_infer_schema() {
    let sample = "name,age,salary\nAlice,30,50000\nBob,25,45000";
    let schema = infer_schema(sample, ',');
    assert_eq!(schema.len(), 3);
    assert_eq!(schema[0].name, "name");
    assert_eq!(schema[0].field_type, "string");
    assert_eq!(schema[1].name, "age");
    assert_eq!(schema[1].field_type, "integer");
}

#[test]
fn schema_example_with_ratios() {
    let schema = infer_schema("name,age,salary\nAlice,30,50000\nBob,25,45000", ',');
    assert_eq!(schema.len(), 3);
    assert_eq!(schema[0].field_type, "string");
    assert_eq!(schema[1].field_type, "integer");
    assert_eq!(schema[2].field_type, "integer");
    for f in &schema {
        assert_eq!(ratio(f.null_count, f.row_count), 0.0);
    }
}

#[test]
fn all_empty_column_has_ratio_one() {
    let schema = infer_schema("a,b\n1,\n2, \n", ',');
    assert_eq!(schema[1].null_count, 2);
    assert_eq!(schema[1].row_count, 2);
    assert_eq!(ratio(schema[1].null_count, schema[1].row_count), 1.0);
    assert_eq!(schema[1].field_type, "string");
    assert_eq!(ratio(schema[0].null_count, schema[0].row_count), 0.0);
}

#[test]
fn zero_rows_mean_ratio_zero_and_string() {
    let schema = infer_schema("a,b", ',');
    assert_eq!(schema.len(), 2);
    for f in &schema {
        assert_eq!(f.row_count, 0);
        assert_eq!(f.null_count, 0);
        assert_eq!(ratio(f.null_count, f.row_count), 0.0);
        assert_eq!(f.field_type, "string");
    }
}

#[test]
fn empty_sample_yields_empty_schema() {
    assert!(infer_schema("", ',').is_empty());
}

#[test]
fn last_value_wins() {
    let sample = "a,b,c,d\n1,1,1,true\n2,2,2.5,FALSE\nx,3,,";
    let schema = infer_schema(sample, ',');
    assert_eq!(schema[0].field_type, "string");
    assert_eq!(schema[1].field_type, "integer");
    assert_eq!(schema[2].field_type, "float");
    assert_eq!(schema[3].field_type, "boolean");
}

#[test]
fn integer_range_is_signed_64_bit() {
    let schema = infer_schema("a,b,c\n9223372036854775807,9223372036854775808,-9223372036854775808", ',');
    assert_eq!(schema[0].field_type, "integer");
    assert_eq!(schema[1].field_type, "float");
    assert_eq!(schema[2].field_type, "integer");
}

#[test]
fn numeric_forms() {
    let schema = infer_schema("a,b,c,d,e,f,g\n+5,5.,.5,.,1e5,e5,-2.5E-3", ',');
    assert_eq!(schema[0].field_type, "integer");
    assert_eq!(schema[1].field_type, "float");
    assert_eq!(schema[2].field_type, "float");
    assert_eq!(schema[3].field_type, "string");
    assert_eq!(schema[4].field_type, "float");
    assert_eq!(schema[5].field_type, "string");
    assert_eq!(schema[6].field_type, "float");
}

#[test]
fn booleans_are_case_insensitive() {
    let schema = infer_schema("a,b,c\nTrue,FALSE,truth", ',');
    assert_eq!(schema[0].field_type, "boolean");
    assert_eq!(schema[1].field_type, "boolean");
    assert_eq!(schema[2].field_type, "string");
}

#[test]
fn short_rows_skip_missing_columns_and_extra_columns_are_ignored() {
    let schema = infer_schema("a,b\n1\n2,3,4", ',');
    assert_eq!(schema.len(), 2);
    assert_eq!(schema[0].field_type, "integer");
    assert_eq!(schema[1].field_type, "integer");
    assert_eq!(schema[0].null_count, 0);
    assert_eq!(schema[1].null_count, 0);
    assert_eq!(schema[0].row_count, 2);
}

#[test]
fn whitespace_only_value_counts_as_null() {
    let schema = infer_schema("a\n\t \n7", ',');
    assert_eq!(schema[0].null_count, 1);
    assert_eq!(schema[0].row_count, 2);
    assert_eq!(schema[0].field_type, "integer");
}
