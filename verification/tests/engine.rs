use relalg::condition::parse;
use relalg::errors::{EvalError, SetOp};
use relalg::table::Table;
use relalg::tokenizer::get_tokens;

fn table(rows: &[&[&str]], types: &[&str]) -> Table {
    Table {
        rows: rows.iter().map(|r| r.iter().map(|v| v.to_string()).collect()).collect(),
        types: types.iter().map(|t| t.to_string()).collect(),
    }
}

fn rows_of(t: &Table) -> Vec<Vec<String>> {
    t.rows.clone()
}

fn cond(text: &str) -> relalg::condition::Condition {
    let tokens = get_tokens(text).unwrap();
    parse(&tokens, 0).unwrap().0
}

fn sample_r() -> Table {
    table(&[&["id", "name"], &["1", "Alice"], &["2", "Bob"]], &["Integer", "String"])
}

#[test]
fn union_appends_missing_rows_only() {
    let a = table(&[&["id"], &["1"], &["2"]], &["Integer"]);
    let b = table(&[&["id"], &["2"], &["3"]], &["Integer"]);
    let u = a.union(&b).unwrap();
    assert_eq!(rows_of(&u), rows_of(&table(&[&["id"], &["1"], &["2"], &["3"]], &["Integer"])));
    assert_eq!(u.types, vec!["Integer"]);
}

#[test]
fn union_requires_equal_headers() {
    let a = table(&[&["id"]], &["Integer"]);
    let b = table(&[&["key"]], &["Integer"]);
    assert_eq!(a.union(&b).unwrap_err(), EvalError::HeaderMismatch(SetOp::Union));
}

#[test]
fn union_is_order_insensitive_as_a_set() {
    let a = table(&[&["id"], &["1"], &["2"]], &["Integer"]);
    let b = table(&[&["id"], &["3"]], &["Integer"]);
    let mut ab = a.union(&b).unwrap().rows;
    let mut ba = b.union(&a).unwrap().rows;
    ab.sort();
    ba.sort();
    assert_eq!(ab, ba);
}

#[test]
fn minus_keeps_rows_absent_from_the_right() {
    let a = table(&[&["id"], &["1"], &["2"], &["1"]], &["Integer"]);
    let b = table(&[&["id"], &["2"]], &["Integer"]);
    let d = a.minus(&b).unwrap();
    assert_eq!(rows_of(&d), rows_of(&table(&[&["id"], &["1"], &["1"]], &["Integer"])));
}

#[test]
fn intersect_emits_one_row_per_matching_pair() {
    // a row of A matching two duplicates in B appears twice
    let a = table(&[&["id"], &["1"], &["2"]], &["Integer"]);
    let b = table(&[&["id"], &["1"], &["1"]], &["Integer"]);
    let i = a.intersect(&b).unwrap();
    assert_eq!(rows_of(&i), rows_of(&table(&[&["id"], &["1"], &["1"]], &["Integer"])));
}

#[test]
fn intersect_counts_are_symmetric() {
    let a = table(&[&["id"], &["1"], &["1"], &["2"]], &["Integer"]);
    let b = table(&[&["id"], &["1"], &["2"], &["2"]], &["Integer"]);
    let mut ab = a.intersect(&b).unwrap().rows;
    let mut ba = b.intersect(&a).unwrap().rows;
    ab.sort();
    ba.sort();
    assert_eq!(ab, ba);
}

#[test]
fn multiply_concatenates_headers_and_crosses_rows() {
    let a = sample_r();
    let b = table(&[&["dept"], &["Eng"]], &["String"]);
    let p = a.multiply(&b).unwrap();
    assert_eq!(
        rows_of(&p),
        rows_of(&table(
            &[&["id", "name", "dept"], &["1", "Alice", "Eng"], &["2", "Bob", "Eng"]],
            &["Integer", "String", "String"],
        ))
    );
    assert_eq!(p.types, vec!["Integer", "String", "String"]);
}

#[test]
fn select_keeps_matching_rows() {
    // table R, select id=1: header unchanged, the single matching row kept
    let r = sample_r();
    let s = r.select(&cond("id = 1")).unwrap();
    assert_eq!(rows_of(&s), rows_of(&table(&[&["id", "name"], &["1", "Alice"]], &["Integer", "String"])));
}

#[test]
fn select_is_idempotent() {
    let r = sample_r();
    let c = cond("id = 1");
    let once = r.select(&c).unwrap();
    let twice = once.select(&c).unwrap();
    assert_eq!(rows_of(&once), rows_of(&twice));
}

#[test]
fn select_fails_on_non_boolean_condition() {
    let r = sample_r();
    assert_eq!(r.select(&cond("name")).unwrap_err(), EvalError::NotBoolean("Alice".to_string()));
}

#[test]
fn project_keeps_named_columns_and_deduplicates() {
    // project name R: header [name], rows Alice and Bob
    let r = sample_r();
    let p = r.project(vec!["name".to_string()]).unwrap();
    assert_eq!(rows_of(&p), rows_of(&table(&[&["name"], &["Alice"], &["Bob"]], &["String"])));
}

#[test]
fn project_drops_duplicate_rows() {
    // two rows collapse once the distinguishing column is gone
    let t = table(
        &[&["id", "city"], &["1", "Oslo"], &["2", "Oslo"], &["3", "Bern"]],
        &["Integer", "String"],
    );
    let p = t.project(vec!["city".to_string()]).unwrap();
    assert_eq!(rows_of(&p), rows_of(&table(&[&["city"], &["Oslo"], &["Bern"]], &["String"])));
}

#[test]
fn project_ignores_unknown_names() {
    let r = sample_r();
    let p = r.project(vec!["name".to_string(), "age".to_string()]).unwrap();
    assert_eq!(p.rows[0], vec!["name"]);
}

#[test]
fn project_full_column_list_is_identity_up_to_dedup() {
    let t = table(&[&["id"], &["1"], &["1"], &["2"]], &["Integer"]);
    let p = t.project(vec!["id".to_string()]).unwrap();
    assert_eq!(rows_of(&p), rows_of(&table(&[&["id"], &["1"], &["2"]], &["Integer"])));
    assert_eq!(p.types, t.types);
}

#[test]
fn project_is_idempotent() {
    let t = sample_r();
    let once = t.project(vec!["name".to_string()]).unwrap();
    let twice = once.project(vec!["name".to_string()]).unwrap();
    assert_eq!(rows_of(&once), rows_of(&twice));
    assert_eq!(once.types, twice.types);
}

#[test]
fn divide_finds_rows_combined_with_all_of_the_divisor() {
    // who is enrolled in every listed course
    let a = table(
        &[
            &["student", "course"],
            &["ann", "db"],
            &["ann", "os"],
            &["bob", "db"],
        ],
        &["String", "String"],
    );
    let b = table(&[&["course"], &["db"], &["os"]], &["String"]);
    let d = a.divide(&b).unwrap();
    assert_eq!(rows_of(&d), rows_of(&table(&[&["student"], &["ann"]], &["String"])));
}

#[test]
fn divide_result_times_divisor_stays_inside_the_dividend() {
    let a = table(
        &[
            &["student", "course"],
            &["ann", "db"],
            &["ann", "os"],
            &["bob", "db"],
        ],
        &["String", "String"],
    );
    let b = table(&[&["course"], &["db"], &["os"]], &["String"]);
    let d = a.divide(&b).unwrap();
    for drow in d.rows.iter().skip(1) {
        for brow in b.rows.iter().skip(1) {
            let mut combined = drow.clone();
            combined.extend(brow.iter().cloned());
            assert!(a.rows.contains(&combined));
        }
    }
}

#[test]
fn join_is_a_selected_product() {
    let r = sample_r();
    let s = table(&[&["sid", "dept"], &["1", "Eng"], &["3", "Ops"]], &["Integer", "String"]);
    let j = r.join(&cond("id = sid"), &s).unwrap();
    assert_eq!(
        rows_of(&j),
        rows_of(&table(
            &[&["id", "name", "sid", "dept"], &["1", "Alice", "1", "Eng"]],
            &["Integer", "String", "Integer", "String"],
        ))
    );
}

#[test]
fn join_with_vacuous_condition_is_the_product() {
    let r = sample_r();
    let s = table(&[&["dept"], &["Eng"], &["Ops"]], &["String"]);
    let j = r.join(&cond("'x' = 'x'"), &s).unwrap();
    let p = r.multiply(&s).unwrap();
    assert_eq!(rows_of(&j), rows_of(&p));
    assert_eq!(j.types, p.types);
}

#[test]
fn left_join_pads_unmatched_rows_with_null() {
    let r = sample_r();
    let s = table(&[&["sid", "dept"], &["1", "Eng"], &["3", "Ops"]], &["Integer", "String"]);
    let j = r.left_join(&cond("id = sid"), &s).unwrap();
    assert_eq!(
        rows_of(&j),
        rows_of(&table(
            &[
                &["id", "name", "sid", "dept"],
                &["1", "Alice", "1", "Eng"],
                &["2", "Bob", "Null", "Null"],
            ],
            &["Integer", "String", "Integer", "String"],
        ))
    );
}

#[test]
fn left_join_with_shared_column_name_fails() {
    // with a column named alike on both sides the projection inside the
    // left join reorders the header and the difference rejects it
    let r = sample_r();
    let s = table(&[&["id", "dept"], &["1", "Eng"], &["3", "Ops"]], &["Integer", "String"]);
    assert_eq!(
        r.left_join(&cond("id = id"), &s).unwrap_err(),
        EvalError::HeaderMismatch(SetOp::Minus)
    );
}

#[test]
fn right_join_pads_on_the_left() {
    let r = sample_r();
    let s = table(&[&["sid", "dept"], &["1", "Eng"], &["3", "Ops"]], &["Integer", "String"]);
    let j = r.right_join(&cond("id = sid"), &s).unwrap();
    assert_eq!(
        rows_of(&j),
        rows_of(&table(
            &[
                &["id", "name", "sid", "dept"],
                &["1", "Alice", "1", "Eng"],
                &["Null", "Null", "3", "Ops"],
            ],
            &["Integer", "String", "Integer", "String"],
        ))
    );
}

#[test]
fn full_join_pads_both_sides() {
    let r = sample_r();
    let s = table(&[&["sid", "dept"], &["1", "Eng"], &["3", "Ops"]], &["Integer", "String"]);
    let j = r.full_join(&cond("id = sid"), &s).unwrap();
    assert_eq!(
        rows_of(&j),
        rows_of(&table(
            &[
                &["id", "name", "sid", "dept"],
                &["1", "Alice", "1", "Eng"],
                &["2", "Bob", "Null", "Null"],
                &["Null", "Null", "3", "Ops"],
            ],
            &["Integer", "String", "Integer", "String"],
        ))
    );
}

#[test]
fn render_joins_values_and_lines() {
    let r = sample_r();
    assert_eq!(r.render(), "id, name\n1, Alice\n2, Bob\n");
}

#[test]
fn new_table_has_only_the_header() {
    let t = Table::new(vec!["a".to_string(), "b".to_string()]);
    assert_eq!(t.rows, vec![vec!["a".to_string(), "b".to_string()]]);
    assert!(t.types.is_empty());
}

#[test]
fn check_wf_accepts_and_rejects() {
    assert!(sample_r().check_wf());
    let ragged = table(&[&["id", "name"], &["1"]], &["Integer", "String"]);
    assert!(!ragged.check_wf());
    let no_header = Table { rows: vec![], types: vec![] };
    assert!(!no_header.check_wf());
    let bad_types = table(&[&["id"]], &[]);
    assert!(!bad_types.check_wf());
}

#[test]
fn minus_and_intersect_require_equal_headers() {
    let a = table(&[&["id"]], &["Integer"]);
    let b = table(&[&["key"]], &["Integer"]);
    assert_eq!(a.minus(&b).unwrap_err(), EvalError::HeaderMismatch(SetOp::Minus));
    assert_eq!(a.intersect(&b).unwrap_err(), EvalError::HeaderMismatch(SetOp::Intersect));
}

#[test]
fn render_of_a_bare_header() {
    let t = table(&[&["a", "b"]], &["Integer", "Integer"]);
    assert_eq!(t.render(), "a, b\n");
}
