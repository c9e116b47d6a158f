use grid_sort::entities::{
    CellValue, FieldMetadata, FieldType, Row, SortCondition, SortSpecification, TypeOptions,
};
use grid_sort::row::cmp_row;
use grid_sort::sort::{all_comparable, insertion_sort, sort_rows, PARALLEL_SORT_THRESHOLD};
use std::cmp::Ordering;

fn score_field() -> FieldMetadata {
    FieldMetadata {
        id: "Score".to_string(),
        field_type: FieldType::Number,
        options: TypeOptions::Number,
    }
}

fn by_score(condition: SortCondition) -> SortSpecification {
    SortSpecification {
        id: "by-score".to_string(),
        field_id: "Score".to_string(),
        field_type: FieldType::Number,
        condition,
    }
}

fn scored(id: &str, score: Option<i64>) -> Row {
    let mut row = Row::new(id);
    if let Some(score) = score {
        row.set_cell("Score", CellValue::Number(score));
    }
    row
}

fn ids(rows: &[Row]) -> Vec<String> {
    rows.iter().map(|row| row.id.clone()).collect()
}

fn people() -> (Vec<SortSpecification>, Vec<FieldMetadata>, Vec<Row>) {
    let sorts = vec![
        SortSpecification {
            id: "s1".to_string(),
            field_id: "Age".to_string(),
            field_type: FieldType::Number,
            condition: SortCondition::Ascending,
        },
        SortSpecification {
            id: "s2".to_string(),
            field_id: "Name".to_string(),
            field_type: FieldType::RichText,
            condition: SortCondition::Ascending,
        },
    ];
    let fields = vec![
        FieldMetadata {
            id: "Age".to_string(),
            field_type: FieldType::Number,
            options: TypeOptions::Number,
        },
        FieldMetadata {
            id: "Name".to_string(),
            field_type: FieldType::RichText,
            options: TypeOptions::RichText { case_sensitive: true },
        },
    ];
    let mut rows = Vec::new();
    for (id, age, name) in [("1", 30, "Bea"), ("2", 30, "Al"), ("3", 25, "Zed")] {
        let mut row = Row::new(id);
        row.set_cell("Age", CellValue::Number(age));
        row.set_cell("Name", CellValue::Text(name.to_string()));
        rows.push(row);
    }
    (sorts, fields, rows)
}

#[test]
fn sorts_by_age_then_name() {
    let (sorts, fields, mut rows) = people();
    sort_rows(&mut rows, &sorts, &fields);
    assert_eq!(ids(&rows), ["3", "2", "1"]);
}

#[test]
fn insertion_sorts_by_age_then_name() {
    let (sorts, fields, mut rows) = people();
    insertion_sort(&mut rows, &sorts, &fields);
    assert_eq!(ids(&rows), ["3", "2", "1"]);
}

#[test]
fn ascending_puts_the_missing_score_last() {
    let mut rows = vec![scored("1", None), scored("2", Some(10))];
    sort_rows(&mut rows, &[by_score(SortCondition::Ascending)], &[score_field()]);
    assert_eq!(ids(&rows), ["2", "1"]);
}

#[test]
fn descending_ranks_the_missing_score_lesser() {
    let sorts = [by_score(SortCondition::Descending)];
    let fields = [score_field()];
    let mut rows = vec![scored("1", None), scored("2", Some(10))];
    assert_eq!(cmp_row(&rows[0], &rows[1], &sorts, &fields), Ordering::Less);
    sort_rows(&mut rows, &sorts, &fields);
    assert_eq!(ids(&rows), ["1", "2"]);
    let mut rows = vec![scored("2", Some(10)), scored("1", None)];
    sort_rows(&mut rows, &sorts, &fields);
    assert_eq!(ids(&rows), ["1", "2"]);
}

#[test]
fn descending_sorts_the_greatest_score_first() {
    let mut rows = vec![
        scored("a", Some(1)),
        scored("b", Some(3)),
        scored("c", Some(2)),
        scored("d", Some(3)),
    ];
    sort_rows(&mut rows, &[by_score(SortCondition::Descending)], &[score_field()]);
    assert_eq!(ids(&rows), ["b", "d", "c", "a"]);
}

#[test]
fn sorting_nothing_gives_nothing() {
    let mut rows: Vec<Row> = Vec::new();
    sort_rows(&mut rows, &[by_score(SortCondition::Ascending)], &[score_field()]);
    assert!(rows.is_empty());
    let mut one = vec![scored("only", Some(1))];
    sort_rows(&mut one, &[by_score(SortCondition::Ascending)], &[score_field()]);
    assert_eq!(ids(&one), ["only"]);
}

#[test]
fn without_specifications_the_rows_stay_as_they_are() {
    let mut rows = vec![scored("c", Some(3)), scored("a", Some(1)), scored("b", Some(2))];
    sort_rows(&mut rows, &[], &[score_field()]);
    assert_eq!(ids(&rows), ["c", "a", "b"]);
}

#[test]
fn equal_rows_keep_their_input_order() {
    let mut rows = vec![
        scored("a", Some(2)),
        scored("b", Some(1)),
        scored("c", Some(2)),
        scored("d", Some(1)),
        scored("e", Some(2)),
        scored("f", None),
        scored("g", None),
    ];
    sort_rows(&mut rows, &[by_score(SortCondition::Ascending)], &[score_field()]);
    assert_eq!(ids(&rows), ["b", "d", "a", "c", "e", "f", "g"]);
}

#[test]
fn sorting_sorted_rows_changes_nothing() {
    let sorts = [by_score(SortCondition::Ascending)];
    let fields = [score_field()];
    let mut rows = vec![
        scored("a", Some(2)),
        scored("b", Some(1)),
        scored("c", Some(2)),
        scored("d", None),
        scored("e", Some(1)),
    ];
    sort_rows(&mut rows, &sorts, &fields);
    let once = ids(&rows);
    assert_eq!(once, ["b", "e", "a", "c", "d"]);
    sort_rows(&mut rows, &sorts, &fields);
    assert_eq!(ids(&rows), once);
    insertion_sort(&mut rows, &sorts, &fields);
    assert_eq!(ids(&rows), once);
}

#[test]
fn sorting_twice_changes_nothing_even_with_unreadable_cells() {
    let sorts = [by_score(SortCondition::Ascending)];
    let fields = [score_field()];
    let mut unread = Row::new("u");
    unread.set_cell("Score", CellValue::Opaque);
    let mut rows = vec![scored("a", Some(2)), unread, scored("b", Some(1)), scored("c", Some(0))];
    assert!(!all_comparable(&rows, &sorts, &fields));
    sort_rows(&mut rows, &sorts, &fields);
    let once = ids(&rows);
    assert_eq!(once, ["a", "u", "c", "b"]);
    sort_rows(&mut rows, &sorts, &fields);
    assert_eq!(ids(&rows), once);
}

#[test]
fn removing_a_specification_of_a_deleted_field_keeps_the_order() {
    let (sorts, fields, mut rows) = people();
    let (_, _, mut same_rows) = people();
    let mut with_deleted = vec![SortSpecification {
        id: "gone".to_string(),
        field_id: "Height".to_string(),
        field_type: FieldType::Number,
        condition: SortCondition::Descending,
    }];
    with_deleted.extend(sorts.iter().cloned());
    for (row, height) in rows.iter_mut().zip([3, 1, 2]) {
        row.set_cell("Height", CellValue::Number(height));
    }
    sort_rows(&mut rows, &with_deleted, &fields);
    sort_rows(&mut same_rows, &sorts, &fields);
    assert_eq!(ids(&rows), ids(&same_rows));
    assert_eq!(ids(&rows), ["3", "2", "1"]);
}

#[test]
fn all_comparable_tells_whether_every_cell_can_be_read() {
    let sorts = [by_score(SortCondition::Ascending)];
    let fields = [score_field()];
    let rows = vec![scored("a", Some(2)), scored("b", None)];
    assert!(all_comparable(&rows, &sorts, &fields));
    let mut text = Row::new("t");
    text.set_cell("Score", CellValue::Text("2".to_string()));
    let rows = vec![scored("a", Some(2)), text];
    assert!(!all_comparable(&rows, &sorts, &fields));
    assert!(all_comparable(&rows, &sorts, &[]));
    assert!(all_comparable(&rows, &[], &fields));
    let other_options = [FieldMetadata {
        id: "Score".to_string(),
        field_type: FieldType::Checkbox,
        options: TypeOptions::Other,
    }];
    assert!(all_comparable(&rows, &sorts, &other_options));
    assert!(all_comparable(&Vec::new(), &sorts, &fields));
}

#[test]
fn a_large_collection_is_sorted_in_parallel_to_the_same_order() {
    let sorts = [by_score(SortCondition::Ascending)];
    let fields = [score_field()];
    let count = PARALLEL_SORT_THRESHOLD + 1500;
    let make = || -> Vec<Row> {
        (0..count)
            .map(|i| {
                let score = ((i * 7919) % 101) as i64;
                if i % 13 == 0 {
                    scored(&format!("r{i}"), None)
                } else {
                    scored(&format!("r{i}"), Some(score))
                }
            })
            .collect()
    };
    let mut in_parallel = make();
    assert!(in_parallel.len() > PARALLEL_SORT_THRESHOLD);
    assert!(all_comparable(&in_parallel, &sorts, &fields));
    sort_rows(&mut in_parallel, &sorts, &fields);
    let mut by_insertion = make();
    insertion_sort(&mut by_insertion, &sorts, &fields);
    assert_eq!(ids(&in_parallel), ids(&by_insertion));
    assert_ne!(ids(&in_parallel), ids(&make()));
    for pair in in_parallel.windows(2) {
        assert_ne!(cmp_row(&pair[0], &pair[1], &sorts, &fields), Ordering::Greater);
    }
    assert_eq!(in_parallel.len(), count);
}

#[test]
fn a_large_collection_in_reverse_order_is_sorted() {
    let sorts = [by_score(SortCondition::Ascending)];
    let fields = [score_field()];
    let count = PARALLEL_SORT_THRESHOLD + 1;
    let mut rows: Vec<Row> =
        (0..count).map(|i| scored(&format!("r{i}"), Some((count - i) as i64))).collect();
    sort_rows(&mut rows, &sorts, &fields);
    let expected: Vec<String> = (0..count).rev().map(|i| format!("r{i}")).collect();
    assert_eq!(ids(&rows), expected);
}

#[test]
fn a_large_collection_with_an_unreadable_cell_is_sorted_by_insertion() {
    let sorts = [by_score(SortCondition::Ascending)];
    let fields = [score_field()];
    let count = PARALLEL_SORT_THRESHOLD + 10;
    let make = || -> Vec<Row> {
        let mut rows: Vec<Row> =
            (0..count).map(|i| scored(&format!("r{i}"), Some((i % 5) as i64))).collect();
        rows[count / 2].set_cell("Score", CellValue::Opaque);
        rows
    };
    let mut sorted = make();
    assert!(!all_comparable(&sorted, &sorts, &fields));
    sort_rows(&mut sorted, &sorts, &fields);
    let mut by_insertion = make();
    insertion_sort(&mut by_insertion, &sorts, &fields);
    assert_eq!(ids(&sorted), ids(&by_insertion));
    for pair in sorted.windows(2) {
        assert_ne!(cmp_row(&pair[0], &pair[1], &sorts, &fields), Ordering::Greater);
    }
}

#[test]
fn a_field_type_without_an_ordering_leaves_the_decision_to_the_next_key() {
    let (mut sorts, mut fields, mut rows) = people();
    sorts.insert(
        0,
        SortSpecification {
            id: "done".to_string(),
            field_id: "Done".to_string(),
            field_type: FieldType::Checkbox,
            condition: SortCondition::Descending,
        },
    );
    fields.push(FieldMetadata {
        id: "Done".to_string(),
        field_type: FieldType::Checkbox,
        options: TypeOptions::Other,
    });
    for (row, done) in rows.iter_mut().zip([1, 0, 1]) {
        row.set_cell("Done", CellValue::Number(done));
    }
    sort_rows(&mut rows, &sorts, &fields);
    assert_eq!(ids(&rows), ["3", "2", "1"]);
}

#[test]
fn cells_that_cannot_be_read_leave_the_decision_to_the_next_key() {
    let (sorts, fields, mut rows) = people();
    for row in rows.iter_mut() {
        row.set_cell("Age", CellValue::Opaque);
    }
    sort_rows(&mut rows, &sorts, &fields);
    assert_eq!(ids(&rows), ["2", "1", "3"]);
}

#[test]
fn rows_without_any_sorted_field_keep_their_input_order() {
    let (sorts, fields, _) = people();
    let mut rows = vec![Row::new("c"), Row::new("a"), Row::new("b")];
    sort_rows(&mut rows, &sorts, &fields);
    assert_eq!(ids(&rows), ["c", "a", "b"]);
}
