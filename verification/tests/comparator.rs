use grid_sort::cell::{cmp_cell, cmp_number, cmp_text, comparator_reads, holds_value_of};
use grid_sort::entities::{
    CellValue, FieldMetadata, FieldType, Row, SortCondition, SortSpecification, TypeOptions,
};
use grid_sort::row::{cmp_field, cmp_resolved, cmp_row, direct, find_field, reverse, RowComparator};
use grid_sort::text::fold_char;
use std::cmp::Ordering;

fn number_field(id: &str) -> FieldMetadata {
    FieldMetadata { id: id.to_string(), field_type: FieldType::Number, options: TypeOptions::Number }
}

fn text_field(id: &str, case_sensitive: bool) -> FieldMetadata {
    FieldMetadata {
        id: id.to_string(),
        field_type: FieldType::RichText,
        options: TypeOptions::RichText { case_sensitive },
    }
}

fn sort_by(id: &str, field_id: &str, field_type: FieldType, condition: SortCondition) -> SortSpecification {
    SortSpecification { id: id.to_string(), field_id: field_id.to_string(), field_type, condition }
}

fn person(id: &str, age: Option<i64>, name: Option<&str>) -> Row {
    let mut row = Row::new(id);
    if let Some(age) = age {
        row.set_cell("Age", CellValue::Number(age));
    }
    if let Some(name) = name {
        row.set_cell("Name", CellValue::Text(name.to_string()));
    }
    row
}

fn age_then_name() -> (Vec<SortSpecification>, Vec<FieldMetadata>) {
    (
        vec![
            sort_by("s1", "Age", FieldType::Number, SortCondition::Ascending),
            sort_by("s2", "Name", FieldType::RichText, SortCondition::Ascending),
        ],
        vec![number_field("Age"), text_field("Name", true)],
    )
}

#[test]
fn numbers_compare_numerically() {
    assert_eq!(cmp_number(-5, 3), Ordering::Less);
    assert_eq!(cmp_number(10, 9), Ordering::Greater);
    assert_eq!(cmp_number(7, 7), Ordering::Equal);
    assert_eq!(cmp_number(i64::MIN, i64::MAX), Ordering::Less);
    let field = number_field("n");
    assert_eq!(
        cmp_cell(&CellValue::Number(2), &CellValue::Number(10), &field, FieldType::Number),
        Ordering::Less
    );
}

#[test]
fn dates_compare_numerically() {
    let field = FieldMetadata {
        id: "d".to_string(),
        field_type: FieldType::DateTime,
        options: TypeOptions::DateTime,
    };
    assert_eq!(
        cmp_cell(
            &CellValue::DateTime(1_700_000_000),
            &CellValue::DateTime(1_600_000_000),
            &field,
            FieldType::DateTime
        ),
        Ordering::Greater
    );
    assert_eq!(
        cmp_cell(&CellValue::DateTime(5), &CellValue::DateTime(5), &field, FieldType::DateTime),
        Ordering::Equal
    );
}

#[test]
fn texts_compare_by_character() {
    assert_eq!(cmp_text("Al", "Bea", true), Ordering::Less);
    assert_eq!(cmp_text("Zed", "Bea", true), Ordering::Greater);
    assert_eq!(cmp_text("Bea", "Bea", true), Ordering::Equal);
    assert_eq!(cmp_text("", "", true), Ordering::Equal);
    assert_eq!(cmp_text("", "a", true), Ordering::Less);
    assert_eq!(cmp_text("a", "", true), Ordering::Greater);
    assert_eq!(cmp_text("ab", "abc", true), Ordering::Less);
    assert_eq!(cmp_text("abd", "abc", true), Ordering::Greater);
    assert_eq!(cmp_text("\u{e9}", "z", true), Ordering::Greater);
    assert_eq!(cmp_text("\u{1F600}", "\u{e9}", true), Ordering::Greater);
}

#[test]
fn text_case_follows_the_field_options() {
    assert_eq!(cmp_text("apple", "Banana", true), Ordering::Greater);
    assert_eq!(cmp_text("apple", "Banana", false), Ordering::Less);
    assert_eq!(cmp_text("HELLO", "hello", false), Ordering::Equal);
    assert_eq!(cmp_text("HELLO", "hello", true), Ordering::Less);
    assert_eq!(cmp_text("[", "a", false), Ordering::Less);
    assert_eq!(cmp_text("@", "A", false), Ordering::Less);
    let sensitive = text_field("t", true);
    let insensitive = text_field("t", false);
    let a = CellValue::Text("apple".to_string());
    let b = CellValue::Text("Banana".to_string());
    assert_eq!(cmp_cell(&a, &b, &sensitive, FieldType::RichText), Ordering::Greater);
    assert_eq!(cmp_cell(&a, &b, &insensitive, FieldType::RichText), Ordering::Less);
}

#[test]
fn field_types_without_an_ordering_compare_equal() {
    let other = FieldMetadata {
        id: "f".to_string(),
        field_type: FieldType::Checkbox,
        options: TypeOptions::Other,
    };
    for field_type in [
        FieldType::SingleSelect,
        FieldType::MultiSelect,
        FieldType::Checkbox,
        FieldType::URL,
        FieldType::Checklist,
    ] {
        assert_eq!(
            cmp_cell(&CellValue::Number(1), &CellValue::Number(2), &other, field_type),
            Ordering::Equal
        );
        assert_eq!(
            cmp_cell(
                &CellValue::Text("a".to_string()),
                &CellValue::Text("b".to_string()),
                &text_field("f", true),
                field_type
            ),
            Ordering::Equal
        );
    }
}

#[test]
fn cells_that_the_comparator_cannot_read_compare_equal() {
    let field = number_field("n");
    assert_eq!(
        cmp_cell(&CellValue::Opaque, &CellValue::Number(2), &field, FieldType::Number),
        Ordering::Equal
    );
    assert_eq!(
        cmp_cell(&CellValue::Number(2), &CellValue::Opaque, &field, FieldType::Number),
        Ordering::Equal
    );
    assert_eq!(
        cmp_cell(
            &CellValue::Text("1".to_string()),
            &CellValue::Number(2),
            &field,
            FieldType::Number
        ),
        Ordering::Equal
    );
    assert_eq!(
        cmp_cell(&CellValue::Number(1), &CellValue::Number(2), &field, FieldType::RichText),
        Ordering::Equal
    );
}

#[test]
fn options_of_another_type_leave_cells_equal() {
    let text_options = text_field("n", true);
    assert_eq!(
        cmp_cell(&CellValue::Number(1), &CellValue::Number(2), &text_options, FieldType::Number),
        Ordering::Equal
    );
    let number_options = number_field("t");
    assert_eq!(
        cmp_cell(
            &CellValue::Text("a".to_string()),
            &CellValue::Text("b".to_string()),
            &number_options,
            FieldType::RichText
        ),
        Ordering::Equal
    );
}

#[test]
fn reverse_inverts_an_order() {
    assert_eq!(reverse(Ordering::Less), Ordering::Greater);
    assert_eq!(reverse(Ordering::Greater), Ordering::Less);
    assert_eq!(reverse(Ordering::Equal), Ordering::Equal);
}

#[test]
fn find_field_takes_the_first_field_with_the_identifier() {
    let fields = vec![
        number_field("Age"),
        text_field("Name", true),
        text_field("Age", false),
    ];
    let found = find_field(&fields, &"Age".to_string());
    assert_eq!(found, Some(&number_field("Age")));
    assert_eq!(find_field(&fields, &"Name".to_string()), Some(&text_field("Name", true)));
    assert_eq!(find_field(&fields, &"Score".to_string()), None);
    assert_eq!(find_field(&[], &"Age".to_string()), None);
}

#[test]
fn rows_compare_by_the_first_specification_that_tells_them_apart() {
    let (sorts, fields) = age_then_name();
    let bea = person("1", Some(30), Some("Bea"));
    let al = person("2", Some(30), Some("Al"));
    let zed = person("3", Some(25), Some("Zed"));
    assert_eq!(cmp_row(&zed, &al, &sorts, &fields), Ordering::Less);
    assert_eq!(cmp_row(&zed, &bea, &sorts, &fields), Ordering::Less);
    assert_eq!(cmp_row(&al, &bea, &sorts, &fields), Ordering::Less);
    assert_eq!(cmp_row(&bea, &al, &sorts, &fields), Ordering::Greater);
    assert_eq!(cmp_row(&bea, &bea, &sorts, &fields), Ordering::Equal);
}

#[test]
fn no_specification_leaves_all_rows_equal() {
    let (_, fields) = age_then_name();
    let a = person("1", Some(1), Some("a"));
    let b = person("2", Some(2), Some("b"));
    assert_eq!(cmp_row(&a, &b, &[], &fields), Ordering::Equal);
    assert_eq!(cmp_row(&b, &a, &[], &fields), Ordering::Equal);
}

#[test]
fn exchanging_the_rows_inverts_the_order() {
    let (sorts, fields) = age_then_name();
    let rows = vec![
        person("1", Some(30), Some("Bea")),
        person("2", Some(30), Some("Al")),
        person("3", Some(25), None),
        person("4", None, Some("Al")),
        person("5", None, None),
        person("6", Some(30), Some("Bea")),
    ];
    for a in rows.iter() {
        for b in rows.iter() {
            assert_eq!(cmp_row(a, b, &sorts, &fields), reverse(cmp_row(b, a, &sorts, &fields)));
        }
    }
}

#[test]
fn the_order_of_readable_rows_is_transitive() {
    let (sorts, fields) = age_then_name();
    let rows = vec![
        person("1", Some(30), Some("Bea")),
        person("2", Some(30), Some("Al")),
        person("3", Some(25), None),
        person("4", None, Some("Al")),
        person("5", None, None),
        person("6", Some(30), Some("Bea")),
        person("7", Some(-1), Some("")),
    ];
    for a in rows.iter() {
        for b in rows.iter() {
            for c in rows.iter() {
                let ab = cmp_row(a, b, &sorts, &fields);
                let bc = cmp_row(b, c, &sorts, &fields);
                let ac = cmp_row(a, c, &sorts, &fields);
                if ab == bc {
                    assert_eq!(ac, ab);
                }
                if ab != Ordering::Greater && bc != Ordering::Greater {
                    assert_ne!(ac, Ordering::Greater);
                }
            }
        }
    }
}

#[test]
fn a_cell_that_cannot_be_read_breaks_transitivity() {
    let sorts = vec![sort_by("s", "Age", FieldType::Number, SortCondition::Ascending)];
    let fields = vec![number_field("Age")];
    let one = person("1", Some(1), None);
    let two = person("2", Some(2), None);
    let mut unread = Row::new("3");
    unread.set_cell("Age", CellValue::Opaque);
    assert_eq!(cmp_row(&two, &unread, &sorts, &fields), Ordering::Equal);
    assert_eq!(cmp_row(&unread, &one, &sorts, &fields), Ordering::Equal);
    assert_eq!(cmp_row(&two, &one, &sorts, &fields), Ordering::Greater);
}

#[test]
fn the_primary_key_decides_whatever_follows() {
    let fields = vec![number_field("Age"), text_field("Name", true)];
    let young_zed = person("1", Some(25), Some("Zed"));
    let old_al = person("2", Some(30), Some("Al"));
    let age = sort_by("s1", "Age", FieldType::Number, SortCondition::Ascending);
    for condition in [SortCondition::Ascending, SortCondition::Descending] {
        let sorts = vec![age.clone(), sort_by("s2", "Name", FieldType::RichText, condition)];
        assert_eq!(cmp_row(&young_zed, &old_al, &sorts, &fields), Ordering::Less);
        assert_eq!(
            cmp_row(&young_zed, &old_al, &sorts, &fields),
            cmp_row(&young_zed, &old_al, &sorts[..1], &fields)
        );
    }
    let descending = vec![
        sort_by("s1", "Age", FieldType::Number, SortCondition::Descending),
        sort_by("s2", "Name", FieldType::RichText, SortCondition::Ascending),
    ];
    assert_eq!(cmp_row(&young_zed, &old_al, &descending, &fields), Ordering::Greater);
}

#[test]
fn later_specifications_break_ties_only() {
    let fields = vec![number_field("Age"), text_field("Name", true)];
    let bea = person("1", Some(30), Some("Bea"));
    let al = person("2", Some(30), Some("Al"));
    let sorts = vec![
        sort_by("s1", "Age", FieldType::Number, SortCondition::Ascending),
        sort_by("s2", "Name", FieldType::RichText, SortCondition::Descending),
    ];
    assert_eq!(cmp_row(&bea, &al, &sorts, &fields), Ordering::Less);
}

#[test]
fn a_present_cell_comes_before_an_absent_one_when_ascending() {
    let fields = vec![number_field("Score")];
    let sorts = vec![sort_by("s", "Score", FieldType::Number, SortCondition::Ascending)];
    let mut present = Row::new("p");
    present.set_cell("Score", CellValue::Number(10));
    let absent = Row::new("a");
    assert_eq!(cmp_field(&present, &absent, &sorts[0], &fields), Ordering::Less);
    assert_eq!(cmp_field(&absent, &present, &sorts[0], &fields), Ordering::Greater);
    assert_eq!(cmp_row(&present, &absent, &sorts, &fields), Ordering::Less);
    assert_eq!(cmp_row(&absent, &present, &sorts, &fields), Ordering::Greater);
    assert_eq!(cmp_row(&absent, &Row::new("b"), &sorts, &fields), Ordering::Equal);
}

#[test]
fn a_present_cell_comes_after_an_absent_one_when_descending() {
    let fields = vec![number_field("Score")];
    let sorts = vec![sort_by("s", "Score", FieldType::Number, SortCondition::Descending)];
    let mut present = Row::new("p");
    present.set_cell("Score", CellValue::Number(10));
    let absent = Row::new("a");
    assert_eq!(cmp_field(&present, &absent, &sorts[0], &fields), Ordering::Less);
    assert_eq!(cmp_row(&present, &absent, &sorts, &fields), Ordering::Greater);
    assert_eq!(cmp_row(&absent, &present, &sorts, &fields), Ordering::Less);
}

#[test]
fn a_present_cell_that_cannot_be_read_still_comes_before_an_absent_one() {
    let fields = vec![number_field("Score")];
    let sorts = vec![sort_by("s", "Score", FieldType::Number, SortCondition::Ascending)];
    let mut unread = Row::new("u");
    unread.set_cell("Score", CellValue::Opaque);
    let absent = Row::new("a");
    assert_eq!(cmp_row(&unread, &absent, &sorts, &fields), Ordering::Less);
}

#[test]
fn a_specification_of_a_deleted_field_has_no_effect() {
    let fields = vec![text_field("Name", true)];
    let with_deleted = vec![
        sort_by("s1", "Age", FieldType::Number, SortCondition::Ascending),
        sort_by("s2", "Name", FieldType::RichText, SortCondition::Ascending),
    ];
    let without = vec![sort_by("s2", "Name", FieldType::RichText, SortCondition::Ascending)];
    let rows = vec![
        person("1", Some(30), Some("Bea")),
        person("2", Some(25), Some("Al")),
        person("3", None, Some("Zed")),
        person("4", Some(1), None),
    ];
    for a in rows.iter() {
        for b in rows.iter() {
            assert_eq!(cmp_field(a, b, &with_deleted[0], &fields), Ordering::Equal);
            assert_eq!(
                cmp_row(a, b, &with_deleted, &fields),
                cmp_row(a, b, &without, &fields)
            );
        }
    }
}

#[test]
fn a_specification_reads_cells_by_the_type_it_recorded() {
    let fields = vec![text_field("Age", true)];
    let sorts = vec![sort_by("s", "Age", FieldType::Number, SortCondition::Ascending)];
    let a = person("1", Some(1), None);
    let b = person("2", Some(2), None);
    assert_eq!(cmp_row(&a, &b, &sorts, &fields), Ordering::Equal);
    let fields = vec![number_field("Age")];
    assert_eq!(cmp_row(&a, &b, &sorts, &fields), Ordering::Less);
}

#[test]
fn a_row_keeps_the_last_cell_set_for_a_field() {
    let mut row = Row::new("r");
    assert_eq!(row.get_cell("Age"), None);
    row.set_cell("Age", CellValue::Number(1));
    row.set_cell("Age", CellValue::Number(2));
    assert_eq!(row.get_cell("Age"), Some(&CellValue::Number(2)));
    assert_eq!(row.get_cell("age"), None);
    assert_eq!(row.id, "r");
}

#[test]
fn a_direction_shows_an_order_as_it_is_or_inverted() {
    assert_eq!(direct(Ordering::Less, SortCondition::Ascending), Ordering::Less);
    assert_eq!(direct(Ordering::Less, SortCondition::Descending), Ordering::Greater);
    assert_eq!(direct(Ordering::Greater, SortCondition::Descending), Ordering::Less);
    assert_eq!(direct(Ordering::Equal, SortCondition::Descending), Ordering::Equal);
}

#[test]
fn a_looked_up_field_orders_the_cells() {
    let sort = sort_by("s", "Age", FieldType::Number, SortCondition::Descending);
    let field = number_field("Age");
    let young = person("1", Some(25), None);
    let old = person("2", Some(30), None);
    let ageless = person("3", None, None);
    assert_eq!(cmp_resolved(&young, &old, &sort, Some(&field)), Ordering::Less);
    assert_eq!(cmp_resolved(&old, &young, &sort, Some(&field)), Ordering::Greater);
    assert_eq!(cmp_resolved(&old, &ageless, &sort, Some(&field)), Ordering::Less);
    assert_eq!(cmp_resolved(&ageless, &old, &sort, Some(&field)), Ordering::Greater);
    assert_eq!(cmp_resolved(&ageless, &ageless, &sort, Some(&field)), Ordering::Equal);
    assert_eq!(cmp_resolved(&young, &old, &sort, None), Ordering::Equal);
    assert_eq!(cmp_resolved(&old, &ageless, &sort, None), Ordering::Equal);
}

#[test]
fn a_row_comparator_orders_rows_as_cmp_row_does() {
    let (sorts, fields) = age_then_name();
    let mut with_deleted = sorts.clone();
    with_deleted.insert(0, sort_by("gone", "Height", FieldType::Number, SortCondition::Descending));
    with_deleted.push(sort_by("s3", "Name", FieldType::Number, SortCondition::Descending));
    let mut unread = person("8", Some(30), None);
    unread.set_cell("Name", CellValue::Opaque);
    let rows = vec![
        person("1", Some(30), Some("Bea")),
        person("2", Some(30), Some("Al")),
        person("3", Some(25), None),
        person("4", None, Some("Al")),
        person("5", None, None),
        unread,
    ];
    for list in [&sorts, &with_deleted, &Vec::new()] {
        let comparator = RowComparator::new(list, &fields);
        for a in rows.iter() {
            for b in rows.iter() {
                assert_eq!(comparator.compare(a, b), cmp_row(a, b, list, &fields));
            }
        }
    }
    let comparator = RowComparator::new(&sorts, &fields);
    assert_eq!(comparator.compare(&rows[2], &rows[1]), Ordering::Less);
    assert_eq!(comparator.compare(&rows[0], &rows[1]), Ordering::Greater);
    assert_eq!(comparator.compare(&rows[4], &rows[3]), Ordering::Greater);
}

#[test]
fn a_character_is_ordered_by_its_code_point() {
    assert_eq!(fold_char('A', true), 65);
    assert_eq!(fold_char('A', false), 97);
    assert_eq!(fold_char('Z', false), 122);
    assert_eq!(fold_char('a', false), 97);
    assert_eq!(fold_char('@', false), 64);
    assert_eq!(fold_char('[', false), 91);
    assert_eq!(fold_char('\u{c9}', false), 0xc9);
    assert_eq!(fold_char('\u{10ffff}', true), 0x10ffff);
}

#[test]
fn the_registry_has_comparators_for_text_numbers_and_dates() {
    assert!(comparator_reads(FieldType::RichText, TypeOptions::RichText { case_sensitive: false }));
    assert!(comparator_reads(FieldType::Number, TypeOptions::Number));
    assert!(comparator_reads(FieldType::DateTime, TypeOptions::DateTime));
    assert!(!comparator_reads(FieldType::Number, TypeOptions::DateTime));
    assert!(!comparator_reads(FieldType::RichText, TypeOptions::Other));
    assert!(!comparator_reads(FieldType::Checkbox, TypeOptions::Other));
    assert!(!comparator_reads(FieldType::URL, TypeOptions::RichText { case_sensitive: true }));
    assert!(holds_value_of(&CellValue::Text(String::new()), FieldType::RichText));
    assert!(holds_value_of(&CellValue::Number(0), FieldType::Number));
    assert!(holds_value_of(&CellValue::DateTime(0), FieldType::DateTime));
    assert!(!holds_value_of(&CellValue::DateTime(0), FieldType::Number));
    assert!(!holds_value_of(&CellValue::Opaque, FieldType::RichText));
    assert!(!holds_value_of(&CellValue::Number(0), FieldType::Checklist));
}
