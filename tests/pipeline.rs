use xlsx_transform::aggregate::{aggregate, Bucket};
use xlsx_transform::cell::{CalendarDate, Cell, CellErrorKind, CellValue, FloatCell, Hours};
use xlsx_transform::parser::{parse, ParseError, RawExcelRow, Sheet, COLUMN_COUNT, column_title};
use xlsx_transform::report::{header_row, HeaderCell, build_report, day_column, ensure_xlsx_extension, index_to_excel_column, month_name, sum_formula};
use xlsx_transform::response::{CommandStatus, TransformCommandResponse};
use xlsx_transform::text::{parse_i32, IntErrorKind};

fn text(s: &str) -> Cell {
    Cell { value: CellValue::Text(s.to_string()), date: None }
}

fn empty() -> Cell {
    Cell { value: CellValue::Empty, date: None }
}

fn hours_cell(h: f64) -> Cell {
    Cell { value: CellValue::Float(FloatCell { bits: h.to_bits(), text: h.to_string() }), date: None }
}

fn stamp() -> Cell {
    Cell {
        value: CellValue::Float(FloatCell { bits: 45292.5f64.to_bits(), text: "45292.5".to_string() }),
        date: Some(CalendarDate { year: 2024, month: 1, day: 1 }),
    }
}

fn header() -> Vec<Cell> {
    (0..COLUMN_COUNT).map(|k| text(column_title(k))).collect()
}

fn row(name: Option<&str>, school: &str, framework: &str, date: &str, hours: f64) -> Vec<Cell> {
    let mut r: Vec<Cell> = (0..COLUMN_COUNT).map(|_| empty()).collect();
    r[0] = stamp();
    r[1] = text("a@b.c");
    r[2] = text(date);
    if let Some(n) = name {
        r[3] = text(n);
    }
    r[4] = text(school);
    r[5] = hours_cell(hours);
    r[6] = text(framework);
    r
}

fn sheet(rows: Vec<Vec<Cell>>) -> Sheet {
    let mut all = vec![header()];
    all.extend(rows);
    Sheet { origin_row: 0, origin_col: 0, rows: all }
}

fn parsed(s: &Sheet) -> (Vec<RawExcelRow>, Vec<String>) {
    match parse(s) {
        Ok(out) => out,
        Err(e) => panic!("parse failed: {}", e.message()),
    }
}

fn total(records: &[RawExcelRow], bucket: &Bucket) -> f64 {
    let mut sum = 0.0;
    for &i in &bucket.rows {
        sum += match records[i].training_hours {
            Hours::Bits(b) => f64::from_bits(b),
            Hours::Whole(w) => w as f64,
            Hours::Zero => 0.0,
        };
    }
    sum
}

#[test]
fn rows_are_records_or_warnings() {
    let s = sheet(vec![
        row(Some("Ann"), "North", "A", "01/02", 1.0),
        row(Some("Ann"), "North", "A", "bad", 1.0),
        row(Some("Bob"), "South", "B", "03/02", 2.0),
        row(Some("Bob"), "South", "B", "3/x", 2.0),
    ]);
    let (records, warnings) = parsed(&s);
    assert_eq!(records.len(), 2);
    assert_eq!(warnings.len(), 2);
    assert_eq!(records.len() + warnings.len(), 4);
}

#[test]
fn aggregation_is_repeatable() {
    let s = sheet(vec![
        row(Some("Ann"), "North", "A", "01/02", 1.0),
        row(Some("Ann"), "North", "A", "01/02", 2.0),
        row(Some("Bob"), "South", "B", "05/03", 4.0),
    ]);
    let (records, _) = parsed(&s);
    let t1 = aggregate(&records);
    let t2 = aggregate(&records);
    assert_eq!(t1.len(), t2.len());
    for (a, b) in t1.iter().zip(t2.iter()) {
        assert_eq!(a.rows, b.rows);
        assert_eq!(total(&records, a).to_bits(), total(&records, b).to_bits());
    }
    assert_eq!(total(&records, &t1[0]), 3.0);
}

#[test]
fn hours_land_in_their_day_only() {
    let s = sheet(vec![row(Some("Ann"), "North", "A", "10/04", 3.5)]);
    let (records, warnings) = parsed(&s);
    assert!(warnings.is_empty());
    assert_eq!(records[0].date.day, 10);
    assert_eq!(records[0].date.month, 4);
    let table = aggregate(&records);
    assert_eq!(table.len(), 1);
    assert_eq!(table[0].key.month, 4);
    assert_eq!(table[0].day, 10);
    assert_eq!(table[0].rows, vec![0]);
    assert_eq!(total(&records, &table[0]), 3.5);
}

#[test]
fn absent_names_share_a_group() {
    let s = sheet(vec![
        row(None, "North", "A", "01/05", 1.0),
        row(None, "North", "A", "02/05", 2.0),
    ]);
    let (records, _) = parsed(&s);
    let table = aggregate(&records);
    assert_eq!(table.len(), 2);
    assert_eq!(table[0].key.name, "<missing_name>");
    let sheets = build_report(&table);
    assert_eq!(sheets.len(), 1);
    assert_eq!(sheets[0].rows.len(), 1);
    assert_eq!(sheets[0].rows[0].buckets, vec![0, 1]);
}

#[test]
fn sheets_follow_month_order() {
    let s = sheet(vec![
        row(Some("Ann"), "North", "A", "01/12", 1.0),
        row(Some("Ann"), "North", "A", "01/01", 1.0),
        row(Some("Ann"), "North", "A", "01/06", 1.0),
    ]);
    let (records, _) = parsed(&s);
    let sheets = build_report(&aggregate(&records));
    let names: Vec<&str> = sheets.iter().map(|s| s.name.as_str()).collect();
    assert_eq!(names, vec!["January", "June", "December"]);
}

#[test]
fn unreadable_file_fails_alone() {
    let r = TransformCommandResponse::failed_with(ParseError::InvalidFileType.message());
    assert_eq!(r.status, CommandStatus::Failure);
    assert_eq!(r.status.as_text(), "failure");
    assert_eq!(r.num_rows, 0);
    assert_eq!(r.error, vec!["Invalid file type".to_string()]);
    assert!(r.warning.is_empty());
}

#[test]
fn bad_session_date_is_left_out() {
    let s = sheet(vec![
        row(Some("Ann"), "North", "A", "01/02", 1.0),
        row(Some("Ann"), "North", "A", "not-a-date", 5.0),
        row(Some("Ann"), "North", "A", "01/02", 2.0),
    ]);
    let (records, warnings) = parsed(&s);
    assert_eq!(warnings, vec!["Row #3: \"Invalid date format\"".to_string()]);
    assert_eq!(records.len(), 2);
    let table = aggregate(&records);
    assert_eq!(table.len(), 1);
    assert_eq!(total(&records, &table[0]), 3.0);
}

#[test]
fn warnings_name_the_reason() {
    let mut no_hours = row(Some("Ann"), "North", "A", "01/02", 1.0);
    no_hours[5] = empty();
    let mut broken = row(Some("Ann"), "North", "A", "01/02", 1.0);
    broken[1] = Cell { value: CellValue::Error(CellErrorKind::Div0), date: None };
    let mut no_date = row(Some("Ann"), "North", "A", "01/02", 1.0);
    no_date[0] = text("yesterday");
    let s = Sheet {
        origin_row: 0,
        origin_col: 0,
        rows: vec![header(), no_hours, broken, no_date, row(Some("A"), "B", "C", "/3", 1.0), row(Some("A"), "B", "C", "1/99999999999", 1.0)],
    };
    let (records, warnings) = parsed(&s);
    assert_eq!(records.len(), 1);
    assert_eq!(records[0].training_hours, Hours::Zero);
    assert_eq!(warnings, vec![
        "Row #3: \"Cell error - Error: Div0, Position: (2, 0)\"".to_string(),
        "Row #4: \"Invalid Date\"".to_string(),
        "Row #5: \"cannot parse integer from empty string\"".to_string(),
        "Row #6: \"number too large to fit in target type\"".to_string(),
    ]);
}

#[test]
fn non_numeric_hours_count_as_zero() {
    let mut r = row(Some("Ann"), "North", "A", "01/02", 1.0);
    r[5] = text("many");
    r[3] = Cell { value: CellValue::Int(-5), date: None };
    let (records, warnings) = parsed(&sheet(vec![r]));
    assert!(warnings.is_empty());
    assert_eq!(records[0].training_hours, Hours::Zero);
    assert_eq!(records[0].instructors_name.as_deref(), Some("-5"));
}

#[test]
fn missing_header_is_fatal() {
    let mut h = header();
    h[2] = text("day");
    let s = Sheet { origin_row: 0, origin_col: 0, rows: vec![h] };
    let e = parse(&s).err().unwrap();
    assert_eq!(e, ParseError::HeaderNotFound(2));
    assert_eq!(e.message(), "Cannot find header named 'date'");
}

#[test]
fn header_error_cell_is_fatal() {
    let mut h = header();
    h[0] = Cell { value: CellValue::Error(CellErrorKind::NA), date: None };
    let s = Sheet { origin_row: 1, origin_col: 2, rows: vec![h] };
    let e = parse(&s).err().unwrap();
    assert_eq!(e.message(), "Cell error at position '(1, 2)': #N/A");
}

#[test]
fn header_names_must_be_exact() {
    let mut h = header();
    h[3] = text("  Instructors_name ");
    let s = Sheet { origin_row: 0, origin_col: 0, rows: vec![h, row(Some("Ann"), "North", "A", "01/02", 1.0)] };
    assert_eq!(parse(&s).err(), Some(ParseError::HeaderNotFound(3)));
}

#[test]
fn headers_in_any_order() {
    let mut h = header();
    h.swap(0, 13);
    let mut r = row(Some("Ann"), "North", "A", "01/02", 1.0);
    r.swap(0, 13);
    let s = Sheet { origin_row: 0, origin_col: 0, rows: vec![h, r] };
    let (records, warnings) = parsed(&s);
    assert!(warnings.is_empty());
    assert_eq!(records[0].timestamp, CalendarDate { year: 2024, month: 1, day: 1 });
}

#[test]
fn report_header() {
    let h = header_row();
    assert_eq!(h.len(), 35);
    assert!(matches!(&h[0], HeaderCell::Title(t) if t == "Name"));
    assert!(matches!(&h[2], HeaderCell::Title(t) if t == "Payment Framework"));
    assert!(matches!(h[3], HeaderCell::Day(1)));
    assert!(matches!(h[33], HeaderCell::Day(31)));
    assert!(matches!(&h[34], HeaderCell::Title(t) if t == "SUM"));
}

#[test]
fn rows_follow_first_appearance() {
    let s = sheet(vec![
        row(Some("Zed"), "North", "A", "01/02", 1.0),
        row(Some("Ann"), "North", "A", "02/02", 1.0),
        row(Some("Zed"), "North", "A", "03/02", 1.0),
    ]);
    let (records, _) = parsed(&s);
    let sheets = build_report(&aggregate(&records));
    let names: Vec<&str> = sheets[0].rows.iter().map(|r| r.key.name.as_str()).collect();
    assert_eq!(names, vec!["Zed", "Ann"]);
    assert_eq!(sheets[0].rows[0].buckets, vec![0, 2]);
}

#[test]
fn missing_hours_count_as_zero() {
    let mut r = row(Some("Ann"), "North", "A", "01/02", 1.0);
    r.truncate(5);
    let (records, warnings) = parsed(&sheet(vec![r, row(Some("Bob"), "N", "B", "01/02", 1.0)]));
    assert_eq!(records.len(), 1);
    assert_eq!(warnings, vec!["Row #2: \"missing field `paying_framework`\"".to_string()]);
}

#[test]
fn empty_sheet_gives_nothing() {
    let s = Sheet { origin_row: 0, origin_col: 0, rows: vec![] };
    let (records, warnings) = parsed(&s);
    assert!(records.is_empty() && warnings.is_empty());
}

#[test]
fn integers_parse_like_std() {
    assert_eq!(parse_i32("42"), Ok(42));
    assert_eq!(parse_i32("+7"), Ok(7));
    assert_eq!(parse_i32("-2147483648"), Ok(i32::MIN));
    assert_eq!(parse_i32("2147483648"), Err(IntErrorKind::PosOverflow));
    assert_eq!(parse_i32("-2147483649"), Err(IntErrorKind::NegOverflow));
    assert_eq!(parse_i32(""), Err(IntErrorKind::Empty));
    assert_eq!(parse_i32("-"), Err(IntErrorKind::InvalidDigit));
    assert_eq!(parse_i32("1a"), Err(IntErrorKind::InvalidDigit));
}

#[test]
fn column_labels() {
    assert_eq!(index_to_excel_column(0), "A");
    assert_eq!(index_to_excel_column(25), "Z");
    assert_eq!(index_to_excel_column(26), "AA");
    assert_eq!(index_to_excel_column(27), "AB");
    assert_eq!(index_to_excel_column(33), "AH");
    assert_eq!(index_to_excel_column(701), "ZZ");
    assert_eq!(index_to_excel_column(702), "AAA");
}

#[test]
fn total_formula() {
    assert_eq!(sum_formula(1), "=SUM(D2:AH2)");
    assert_eq!(sum_formula(9), "=SUM(D10:AH10)");
}

#[test]
fn day_columns() {
    assert_eq!(day_column(1), 3);
    assert_eq!(day_column(31), 33);
    assert_eq!(day_column(-3), 65535);
}

#[test]
fn month_names() {
    assert_eq!(month_name(1), "January");
    assert_eq!(month_name(12), "December");
    assert_eq!(month_name(13), "");
}

#[test]
fn output_extension() {
    assert_eq!(ensure_xlsx_extension("out"), "out.xlsx");
    assert_eq!(ensure_xlsx_extension("out.csv"), "out.xlsx");
    assert_eq!(ensure_xlsx_extension("out.xlsx"), "out.xlsx");
    assert_eq!(ensure_xlsx_extension("dir.v2/out"), "dir.v2/out.xlsx");
    assert_eq!(ensure_xlsx_extension(".hidden"), ".hidden.xlsx");
    assert_eq!(ensure_xlsx_extension("a/.."), "a/..");
    assert_eq!(ensure_xlsx_extension("out/"), "out.xlsx");
    assert_eq!(ensure_xlsx_extension("dir/x/."), "dir/x.xlsx");
    assert_eq!(ensure_xlsx_extension("dir/x.csv//"), "dir/x.xlsx");
    assert_eq!(ensure_xlsx_extension("/"), "/");
    assert_eq!(ensure_xlsx_extension("."), ".");
    assert_eq!(ensure_xlsx_extension("a.b/c"), "a.b/c.xlsx");
}

#[test]
fn status_words() {
    assert_eq!(CommandStatus::from_text("success"), Some(CommandStatus::Success));
    assert_eq!(CommandStatus::from_text("failure"), Some(CommandStatus::Failure));
    assert_eq!(CommandStatus::from_text("done"), None);
    let r = TransformCommandResponse::success(3, vec!["w".to_string()]);
    assert_eq!(r.status.as_text(), "success");
    assert_eq!(r.num_rows, 3);
    assert!(r.error.is_empty());
    assert_eq!(r.warning, vec!["w".to_string()]);
}

#[test]
fn answer_after_writing() {
    let ok = TransformCommandResponse::after_write(4, vec!["Row #3: \"Invalid Date\"".to_string()], None);
    assert_eq!(ok.status, CommandStatus::Success);
    assert_eq!(ok.num_rows, 4);
    assert!(ok.error.is_empty());
    assert_eq!(ok.warning.len(), 1);
    let failed = TransformCommandResponse::after_write(4, vec!["w".to_string()], Some("disk full".to_string()));
    assert_eq!(failed.status, CommandStatus::Failure);
    assert_eq!(failed.num_rows, 0);
    assert_eq!(failed.error, vec!["disk full".to_string()]);
    assert!(failed.warning.is_empty());
}
