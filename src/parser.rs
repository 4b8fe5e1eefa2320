//! The row parser: resolves the fixed header of a sheet and reads each data
//! row into a record, or into a warning that names the row.

use vstd::prelude::*;
use vstd::string::StringExecFns;
use crate::cell::{
    cell_text, hours, optional_text, session_date, text_of, timestamp, CalendarDate, Cell,
    CellErrorKind, CellValue, CoercionError, Date, Hours, hours_of, optional_text_of,
    session_date_of, timestamp_of,
};
use crate::text::{append_decimal, decimal, same_text, IntErrorKind};

verus! {

/// The number of columns a sheet must name in its header row.
pub const COLUMN_COUNT: usize = 14;

/// The name of header column `k`, in the order the record's fields take.
pub open spec fn column_name(k: int) -> Seq<char> {
    if k == 0 { "timestamp"@ }
    else if k == 1 { "Instructors_email"@ }
    else if k == 2 { "date"@ }
    else if k == 3 { "Instructors_name"@ }
    else if k == 4 { "instructors_school"@ }
    else if k == 5 { "training_hours"@ }
    else if k == 6 { "paying_framework"@ }
    else if k == 7 { "teaching_content"@ }
    else if k == 8 { "learning_outcomes"@ }
    else if k == 9 { "atmosphere"@ }
    else if k == 10 { "technical_problems"@ }
    else if k == 11 { "conversation_summary"@ }
    else if k == 12 { "remarks"@ }
    else { "general_situation"@ }
}

/// The name of header column `k`.
pub fn column_title(k: usize) -> (r: &'static str)
    requires
        k < COLUMN_COUNT,
    ensures
        r@ == column_name(k as int),
{
    if k == 0 { "timestamp" }
    else if k == 1 { "Instructors_email" }
    else if k == 2 { "date" }
    else if k == 3 { "Instructors_name" }
    else if k == 4 { "instructors_school" }
    else if k == 5 { "training_hours" }
    else if k == 6 { "paying_framework" }
    else if k == 7 { "teaching_content" }
    else if k == 8 { "learning_outcomes" }
    else if k == 9 { "atmosphere" }
    else if k == 10 { "technical_problems" }
    else if k == 11 { "conversation_summary" }
    else if k == 12 { "remarks" }
    else { "general_situation" }
}

/// A worksheet: the position of its top-left cell and its rows, the first of
/// which is the header.
#[derive(Clone, Debug)]
pub struct Sheet {
    pub origin_row: u32,
    pub origin_col: u32,
    pub rows: Vec<Vec<Cell>>,
}

/// One training session, read from a data row.
#[derive(Clone, Debug)]
pub struct RawExcelRow {
    pub timestamp: CalendarDate,
    pub instructors_email: String,
    pub date: Date,
    pub instructors_name: Option<String>,
    pub instructors_school: Option<String>,
    pub training_hours: Hours,
    pub paying_framework: String,
    pub teaching_content: Option<String>,
    pub learning_outcomes: Option<String>,
    pub atmosphere: Option<String>,
    pub technical_problems: Option<String>,
    pub conversation_summary: Option<String>,
    pub remarks: Option<String>,
    pub general_situation: Option<String>,
}

/// A record with its texts as sequences of characters.
pub struct RecordView {
    pub timestamp: CalendarDate,
    pub instructors_email: Seq<char>,
    pub date: Date,
    pub instructors_name: Option<Seq<char>>,
    pub instructors_school: Option<Seq<char>>,
    pub training_hours: Hours,
    pub paying_framework: Seq<char>,
    pub teaching_content: Option<Seq<char>>,
    pub learning_outcomes: Option<Seq<char>>,
    pub atmosphere: Option<Seq<char>>,
    pub technical_problems: Option<Seq<char>>,
    pub conversation_summary: Option<Seq<char>>,
    pub remarks: Option<Seq<char>>,
    pub general_situation: Option<Seq<char>>,
}

pub open spec fn opt_view(o: Option<String>) -> Option<Seq<char>> {
    match o {
        Some(s) => Some(s@),
        None => None,
    }
}

impl View for RawExcelRow {
    type V = RecordView;

    open spec fn view(&self) -> RecordView {
        RecordView {
            timestamp: self.timestamp,
            instructors_email: self.instructors_email@,
            date: self.date,
            instructors_name: opt_view(self.instructors_name),
            instructors_school: opt_view(self.instructors_school),
            training_hours: self.training_hours,
            paying_framework: self.paying_framework@,
            teaching_content: opt_view(self.teaching_content),
            learning_outcomes: opt_view(self.learning_outcomes),
            atmosphere: opt_view(self.atmosphere),
            technical_problems: opt_view(self.technical_problems),
            conversation_summary: opt_view(self.conversation_summary),
            remarks: opt_view(self.remarks),
            general_situation: opt_view(self.general_situation),
        }
    }
}

/// Why a data row was left out.
#[derive(Clone, Copy, Debug, PartialEq, Eq, Structural)]
pub enum RowError {
    /// A required value could not be read.
    Coercion(CoercionError),
    /// The required field of column `k` has no value in the row.
    MissingField(usize),
}

/// Why a sheet could not be read at all.
#[derive(Clone, Copy, Debug, PartialEq, Eq, Structural)]
pub enum ParseError {
    /// The file is neither kind of workbook, or holds no worksheet.
    InvalidFileType,
    /// A cell of the header row holds an error.
    HeaderCell { kind: CellErrorKind, row: u32, col: u32 },
    /// No header cell names column `k`.
    HeaderNotFound(usize),
}

/// Where each column's values are found: the first header cell whose text
/// is exactly the column's name.
#[derive(Clone, Debug)]
pub struct Layout {
    pub columns: Vec<usize>,
}

impl Layout {
    pub open spec fn wf(&self) -> bool {
        self.columns@.len() == COLUMN_COUNT
    }
}

/// The texts of a header row; `Err` carries the first cell error.
pub open spec fn header_texts(row: Seq<Cell>) -> Result<Seq<Seq<char>>, CellErrorKind>
    decreases row.len(),
{
    if row.len() == 0 {
        Ok(Seq::empty())
    } else {
        match header_texts(row.drop_last()) {
            Err(k) => Err(k),
            Ok(prev) => match text_of(row.last().value) {
                Err(k) => Err(k),
                Ok(t) => Ok(prev.push(t)),
            },
        }
    }
}

/// `c` is the first header that is exactly `name`.
pub open spec fn first_named(headers: Seq<Seq<char>>, name: Seq<char>, c: int) -> bool {
    0 <= c < headers.len() && headers[c] == name
        && forall|j: int| 0 <= j < c ==> headers[j] != name
}

/// The layout resolves every column of `headers`.
pub open spec fn resolves(headers: Seq<Seq<char>>, layout: Layout) -> bool {
    layout.wf() && forall|k: int| 0 <= k < COLUMN_COUNT ==>
        first_named(headers, column_name(k), #[trigger] layout.columns@[k] as int)
}

/// No header names column `k`, though every column before it is named.
pub open spec fn first_unnamed(headers: Seq<Seq<char>>, k: int) -> bool {
    &&& 0 <= k < COLUMN_COUNT
    &&& forall|c: int| 0 <= c < headers.len() ==> headers[c] != column_name(k)
    &&& forall|i: int| 0 <= i < k ==> named(headers, #[trigger] column_name(i))
}

/// Some header is exactly `name`.
pub open spec fn named(headers: Seq<Seq<char>>, name: Seq<char>) -> bool {
    exists|c: int| 0 <= c < headers.len() && #[trigger] headers[c] == name
}

/// The texts of a header row.
fn read_headers(row: &Vec<Cell>) -> (r: Result<Vec<String>, CellErrorKind>)
    ensures
        match header_texts(row@) {
            Ok(h) => r is Ok && r->Ok_0@.map_values(|s: String| s@) == h,
            Err(k) => r == Err::<Vec<String>, CellErrorKind>(k),
        },
{
    let mut out: Vec<String> = Vec::new();
    let mut i: usize = 0;
    assert(out@.map_values(|s: String| s@) =~= Seq::<Seq<char>>::empty());
    assert(row@.subrange(0, 0).len() == 0);
    while i < row.len()
        invariant
            i <= row@.len(),
            header_texts(row@.subrange(0, i as int)) == Ok::<Seq<Seq<char>>, CellErrorKind>(out@.map_values(|s: String| s@)),
        decreases row@.len() - i,
    {
        assert(row@.subrange(0, i + 1).drop_last() =~= row@.subrange(0, i as int));
        match cell_text(&row[i].value) {
            Err(k) => {
                assert(header_texts(row@.subrange(0, i + 1)) == Err::<Seq<Seq<char>>, CellErrorKind>(k));
                proof { lemma_header_error_stays(row@, i as int + 1); }
                return Err(k);
            },
            Ok(t) => {
                let ghost before = out@;
                out.push(t);
                assert(out@.map_values(|s: String| s@) =~= before.map_values(|s: String| s@).push(t@));
            },
        }
        i = i + 1;
    }
    assert(row@.subrange(0, i as int) =~= row@);
    Ok(out)
}

proof fn lemma_header_error_stays(row: Seq<Cell>, n: int)
    requires
        0 <= n <= row.len(),
        header_texts(row.subrange(0, n)) is Err,
    ensures
        header_texts(row) == header_texts(row.subrange(0, n)),
    decreases row.len() - n,
{
    if n == row.len() {
        assert(row.subrange(0, n) =~= row);
    } else {
        assert(row.subrange(0, n + 1).drop_last() =~= row.subrange(0, n));
        lemma_header_error_stays(row, n + 1);
    }
}

/// Finds, for each column, the first header that names it.
pub fn resolve_layout(headers: &Vec<String>) -> (r: Result<Layout, usize>)
    ensures
        match r {
            Ok(layout) => resolves(headers@.map_values(|h: String| h@), layout),
            Err(k) => first_unnamed(headers@.map_values(|h: String| h@), k as int),
        },
{
    let ghost hs = headers@.map_values(|h: String| h@);
    let mut columns: Vec<usize> = Vec::new();
    let mut k: usize = 0;
    while k < COLUMN_COUNT
        invariant
            hs == headers@.map_values(|h: String| h@),
            k <= COLUMN_COUNT,
            columns@.len() == k,
            forall|i: int| 0 <= i < k ==> first_named(hs, column_name(i), #[trigger] columns@[i] as int),
        decreases COLUMN_COUNT - k,
    {
        let name = column_title(k);
        let mut c: usize = 0;
        while c < headers.len() && !same_text(headers[c].as_str(), name)
            invariant
                hs == headers@.map_values(|h: String| h@),
                c <= headers@.len(),
                name@ == column_name(k as int),
                forall|j: int| 0 <= j < c ==> hs[j] != name@,
            decreases headers@.len() - c,
        {
            c = c + 1;
        }
        if c >= headers.len() {
            proof {
                assert forall|i: int| 0 <= i < k implies named(hs, #[trigger] column_name(i)) by {
                    assert(first_named(hs, column_name(i), columns@[i] as int));
                    assert(hs[columns@[i] as int] == column_name(i));
                }
            }
            return Err(k);
        }
        assert(hs[c as int] == name@);
        let ghost before = columns@;
        columns.push(c);
        assert(forall|i: int| 0 <= i < k ==> columns@[i] == before[i]);
        k = k + 1;
    }
    Ok(Layout { columns })
}


/// The cell a row gives for column `k`: none where it is missing or empty.
pub open spec fn pick(layout: Layout, row: Seq<Cell>, k: int) -> Option<Cell> {
    let c = layout.columns@[k] as int;
    if c < row.len() && !(row[c].value is Empty) {
        Some(row[c])
    } else {
        None
    }
}

/// An optional text field: absent where the row gives no cell.
pub open spec fn optional_field(o: Option<Cell>) -> Option<Seq<char>> {
    match o {
        Some(c) => optional_text_of(c.value),
        None => None,
    }
}

/// What a data row reads as. Values are read in column order and the first
/// that fails decides; then the first required field without a value does.
/// Hours never reject a row: without a cell they are zero.
pub open spec fn decode(layout: Layout, row: Seq<Cell>) -> Result<RecordView, RowError> {
    let p0 = pick(layout, row, 0);
    let p1 = pick(layout, row, 1);
    let p2 = pick(layout, row, 2);
    let p5 = pick(layout, row, 5);
    let p6 = pick(layout, row, 6);
    if p0 is Some && timestamp_of(p0->Some_0) is Err {
        Err(RowError::Coercion(timestamp_of(p0->Some_0)->Err_0))
    } else if p1 is Some && text_of(p1->Some_0.value) is Err {
        Err(RowError::Coercion(CoercionError::Cell(text_of(p1->Some_0.value)->Err_0)))
    } else if p2 is Some && session_date_of(p2->Some_0.value) is Err {
        Err(RowError::Coercion(session_date_of(p2->Some_0.value)->Err_0))
    } else if p6 is Some && text_of(p6->Some_0.value) is Err {
        Err(RowError::Coercion(CoercionError::Cell(text_of(p6->Some_0.value)->Err_0)))
    } else if p0 is None {
        Err(RowError::MissingField(0))
    } else if p1 is None {
        Err(RowError::MissingField(1))
    } else if p2 is None {
        Err(RowError::MissingField(2))
    } else if p6 is None {
        Err(RowError::MissingField(6))
    } else {
        Ok(RecordView {
            timestamp: timestamp_of(p0->Some_0)->Ok_0,
            instructors_email: text_of(p1->Some_0.value)->Ok_0,
            date: session_date_of(p2->Some_0.value)->Ok_0,
            instructors_name: optional_field(pick(layout, row, 3)),
            instructors_school: optional_field(pick(layout, row, 4)),
            training_hours: match p5 { Some(c) => hours_of(c.value), None => Hours::Zero },
            paying_framework: text_of(p6->Some_0.value)->Ok_0,
            teaching_content: optional_field(pick(layout, row, 7)),
            learning_outcomes: optional_field(pick(layout, row, 8)),
            atmosphere: optional_field(pick(layout, row, 9)),
            technical_problems: optional_field(pick(layout, row, 10)),
            conversation_summary: optional_field(pick(layout, row, 11)),
            remarks: optional_field(pick(layout, row, 12)),
            general_situation: optional_field(pick(layout, row, 13)),
        })
    }
}

fn pick_cell<'a>(layout: &Layout, row: &'a Vec<Cell>, k: usize) -> (r: Option<&'a Cell>)
    requires
        layout.wf(),
        k < COLUMN_COUNT,
    ensures
        match pick(*layout, row@, k as int) {
            Some(c) => r is Some && *r->Some_0 == c,
            None => r is None,
        },
{
    let c = layout.columns[k];
    if c < row.len() {
        match &row[c].value {
            CellValue::Empty => None,
            _ => Some(&row[c]),
        }
    } else {
        None
    }
}

fn optional_cell_text(o: Option<&Cell>) -> (r: Option<String>)
    ensures
        opt_view(r) == optional_field(match o { Some(c) => Some(*c), None => None }),
{
    match o {
        Some(c) => optional_text(&c.value),
        None => None,
    }
}

/// Reads a data row into a record.
pub fn decode_row(layout: &Layout, row: &Vec<Cell>) -> (r: Result<RawExcelRow, RowError>)
    requires
        layout.wf(),
    ensures
        match decode(*layout, row@) {
            Ok(v) => r is Ok && r->Ok_0@ == v,
            Err(e) => r == Err::<RawExcelRow, RowError>(e),
        },
{
    let p0 = pick_cell(layout, row, 0);
    let p1 = pick_cell(layout, row, 1);
    let p2 = pick_cell(layout, row, 2);
    let p5 = pick_cell(layout, row, 5);
    let p6 = pick_cell(layout, row, 6);
    let ts = match p0 {
        Some(c) => match timestamp(c) {
            Err(e) => return Err(RowError::Coercion(e)),
            Ok(d) => Some(d),
        },
        None => None,
    };
    let email = match p1 {
        Some(c) => match cell_text(&c.value) {
            Err(k) => return Err(RowError::Coercion(CoercionError::Cell(k))),
            Ok(t) => Some(t),
        },
        None => None,
    };
    let date = match p2 {
        Some(c) => match session_date(&c.value) {
            Err(e) => return Err(RowError::Coercion(e)),
            Ok(d) => Some(d),
        },
        None => None,
    };
    let framework = match p6 {
        Some(c) => match cell_text(&c.value) {
            Err(k) => return Err(RowError::Coercion(CoercionError::Cell(k))),
            Ok(t) => Some(t),
        },
        None => None,
    };
    let timestamp = match ts {
        Some(d) => d,
        None => return Err(RowError::MissingField(0)),
    };
    let instructors_email = match email {
        Some(t) => t,
        None => return Err(RowError::MissingField(1)),
    };
    let date = match date {
        Some(d) => d,
        None => return Err(RowError::MissingField(2)),
    };
    let training_hours = match p5 {
        Some(c) => hours(&c.value),
        None => Hours::Zero,
    };
    let paying_framework = match framework {
        Some(t) => t,
        None => return Err(RowError::MissingField(6)),
    };
    Ok(RawExcelRow {
        timestamp,
        instructors_email,
        date,
        instructors_name: optional_cell_text(pick_cell(layout, row, 3)),
        instructors_school: optional_cell_text(pick_cell(layout, row, 4)),
        training_hours,
        paying_framework,
        teaching_content: optional_cell_text(pick_cell(layout, row, 7)),
        learning_outcomes: optional_cell_text(pick_cell(layout, row, 8)),
        atmosphere: optional_cell_text(pick_cell(layout, row, 9)),
        technical_problems: optional_cell_text(pick_cell(layout, row, 10)),
        conversation_summary: optional_cell_text(pick_cell(layout, row, 11)),
        remarks: optional_cell_text(pick_cell(layout, row, 12)),
        general_situation: optional_cell_text(pick_cell(layout, row, 13)),
    })
}


/// The name of a cell error, as its variant reads.
pub open spec fn cell_error_name(k: CellErrorKind) -> Seq<char> {
    match k {
        CellErrorKind::Div0 => "Div0"@,
        CellErrorKind::NA => "NA"@,
        CellErrorKind::Name => "Name"@,
        CellErrorKind::Null => "Null"@,
        CellErrorKind::Num => "Num"@,
        CellErrorKind::Ref => "Ref"@,
        CellErrorKind::Value => "Value"@,
        CellErrorKind::GettingData => "GettingData"@,
    }
}

/// A cell error as a sheet shows it.
pub open spec fn cell_error_symbol(k: CellErrorKind) -> Seq<char> {
    match k {
        CellErrorKind::Div0 => "#DIV/0!"@,
        CellErrorKind::NA => "#N/A"@,
        CellErrorKind::Name => "#NAME?"@,
        CellErrorKind::Null => "#NULL!"@,
        CellErrorKind::Num => "#NUM!"@,
        CellErrorKind::Ref => "#REF!"@,
        CellErrorKind::Value => "#VALUE!"@,
        CellErrorKind::GettingData => "#DATA!"@,
    }
}

fn error_name(k: CellErrorKind) -> (r: &'static str)
    ensures
        r@ == cell_error_name(k),
{
    match k {
        CellErrorKind::Div0 => "Div0",
        CellErrorKind::NA => "NA",
        CellErrorKind::Name => "Name",
        CellErrorKind::Null => "Null",
        CellErrorKind::Num => "Num",
        CellErrorKind::Ref => "Ref",
        CellErrorKind::Value => "Value",
        CellErrorKind::GettingData => "GettingData",
    }
}

fn error_symbol(k: CellErrorKind) -> (r: &'static str)
    ensures
        r@ == cell_error_symbol(k),
{
    match k {
        CellErrorKind::Div0 => "#DIV/0!",
        CellErrorKind::NA => "#N/A",
        CellErrorKind::Name => "#NAME?",
        CellErrorKind::Null => "#NULL!",
        CellErrorKind::Num => "#NUM!",
        CellErrorKind::Ref => "#REF!",
        CellErrorKind::Value => "#VALUE!",
        CellErrorKind::GettingData => "#DATA!",
    }
}

/// Why a text is not a number, in the words of `ParseIntError`.
pub open spec fn int_error_text(e: IntErrorKind) -> Seq<char> {
    match e {
        IntErrorKind::Empty => "cannot parse integer from empty string"@,
        IntErrorKind::InvalidDigit => "invalid digit found in string"@,
        IntErrorKind::PosOverflow => "number too large to fit in target type"@,
        IntErrorKind::NegOverflow => "number too small to fit in target type"@,
    }
}

fn int_error_message(e: IntErrorKind) -> (r: &'static str)
    ensures
        r@ == int_error_text(e),
{
    match e {
        IntErrorKind::Empty => "cannot parse integer from empty string",
        IntErrorKind::InvalidDigit => "invalid digit found in string",
        IntErrorKind::PosOverflow => "number too large to fit in target type",
        IntErrorKind::NegOverflow => "number too small to fit in target type",
    }
}

/// A position `(row, column)` as it is printed.
pub open spec fn position_text(r: nat, c: nat) -> Seq<char> {
    "("@ + decimal(r) + ", "@ + decimal(c) + ")"@
}

/// What went wrong with a row; `(r, c)` is the position a cell error names.
pub open spec fn row_error_text(e: RowError, r: nat, c: nat) -> Seq<char> {
    match e {
        RowError::Coercion(CoercionError::Cell(k)) =>
            "Cell error - Error: "@ + cell_error_name(k) + ", Position: "@ + position_text(r, c),
        RowError::Coercion(CoercionError::InvalidDate) => "Invalid Date"@,
        RowError::Coercion(CoercionError::InvalidDateFormat) => "Invalid date format"@,
        RowError::Coercion(CoercionError::Number(n)) => int_error_text(n),
        RowError::MissingField(k) => "missing field `"@ + column_name(k as int) + "`"@,
    }
}

/// The warning for the data row at `index` (0 for the row under the header):
/// its number in the sheet, one-based, and the quoted reason.
pub open spec fn warning_text(index: nat, e: RowError, r: nat, c: nat) -> Seq<char> {
    "Row #"@ + decimal(index + 2) + ": \""@ + row_error_text(e, r, c) + "\""@
}

fn append_position(s: &mut String, r: u64, c: u64)
    ensures
        final(s)@ == old(s)@ + position_text(r as nat, c as nat),
{
    s.append("(");
    append_decimal(s, r);
    s.append(", ");
    append_decimal(s, c);
    s.append(")");
    assert(final(s)@ =~= old(s)@ + position_text(r as nat, c as nat));
}

/// The warning for the data row at `index`.
pub fn warning(index: u64, e: RowError, r: u64, c: u64) -> (w: String)
    requires
        index + 2 <= u64::MAX,
        e matches RowError::MissingField(k) ==> k < COLUMN_COUNT,
    ensures
        w@ == warning_text(index as nat, e, r as nat, c as nat),
{
    let mut s = String::from_str("Row #");
    append_decimal(&mut s, index + 2);
    s.append(": \"");
    let ghost before = s@;
    match e {
        RowError::Coercion(CoercionError::Cell(k)) => {
            s.append("Cell error - Error: ");
            s.append(error_name(k));
            s.append(", Position: ");
            append_position(&mut s, r, c);
        },
        RowError::Coercion(CoercionError::InvalidDate) => s.append("Invalid Date"),
        RowError::Coercion(CoercionError::InvalidDateFormat) => s.append("Invalid date format"),
        RowError::Coercion(CoercionError::Number(n)) => s.append(int_error_message(n)),
        RowError::MissingField(k) => {
            s.append("missing field `");
            s.append(column_title(k));
            s.append("`");
        },
    }
    assert(s@ =~= before + row_error_text(e, r as nat, c as nat));
    s.append("\"");
    assert(s@ =~= warning_text(index as nat, e, r as nat, c as nat));
    s
}

/// The message of a sheet that cannot be read.
pub open spec fn parse_error_text(e: ParseError) -> Seq<char> {
    match e {
        ParseError::InvalidFileType => "Invalid file type"@,
        ParseError::HeaderCell { kind, row, col } =>
            "Cell error at position '"@ + position_text(row as nat, col as nat) + "': "@ + cell_error_symbol(kind),
        ParseError::HeaderNotFound(k) => "Cannot find header named '"@ + column_name(k as int) + "'"@,
    }
}

impl ParseError {
    /// The message of this error.
    pub fn message(&self) -> (r: String)
        requires
            self matches ParseError::HeaderNotFound(k) ==> k < COLUMN_COUNT,
        ensures
            r@ == parse_error_text(*self),
    {
        match *self {
            ParseError::InvalidFileType => String::from_str("Invalid file type"),
            ParseError::HeaderCell { kind, row, col } => {
                let mut s = String::from_str("Cell error at position '");
                append_position(&mut s, row as u64, col as u64);
                s.append("': ");
                s.append(error_symbol(kind));
                assert(s@ =~= parse_error_text(*self));
                s
            },
            ParseError::HeaderNotFound(k) => {
                let mut s = String::from_str("Cannot find header named '");
                s.append(column_title(k));
                s.append("'");
                assert(s@ =~= parse_error_text(*self));
                s
            },
        }
    }
}


/// The data rows of a sheet: every row under the header.
pub open spec fn data_rows(rows: Seq<Vec<Cell>>) -> Seq<Seq<Cell>> {
    rows.subrange(1, rows.len() as int).map_values(|r: Vec<Cell>| r@)
}

/// The records the rows read as, in order, leaving out those that fail.
pub open spec fn accepted(layout: Layout, rows: Seq<Seq<Cell>>) -> Seq<RecordView>
    decreases rows.len(),
{
    if rows.len() == 0 {
        Seq::empty()
    } else {
        let prev = accepted(layout, rows.drop_last());
        match decode(layout, rows.last()) {
            Ok(v) => prev.push(v),
            Err(_) => prev,
        }
    }
}

/// One warning for each row that fails, in order; `(r, c)` is the position
/// a cell error names.
pub open spec fn rejected(layout: Layout, rows: Seq<Seq<Cell>>, r: nat, c: nat) -> Seq<Seq<char>>
    decreases rows.len(),
{
    if rows.len() == 0 {
        Seq::empty()
    } else {
        let prev = rejected(layout, rows.drop_last(), r, c);
        match decode(layout, rows.last()) {
            Ok(_) => prev,
            Err(e) => prev.push(warning_text((rows.len() - 1) as nat, e, r, c)),
        }
    }
}

/// Every data row gives either a record or a warning.
pub proof fn lemma_rows_accounted(layout: Layout, rows: Seq<Seq<Cell>>, r: nat, c: nat)
    ensures
        accepted(layout, rows).len() + rejected(layout, rows, r, c).len() == rows.len(),
    decreases rows.len(),
{
    if rows.len() > 0 {
        lemma_rows_accounted(layout, rows.drop_last(), r, c);
    }
}

/// A row that fails leaves no trace among the records: without it the others
/// read as the same records, in the same order.
pub proof fn lemma_rejected_row_removable(layout: Layout, rows: Seq<Seq<Cell>>, k: int)
    requires
        0 <= k < rows.len(),
        decode(layout, rows[k]) is Err,
    ensures
        accepted(layout, rows) == accepted(layout, rows.remove(k)),
    decreases rows.len(),
{
    if k == rows.len() - 1 {
        assert(rows.remove(k) =~= rows.drop_last());
    } else {
        assert(rows.remove(k).drop_last() =~= rows.drop_last().remove(k));
        assert(rows.remove(k).last() == rows.last());
        lemma_rejected_row_removable(layout, rows.drop_last(), k);
    }
}

/// A row that fails gives exactly one warning, the last one so far, and it
/// names the row: its index among the data rows plus two.
pub proof fn lemma_rejected_row_warns(layout: Layout, rows: Seq<Seq<Cell>>, r: nat, c: nat)
    requires
        rows.len() > 0,
        decode(layout, rows.last()) is Err,
    ensures
        rejected(layout, rows, r, c) == rejected(layout, rows.drop_last(), r, c).push(
            warning_text((rows.len() - 1) as nat, decode(layout, rows.last())->Err_0, r, c)),
        accepted(layout, rows) == accepted(layout, rows.drop_last()),
{
}

/// Reads a sheet: resolves its header row, then reads every data row into
/// a record, or into a warning where a required value fails. Only the header
/// can make the whole sheet fail.
pub fn parse(sheet: &Sheet) -> (r: Result<(Vec<RawExcelRow>, Vec<String>), ParseError>)
    ensures
        sheet.rows@.len() == 0 ==> r is Ok && r->Ok_0.0@.len() == 0 && r->Ok_0.1@.len() == 0,
        sheet.rows@.len() > 0 ==> match header_texts(sheet.rows@[0]@) {
            Err(k) => r == Err::<(Vec<RawExcelRow>, Vec<String>), ParseError>(
                ParseError::HeaderCell { kind: k, row: sheet.origin_row, col: sheet.origin_col }),
            Ok(hs) => match r {
                Err(e) => e matches ParseError::HeaderNotFound(k) && first_unnamed(hs, k as int),
                Ok(out) => exists|l: Layout| #[trigger] resolves(hs, l)
                    && out.0@.map_values(|x: RawExcelRow| x@) == accepted(l, data_rows(sheet.rows@))
                    && out.1@.map_values(|w: String| w@) == rejected(l, data_rows(sheet.rows@),
                        sheet.origin_row as nat + 2, sheet.origin_col as nat),
            },
        },
{
    let mut records: Vec<RawExcelRow> = Vec::new();
    let mut warnings: Vec<String> = Vec::new();
    let n = sheet.rows.len();
    if n == 0 {
        return Ok((records, warnings));
    }
    let headers = match read_headers(&sheet.rows[0]) {
        Err(k) => return Err(ParseError::HeaderCell { kind: k, row: sheet.origin_row, col: sheet.origin_col }),
        Ok(h) => h,
    };
    let layout = match resolve_layout(&headers) {
        Err(k) => return Err(ParseError::HeaderNotFound(k)),
        Ok(l) => l,
    };
    let pr: u64 = sheet.origin_row as u64 + 2;
    let pc: u64 = sheet.origin_col as u64;
    let ghost data = data_rows(sheet.rows@);
    let mut i: usize = 1;
    assert(records@.map_values(|x: RawExcelRow| x@) =~= Seq::<RecordView>::empty());
    assert(warnings@.map_values(|w: String| w@) =~= Seq::<Seq<char>>::empty());
    assert(data.subrange(0, 0).len() == 0);
    while i < n
        invariant
            n == sheet.rows@.len(),
            1 <= i <= n,
            layout.wf(),
            data == data_rows(sheet.rows@),
            pr == sheet.origin_row as nat + 2,
            pc == sheet.origin_col as nat,
            records@.map_values(|x: RawExcelRow| x@) == accepted(layout, data.subrange(0, i - 1)),
            warnings@.map_values(|w: String| w@) == rejected(layout, data.subrange(0, i - 1), pr as nat, pc as nat),
        decreases n - i,
    {
        let ghost sub = data.subrange(0, i as int);
        assert(sub.drop_last() =~= data.subrange(0, i - 1));
        assert(sub.last() == sheet.rows@[i as int]@);
        let ghost rec_before = records@;
        let ghost warn_before = warnings@;
        match decode_row(&layout, &sheet.rows[i]) {
            Ok(rec) => {
                records.push(rec);
                assert(records@.map_values(|x: RawExcelRow| x@) =~= rec_before.map_values(|x: RawExcelRow| x@).push(rec@));
            },
            Err(e) => {
                let w = warning((i - 1) as u64, e, pr, pc);
                warnings.push(w);
                assert(warnings@.map_values(|w: String| w@) =~= warn_before.map_values(|w: String| w@).push(w@));
            },
        }
        i = i + 1;
    }
    assert(data.subrange(0, n - 1) =~= data);
    Ok((records, warnings))
}

} // verus!
