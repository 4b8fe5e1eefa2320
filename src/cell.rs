//! Raw cells of a sheet and their coercion into the values a record holds.

use vstd::prelude::*;
use vstd::string::StringExecFns;
use crate::text::{
    append_signed_decimal, parse_i32, parse_i32_spec, signed_decimal, split_in_two, only_sep_at,
    IntErrorKind,
};

verus! {

/// A calendar date.
#[derive(Clone, Copy, Debug, PartialEq, Eq, Structural)]
pub struct CalendarDate {
    pub year: i32,
    pub month: u32,
    pub day: u32,
}

/// The error a cell of a sheet can hold in place of a value.
#[derive(Clone, Copy, Debug, PartialEq, Eq, Structural)]
pub enum CellErrorKind {
    Div0,
    NA,
    Name,
    Null,
    Num,
    Ref,
    Value,
    GettingData,
}

/// A floating-point cell: its bit pattern and its shortest decimal rendering.
#[derive(Clone, Debug)]
pub struct FloatCell {
    pub bits: u64,
    pub text: String,
}

/// The value of a cell. Dates and durations stored as serial numbers are
/// floating-point cells; dates stored as ISO text are text cells.
#[derive(Clone, Debug)]
pub enum CellValue {
    Empty,
    Int(i64),
    Float(FloatCell),
    Text(String),
    Bool(bool),
    Error(CellErrorKind),
}

/// A cell, with the calendar date it reads as, if any.
#[derive(Clone, Debug)]
pub struct Cell {
    pub value: CellValue,
    pub date: Option<CalendarDate>,
}

/// A session's day and month, as a `"DD/MM"` text gives them.
#[derive(Clone, Copy, Debug, PartialEq, Eq, Structural)]
pub struct Date {
    pub month: i32,
    pub day: i32,
}

/// Training hours as a cell gave them: a floating-point value by its bit
/// pattern, a whole number, or nothing numeric (zero hours).
#[derive(Clone, Copy, Debug, PartialEq, Eq, Structural)]
pub enum Hours {
    Bits(u64),
    Whole(i64),
    Zero,
}

/// Why a required value could not be read from a cell.
#[derive(Clone, Copy, Debug, PartialEq, Eq, Structural)]
pub enum CoercionError {
    /// The cell holds an error.
    Cell(CellErrorKind),
    /// The cell does not read as a calendar date.
    InvalidDate,
    /// The text does not hold exactly one `/`.
    InvalidDateFormat,
    /// A part of the text is not a decimal `i32`.
    Number(IntErrorKind),
}

/// The text of a cell where text is asked for.
pub open spec fn text_of(v: CellValue) -> Result<Seq<char>, CellErrorKind> {
    match v {
        CellValue::Empty => Ok(Seq::empty()),
        CellValue::Int(i) => Ok(signed_decimal(i as int)),
        CellValue::Float(f) => Ok(f.text@),
        CellValue::Text(s) => Ok(s@),
        CellValue::Bool(b) => Ok(if b { "true"@ } else { "false"@ }),
        CellValue::Error(k) => Err(k),
    }
}

/// The text of a cell where text is optional: numbers are rendered,
/// booleans and errors give none.
pub open spec fn optional_text_of(v: CellValue) -> Option<Seq<char>> {
    match v {
        CellValue::Int(i) => Some(signed_decimal(i as int)),
        CellValue::Float(f) => Some(f.text@),
        CellValue::Text(s) => Some(s@),
        _ => None,
    }
}

/// The hours a cell gives: its number, or zero where it holds none.
pub open spec fn hours_of(v: CellValue) -> Hours {
    match v {
        CellValue::Float(f) => Hours::Bits(f.bits),
        CellValue::Int(i) => Hours::Whole(i),
        _ => Hours::Zero,
    }
}

/// The calendar date a cell gives where a date is required.
pub open spec fn timestamp_of(c: Cell) -> Result<CalendarDate, CoercionError> {
    match c.value {
        CellValue::Error(k) => Err(CoercionError::Cell(k)),
        _ => match c.date {
            Some(d) => Ok(d),
            None => Err(CoercionError::InvalidDate),
        },
    }
}

/// The session date a text `"DD/MM"` gives.
pub open spec fn session_date_of_text(s: Seq<char>) -> Result<Date, CoercionError> {
    if exists|k: int| only_sep_at(s, '/', k) {
        let k = choose|k: int| only_sep_at(s, '/', k);
        let day = parse_i32_spec(s.subrange(0, k));
        let month = parse_i32_spec(s.subrange(k + 1, s.len() as int));
        match day {
            Err(e) => Err(CoercionError::Number(e)),
            Ok(d) => match month {
                Err(e) => Err(CoercionError::Number(e)),
                Ok(m) => Ok(Date { month: m as i32, day: d as i32 }),
            },
        }
    } else {
        Err(CoercionError::InvalidDateFormat)
    }
}

/// The session date a cell gives, read from its text.
pub open spec fn session_date_of(v: CellValue) -> Result<Date, CoercionError> {
    match text_of(v) {
        Err(k) => Err(CoercionError::Cell(k)),
        Ok(s) => session_date_of_text(s),
    }
}

/// The text of a cell where text is asked for.
pub fn cell_text(v: &CellValue) -> (r: Result<String, CellErrorKind>)
    ensures
        match text_of(*v) {
            Ok(s) => r is Ok && r->Ok_0@ == s,
            Err(k) => r == Err::<String, CellErrorKind>(k),
        },
{
    match v {
        CellValue::Empty => Ok(String::new()),
        CellValue::Int(i) => {
            let mut s = String::new();
            append_signed_decimal(&mut s, *i);
            assert(s@ =~= signed_decimal(*i as int));
            Ok(s)
        },
        CellValue::Float(f) => Ok(f.text.clone()),
        CellValue::Text(s) => Ok(s.clone()),
        CellValue::Bool(b) => Ok(if *b { String::from_str("true") } else { String::from_str("false") }),
        CellValue::Error(k) => Err(*k),
    }
}

/// The text of a cell where text is optional.
pub fn optional_text(v: &CellValue) -> (r: Option<String>)
    ensures
        match optional_text_of(*v) {
            Some(s) => r is Some && r->Some_0@ == s,
            None => r is None,
        },
{
    match v {
        CellValue::Int(i) => {
            let mut s = String::new();
            append_signed_decimal(&mut s, *i);
            assert(s@ =~= signed_decimal(*i as int));
            Some(s)
        },
        CellValue::Float(f) => Some(f.text.clone()),
        CellValue::Text(s) => Some(s.clone()),
        _ => None,
    }
}

/// The hours a cell gives.
pub fn hours(v: &CellValue) -> (r: Hours)
    ensures
        r == hours_of(*v),
{
    match v {
        CellValue::Float(f) => Hours::Bits(f.bits),
        CellValue::Int(i) => Hours::Whole(*i),
        _ => Hours::Zero,
    }
}

/// The calendar date a cell gives where a date is required.
pub fn timestamp(c: &Cell) -> (r: Result<CalendarDate, CoercionError>)
    ensures
        r == timestamp_of(*c),
{
    match &c.value {
        CellValue::Error(k) => Err(CoercionError::Cell(*k)),
        _ => match c.date {
            Some(d) => Ok(d),
            None => Err(CoercionError::InvalidDate),
        },
    }
}

/// Reads a session date from a text `"DD/MM"`: day, then month, each a
/// decimal `i32`. Neither is checked against the calendar.
pub fn session_date_from_text(s: &str) -> (r: Result<Date, CoercionError>)
    ensures
        r == session_date_of_text(s@),
{
    match split_in_two(s, '/') {
        None => Err(CoercionError::InvalidDateFormat),
        Some((a, b)) => {
            let ghost k = choose|k: int| only_sep_at(s@, '/', k) && a@ == s@.subrange(0, k)
                && b@ == s@.subrange(k + 1, s@.len() as int);
            assert(forall|j: int| only_sep_at(s@, '/', j) ==> j == k);
            let day = parse_i32(a);
            let month = parse_i32(b);
            match day {
                Err(e) => Err(CoercionError::Number(e)),
                Ok(d) => match month {
                    Err(e) => Err(CoercionError::Number(e)),
                    Ok(m) => Ok(Date { month: m, day: d }),
                },
            }
        },
    }
}

/// The session date a cell gives, read from its text.
pub fn session_date(v: &CellValue) -> (r: Result<Date, CoercionError>)
    ensures
        r == session_date_of(*v),
{
    match cell_text(v) {
        Err(k) => Err(CoercionError::Cell(k)),
        Ok(s) => session_date_from_text(s.as_str()),
    }
}

} // verus!
