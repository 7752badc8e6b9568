//! The persisted record: one game as nine text fields, in the snapshot's fixed
//! column order.

use vstd::prelude::*;
use crate::catalog::BoardGame;
use crate::decimal::{decimal, format_u32, lemma_decimal_reads_back, numeral_within, parse_bounded, value_of};
use crate::normalize::string_views;

verus! {

/// Number of fields in a record.
pub const FIELD_COUNT: usize = 9;

/// Why a row of text fields is not a record.
#[derive(Debug, Clone, Copy, PartialEq, Eq, Structural)]
pub enum RecordError {
    /// The row holds this many fields instead of nine.
    FieldCount(usize),
    /// The integer field at this column is not a numeral in range.
    Number(usize),
}

/// The nine fields of a record, in column order.
pub open spec fn fields_of(g: BoardGame) -> Seq<Seq<char>> {
    seq![
        decimal(g.id as nat),
        g.name@,
        decimal(g.year as nat),
        decimal(g.rank as nat),
        g.average_score@,
        g.bayes_average@,
        decimal(g.users_rated as nat),
        g.bgg_url@,
        g.thumbnail_url@,
    ]
}

/// The largest value that the integer field at column `col` holds.
pub open spec fn column_max(col: int) -> nat {
    if col == 2 { u16::MAX as nat } else { u32::MAX as nat }
}

/// Whether column `col` holds an integer.
pub open spec fn numeric_column(col: int) -> bool {
    col == 0 || col == 2 || col == 3 || col == 6
}

/// Whether integer column `col` of `f` is out of form.
pub open spec fn bad_number(f: Seq<Seq<char>>, col: int) -> bool {
    numeric_column(col) && !numeral_within(f[col], column_max(col))
}

/// What reading a row of fields gives: the field count is checked first, then
/// the integer columns from left to right.
pub open spec fn row_error(f: Seq<Seq<char>>) -> Option<RecordError> {
    if f.len() != 9 {
        Some(RecordError::FieldCount(f.len() as usize))
    } else if bad_number(f, 0) {
        Some(RecordError::Number(0))
    } else if bad_number(f, 2) {
        Some(RecordError::Number(2))
    } else if bad_number(f, 3) {
        Some(RecordError::Number(3))
    } else if bad_number(f, 6) {
        Some(RecordError::Number(6))
    } else {
        None
    }
}

/// Whether `g` holds exactly what the fields `f` say.
pub open spec fn read_from(g: BoardGame, f: Seq<Seq<char>>) -> bool {
    &&& f.len() == 9
    &&& g.id as nat == value_of(f[0])
    &&& g.name@ == f[1]
    &&& g.year as nat == value_of(f[2])
    &&& g.rank as nat == value_of(f[3])
    &&& g.average_score@ == f[4]
    &&& g.bayes_average@ == f[5]
    &&& g.users_rated as nat == value_of(f[6])
    &&& g.bgg_url@ == f[7]
    &&& g.thumbnail_url@ == f[8]
}

/// Whether two records hold the same value in every field.
pub open spec fn same_fields(a: BoardGame, b: BoardGame) -> bool {
    &&& a.id == b.id
    &&& a.name@ == b.name@
    &&& a.year == b.year
    &&& a.rank == b.rank
    &&& a.average_score@ == b.average_score@
    &&& a.bayes_average@ == b.bayes_average@
    &&& a.users_rated == b.users_rated
    &&& a.bgg_url@ == b.bgg_url@
    &&& a.thumbnail_url@ == b.thumbnail_url@
}

/// Writes a record as its nine fields.
pub fn record_fields(g: &BoardGame) -> (r: Vec<String>)
    ensures
        string_views(r@) == fields_of(*g),
{
    let r = vec![
        format_u32(g.id),
        g.name.clone(),
        format_u32(g.year as u32),
        format_u32(g.rank),
        g.average_score.clone(),
        g.bayes_average.clone(),
        format_u32(g.users_rated),
        g.bgg_url.clone(),
        g.thumbnail_url.clone(),
    ];
    assert(string_views(r@) =~= fields_of(*g));
    r
}

/// Reads a record from a row of text fields.
pub fn record_from_fields(f: &Vec<String>) -> (r: Result<BoardGame, RecordError>)
    ensures
        match r {
            Ok(g) => row_error(string_views(f@)) is None && read_from(g, string_views(f@)),
            Err(e) => row_error(string_views(f@)) == Some(e),
        },
{
    let ghost v = string_views(f@);
    if f.len() != FIELD_COUNT {
        return Err(RecordError::FieldCount(f.len()));
    }
    assert(v[0] == f@[0]@ && v[2] == f@[2]@ && v[3] == f@[3]@ && v[6] == f@[6]@);
    let id = match parse_bounded(f[0].as_str(), u32::MAX) {
        Some(n) => n,
        None => return Err(RecordError::Number(0)),
    };
    let year = match parse_bounded(f[2].as_str(), u16::MAX as u32) {
        Some(n) => n as u16,
        None => return Err(RecordError::Number(2)),
    };
    let rank = match parse_bounded(f[3].as_str(), u32::MAX) {
        Some(n) => n,
        None => return Err(RecordError::Number(3)),
    };
    let users_rated = match parse_bounded(f[6].as_str(), u32::MAX) {
        Some(n) => n,
        None => return Err(RecordError::Number(6)),
    };
    Ok(
        BoardGame {
            id,
            name: f[1].clone(),
            year,
            rank,
            average_score: f[4].clone(),
            bayes_average: f[5].clone(),
            users_rated,
            bgg_url: f[7].clone(),
            thumbnail_url: f[8].clone(),
        },
    )
}

/// Writing a record as fields and reading the fields back succeeds and
/// reproduces every field of the record.
pub proof fn lemma_record_round_trip(g: BoardGame, back: BoardGame)
    ensures
        row_error(fields_of(g)) is None,
        read_from(back, fields_of(g)) ==> same_fields(back, g),
{
    lemma_decimal_reads_back(g.id as nat);
    lemma_decimal_reads_back(g.year as nat);
    lemma_decimal_reads_back(g.rank as nat);
    lemma_decimal_reads_back(g.users_rated as nat);
}

} // verus!
