//! A catalog as a snapshot file: a header row, then one row per game, in CSV.

use vstd::prelude::*;
use crate::catalog::BoardGame;
use crate::normalize::string_views;
use crate::record::{
    RecordError, fields_of, lemma_record_round_trip, read_from, record_fields, record_from_fields,
    row_error, same_fields,
};

verus! {

#[verifier::external_type_specification]
#[verifier::external_body]
pub struct ExCsvError(csv::Error);

/// The bytes that the `csv` crate's default writer emits for one row of fields.
pub uninterp spec fn csv_line_of(fields: Seq<Seq<char>>) -> Seq<u8>;

/// The rows, as text fields, that the `csv` crate's reader (no header
/// handling) finds in a byte string; `None` where it refuses the bytes (text
/// that is not UTF-8, rows of unequal length).
pub uninterp spec fn csv_parse_of(bytes: Seq<u8>) -> Option<Seq<Seq<Seq<char>>>>;

/// Relies on `csv::Writer::write_record` and `csv::Writer::into_inner`: one
/// row written by a fresh default writer into a `Vec`, which cannot fail (the
/// field-count check only records the count of a first row, and writing to
/// memory does no I/O).
#[verifier::external_body]
fn csv_line(fields: &Vec<String>) -> (r: Result<Vec<u8>, csv::Error>)
    ensures
        r is Ok,
        r matches Ok(b) ==> b@ == csv_line_of(string_views(fields@)),
{
    let mut w = csv::Writer::from_writer(Vec::new());
    w.write_record(fields)?;
    match w.into_inner() {
        Ok(b) => Ok(b),
        Err(e) => Err(csv::Error::from(e.into_error())),
    }
}

/// Relies on `csv::ReaderBuilder` with `has_headers(false)` and
/// `csv::Reader::records`: every row of the input, each as its text fields,
/// or the reader's error; which of the two depends on the bytes alone.
#[verifier::external_body]
fn csv_rows(bytes: &[u8]) -> (r: Result<Vec<Vec<String>>, csv::Error>)
    ensures
        match csv_parse_of(bytes@) {
            Some(rows) => r matches Ok(v) && row_views(v@) == rows,
            None => r is Err,
        },
{
    let mut rdr = csv::ReaderBuilder::new().has_headers(false).from_reader(bytes);
    let mut rows = Vec::new();
    for rec in rdr.records() {
        rows.push(rec?.iter().map(String::from).collect());
    }
    Ok(rows)
}

/// Why a snapshot could not be read or written.
#[derive(Debug, Clone, Copy, PartialEq, Eq, Structural)]
pub enum CatalogError {
    /// The CSV layer refused the bytes or the rows.
    Csv,
    /// The first row is not the expected header.
    Header,
    /// The row at this position (the header is row 0) is not a record.
    Record(usize, RecordError),
}

/// The views of a sequence of rows.
pub open spec fn row_views(rows: Seq<Vec<String>>) -> Seq<Seq<Seq<char>>> {
    rows.map_values(|r: Vec<String>| string_views(r@))
}

/// The header row, in column order.
pub open spec fn header_row() -> Seq<Seq<char>> {
    seq![
        "ID"@,
        "Name"@,
        "Year"@,
        "Rank"@,
        "Average"@,
        "Bayes average"@,
        "Users rated"@,
        "URL"@,
        "Thumbnail"@,
    ]
}

/// The header, then each game's fields.
pub open spec fn header_and_records(c: Seq<BoardGame>) -> Seq<Seq<Seq<char>>> {
    seq![header_row()] + c.map_values(|g: BoardGame| fields_of(g))
}

/// The rows of a catalog's snapshot: none for an empty catalog, else the
/// header followed by each game's fields.
pub open spec fn catalog_row_views(c: Seq<BoardGame>) -> Seq<Seq<Seq<char>>> {
    if c.len() == 0 {
        seq![]
    } else {
        header_and_records(c)
    }
}

/// How many games a snapshot of `n` rows holds: all rows but the header.
pub open spec fn record_count(n: nat) -> nat {
    if n == 0 { 0 } else { (n - 1) as nat }
}

/// The bytes of a sequence of rows: each row's CSV line, in order.
pub open spec fn csv_text_of(rows: Seq<Seq<Seq<char>>>) -> Seq<u8>
    decreases rows.len(),
{
    if rows.len() == 0 {
        seq![]
    } else {
        csv_text_of(rows.drop_last()) + csv_line_of(rows.last())
    }
}

/// What reading the rows `rows` must give: no games where there are no rows;
/// an error for a wrong header, else for the first row that is not a record;
/// else the games that the rows after the header hold, in order.
pub open spec fn rows_give(rows: Seq<Seq<Seq<char>>>, r: Result<Vec<BoardGame>, CatalogError>) -> bool {
    if rows.len() > 0 && rows[0] != header_row() {
        r == Err::<Vec<BoardGame>, CatalogError>(CatalogError::Header)
    } else {
        match r {
            Ok(gs) => {
                &&& gs@.len() == record_count(rows.len())
                &&& forall|k: int| 0 <= k < gs@.len() ==> read_from(#[trigger] gs@[k], rows[k + 1])
                &&& forall|j: int| 1 <= j < rows.len() ==> #[trigger] row_error(rows[j]) is None
            },
            Err(CatalogError::Record(i, e)) => {
                &&& 1 <= i < rows.len()
                &&& row_error(rows[i as int]) == Some(e)
                &&& forall|j: int| 1 <= j < i ==> #[trigger] row_error(rows[j]) is None
            },
            Err(_) => false,
        }
    }
}

/// What reading the snapshot `bytes` must give: `Csv` where the CSV layer
/// refuses them, else what the rows it finds give.
pub open spec fn snapshot_gives(bytes: Seq<u8>, r: Result<Vec<BoardGame>, CatalogError>) -> bool {
    match csv_parse_of(bytes) {
        None => r == Err::<Vec<BoardGame>, CatalogError>(CatalogError::Csv),
        Some(rows) => rows_give(rows, r),
    }
}

/// The header row as strings.
pub fn header_fields() -> (r: Vec<String>)
    ensures
        string_views(r@) == header_row(),
{
    let r = vec![
        "ID".to_string(),
        "Name".to_string(),
        "Year".to_string(),
        "Rank".to_string(),
        "Average".to_string(),
        "Bayes average".to_string(),
        "Users rated".to_string(),
        "URL".to_string(),
        "Thumbnail".to_string(),
    ];
    assert(string_views(r@) =~= header_row());
    r
}

/// Whether a row is exactly the header.
pub fn is_header(row: &Vec<String>) -> (r: bool)
    ensures
        r == (string_views(row@) == header_row()),
{
    let h = header_fields();
    if row.len() != h.len() {
        return false;
    }
    let mut i: usize = 0;
    while i < h.len()
        invariant
            row@.len() == h@.len(),
            string_views(h@) == header_row(),
            forall|k: int| 0 <= k < i ==> row@[k]@ == h@[k]@,
        decreases h@.len() - i,
    {
        if row[i] != h[i] {
            assert(string_views(row@)[i as int] != header_row()[i as int]);
            return false;
        }
        i = i + 1;
    }
    assert(string_views(row@) =~= header_row());
    true
}

/// The rows of a catalog's snapshot: the header, then each game's fields.
pub fn catalog_rows(games: &[BoardGame]) -> (r: Vec<Vec<String>>)
    ensures
        row_views(r@) == catalog_row_views(games@),
{
    let mut rows: Vec<Vec<String>> = Vec::new();
    if games.len() == 0 {
        assert(row_views(rows@) =~= seq![]);
        return rows;
    }
    rows.push(header_fields());
    for i in 0..games.len()
        invariant
            row_views(rows@) == header_and_records(games@.take(i as int)),
    {
        let ghost before = rows@;
        rows.push(record_fields(&games[i]));
        proof {
            let a = header_and_records(games@.take(i as int));
            let b = header_and_records(games@.take(i + 1));
            assert(b.len() == a.len() + 1);
            assert forall|k: int| 0 <= k < b.len() implies #[trigger] b[k] == row_views(rows@)[k] by {
                assert(row_views(rows@)[k] == string_views(rows@[k]@));
                if k < a.len() {
                    assert(row_views(before)[k] == string_views(before[k]@));
                    assert(rows@[k] == before[k]);
                }
                if k == 0 {
                    assert(a[0] == header_row());
                    assert(row_views(before)[0] == a[0]);
                } else if k < a.len() {
                    assert(b[k] == fields_of(games@.take(i + 1)[k - 1]));
                    assert(a[k] == fields_of(games@.take(i as int)[k - 1]));
                    assert(rows@[k] == before[k]);
                    assert(row_views(before)[k] == a[k]);
                } else if k == a.len() {
                    assert(b[k] == fields_of(games@[i as int]));
                    assert(rows@[k] == rows@.last());
                }
            }
            assert(row_views(rows@) =~= b);
        }
    }
    assert(games@.take(games@.len() as int) =~= games@);
    rows
}

/// Reads the games from the rows of a snapshot.
pub fn catalog_from_rows(rows: &Vec<Vec<String>>) -> (r: Result<Vec<BoardGame>, CatalogError>)
    ensures
        rows_give(row_views(rows@), r),
{
    let ghost v = row_views(rows@);
    if rows.len() == 0 {
        return Ok(Vec::new());
    }
    if !is_header(&rows[0]) {
        return Err(CatalogError::Header);
    }
    let mut games: Vec<BoardGame> = Vec::new();
    let mut i: usize = 1;
    while i < rows.len()
        invariant
            v == row_views(rows@),
            v[0] == header_row(),
            1 <= i <= rows@.len(),
            games@.len() + 1 == i,
            forall|k: int| 0 <= k < games@.len() ==> read_from(#[trigger] games@[k], v[k + 1]),
            forall|j: int| 1 <= j < i ==> #[trigger] row_error(v[j]) is None,
        decreases rows@.len() - i,
    {
        assert(v[i as int] == string_views(rows@[i as int]@));
        match record_from_fields(&rows[i]) {
            Ok(g) => {
                games.push(g);
            },
            Err(e) => {
                return Err(CatalogError::Record(i, e));
            },
        }
        i = i + 1;
    }
    Ok(games)
}

/// Reads a catalog from the bytes of a snapshot: `Csv` where the CSV layer
/// refuses them, else what the rows it finds give.
pub fn catalog_from_csv(bytes: &[u8]) -> (r: Result<Vec<BoardGame>, CatalogError>)
    ensures
        snapshot_gives(bytes@, r),
{
    match csv_rows(bytes) {
        Ok(rows) => catalog_from_rows(&rows),
        Err(_) => Err(CatalogError::Csv),
    }
}

/// Writes a catalog as the bytes of a snapshot: nothing for an empty catalog,
/// else the header row and then one row per game, each as the CSV layer
/// encodes it.
pub fn catalog_to_csv(games: &[BoardGame]) -> (r: Vec<u8>)
    ensures
        r@ == csv_text_of(catalog_row_views(games@)),
{
    let rows = catalog_rows(games);
    let ghost v = row_views(rows@);
    let mut out: Vec<u8> = Vec::new();
    assert(v.take(0) =~= seq![]);
    for i in 0..rows.len()
        invariant
            v == row_views(rows@),
            v == catalog_row_views(games@),
            out@ == csv_text_of(v.take(i as int)),
    {
        proof {
            assert(v.take(i + 1).drop_last() =~= v.take(i as int));
            assert(v[i as int] == string_views(rows@[i as int]@));
        }
        // Writing a row into memory always succeeds.
        if let Ok(mut line) = csv_line(&rows[i]) {
            out.append(&mut line);
        }
    }
    assert(v.take(v.len() as int) =~= v);
    out
}

/// Reading back the rows that a catalog is written as succeeds, and gives the
/// catalog's games in order, each with every field unchanged.
pub proof fn lemma_catalog_rows_round_trip(c: Seq<BoardGame>, r: Result<Vec<BoardGame>, CatalogError>)
    requires
        rows_give(catalog_row_views(c), r),
    ensures
        r matches Ok(gs) && gs@.len() == c.len() && forall|k: int|
            0 <= k < c.len() ==> same_fields(#[trigger] gs@[k], c[k]),
{
    let rows = catalog_row_views(c);
    if c.len() > 0 {
        assert(rows[0] == header_row());
    }
    assert forall|j: int| 1 <= j < rows.len() implies #[trigger] row_error(rows[j]) is None by {
        assert(rows[j] == fields_of(c[j - 1]));
        lemma_record_round_trip(c[j - 1], c[j - 1]);
    }
    match r {
        Ok(gs) => {
            assert forall|k: int| 0 <= k < c.len() implies same_fields(#[trigger] gs@[k], c[k]) by {
                assert(rows[k + 1] == fields_of(c[k]));
                assert(read_from(gs@[k], rows[k + 1]));
                lemma_record_round_trip(c[k], gs@[k]);
            }
        },
        Err(e) => {
            if let CatalogError::Record(i, _) = e {
                assert(row_error(rows[i as int]) is None);
            }
        },
    }
}

/// Reading the same rows twice gives the same outcome: the same error, or
/// games with the same fields in the same order.
pub proof fn lemma_rows_read_deterministic(
    rows: Seq<Seq<Seq<char>>>,
    a: Result<Vec<BoardGame>, CatalogError>,
    b: Result<Vec<BoardGame>, CatalogError>,
)
    requires
        rows_give(rows, a),
        rows_give(rows, b),
    ensures
        a is Ok <==> b is Ok,
        a is Err ==> a == b,
        a matches Ok(x) ==> b matches Ok(y) && x@.len() == y@.len() && forall|k: int|
            0 <= k < x@.len() ==> same_fields(#[trigger] x@[k], y@[k]),
{
    if !(rows.len() > 0 && rows[0] != header_row()) {
        match (a, b) {
            (Err(CatalogError::Record(i, e)), Err(CatalogError::Record(j, f))) => {
                if i < j {
                    assert(row_error(rows[i as int]) is None);
                } else if j < i {
                    assert(row_error(rows[j as int]) is None);
                }
            },
            (Err(CatalogError::Record(i, _)), Ok(_)) => {
                assert(row_error(rows[i as int]) is None);
            },
            (Ok(_), Err(CatalogError::Record(j, _))) => {
                assert(row_error(rows[j as int]) is None);
            },
            (Ok(x), Ok(y)) => {
                assert forall|k: int| 0 <= k < x@.len() implies same_fields(#[trigger] x@[k], y@[k]) by {
                    assert(read_from(x@[k], rows[k + 1]));
                    assert(read_from(y@[k], rows[k + 1]));
                }
            },
            _ => {},
        }
    }
}

/// Reading the same snapshot bytes twice gives the same outcome: the same
/// error, or games with the same fields in the same order.
pub proof fn lemma_snapshot_read_deterministic(
    bytes: Seq<u8>,
    a: Result<Vec<BoardGame>, CatalogError>,
    b: Result<Vec<BoardGame>, CatalogError>,
)
    requires
        snapshot_gives(bytes, a),
        snapshot_gives(bytes, b),
    ensures
        a is Ok <==> b is Ok,
        a is Err ==> a == b,
        a matches Ok(x) ==> b matches Ok(y) && x@.len() == y@.len() && forall|k: int|
            0 <= k < x@.len() ==> same_fields(#[trigger] x@[k], y@[k]),
{
    if let Some(rows) = csv_parse_of(bytes) {
        lemma_rows_read_deterministic(rows, a, b);
    }
}

} // verus!
