//! Columns of delimited flat files (CSV, TSV).
use vstd::prelude::*;

verus! {

#[verifier::external_type_specification]
#[verifier::external_body]
pub struct ExCsvError(csv::Error);

/// The records of the delimited text `data`, each as its list of fields,
/// after the header row where `has_headers`; `None` where the text is not
/// valid delimited text.
pub uninterp spec fn csv_rows_of(data: Seq<u8>, delimiter: u8, has_headers: bool) -> Option<
    Seq<Seq<Seq<char>>>,
>;

/// The rows of a table as texts.
pub open spec fn rows_view(rows: Seq<Vec<String>>) -> Seq<Seq<Seq<char>>> {
    rows.map_values(|row: Vec<String>| row@.map_values(|field: String| field@))
}

/// Relies on `csv::ReaderBuilder` (`delimiter`, `has_headers`,
/// `from_reader`) and `Reader::records`: the records of the text in order,
/// each as its fields, or the first error met while reading them.
#[verifier::external_body]
fn csv_records(data: &[u8], delimiter: u8, has_headers: bool) -> (r: Result<
    Vec<Vec<String>>,
    csv::Error,
>)
    ensures
        (r is Ok) == (csv_rows_of(data@, delimiter, has_headers) is Some),
        r is Ok ==> rows_view(r->Ok_0@) == csv_rows_of(data@, delimiter, has_headers)->Some_0,
{
    let mut reader = csv::ReaderBuilder::new().delimiter(delimiter).has_headers(
        has_headers,
    ).from_reader(data);
    let mut rows: Vec<Vec<String>> = Vec::new();
    for record in reader.records() {
        rows.push(record?.iter().map(String::from).collect());
    }
    Ok(rows)
}

/// Why a column could not be read.
#[derive(Debug)]
pub enum ColumnError {
    /// The text is not valid delimited text.
    Csv(csv::Error),
    /// The record at this position (counted from 0, after any header) has
    /// no field at the index asked for.
    MissingField(usize),
}

/// The field at `index` of each row, or `None` where some row is too short.
pub open spec fn column_of(rows: Seq<Seq<Seq<char>>>, index: int) -> Option<Seq<Seq<char>>> {
    if forall|k: int| 0 <= k < rows.len() ==> index < (#[trigger] rows[k]).len() {
        Some(rows.map_values(|row: Seq<Seq<char>>| row[index]))
    } else {
        None
    }
}

/// The field at `index` of each row of `rows`, in row order; where a row
/// has no such field, the position of the first such row.
pub fn select_column(rows: &Vec<Vec<String>>, index: usize) -> (r: Result<Vec<String>, usize>)
    ensures
        match column_of(rows_view(rows@), index as int) {
            Some(fields) => r is Ok && r->Ok_0@.map_values(|f: String| f@) == fields,
            None => r is Err && r->Err_0 < rows@.len() && rows@[r->Err_0 as int]@.len() <= index
                && forall|k: int| 0 <= k < r->Err_0 ==> index < (#[trigger] rows@[k])@.len(),
        },
{
    let ghost view = rows_view(rows@);
    let mut fields: Vec<String> = Vec::new();
    let mut k: usize = 0;
    while k < rows.len()
        invariant
            k <= rows@.len(),
            view == rows_view(rows@),
            fields@.len() == k,
            forall|x: int| 0 <= x < k ==> index < (#[trigger] rows@[x])@.len(),
            forall|x: int| 0 <= x < k ==> (#[trigger] fields@[x])@ == view[x][index as int],
        decreases rows@.len() - k,
    {
        if index >= rows[k].len() {
            assert(!(index < view[k as int].len()));
            return Err(k);
        }
        fields.push(rows[k][index].clone());
        k = k + 1;
    }
    assert(forall|x: int| 0 <= x < view.len() ==> index < (#[trigger] view[x]).len());
    assert(fields@.map_values(|f: String| f@) =~= view.map_values(
        |row: Seq<Seq<char>>| row[index as int],
    ));
    Ok(fields)
}

/// The field at `index` of every record of the delimited text `data`, in
/// record order (after the header row where `has_headers`).
pub fn read_column(data: &[u8], delimiter: u8, has_headers: bool, index: usize) -> (r: Result<
    Vec<String>,
    ColumnError,
>)
    ensures
        match csv_rows_of(data@, delimiter, has_headers) {
            None => r matches Err(ColumnError::Csv(_)),
            Some(rows) => match column_of(rows, index as int) {
                Some(fields) => r is Ok && r->Ok_0@.map_values(|f: String| f@) == fields,
                None => r matches Err(ColumnError::MissingField(k)) && k < rows.len() && rows[k as int].len() <= index,
            },
        },
{
    match csv_records(data, delimiter, has_headers) {
        Ok(rows) => match select_column(&rows, index) {
            Ok(fields) => Ok(fields),
            Err(k) => Err(ColumnError::MissingField(k)),
        },
        Err(error) => Err(ColumnError::Csv(error)),
    }
}

} // verus!
