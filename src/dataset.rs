//! The training dataset: a CSV table whose header names the columns `km`
//! and `price`, with one observation per following record. Both fields of
//! every observation must be floating-point literals.
use vstd::prelude::*;
use vstd::string::StrSliceExecFns;
use crate::number::{is_float_literal, is_float_text};

verus! {

#[verifier::external_type_specification]
#[verifier::external_body]
pub struct ExCsvError(csv::Error);

/// A column that the dataset reads.
#[derive(Clone, Copy, Debug, PartialEq, Eq, Structural)]
pub enum Column {
    Km,
    Price,
}

/// The header name of a column.
pub open spec fn column_name(c: Column) -> Seq<char> {
    match c {
        Column::Km => seq!['k', 'm'],
        Column::Price => seq!['p', 'r', 'i', 'c', 'e'],
    }
}

/// Why a dataset could not be read. A record is counted from the header,
/// which is record 0.
#[derive(Clone, Copy, Debug, PartialEq, Eq, Structural)]
pub enum DatasetError {
    /// The bytes are not a CSV table: not UTF-8, or records of unequal length.
    Unreadable,
    /// The header does not name this column.
    MissingColumn(Column),
    /// This record has no field under this column.
    MissingField { record: usize, column: Column },
    /// The field of this record under this column is not a floating-point literal.
    InvalidNumber { record: usize, column: Column },
}

/// The records of the CSV table that the bytes `b` hold, each a sequence of
/// fields, or `None` where the bytes are not such a table.
pub uninterp spec fn csv_table(b: Seq<u8>) -> Option<Seq<Seq<Seq<char>>>>;

pub open spec fn table_view(rows: Seq<Vec<String>>) -> Seq<Seq<Seq<char>>> {
    rows.map_values(|row: Vec<String>| row@.map_values(|f: String| f@))
}

/// Relies on csv's `Reader` built with headers off: it splits the bytes into
/// records of fields, the header among them, and fails on bytes that are not
/// UTF-8 or on records of unequal length. What it yields depends on the bytes
/// alone.
#[verifier::external_body]
fn read_table(b: &[u8]) -> (r: Result<Vec<Vec<String>>, csv::Error>)
    ensures
        match r {
            Ok(rows) => csv_table(b@) == Some(table_view(rows@)),
            Err(_) => csv_table(b@) is None,
        },
{
    let mut rdr = csv::ReaderBuilder::new().has_headers(false).from_reader(b);
    rdr.records().map(|rec| rec.map(|rec| rec.iter().map(String::from).collect())).collect()
}

/// The first position at or after `i` where `h` holds `name`, or -1.
pub open spec fn column_from(h: Seq<Seq<char>>, name: Seq<char>, i: int) -> int
    decreases h.len() - i,
{
    if i < 0 || i >= h.len() {
        -1
    } else if h[i] == name {
        i
    } else {
        column_from(h, name, i + 1)
    }
}

/// The position of the first header field that names `c`, or -1.
pub open spec fn column_index(h: Seq<Seq<char>>, c: Column) -> int {
    column_from(h, column_name(c), 0)
}

/// The fault of field `k` of a record, if any.
pub open spec fn field_fault(row: Seq<Seq<char>>, record: int, k: int, c: Column) -> Option<
    DatasetError,
> {
    if k >= row.len() {
        Some(DatasetError::MissingField { record: record as usize, column: c })
    } else if !is_float_literal(row[k]) {
        Some(DatasetError::InvalidNumber { record: record as usize, column: c })
    } else {
        None
    }
}

/// The fault of a record, its `km` field before its `price` field.
pub open spec fn record_fault(row: Seq<Seq<char>>, record: int, kc: int, pc: int) -> Option<
    DatasetError,
> {
    if field_fault(row, record, kc, Column::Km) is Some {
        field_fault(row, record, kc, Column::Km)
    } else {
        field_fault(row, record, pc, Column::Price)
    }
}

/// The first fault among the records from `r` on.
pub open spec fn first_fault_from(t: Seq<Seq<Seq<char>>>, kc: int, pc: int, r: int) -> Option<
    DatasetError,
>
    decreases t.len() - r,
{
    if r < 0 || r >= t.len() {
        None
    } else if record_fault(t[r], r, kc, pc) is Some {
        record_fault(t[r], r, kc, pc)
    } else {
        first_fault_from(t, kc, pc, r + 1)
    }
}

/// The observations of a table: the `km` and `price` fields of each record
/// after the header, in order, or the first fault. A table without records,
/// or with a header alone, holds no observation and no fault; whoever needs
/// observations checks that there are some.
pub open spec fn dataset(t: Seq<Seq<Seq<char>>>) -> Result<
    Seq<(Seq<char>, Seq<char>)>,
    DatasetError,
> {
    if t.len() <= 1 {
        Ok(Seq::empty())
    } else {
        let kc = column_index(t[0], Column::Km);
        let pc = column_index(t[0], Column::Price);
        if kc < 0 {
            Err(DatasetError::MissingColumn(Column::Km))
        } else if pc < 0 {
            Err(DatasetError::MissingColumn(Column::Price))
        } else {
            match first_fault_from(t, kc, pc, 1) {
                Some(e) => Err(e),
                None => Ok(Seq::new((t.len() - 1) as nat, |i: int| (t[i + 1][kc], t[i + 1][pc]))),
            }
        }
    }
}

/// One observation: a mileage and a price, each a floating-point literal.
#[derive(Debug)]
pub struct Observation {
    km: String,
    price: String,
}

impl View for Observation {
    type V = (Seq<char>, Seq<char>);

    closed spec fn view(&self) -> (Seq<char>, Seq<char>) {
        (self.km@, self.price@)
    }
}

impl Observation {
    pub fn km(&self) -> (r: &str)
        ensures
            r@ == self@.0,
    {
        self.km.as_str()
    }

    pub fn price(&self) -> (r: &str)
        ensures
            r@ == self@.1,
    {
        self.price.as_str()
    }
}

pub open spec fn observations_view(v: Seq<Observation>) -> Seq<(Seq<char>, Seq<char>)> {
    v.map_values(|o: Observation| o@)
}

fn same_text(a: &str, b: &str) -> (r: bool)
    ensures
        r == (a@ == b@),
{
    let n = a.unicode_len();
    if n != b.unicode_len() {
        return false;
    }
    let mut i: usize = 0;
    while i < n
        invariant
            n == a@.len() == b@.len(),
            i <= n,
            forall|k: int| 0 <= k < i ==> a@[k] == b@[k],
        decreases n - i,
    {
        if a.get_char(i) != b.get_char(i) {
            return false;
        }
        i = i + 1;
    }
    assert(a@ =~= b@);
    true
}

fn find_column(h: &Vec<String>, c: Column) -> (r: Option<usize>)
    ensures
        ({
            let hv = h@.map_values(|f: String| f@);
            match r {
                None => column_index(hv, c) == -1,
                Some(i) => column_index(hv, c) == i as int && i < h@.len(),
            }
        }),
{
    let ghost hv = h@.map_values(|f: String| f@);
    let name = match c {
        Column::Km => "km",
        Column::Price => "price",
    };
    proof {
        reveal_strlit("km");
        reveal_strlit("price");
        assert(name@ =~= column_name(c));
    }
    let mut i: usize = 0;
    while i < h.len()
        invariant
            i <= h@.len(),
            hv == h@.map_values(|f: String| f@),
            name@ == column_name(c),
            column_index(hv, c) == column_from(hv, name@, i as int),
        decreases h@.len() - i,
    {
        if same_text(h[i].as_str(), name) {
            return Some(i);
        }
        i = i + 1;
    }
    None
}

/// The observations of a table of records, the header first: see `dataset`.
pub fn dataset_from_table(rows: &Vec<Vec<String>>) -> (r: Result<Vec<Observation>, DatasetError>)
    ensures
        match dataset(table_view(rows@)) {
            Ok(o) => r is Ok && observations_view(r->Ok_0@) == o,
            Err(e) => r == Err::<Vec<Observation>, DatasetError>(e),
        },
{
    let ghost t = table_view(rows@);
    if rows.len() <= 1 {
        let none: Vec<Observation> = Vec::new();
        assert(observations_view(none@) =~= Seq::<(Seq<char>, Seq<char>)>::empty());
        return Ok(none);
    }
    let header = &rows[0];
    assert(t[0] == header@.map_values(|f: String| f@));
    let kc = match find_column(header, Column::Km) {
        Some(i) => i,
        None => {
            return Err(DatasetError::MissingColumn(Column::Km));
        },
    };
    let pc = match find_column(header, Column::Price) {
        Some(i) => i,
        None => {
            return Err(DatasetError::MissingColumn(Column::Price));
        },
    };
    let mut out: Vec<Observation> = Vec::new();
    let mut r: usize = 1;
    while r < rows.len()
        invariant
            t == table_view(rows@),
            t.len() == rows@.len(),
            column_index(t[0], Column::Km) == kc as int,
            column_index(t[0], Column::Price) == pc as int,
            kc < t[0].len() && pc < t[0].len(),
            1 <= r <= rows@.len(),
            out@.len() == r - 1,
            first_fault_from(t, kc as int, pc as int, 1) == first_fault_from(
                t,
                kc as int,
                pc as int,
                r as int,
            ),
            forall|i: int|
                0 <= i < r - 1 ==> #[trigger] out@[i]@ == (t[i + 1][kc as int], t[i + 1][pc as int]),
        decreases rows@.len() - r,
    {
        let row = &rows[r];
        let ghost rv = t[r as int];
        assert(rv == row@.map_values(|f: String| f@));
        assert(rv.len() == row@.len());
        assert(kc < row@.len() ==> rv[kc as int] == row@[kc as int]@);
        assert(pc < row@.len() ==> rv[pc as int] == row@[pc as int]@);
        if kc >= row.len() {
            return Err(DatasetError::MissingField { record: r, column: Column::Km });
        }
        if !is_float_text(row[kc].as_str()) {
            return Err(DatasetError::InvalidNumber { record: r, column: Column::Km });
        }
        if pc >= row.len() {
            return Err(DatasetError::MissingField { record: r, column: Column::Price });
        }
        if !is_float_text(row[pc].as_str()) {
            return Err(DatasetError::InvalidNumber { record: r, column: Column::Price });
        }
        let km = row[kc].as_str().to_owned();
        let price = row[pc].as_str().to_owned();
        let obs = Observation { km, price };
        out.push(obs);
        r = r + 1;
    }
    proof {
        assert(observations_view(out@) =~= Seq::new(
            (t.len() - 1) as nat,
            |i: int| (t[i + 1][kc as int], t[i + 1][pc as int]),
        ));
    }
    Ok(out)
}

/// Reads the observations of a dataset from the bytes of its CSV file.
pub fn load_dataset(b: &[u8]) -> (r: Result<Vec<Observation>, DatasetError>)
    ensures
        match csv_table(b@) {
            None => r == Err::<Vec<Observation>, DatasetError>(DatasetError::Unreadable),
            Some(t) => match dataset(t) {
                Ok(o) => r is Ok && observations_view(r->Ok_0@) == o,
                Err(e) => r == Err::<Vec<Observation>, DatasetError>(e),
            },
        },
{
    match read_table(b) {
        Ok(rows) => dataset_from_table(&rows),
        Err(_) => Err(DatasetError::Unreadable),
    }
}

} // verus!
