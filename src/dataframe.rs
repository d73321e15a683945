use vstd::prelude::*;

verus! {

#[verifier::external_type_specification]
#[verifier::external_body]
pub struct ExStringRecord(csv::StringRecord);

/// The fields of a csv record, in order.
pub uninterp spec fn record_fields(r: csv::StringRecord) -> Seq<Seq<char>>;

/// Relies on `csv::StringRecord::get`: the field at index `i`, or `None` when
/// the record has no such field.
#[verifier::external_body]
fn field_at(r: &csv::StringRecord, i: usize) -> (f: Option<&str>)
    ensures
        f.is_some() == (i < record_fields(*r).len()),
        f matches Some(s) ==> s@ == record_fields(*r)[i as int],
{
    r.get(i)
}

/// Relies on `csv::StringRecord::len`: the number of fields.
#[verifier::external_body]
fn field_count(r: &csv::StringRecord) -> (n: usize)
    ensures
        n == record_fields(*r).len(),
{
    r.len()
}

pub open spec fn is_digit(c: char) -> bool {
    '0' <= c && c <= '9'
}

/// A non-empty run of ASCII decimal digits.
pub open spec fn all_digits(s: Seq<char>) -> bool {
    s.len() > 0 && forall|i: int| 0 <= i < s.len() ==> is_digit(#[trigger] s[i])
}

/// The value of a run of decimal digits, most significant first.
pub open spec fn digits_value(s: Seq<char>) -> int
    decreases s.len(),
{
    if s.len() == 0 {
        0
    } else {
        digits_value(s.drop_last()) * 10 + (s.last() as int - '0' as int)
    }
}

/// The integer that a text writes in decimal: an optional `+` or `-` sign,
/// then one or more digits and nothing else.
pub open spec fn decimal_value(s: Seq<char>) -> Option<int> {
    if s.len() > 0 && (s[0] == '+' || s[0] == '-') && all_digits(s.drop_first()) {
        if s[0] == '-' {
            Some(-digits_value(s.drop_first()))
        } else {
            Some(digits_value(s.drop_first()))
        }
    } else if all_digits(s) {
        Some(digits_value(s))
    } else {
        None
    }
}

/// The `i32` that a text writes in decimal, if it writes one in range.
pub open spec fn parsed_i32(s: Seq<char>) -> Option<i32> {
    match decimal_value(s) {
        Some(v) => if i32::MIN <= v <= i32::MAX {
            Some(v as i32)
        } else {
            None
        },
        None => None,
    }
}

/// Relies on `i32`'s `FromStr`: an optional sign followed by decimal digits,
/// within range; any other text is an error.
#[verifier::external_body]
fn parse_i32(s: &str) -> (r: Option<i32>)
    ensures
        r == parsed_i32(s@),
{
    s.parse::<i32>().ok()
}

/// The value stored for a numeric field that does not hold an `i32`.
pub const MISSING_NUMBER: i32 = 9999;

/// The number a numeric field holds, or `MISSING_NUMBER`.
pub open spec fn number_or_missing(s: Seq<char>) -> i32 {
    match parsed_i32(s) {
        Some(v) => v,
        None => MISSING_NUMBER,
    }
}

/// Number of fields that a survey record is read from.
pub const MIN_FIELDS: usize = 10;

/// One row of the annual enterprise survey.
#[derive(Debug, Clone)]
pub struct Record {
    pub year: i32,
    pub agg_nzsioc: String,
    pub code_nzsioc: String,
    pub name_nzsioc: String,
    pub units: String,
    pub var_code: String,
    pub var_name: String,
    pub var_category: String,
    pub value: i32,
    pub code_anzsic06: String,
}

impl Record {
    /// The record read from the fields `f`, in column order: numbers in the
    /// first and ninth columns, text in the others.
    pub open spec fn holds_fields(&self, f: Seq<Seq<char>>) -> bool {
        &&& f.len() >= MIN_FIELDS
        &&& self.year == number_or_missing(f[0])
        &&& self.agg_nzsioc@ == f[1]
        &&& self.code_nzsioc@ == f[2]
        &&& self.name_nzsioc@ == f[3]
        &&& self.units@ == f[4]
        &&& self.var_code@ == f[5]
        &&& self.var_name@ == f[6]
        &&& self.var_category@ == f[7]
        &&& self.value == number_or_missing(f[8])
        &&& self.code_anzsic06@ == f[9]
    }

    /// Reads a record from the first ten fields of a csv record. A numeric
    /// field that does not hold an `i32` becomes `MISSING_NUMBER`.
    pub fn from(sr: csv::StringRecord) -> (r: Record)
        requires
            record_fields(sr).len() >= MIN_FIELDS,
        ensures
            r.holds_fields(record_fields(sr)),
    {
        Record::read(&sr)
    }

    fn read(sr: &csv::StringRecord) -> (r: Record)
        requires
            record_fields(*sr).len() >= MIN_FIELDS,
        ensures
            r.holds_fields(record_fields(*sr)),
    {
        Record {
            year: number_field(sr, 0),
            agg_nzsioc: text_field(sr, 1),
            code_nzsioc: text_field(sr, 2),
            name_nzsioc: text_field(sr, 3),
            units: text_field(sr, 4),
            var_code: text_field(sr, 5),
            var_name: text_field(sr, 6),
            var_category: text_field(sr, 7),
            value: number_field(sr, 8),
            code_anzsic06: text_field(sr, 9),
        }
    }
}

fn text_field(sr: &csv::StringRecord, i: usize) -> (s: String)
    requires
        i < record_fields(*sr).len(),
    ensures
        s@ == record_fields(*sr)[i as int],
{
    match field_at(sr, i) {
        Some(f) => f.to_owned(),
        None => String::new(),
    }
}

fn number_field(sr: &csv::StringRecord, i: usize) -> (v: i32)
    requires
        i < record_fields(*sr).len(),
    ensures
        v == number_or_missing(record_fields(*sr)[i as int]),
{
    match field_at(sr, i) {
        Some(f) => match parse_i32(f) {
            Some(v) => v,
            None => MISSING_NUMBER,
        },
        None => MISSING_NUMBER,
    }
}

/// A table: the names of its columns and its rows, in order.
#[derive(Debug)]
pub struct DataFrame {
    pub header: Vec<String>,
    pub data: Vec<Record>,
}

impl DataFrame {
    /// Builds the table from its header record and its data records, or
    /// returns `None` when a data record has fewer than `MIN_FIELDS` fields.
    pub fn from_string_records(header: &csv::StringRecord, rows: Vec<csv::StringRecord>) -> (r:
        Option<DataFrame>)
        ensures
            r is Some <==> forall|i: int|
                0 <= i < rows@.len() ==> record_fields(#[trigger] rows@[i]).len() >= MIN_FIELDS,
            r matches Some(df) ==> {
                &&& df.header@.len() == record_fields(*header).len()
                &&& forall|j: int|
                    0 <= j < df.header@.len() ==> #[trigger] df.header@[j]@ == record_fields(
                        *header,
                    )[j]
                &&& df.data@.len() == rows@.len()
                &&& forall|i: int|
                    0 <= i < rows@.len() ==> #[trigger] df.data@[i].holds_fields(
                        record_fields(rows@[i]),
                    )
            },
    {
        let width = field_count(header);
        let mut names: Vec<String> = Vec::new();
        let mut j: usize = 0;
        while j < width
            invariant
                width == record_fields(*header).len(),
                j <= width,
                names@.len() == j,
                forall|k: int| 0 <= k < j ==> #[trigger] names@[k]@ == record_fields(*header)[k],
            decreases width - j,
        {
            names.push(text_field(header, j));
            j = j + 1;
        }
        let mut data: Vec<Record> = Vec::new();
        let mut i: usize = 0;
        while i < rows.len()
            invariant
                i <= rows@.len(),
                data@.len() == i,
                forall|k: int| 0 <= k < i ==> #[trigger] data@[k].holds_fields(
                    record_fields(rows@[k]),
                ),
                forall|k: int| 0 <= k < i ==> record_fields(#[trigger] rows@[k]).len() >= MIN_FIELDS,
            decreases rows@.len() - i,
        {
            let row = &rows[i];
            if field_count(row) < MIN_FIELDS {
                return None;
            }
            data.push(Record::read(row));
            i = i + 1;
        }
        Some(DataFrame { header: names, data })
    }

    /// Number of data rows.
    pub fn row_count(&self) -> (n: usize)
        ensures
            n == self.data@.len(),
    {
        self.data.len()
    }
}

} // verus!
