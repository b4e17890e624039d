//! The verified core of the MySQL backend: statement composition, value
//! normalization and column-metadata parsing.
//!
//! The connection machinery (pool, leases, statement execution) is I/O and
//! lives with the program around this crate; it hands the functions here the
//! plain values it read and sends on the statements they composed.

use vstd::prelude::*;
use vstd::utf8::{decode_utf8, valid_utf8};

use super::{ColumnInfo, DriverError, RowValues};
use crate::text::{dec_digits, signed_dec_digits, i64_to_decimal, u64_to_decimal, usize_to_decimal};

verus! {

/// The four built-in system schemas of the backend, excluded from database
/// listings on request: matched by exact, case-sensitive equality.
pub open spec fn is_default_schema(name: Seq<char>) -> bool {
    ||| name == "mysql"@
    ||| name == "information_schema"@
    ||| name == "performance_schema"@
    ||| name == "sys"@
}

/// The database names that a listing keeps when the built-in system schemas
/// are ignored: all others, in their original relative order.
pub open spec fn retained_databases(names: Seq<Seq<char>>) -> Seq<Seq<char>> {
    names.filter(|n: Seq<char>| !is_default_schema(n))
}

/// Whether one name is a built-in system schema.
fn is_default_schema_name(name: &String) -> (r: bool)
    ensures
        r == is_default_schema(name@),
{
    ||| *name == String::from_str("mysql")
    ||| *name == String::from_str("information_schema")
    ||| *name == String::from_str("performance_schema")
    ||| *name == String::from_str("sys")
}

/// Keeps the listed databases, dropping the backend's built-in system schemas
/// when `ignore_default_tables` is set and keeping the rest in their original
/// order.
pub fn filter_default_schemas(names: Vec<String>, ignore_default_tables: bool) -> (r: Vec<String>)
    ensures
        ignore_default_tables ==> r.deep_view() == retained_databases(names.deep_view()),
        !ignore_default_tables ==> r == names,
{
    if !ignore_default_tables {
        return names;
    }
    let ghost all = names.deep_view();
    let mut out: Vec<String> = Vec::new();
    let mut i: usize = 0;
    proof {
        assert(out.deep_view() =~= retained_databases(all.take(0)));
    }
    while i < names.len()
        invariant
            i <= names@.len(),
            all == names.deep_view(),
            all.len() == names@.len(),
            forall|j: int| 0 <= j < all.len() ==> all[j] == #[trigger] names@[j]@,
            out.deep_view() == retained_databases(all.take(i as int)),
        decreases names@.len() - i,
    {
        let ghost prior_out = out.deep_view();
        if !is_default_schema_name(&names[i]) {
            out.push(names[i].clone());
            proof {
                assert(out.deep_view() =~= prior_out.push(all[i as int]));
            }
        }
        proof {
            lemma_retained_step(all, i as int);
        }
        i = i + 1;
    }
    proof {
        assert(all.take(all.len() as int) =~= all);
    }
    out
}

/// One more name extends the retained listing exactly when it is not a
/// built-in system schema.
proof fn lemma_retained_step(names: Seq<Seq<char>>, i: int)
    requires
        0 <= i < names.len(),
    ensures
        retained_databases(names.take(i + 1)) == if is_default_schema(names[i]) {
            retained_databases(names.take(i))
        } else {
            retained_databases(names.take(i)).push(names[i])
        },
{
    reveal(Seq::filter);
    assert(names.take(i + 1).drop_last() =~= names.take(i));
    assert(names.take(i + 1).last() == names[i]);
}

/// The fixed database-enumeration statement.
pub fn show_databases_query() -> (q: String)
    ensures
        q@ == "show databases"@,
{
    String::from_str("show databases")
}

/// The table-enumeration statement of one database.
pub open spec fn spec_show_tables_query(database: Seq<char>) -> Seq<char> {
    "show tables in "@ + database
}

/// Composes the table-enumeration statement. The name is interpolated without
/// quoting or escaping; it is the caller's trusted input.
pub fn show_tables_query(database: &str) -> (q: String)
    ensures
        q@ == spec_show_tables_query(database@),
{
    let mut q = String::from_str("show tables in ");
    q.append(database);
    q
}

/// The column-enumeration statement of one table.
pub open spec fn spec_show_columns_query(database: Seq<char>, table: Seq<char>) -> Seq<char> {
    "show columns in "@ + database + "."@ + table
}

/// Composes the column-enumeration statement. The names are interpolated
/// without quoting or escaping; they are the caller's trusted input.
pub fn show_columns_query(database: &str, table: &str) -> (q: String)
    ensures
        q@ == spec_show_columns_query(database@, table@),
{
    let mut q = String::from_str("show columns in ");
    q.append(database);
    q.append(".");
    q.append(table);
    proof {
        assert(q@ =~= spec_show_columns_query(database@, table@));
    }
    q
}

/// The row-listing statement: the base selection, then — each only if present
/// — a predicate, a sort clause, a positive offset, and always a limit.
pub open spec fn spec_records_query(
    database: Seq<char>,
    table: Seq<char>,
    filter: Option<Seq<char>>,
    sort: Option<Seq<char>>,
    offset: int,
    limit: int,
) -> Seq<char> {
    "select * from "@ + database + "."@ + table + (match filter {
        Some(f) => " where "@ + f,
        None => Seq::<char>::empty(),
    }) + (match sort {
        Some(s) => " order by "@ + s,
        None => Seq::<char>::empty(),
    }) + (if offset > 0 {
        " offset "@ + dec_digits(offset as nat)
    } else {
        Seq::<char>::empty()
    }) + " limit "@ + dec_digits(limit as nat)
}

/// Composes the row-listing statement from the structured request. A zero
/// offset is omitted entirely; the limit is unconditional — every request
/// states a page size. Filter, sort and the names are interpolated without
/// quoting or escaping; they are the caller's trusted input.
pub fn records_query(
    database: &str,
    table: &str,
    filter: Option<&str>,
    sort: Option<&str>,
    offset: usize,
    limit: usize,
) -> (q: String)
    ensures
        q@ == spec_records_query(
            database@,
            table@,
            filter.deep_view(),
            sort.deep_view(),
            offset as int,
            limit as int,
        ),
{
    let mut q = String::from_str("select * from ");
    q.append(database);
    q.append(".");
    q.append(table);
    if let Some(f) = filter {
        q.append(" where ");
        q.append(f);
    }
    if let Some(s) = sort {
        q.append(" order by ");
        q.append(s);
    }
    if offset > 0 {
        q.append(" offset ");
        let rendered = usize_to_decimal(offset);
        q.append(rendered.as_str());
    }
    q.append(" limit ");
    let rendered = usize_to_decimal(limit);
    q.append(rendered.as_str());
    proof {
        assert(q@ =~= spec_records_query(
            database@,
            table@,
            filter.deep_view(),
            sort.deep_view(),
            offset as int,
            limit as int,
        ));
    }
    q
}

/// One backend-native value, tagged by kind.
///
/// The float kinds carry the canonical decimal text that the native value was
/// rendered to where it was read: this crate's verified text holds no
/// floating point, and the normalizer passes that rendering through
/// unchanged.
pub enum Value {
    /// The backend's NULL.
    Null,
    /// A byte blob, decoded as UTF-8 text by the normalizer.
    Bytes(Vec<u8>),
    /// A signed integer.
    Int(i64),
    /// An unsigned integer.
    UInt(u64),
    /// A single-precision float, already rendered to its canonical decimal
    /// text.
    Float(String),
    /// A double-precision float, already rendered to its canonical decimal
    /// text.
    Double(String),
    /// A date: year, month, day, hour, minutes, seconds, microseconds.
    Date(u16, u8, u8, u8, u8, u8, u32),
    /// A time: negative flag, days, hours, minutes, seconds, microseconds.
    Time(bool, u32, u8, u8, u8, u32),
}

/// One date or time part: zero-padded to two digits below ten, natural width
/// otherwise.
pub open spec fn date_part_text(p: nat) -> Seq<char> {
    if p > 9 {
        dec_digits(p)
    } else {
        seq!['0'] + dec_digits(p)
    }
}

/// The rendered date: natural-width year, two-digit-or-natural-width parts,
/// sub-seconds dropped.
pub open spec fn date_text(year: nat, month: nat, day: nat, hour: nat, minute: nat, second: nat) -> Seq<char> {
    dec_digits(year) + "-"@ + date_part_text(month) + "-"@ + date_part_text(day) + " "@
        + date_part_text(hour) + ":"@ + date_part_text(minute) + ":"@ + date_part_text(second)
}

/// The rendered time: a `-` sign exactly when the negative flag is set, then
/// days, hours and minutes; seconds and sub-seconds dropped.
pub open spec fn time_text(negative: bool, days: nat, hours: nat, minutes: nat) -> Seq<char> {
    (if negative {
        seq!['-']
    } else {
        Seq::<char>::empty()
    }) + dec_digits(days) + "d "@ + dec_digits(hours) + "h "@ + dec_digits(minutes) + "m"@
}

/// The canonical text of one backend value, or nothing where the value is a
/// byte blob that is not valid UTF-8.
pub open spec fn spec_normalize(v: Value) -> Option<Seq<char>> {
    match v {
        Value::Null => Some(Seq::<char>::empty()),
        Value::Bytes(b) => if valid_utf8(b@) {
            Some(decode_utf8(b@))
        } else {
            None
        },
        Value::Int(i) => Some(signed_dec_digits(i as int)),
        Value::UInt(u) => Some(dec_digits(u as nat)),
        Value::Float(t) => Some(t@),
        Value::Double(t) => Some(t@),
        Value::Date(year, month, day, hour, minute, second, _micros) => Some(
            date_text(year as nat, month as nat, day as nat, hour as nat, minute as nat, second as nat),
        ),
        Value::Time(negative, days, hours, minutes, _seconds, _micros) => Some(
            time_text(negative, days as nat, hours as nat, minutes as nat),
        ),
    }
}

/// Law: normalization is total over the value kinds — every value has exactly
/// one canonical text, except a byte blob that is not valid UTF-8, which has
/// none.
pub proof fn lemma_normalize_total(v: Value)
    ensures
        (spec_normalize(v) is Some) <==> match v {
            Value::Bytes(b) => valid_utf8(b@),
            _ => true,
        },
{
}

/// Relies on `String::from_utf8`: it returns the decoded text exactly when
/// the bytes are valid UTF-8, and an error otherwise.
#[verifier::external_body]
fn bytes_to_text(bytes: &Vec<u8>) -> (r: Option<String>)
    ensures
        r is Some <==> valid_utf8(bytes@),
        r matches Some(s) ==> s@ == decode_utf8(bytes@),
{
    String::from_utf8(bytes.clone()).ok()
}

/// Renders one date or time part: zero-padded to two digits below ten,
/// natural width otherwise.
pub fn format_date_part(part: u8) -> (s: String)
    ensures
        s@ == date_part_text(part as nat),
{
    if part > 9 {
        u64_to_decimal(part as u64)
    } else {
        let mut s = String::from_str("0");
        let digits = u64_to_decimal(part as u64);
        s.append(digits.as_str());
        proof {
            reveal_strlit("0");
            assert(s@ =~= date_part_text(part as nat));
        }
        s
    }
}

/// Renders a date value, dropping the sub-second component.
fn format_date(year: u16, month: u8, day: u8, hour: u8, minute: u8, second: u8) -> (s: String)
    ensures
        s@ == date_text(year as nat, month as nat, day as nat, hour as nat, minute as nat, second as nat),
{
    let mut s = u64_to_decimal(year as u64);
    s.append("-");
    let part = format_date_part(month);
    s.append(part.as_str());
    s.append("-");
    let part = format_date_part(day);
    s.append(part.as_str());
    s.append(" ");
    let part = format_date_part(hour);
    s.append(part.as_str());
    s.append(":");
    let part = format_date_part(minute);
    s.append(part.as_str());
    s.append(":");
    let part = format_date_part(second);
    s.append(part.as_str());
    proof {
        assert(s@ =~= date_text(year as nat, month as nat, day as nat, hour as nat, minute as nat, second as nat));
    }
    s
}

/// Renders a time value: sign, days, hours and minutes; seconds and
/// sub-seconds dropped.
fn format_time(negative: bool, days: u32, hours: u8, minutes: u8) -> (s: String)
    ensures
        s@ == time_text(negative, days as nat, hours as nat, minutes as nat),
{
    let mut s = if negative {
        String::from_str("-")
    } else {
        String::new()
    };
    let part = u64_to_decimal(days as u64);
    s.append(part.as_str());
    s.append("d ");
    let part = u64_to_decimal(hours as u64);
    s.append(part.as_str());
    s.append("h ");
    let part = u64_to_decimal(minutes as u64);
    s.append(part.as_str());
    s.append("m");
    proof {
        reveal_strlit("-");
        assert(s@ =~= time_text(negative, days as nat, hours as nat, minutes as nat));
    }
    s
}

/// Maps one backend value to its canonical text: the total, deterministic
/// normalization of every value kind. A byte blob that cannot be decoded is a
/// conversion error — never a silent substitute.
pub fn normalize(value: &Value) -> (r: Result<String, DriverError>)
    ensures
        r is Ok <==> spec_normalize(*value) is Some,
        r matches Ok(s) ==> spec_normalize(*value) == Some(s@),
        r matches Err(e) ==> e == DriverError::Conversion,
{
    match value {
        Value::Null => Ok(String::new()),
        Value::Bytes(bytes) => match bytes_to_text(bytes) {
            Some(text) => Ok(text),
            None => Err(DriverError::Conversion),
        },
        Value::Int(i) => Ok(i64_to_decimal(*i)),
        Value::UInt(u) => Ok(u64_to_decimal(*u)),
        Value::Float(text) => Ok(text.clone()),
        Value::Double(text) => Ok(text.clone()),
        Value::Date(year, month, day, hour, minute, second, _micros) => Ok(
            format_date(*year, *month, *day, *hour, *minute, *second),
        ),
        Value::Time(negative, days, hours, minutes, _seconds, _micros) => Ok(
            format_time(*negative, *days, *hours, *minutes),
        ),
    }
}

/// One backend "describe column" record, as its six fields were read: Field,
/// Type, Null, Key, Default and Extra, each absent when the backend sent no
/// value for it.
pub struct ColumnRecord {
    pub field: Option<String>,
    pub type_text: Option<String>,
    pub null: Option<String>,
    pub key: Option<String>,
    pub default: Option<String>,
    pub extra: Option<String>,
}

/// The canonical form of an optional text whose empty value means absence.
pub open spec fn nonempty_text(o: Option<String>) -> Option<Seq<char>> {
    match o {
        Some(s) => if s@.len() > 0 {
            Some(s@)
        } else {
            None
        },
        None => None,
    }
}

/// Law: a canonicalized key role or extra attribute is never the empty
/// string — an empty backend report becomes absence, not an empty value.
pub proof fn lemma_absence_is_canonical(o: Option<String>)
    ensures
        nonempty_text(o) matches Some(s) ==> s.len() > 0,
{
}

/// Canonicalizes an optional text: an empty string becomes absence.
fn nonempty_opt(o: Option<String>) -> (r: Option<String>)
    ensures
        r.deep_view() == nonempty_text(o),
{
    match o {
        Some(s) => if s.as_str().is_empty() {
            None
        } else {
            Some(s)
        },
        None => None,
    }
}

impl super::ColumnInfo {
    /// Parses one describe record into a column descriptor: the name and the
    /// declared type are required — their absence is a conversion error — the
    /// column is nullable exactly when the Null text equals `YES`, the key
    /// role and the extra text are canonicalized to absent when empty, and
    /// the default is carried verbatim, absent when the backend sent none.
    pub fn from_record(record: ColumnRecord) -> (r: Result<super::ColumnInfo, DriverError>)
        ensures
            r is Ok <==> record.field is Some && record.type_text is Some,
            r matches Ok(c) ==> {
                &&& c.name@ == record.field->0@
                &&& c.declared_type@ == record.type_text->0@
                &&& c.nullable == (record.null matches Some(n) && n@ == "YES"@)
                &&& c.key.deep_view() == nonempty_text(record.key)
                &&& c.default.deep_view() == record.default.deep_view()
                &&& c.extra.deep_view() == nonempty_text(record.extra)
            },
            r matches Err(e) ==> e == DriverError::Conversion,
    {
        let name = match record.field {
            Some(s) => s,
            None => {
                return Err(DriverError::Conversion);
            },
        };
        let declared_type = match record.type_text {
            Some(s) => s,
            None => {
                return Err(DriverError::Conversion);
            },
        };
        let nullable = match &record.null {
            Some(n) => *n == String::from_str("YES"),
            None => false,
        };
        Ok(super::ColumnInfo {
            name,
            declared_type,
            nullable,
            key: nonempty_opt(record.key),
            default: record.default,
            extra: nonempty_opt(record.extra),
        })
    }
}

/// Whether every cell of one fetched record normalizes.
pub open spec fn row_convertible(cells: Seq<(String, Value)>) -> bool {
    forall|i: int| 0 <= i < cells.len() ==> (spec_normalize(#[trigger] cells[i].1) is Some)
}

/// The mapping one fetched record denotes: each column name bound to the
/// canonical text of its value, later bindings of a repeated name replacing
/// earlier ones.
pub open spec fn spec_row_map(cells: Seq<(String, Value)>) -> Map<Seq<char>, Seq<char>>
    decreases cells.len(),
{
    if cells.len() == 0 {
        Map::<Seq<char>, Seq<char>>::empty()
    } else {
        spec_row_map(cells.drop_last()).insert(
            cells.last().0@,
            spec_normalize(cells.last().1)->0,
        )
    }
}

/// Builds one row from its fetched cells, normalizing every value; fails with
/// a conversion error — and no partial row — when any cell cannot be decoded.
pub fn build_row(cells: &Vec<(String, Value)>) -> (r: Result<RowValues, DriverError>)
    ensures
        r is Ok <==> row_convertible(cells@),
        r matches Ok(row) ==> row@ == spec_row_map(cells@),
        r matches Err(e) ==> e == DriverError::Conversion,
{
    let mut row = RowValues::new();
    let n = cells.len();
    let mut i: usize = 0;
    proof {
        assert(cells@.take(0) =~= Seq::<(String, Value)>::empty());
    }
    while i < n
        invariant
            n == cells@.len(),
            i <= n,
            row@ == spec_row_map(cells@.take(i as int)),
            row_convertible(cells@.take(i as int)),
        decreases n - i,
    {
        match normalize(&cells[i].1) {
            Ok(text) => {
                row.insert(cells[i].0.clone(), text);
                proof {
                    assert(cells@.take(i as int + 1).drop_last() =~= cells@.take(i as int));
                    assert(cells@.take(i as int + 1).last() == cells@[i as int]);
                    assert(row@ == spec_row_map(cells@.take(i as int + 1)));
                    assert forall|j: int| 0 <= j < i + 1 implies
                        spec_normalize(#[trigger] cells@.take(i as int + 1)[j].1) is Some by {
                        if j < i {
                            assert(spec_normalize(cells@.take(i as int)[j].1) is Some);
                        }
                    }
                }
                i = i + 1;
            },
            Err(e) => {
                proof {
                    assert(spec_normalize(cells@[i as int].1) is None);
                }
                return Err(e);
            },
        }
    }
    proof {
        assert(cells@.take(i as int) =~= cells@);
    }
    Ok(row)
}

/// Converts a fetched page: one row per record, in backend order, every cell
/// normalized. Fails with a conversion error when any cell of any record
/// cannot be decoded; no partial page is returned.
pub fn rows_to_records(rows: &Vec<Vec<(String, Value)>>) -> (r: Result<Vec<RowValues>, DriverError>)
    ensures
        r is Ok <==> (forall|i: int| 0 <= i < rows@.len() ==> row_convertible((#[trigger] rows@[i])@)),
        r matches Ok(records) ==> records@.len() == rows@.len() && (forall|i: int|
            0 <= i < rows@.len() ==> (#[trigger] records@[i])@ == spec_row_map(rows@[i]@)),
        r matches Err(e) ==> e == DriverError::Conversion,
{
    let mut records: Vec<RowValues> = Vec::new();
    let n = rows.len();
    let mut i: usize = 0;
    while i < n
        invariant
            n == rows@.len(),
            i <= n,
            records@.len() == i,
            forall|j: int| 0 <= j < i ==> row_convertible((#[trigger] rows@[j])@),
            forall|j: int| 0 <= j < i ==> (#[trigger] records@[j])@ == spec_row_map(rows@[j]@),
        decreases n - i,
    {
        match build_row(&rows[i]) {
            Ok(row) => {
                records.push(row);
                i = i + 1;
            },
            Err(e) => {
                proof {
                    assert(!row_convertible(rows@[i as int]@));
                }
                return Err(e);
            },
        }
    }
    Ok(records)
}

} // verus!
