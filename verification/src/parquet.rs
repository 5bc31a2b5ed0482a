//! Reading a Parquet file's bytes into a table: the parquet crate decodes
//! the file into Arrow record batches; each batch column is read as plain
//! values, and the batches are gathered column by column, each column's
//! kind fixed by its Arrow type in the first batch.
use vstd::prelude::*;

use arrow::array::AsArray;
use arrow::record_batch::RecordBatch;

use crate::batches::{
    class_of, class_of_values, empty_values, ArrowType, ColumnAccumulator, ColumnClass,
};
use crate::data::{option_views, ColumnValues, ColumnView, LoadError, Table, TableView};
use crate::datetime::{encoded_nanos, timestamp_from, TimeEncoding, Timestamp};
use crate::model::string_views;
use crate::text::same_text;

verus! {

// ---------------------------------------------------------------------
// Arrow data types, by their names
// ---------------------------------------------------------------------

/// `t` begins with `p`.
pub open spec fn starts_with(t: Seq<char>, p: Seq<char>) -> bool {
    p.len() <= t.len() && t.take(p.len() as int) == p
}

/// Whether `t` begins with `p`.
pub fn has_prefix(t: &str, p: &str) -> (b: bool)
    ensures
        b == starts_with(t@, p@),
{
    let x = crate::text::chars_of(t);
    let y = crate::text::chars_of(p);
    if y.len() > x.len() {
        return false;
    }
    let mut i: usize = 0;
    while i < y.len()
        invariant
            x@ == t@,
            y@ == p@,
            y@.len() <= x@.len(),
            i <= y@.len(),
            forall|k: int| 0 <= k < i ==> x@[k] == y@[k],
        decreases y@.len() - i,
    {
        if x[i] != y[i] {
            assert(x@.take(y@.len() as int)[i as int] != y@[i as int]);
            return false;
        }
        i = i + 1;
    }
    assert(x@.take(y@.len() as int) =~= y@);
    true
}

/// The Arrow type an Arrow data type's name (its `Display` text, such as
/// `Int32`, `Decimal128(10, 2)` or `Timestamp(ms, "UTC")`) stands for.
pub open spec fn arrow_type_spec(t: Seq<char>) -> ArrowType {
    if t == "Int8"@ {
        ArrowType::Int8
    } else if t == "Int16"@ {
        ArrowType::Int16
    } else if t == "Int32"@ {
        ArrowType::Int32
    } else if t == "Int64"@ {
        ArrowType::Int64
    } else if t == "UInt8"@ {
        ArrowType::UInt8
    } else if t == "UInt16"@ {
        ArrowType::UInt16
    } else if t == "UInt32"@ {
        ArrowType::UInt32
    } else if t == "UInt64"@ {
        ArrowType::UInt64
    } else if t == "Float16"@ {
        ArrowType::Float16
    } else if t == "Float32"@ {
        ArrowType::Float32
    } else if t == "Float64"@ {
        ArrowType::Float64
    } else if t == "Boolean"@ {
        ArrowType::Boolean
    } else if starts_with(t, "Decimal128("@) {
        ArrowType::Decimal128
    } else if starts_with(t, "Decimal256("@) {
        ArrowType::Decimal256
    } else if t == "Date32"@ {
        ArrowType::Date32
    } else if t == "Date64"@ {
        ArrowType::Date64
    } else if starts_with(t, "Timestamp("@) {
        ArrowType::Timestamp
    } else {
        ArrowType::Other
    }
}

/// The Arrow type named `t`.
pub fn arrow_type_of(t: &str) -> (a: ArrowType)
    ensures
        a == arrow_type_spec(t@),
{
    if same_text(t, "Int8") {
        ArrowType::Int8
    } else if same_text(t, "Int16") {
        ArrowType::Int16
    } else if same_text(t, "Int32") {
        ArrowType::Int32
    } else if same_text(t, "Int64") {
        ArrowType::Int64
    } else if same_text(t, "UInt8") {
        ArrowType::UInt8
    } else if same_text(t, "UInt16") {
        ArrowType::UInt16
    } else if same_text(t, "UInt32") {
        ArrowType::UInt32
    } else if same_text(t, "UInt64") {
        ArrowType::UInt64
    } else if same_text(t, "Float16") {
        ArrowType::Float16
    } else if same_text(t, "Float32") {
        ArrowType::Float32
    } else if same_text(t, "Float64") {
        ArrowType::Float64
    } else if same_text(t, "Boolean") {
        ArrowType::Boolean
    } else if has_prefix(t, "Decimal128(") {
        ArrowType::Decimal128
    } else if has_prefix(t, "Decimal256(") {
        ArrowType::Decimal256
    } else if same_text(t, "Date32") {
        ArrowType::Date32
    } else if same_text(t, "Date64") {
        ArrowType::Date64
    } else if has_prefix(t, "Timestamp(") {
        ArrowType::Timestamp
    } else {
        ArrowType::Other
    }
}

/// A timestamp type's name with unit `u`: `Timestamp(u)` without a time
/// zone, `Timestamp(u, "zone")` with one.
pub open spec fn timestamp_in(t: Seq<char>, u: Seq<char>) -> bool {
    starts_with(t, "Timestamp("@ + u + ")"@) || starts_with(t, "Timestamp("@ + u + ","@)
}

/// How the values of the date or time type named `t` are stored, if it is
/// one.
pub open spec fn time_encoding_spec(t: Seq<char>) -> Option<TimeEncoding> {
    if t == "Date32"@ {
        Some(TimeEncoding::Date32Days)
    } else if t == "Date64"@ {
        Some(TimeEncoding::Date64Millis)
    } else if timestamp_in(t, "s"@) {
        Some(TimeEncoding::Seconds)
    } else if timestamp_in(t, "ms"@) {
        Some(TimeEncoding::Millis)
    } else if timestamp_in(t, "µs"@) {
        Some(TimeEncoding::Micros)
    } else if timestamp_in(t, "ns"@) {
        Some(TimeEncoding::Nanos)
    } else {
        None
    }
}

/// A sequence that differs from `p` at a position of `p` neither equals `p`
/// nor begins with it.
proof fn lemma_differs_at(t: Seq<char>, p: Seq<char>, k: int)
    requires
        0 <= k < p.len(),
        k < t.len(),
        t[k] != p[k],
    ensures
        !starts_with(t, p),
        t != p,
{
    if starts_with(t, p) {
        assert(t.take(p.len() as int)[k] == t[k]);
    }
}

/// The encoding of a timestamp unit's values.
pub open spec fn unit_encoding(u: Seq<char>) -> TimeEncoding {
    if u == "s"@ {
        TimeEncoding::Seconds
    } else if u == "ms"@ {
        TimeEncoding::Millis
    } else if u == "µs"@ {
        TimeEncoding::Micros
    } else {
        TimeEncoding::Nanos
    }
}

/// The names of the Arrow timestamp units.
pub open spec fn is_unit(u: Seq<char>) -> bool {
    u == "s"@ || u == "ms"@ || u == "µs"@ || u == "ns"@
}

/// A name that begins like a timestamp type of unit `u` is read as a
/// timestamp in `u`.
proof fn lemma_timestamp_name(t: Seq<char>, u: Seq<char>)
    requires
        is_unit(u),
        starts_with(t, "Timestamp("@ + u + ")"@) || starts_with(t, "Timestamp("@ + u + ","@),
    ensures
        time_encoding_spec(t) == Some(unit_encoding(u)),
        arrow_type_spec(t) == ArrowType::Timestamp,
{
    reveal_strlit("Timestamp(");
    reveal_strlit("s");
    reveal_strlit("ms");
    reveal_strlit("µs");
    reveal_strlit("ns");
    reveal_strlit(")");
    reveal_strlit(",");
    let head = "Timestamp("@;
    let p = if starts_with(t, head + u + ")"@) {
        head + u + ")"@
    } else {
        head + u + ","@
    };
    assert(starts_with(t, p));
    assert forall|k: int| 0 <= k < p.len() implies t[k] == p[k] by {
        assert(t.take(p.len() as int)[k] == t[k]);
    }
    assert(t[0] == 'T');
    assert(t[10] == u[0]);
    assert(head =~= p.take(10));
    assert(t.take(10) =~= head);
    assert(starts_with(t, head));
    reveal_strlit("Int8");
    reveal_strlit("Int16");
    reveal_strlit("Int32");
    reveal_strlit("Int64");
    reveal_strlit("UInt8");
    reveal_strlit("UInt16");
    reveal_strlit("UInt32");
    reveal_strlit("UInt64");
    reveal_strlit("Float16");
    reveal_strlit("Float32");
    reveal_strlit("Float64");
    reveal_strlit("Boolean");
    reveal_strlit("Decimal128(");
    reveal_strlit("Decimal256(");
    reveal_strlit("Date32");
    reveal_strlit("Date64");
    lemma_differs_at(t, "Int8"@, 0);
    lemma_differs_at(t, "Int16"@, 0);
    lemma_differs_at(t, "Int32"@, 0);
    lemma_differs_at(t, "Int64"@, 0);
    lemma_differs_at(t, "UInt8"@, 0);
    lemma_differs_at(t, "UInt16"@, 0);
    lemma_differs_at(t, "UInt32"@, 0);
    lemma_differs_at(t, "UInt64"@, 0);
    lemma_differs_at(t, "Float16"@, 0);
    lemma_differs_at(t, "Float32"@, 0);
    lemma_differs_at(t, "Float64"@, 0);
    lemma_differs_at(t, "Boolean"@, 0);
    lemma_differs_at(t, "Decimal128("@, 0);
    lemma_differs_at(t, "Decimal256("@, 0);
    lemma_differs_at(t, "Date32"@, 0);
    lemma_differs_at(t, "Date64"@, 0);
    let units = seq!["s"@, "ms"@, "µs"@, "ns"@];
    assert forall|k: int| 0 <= k < 4 && (#[trigger] units[k]) != u implies !timestamp_in(t, units[k]) by {
        let v = units[k];
        assert(v[0] != u[0]);
        lemma_differs_at(t, head + v + ")"@, 10);
        lemma_differs_at(t, head + v + ","@, 10);
    }
    if u != "s"@ {
        assert(units[0] == "s"@);
        assert(!timestamp_in(t, "s"@));
    }
    if u != "ms"@ {
        assert(units[1] == "ms"@);
        assert(!timestamp_in(t, "ms"@));
    }
    if u != "µs"@ {
        assert(units[2] == "µs"@);
        assert(!timestamp_in(t, "µs"@));
    }
    assert(timestamp_in(t, u));
}

/// Integer, floating-point, boolean and decimal types are numeric columns;
/// any other type that is no date or time type (text, binary, lists, ...)
/// is a text column.
pub proof fn numeric_type_law(rest: Seq<char>)
    ensures
        class_of(arrow_type_spec("Int8"@)) == ColumnClass::Numeric,
        class_of(arrow_type_spec("Int16"@)) == ColumnClass::Numeric,
        class_of(arrow_type_spec("Int32"@)) == ColumnClass::Numeric,
        class_of(arrow_type_spec("Int64"@)) == ColumnClass::Numeric,
        class_of(arrow_type_spec("UInt8"@)) == ColumnClass::Numeric,
        class_of(arrow_type_spec("UInt16"@)) == ColumnClass::Numeric,
        class_of(arrow_type_spec("UInt32"@)) == ColumnClass::Numeric,
        class_of(arrow_type_spec("UInt64"@)) == ColumnClass::Numeric,
        class_of(arrow_type_spec("Float16"@)) == ColumnClass::Numeric,
        class_of(arrow_type_spec("Float32"@)) == ColumnClass::Numeric,
        class_of(arrow_type_spec("Float64"@)) == ColumnClass::Numeric,
        class_of(arrow_type_spec("Boolean"@)) == ColumnClass::Numeric,
        class_of(arrow_type_spec("Decimal128("@ + rest)) == ColumnClass::Numeric,
        class_of(arrow_type_spec("Decimal256("@ + rest)) == ColumnClass::Numeric,
        class_of(arrow_type_spec("Utf8"@)) == ColumnClass::Text,
        class_of(arrow_type_spec("LargeUtf8"@)) == ColumnClass::Text,
{
    reveal_strlit("Int8");
    reveal_strlit("Int16");
    reveal_strlit("Int32");
    reveal_strlit("Int64");
    reveal_strlit("UInt8");
    reveal_strlit("UInt16");
    reveal_strlit("UInt32");
    reveal_strlit("UInt64");
    reveal_strlit("Float16");
    reveal_strlit("Float32");
    reveal_strlit("Float64");
    reveal_strlit("Boolean");
    reveal_strlit("Decimal128(");
    reveal_strlit("Decimal256(");
    reveal_strlit("Date32");
    reveal_strlit("Date64");
    reveal_strlit("Timestamp(");
    reveal_strlit("Utf8");
    reveal_strlit("LargeUtf8");
    let d128 = "Decimal128("@ + rest;
    let d256 = "Decimal256("@ + rest;
    assert(d128.take(11) =~= "Decimal128("@);
    assert(d256.take(11) =~= "Decimal256("@);
    assert(d128[0] == 'D' && d128[1] == 'e' && d256[0] == 'D' && d256[1] == 'e' && d256[8] == '5');
    let lits = seq![
        "Int8"@, "Int16"@, "Int32"@, "Int64"@, "UInt8"@, "UInt16"@, "UInt32"@, "UInt64"@,
        "Float16"@, "Float32"@, "Float64"@, "Boolean"@,
    ];
    assert forall|k: int| 0 <= k < lits.len() implies #[trigger] lits[k] != d128 && lits[k] != d256
        && lits[k] != "Utf8"@ && lits[k] != "LargeUtf8"@ by {
        lemma_differs_at(d128, lits[k], 0);
        lemma_differs_at(d256, lits[k], 0);
        lemma_differs_at("Utf8"@, lits[k], 1);
        lemma_differs_at("LargeUtf8"@, lits[k], 0);
    }
    assert(lits[0] == "Int8"@ && lits[1] == "Int16"@ && lits[2] == "Int32"@ && lits[3] == "Int64"@
        && lits[4] == "UInt8"@ && lits[5] == "UInt16"@ && lits[6] == "UInt32"@ && lits[7]
        == "UInt64"@ && lits[8] == "Float16"@ && lits[9] == "Float32"@ && lits[10] == "Float64"@
        && lits[11] == "Boolean"@);
    lemma_differs_at(d256, "Decimal128("@, 8);
    lemma_differs_at("Utf8"@, "Date32"@, 0);
    lemma_differs_at("Utf8"@, "Date64"@, 0);
    lemma_differs_at("Utf8"@, "Timestamp("@, 0);
    lemma_differs_at("LargeUtf8"@, "Decimal128("@, 0);
    lemma_differs_at("LargeUtf8"@, "Decimal256("@, 0);
    lemma_differs_at("LargeUtf8"@, "Date32"@, 0);
    lemma_differs_at("LargeUtf8"@, "Date64"@, 0);
    lemma_differs_at("LargeUtf8"@, "Timestamp("@, 0);
}

/// `l` followed by anything begins with `l`.
proof fn lemma_starts_with_concat(l: Seq<char>, rest: Seq<char>)
    ensures
        starts_with(l + rest, l),
{
    assert((l + rest).take(l.len() as int) =~= l);
}

/// Dates are read in days (`Date32`) and milliseconds (`Date64`), and
/// every Arrow timestamp type is read in its own unit, whether or not it
/// carries a time zone (written `Timestamp(unit)` or `Timestamp(unit,
/// "zone")`); all of these are date/time columns.
pub proof fn time_encoding_law(zone: Seq<char>)
    ensures
        time_encoding_spec("Date32"@) == Some(TimeEncoding::Date32Days),
        time_encoding_spec("Date64"@) == Some(TimeEncoding::Date64Millis),
        time_encoding_spec("Timestamp(s)"@) == Some(TimeEncoding::Seconds),
        time_encoding_spec("Timestamp(s, "@ + zone) == Some(TimeEncoding::Seconds),
        time_encoding_spec("Timestamp(ms)"@) == Some(TimeEncoding::Millis),
        time_encoding_spec("Timestamp(ms, "@ + zone) == Some(TimeEncoding::Millis),
        time_encoding_spec("Timestamp(µs)"@) == Some(TimeEncoding::Micros),
        time_encoding_spec("Timestamp(µs, "@ + zone) == Some(TimeEncoding::Micros),
        time_encoding_spec("Timestamp(ns)"@) == Some(TimeEncoding::Nanos),
        time_encoding_spec("Timestamp(ns, "@ + zone) == Some(TimeEncoding::Nanos),
        class_of(arrow_type_spec("Date32"@)) == ColumnClass::DateTime,
        class_of(arrow_type_spec("Date64"@)) == ColumnClass::DateTime,
        class_of(arrow_type_spec("Timestamp(s)"@)) == ColumnClass::DateTime,
        class_of(arrow_type_spec("Timestamp(s, "@ + zone)) == ColumnClass::DateTime,
        class_of(arrow_type_spec("Timestamp(ms)"@)) == ColumnClass::DateTime,
        class_of(arrow_type_spec("Timestamp(ms, "@ + zone)) == ColumnClass::DateTime,
        class_of(arrow_type_spec("Timestamp(µs)"@)) == ColumnClass::DateTime,
        class_of(arrow_type_spec("Timestamp(µs, "@ + zone)) == ColumnClass::DateTime,
        class_of(arrow_type_spec("Timestamp(ns)"@)) == ColumnClass::DateTime,
        class_of(arrow_type_spec("Timestamp(ns, "@ + zone)) == ColumnClass::DateTime,
{
    reveal_strlit("Timestamp(");
    reveal_strlit("s");
    reveal_strlit("ms");
    reveal_strlit("µs");
    reveal_strlit("ns");
    reveal_strlit(")");
    reveal_strlit(",");
    reveal_strlit(" ");
    reveal_strlit(", ");
    reveal_strlit("Timestamp(s)");
    reveal_strlit("Timestamp(s, ");
    reveal_strlit("Timestamp(ms)");
    reveal_strlit("Timestamp(ms, ");
    reveal_strlit("Timestamp(µs)");
    reveal_strlit("Timestamp(µs, ");
    reveal_strlit("Timestamp(ns)");
    reveal_strlit("Timestamp(ns, ");
    let head = "Timestamp("@;
    let units = seq!["s"@, "ms"@, "µs"@, "ns"@];
    let bare = seq!["Timestamp(s)"@, "Timestamp(ms)"@, "Timestamp(µs)"@, "Timestamp(ns)"@];
    let zoned = seq!["Timestamp(s, "@, "Timestamp(ms, "@, "Timestamp(µs, "@, "Timestamp(ns, "@];
    assert(bare[0] =~= head + units[0] + ")"@);
    assert(bare[1] =~= head + units[1] + ")"@);
    assert(bare[2] =~= head + units[2] + ")"@);
    assert(bare[3] =~= head + units[3] + ")"@);
    assert(zoned[0] =~= (head + units[0] + ","@) + " "@);
    assert(zoned[1] =~= (head + units[1] + ","@) + " "@);
    assert(zoned[2] =~= (head + units[2] + ","@) + " "@);
    assert(zoned[3] =~= (head + units[3] + ","@) + " "@);
    assert forall|k: int| 0 <= k < 4 implies {
        &&& time_encoding_spec(#[trigger] bare[k]) == Some(unit_encoding(units[k]))
        &&& arrow_type_spec(bare[k]) == ArrowType::Timestamp
        &&& time_encoding_spec(zoned[k] + zone) == Some(unit_encoding(units[k]))
        &&& arrow_type_spec(zoned[k] + zone) == ArrowType::Timestamp
    } by {
        let u = units[k];
        lemma_starts_with_concat(head + u + ")"@, Seq::empty());
        assert((head + u + ")"@) + Seq::<char>::empty() =~= head + u + ")"@);
        lemma_timestamp_name(bare[k], u);
        assert(zoned[k] + zone =~= (head + u + ","@) + (" "@ + zone));
        lemma_starts_with_concat(head + u + ","@, " "@ + zone);
        lemma_timestamp_name(zoned[k] + zone, u);
    }
    assert(time_encoding_spec(bare[0]) == Some(unit_encoding(units[0])));
    assert(time_encoding_spec(bare[1]) == Some(unit_encoding(units[1])));
    assert(time_encoding_spec(bare[2]) == Some(unit_encoding(units[2])));
    assert(time_encoding_spec(bare[3]) == Some(unit_encoding(units[3])));
    assert("µs"@[0] != "ms"@[0] && "ns"@[0] != "ms"@[0] && "ns"@[0] != "µs"@[0]);
    assert(unit_encoding("µs"@) == TimeEncoding::Micros);
    assert(unit_encoding("ns"@) == TimeEncoding::Nanos);
    reveal_strlit("Date32");
    reveal_strlit("Date64");
    reveal_strlit("Int8");
    reveal_strlit("Int16");
    reveal_strlit("Int32");
    reveal_strlit("Int64");
    reveal_strlit("UInt8");
    reveal_strlit("UInt16");
    reveal_strlit("UInt32");
    reveal_strlit("UInt64");
    reveal_strlit("Float16");
    reveal_strlit("Float32");
    reveal_strlit("Float64");
    reveal_strlit("Boolean");
    reveal_strlit("Decimal128(");
    reveal_strlit("Decimal256(");
    assert("Date64"@ != "Date32"@) by {
        assert("Date64"@[4] != "Date32"@[4]);
    }
    let others = seq![
        "Int8"@, "Int16"@, "Int32"@, "Int64"@, "UInt8"@, "UInt16"@, "UInt32"@, "UInt64"@,
        "Float16"@, "Float32"@, "Float64"@, "Boolean"@,
    ];
    assert forall|k: int| 0 <= k < others.len() implies #[trigger] others[k] != "Date32"@
        && others[k] != "Date64"@ by {
        lemma_differs_at("Date32"@, others[k], 0);
        lemma_differs_at("Date64"@, others[k], 0);
    }
    assert(others[0] == "Int8"@ && others[1] == "Int16"@ && others[2] == "Int32"@ && others[3]
        == "Int64"@ && others[4] == "UInt8"@ && others[5] == "UInt16"@ && others[6] == "UInt32"@
        && others[7] == "UInt64"@ && others[8] == "Float16"@ && others[9] == "Float32"@
        && others[10] == "Float64"@ && others[11] == "Boolean"@);
}

/// How the values of the type named `t` are stored, if it is a date or
/// time type.
pub fn time_encoding_of(t: &str) -> (e: Option<TimeEncoding>)
    ensures
        e == time_encoding_spec(t@),
{
    proof {
        reveal_strlit("Timestamp(");
        reveal_strlit("Timestamp(s)");
        reveal_strlit("Timestamp(s,");
        reveal_strlit("Timestamp(ms)");
        reveal_strlit("Timestamp(ms,");
        reveal_strlit("Timestamp(µs)");
        reveal_strlit("Timestamp(µs,");
        reveal_strlit("Timestamp(ns)");
        reveal_strlit("Timestamp(ns,");
        reveal_strlit("s");
        reveal_strlit("ms");
        reveal_strlit("µs");
        reveal_strlit("ns");
        reveal_strlit(")");
        reveal_strlit(",");
        assert("Timestamp("@ + "s"@ + ")"@ =~= "Timestamp(s)"@);
        assert("Timestamp("@ + "s"@ + ","@ =~= "Timestamp(s,"@);
        assert("Timestamp("@ + "ms"@ + ")"@ =~= "Timestamp(ms)"@);
        assert("Timestamp("@ + "ms"@ + ","@ =~= "Timestamp(ms,"@);
        assert("Timestamp("@ + "µs"@ + ")"@ =~= "Timestamp(µs)"@);
        assert("Timestamp("@ + "µs"@ + ","@ =~= "Timestamp(µs,"@);
        assert("Timestamp("@ + "ns"@ + ")"@ =~= "Timestamp(ns)"@);
        assert("Timestamp("@ + "ns"@ + ","@ =~= "Timestamp(ns,"@);
    }
    if same_text(t, "Date32") {
        Some(TimeEncoding::Date32Days)
    } else if same_text(t, "Date64") {
        Some(TimeEncoding::Date64Millis)
    } else if has_prefix(t, "Timestamp(s)") || has_prefix(t, "Timestamp(s,") {
        Some(TimeEncoding::Seconds)
    } else if has_prefix(t, "Timestamp(ms)") || has_prefix(t, "Timestamp(ms,") {
        Some(TimeEncoding::Millis)
    } else if has_prefix(t, "Timestamp(µs)") || has_prefix(t, "Timestamp(µs,") {
        Some(TimeEncoding::Micros)
    } else if has_prefix(t, "Timestamp(ns)") || has_prefix(t, "Timestamp(ns,") {
        Some(TimeEncoding::Nanos)
    } else {
        None
    }
}

// ---------------------------------------------------------------------
// Decoding (parquet and arrow)
// ---------------------------------------------------------------------

/// An Arrow record batch, as the reader yields it; read through
/// `batch_row_count` and `batch_chunks` and the wrappers below.
#[verifier::external_body]
pub struct Batch {
    inner: RecordBatch,
}

/// Where decoding a Parquet file failed.
#[derive(Clone, Copy, PartialEq, Eq, Debug, Structural)]
pub enum ParquetStage {
    /// Reading the file's metadata (footer and schema).
    Metadata,
    /// Setting up the record batch reader.
    Reader,
    /// Reading a record batch.
    Batch,
}

/// What the library reads of one column of a record batch: the name of its
/// Arrow data type (its `Display` text), and its values cast by arrow to
/// `Float64` and then to text, to `Int64`, and to text; a cast that arrow
/// refuses gives `None`, a null value a `None` entry.
#[verifier::ext_equal]
pub struct ChunkView {
    pub arrow_name: Seq<char>,
    pub numbers: Option<Seq<Option<Seq<char>>>>,
    pub integers: Option<Seq<Option<i64>>>,
    pub texts: Option<Seq<Option<Seq<char>>>>,
}

/// A record batch: its number of rows, and each of its columns.
#[verifier::ext_equal]
pub struct BatchView {
    pub rows: nat,
    pub chunks: Seq<ChunkView>,
}

/// What a record batch holds: one entry per column, in order.
pub uninterp spec fn batch_chunks(b: Batch) -> Seq<ChunkView>;

/// The number of rows of a record batch.
pub uninterp spec fn batch_row_count(b: Batch) -> nat;

pub open spec fn batch_view(b: Batch) -> BatchView {
    BatchView { rows: batch_row_count(b), chunks: batch_chunks(b) }
}

/// What the parquet crate decodes from a file's bytes: the names of the
/// schema's fields and every record batch the reader yields, or the stage
/// at which it first reports an error and that error's text.
pub uninterp spec fn parquet_decode(bytes: Seq<u8>) -> Result<
    (Seq<Seq<char>>, Seq<BatchView>),
    (ParquetStage, Seq<char>),
>;

/// Decodes Parquet bytes with parquet's `ParquetRecordBatchReaderBuilder`
/// (default options, every column): the schema's field names, then every
/// record batch of the reader, stopping at the first error, which is handed
/// back as its text. The claim is that the outcome is a function of the
/// bytes (named `parquet_decode`), the batches being read through
/// `batch_row_count` and `batch_chunks`; the Parquet format itself is not
/// restated.
#[verifier::external_body]
fn read_parquet(bytes: &[u8]) -> (r: Result<(Vec<String>, Vec<Batch>), (ParquetStage, String)>)
    ensures
        match r {
            Ok((names, batches)) => parquet_decode(bytes@) == Ok::<
                (Seq<Seq<char>>, Seq<BatchView>),
                (ParquetStage, Seq<char>),
            >((string_views(names@), batches@.map_values(|b: Batch| batch_view(b)))),
            Err((stage, m)) => parquet_decode(bytes@) == Err::<
                (Seq<Seq<char>>, Seq<BatchView>),
                (ParquetStage, Seq<char>),
            >((stage, m@)),
        },
{
    let builder = parquet::arrow::arrow_reader::ParquetRecordBatchReaderBuilder::try_new(
        bytes::Bytes::copy_from_slice(bytes),
    ).map_err(|e| (ParquetStage::Metadata, e.to_string()))?;
    let names = builder.schema().fields().iter().map(|f| f.name().clone()).collect();
    let reader = builder.build().map_err(|e| (ParquetStage::Reader, e.to_string()))?;
    let batches = reader.map(|r| r.map(|inner| Batch { inner })).collect::<Result<Vec<_>, _>>();
    Ok((names, batches.map_err(|e| (ParquetStage::Batch, e.to_string()))?))
}

/// `RecordBatch::num_rows`.
#[verifier::external_body]
fn batch_num_rows(b: &Batch) -> (n: usize)
    ensures
        n == batch_row_count(*b),
{
    b.inner.num_rows()
}

/// `RecordBatch::num_columns`: one entry of `batch_chunks` per column.
#[verifier::external_body]
fn batch_num_columns(b: &Batch) -> (n: usize)
    ensures
        n == batch_chunks(*b).len(),
{
    b.inner.num_columns()
}

/// The `Display` text of column `i`'s Arrow data type.
#[verifier::external_body]
fn column_arrow_name(b: &Batch, i: usize) -> (t: String)
    requires
        i < batch_chunks(*b).len(),
    ensures
        t@ == batch_chunks(*b)[i as int].arrow_name,
{
    b.inner.column(i).data_type().to_string()
}

/// Column `i` cast by arrow's `cast` to `Float64` and then to text (the
/// shortest text that reads back as the same number), or `None` where a
/// cast is refused.
#[verifier::external_body]
fn column_number_texts(b: &Batch, i: usize) -> (r: Option<Vec<Option<String>>>)
    requires
        i < batch_chunks(*b).len(),
    ensures
        match r {
            Some(v) => batch_chunks(*b)[i as int].numbers == Some(option_views(v@)),
            None => batch_chunks(*b)[i as int].numbers is None,
        },
{
    let f = arrow::compute::cast(b.inner.column(i), &arrow::datatypes::DataType::Float64).ok()?;
    let t = arrow::compute::cast(&f, &arrow::datatypes::DataType::LargeUtf8).ok()?;
    Some(t.as_string_opt::<i64>()?.iter().map(|v| v.map(String::from)).collect())
}

/// Column `i` cast by arrow's `cast` to `Int64` (a date or timestamp gives
/// its stored count of days or time units), or `None` where the cast is
/// refused.
#[verifier::external_body]
fn column_integers(b: &Batch, i: usize) -> (r: Option<Vec<Option<i64>>>)
    requires
        i < batch_chunks(*b).len(),
    ensures
        match r {
            Some(v) => batch_chunks(*b)[i as int].integers == Some(v@),
            None => batch_chunks(*b)[i as int].integers is None,
        },
{
    let n = arrow::compute::cast(b.inner.column(i), &arrow::datatypes::DataType::Int64).ok()?;
    Some(n.as_primitive_opt::<arrow::datatypes::Int64Type>()?.iter().collect())
}

/// Column `i` cast by arrow's `cast` to text, or `None` where the cast is
/// refused.
#[verifier::external_body]
fn column_texts(b: &Batch, i: usize) -> (r: Option<Vec<Option<String>>>)
    requires
        i < batch_chunks(*b).len(),
    ensures
        match r {
            Some(v) => batch_chunks(*b)[i as int].texts == Some(option_views(v@)),
            None => batch_chunks(*b)[i as int].texts is None,
        },
{
    let t = arrow::compute::cast(b.inner.column(i), &arrow::datatypes::DataType::LargeUtf8).ok()?;
    Some(t.as_string_opt::<i64>()?.iter().map(|v| v.map(String::from)).collect())
}

// ---------------------------------------------------------------------
// The table that the batches give
// ---------------------------------------------------------------------

/// Values of class `c` for `rows` rows, all missing.
pub open spec fn missing_values(c: ColumnClass, rows: nat) -> ColumnValues {
    match c {
        ColumnClass::Numeric => ColumnValues::Numeric(Seq::new(rows, |j: int| None)),
        ColumnClass::DateTime => ColumnValues::DateTime(Seq::new(rows, |j: int| None)),
        ColumnClass::Text => ColumnValues::Text(Seq::new(rows, |j: int| Seq::empty())),
    }
}

/// The point in time a value `x` stored with `enc` stands for.
pub open spec fn timestamp_of(enc: TimeEncoding, x: i64) -> Timestamp {
    Timestamp { nanos: encoded_nanos(enc, x as int) as i128 }
}

/// Stored date or time values as points in time; nulls stay missing.
pub open spec fn stamps(enc: TimeEncoding, v: Seq<Option<i64>>) -> Seq<Option<Timestamp>> {
    v.map_values(
        |o: Option<i64>|
            match o {
                Some(x) => Some(timestamp_of(enc, x)),
                None => None,
            },
    )
}

/// Texts with each null read as the empty text.
pub open spec fn texts_or_empty(v: Seq<Option<Seq<char>>>) -> Seq<Seq<char>> {
    v.map_values(
        |o: Option<Seq<char>>|
            match o {
                Some(t) => t,
                None => Seq::empty(),
            },
    )
}

/// The values a batch column of `rows` rows gives to a column of class
/// `c`: its numbers; its dates and times, read by the unit of its own type
/// (all missing when its type is no date or time type); or its texts. All
/// missing (empty texts) where arrow refuses the cast.
pub open spec fn chunk_values(c: ColumnClass, k: ChunkView, rows: nat) -> ColumnValues {
    match c {
        ColumnClass::Numeric => match k.numbers {
            Some(v) => ColumnValues::Numeric(v),
            None => missing_values(c, rows),
        },
        ColumnClass::DateTime => match time_encoding_spec(k.arrow_name) {
            Some(enc) => match k.integers {
                Some(v) => ColumnValues::DateTime(stamps(enc, v)),
                None => missing_values(c, rows),
            },
            None => missing_values(c, rows),
        },
        ColumnClass::Text => match k.texts {
            Some(v) => ColumnValues::Text(texts_or_empty(v)),
            None => missing_values(c, rows),
        },
    }
}

/// `a` followed by `b` (of the same class).
pub open spec fn join_values(a: ColumnValues, b: ColumnValues) -> ColumnValues {
    match (a, b) {
        (ColumnValues::Numeric(x), ColumnValues::Numeric(y)) => ColumnValues::Numeric(x + y),
        (ColumnValues::DateTime(x), ColumnValues::DateTime(y)) => ColumnValues::DateTime(x + y),
        (ColumnValues::Text(x), ColumnValues::Text(y)) => ColumnValues::Text(x + y),
        _ => a,
    }
}

/// The class of column `i`: that of its Arrow type in the first batch.
pub open spec fn first_class(batches: Seq<BatchView>, i: int) -> ColumnClass {
    class_of(arrow_type_spec(batches[0].chunks[i].arrow_name))
}

/// Column `i`'s values gathered from the first `k` batches.
pub open spec fn column_after(batches: Seq<BatchView>, i: int, k: nat) -> ColumnValues
    decreases k,
{
    if k == 0 {
        empty_values(first_class(batches, i))
    } else {
        join_values(
            column_after(batches, i, (k - 1) as nat),
            chunk_values(first_class(batches, i), batches[k - 1].chunks[i], batches[k - 1].rows),
        )
    }
}

/// The rows of the first `k` batches.
pub open spec fn rows_before(batches: Seq<BatchView>, k: nat) -> nat
    decreases k,
{
    if k == 0 {
        0
    } else {
        rows_before(batches, (k - 1) as nat) + batches[k - 1].rows
    }
}

/// Batch `k` has one column per schema field, each giving as many values
/// as the batch has rows.
pub open spec fn batch_fits(width: nat, batches: Seq<BatchView>, k: int) -> bool {
    &&& batches[k].chunks.len() == width
    &&& forall|i: int|
        0 <= i < width ==> #[trigger] chunk_values(
            first_class(batches, i),
            batches[k].chunks[i],
            batches[k].rows,
        ).len() == batches[k].rows
}

/// Every batch fits the schema, and the rows fit a `usize`.
pub open spec fn batches_fit(width: nat, batches: Seq<BatchView>) -> bool {
    &&& forall|k: int| 0 <= k < batches.len() ==> #[trigger] batch_fits(width, batches, k)
    &&& rows_before(batches, batches.len()) <= usize::MAX
}

/// The table a Parquet file's field names and batches give: one column per
/// field, with the values of every batch under the column's class, and the
/// rows of all batches; a column no batch was read for is empty text.
/// `None` where the batches do not fit the schema.
pub open spec fn parquet_table(names: Seq<Seq<char>>, batches: Seq<BatchView>) -> Option<TableView> {
    if batches_fit(names.len(), batches) {
        Some(
            TableView {
                columns: Seq::new(
                    names.len(),
                    |i: int|
                        ColumnView {
                            name: names[i],
                            values: if batches.len() == 0 {
                                ColumnValues::Text(Seq::empty())
                            } else {
                                column_after(batches, i, batches.len())
                            },
                        },
                ),
                row_count: rows_before(batches, batches.len()),
            },
        )
    } else {
        None
    }
}

/// Gathered values keep the class of the column.
proof fn lemma_column_after_class(batches: Seq<BatchView>, i: int, k: nat)
    ensures
        class_of_values(column_after(batches, i, k)) == first_class(batches, i),
    decreases k,
{
    if k > 0 {
        lemma_column_after_class(batches, i, (k - 1) as nat);
    }
}

/// A batch column's values have the class they are read under.
proof fn lemma_chunk_class(c: ColumnClass, k: ChunkView, rows: nat)
    ensures
        class_of_values(chunk_values(c, k, rows)) == c,
{
}

/// Joining values of one class adds their lengths.
proof fn lemma_join_len(a: ColumnValues, b: ColumnValues)
    requires
        class_of_values(a) == class_of_values(b),
    ensures
        join_values(a, b).len() == a.len() + b.len(),
        class_of_values(join_values(a, b)) == class_of_values(a),
{
}

/// Row counts only grow with more batches.
proof fn lemma_rows_grow(batches: Seq<BatchView>, k: nat, m: nat)
    requires
        k <= m <= batches.len(),
    ensures
        rows_before(batches, k) <= rows_before(batches, m),
    decreases m - k,
{
    if k < m {
        lemma_rows_grow(batches, k, (m - 1) as nat);
    }
}

/// Where the first `k` batches fit, column `i` holds one value per row of
/// them.
proof fn lemma_column_after_len(width: nat, batches: Seq<BatchView>, i: int, k: nat)
    requires
        0 <= i < width,
        k <= batches.len(),
        forall|j: int| 0 <= j < k ==> #[trigger] batch_fits(width, batches, j),
    ensures
        column_after(batches, i, k).len() == rows_before(batches, k),
    decreases k,
{
    if k > 0 {
        lemma_column_after_len(width, batches, i, (k - 1) as nat);
        assert(batch_fits(width, batches, k - 1));
        let c = first_class(batches, i);
        let add = chunk_values(c, batches[k - 1].chunks[i], batches[k - 1].rows);
        lemma_chunk_class(c, batches[k - 1].chunks[i], batches[k - 1].rows);
        lemma_column_after_class(batches, i, (k - 1) as nat);
        lemma_join_len(column_after(batches, i, (k - 1) as nat), add);
    }
}

/// A table read from Parquet has one column per schema field, under the
/// field's name; its row count is that of all batches, and every column
/// holds one value per row, of the class its type has in the first batch.
pub proof fn parquet_table_laws(names: Seq<Seq<char>>, batches: Seq<BatchView>)
    ensures
        parquet_table(names, batches) matches Some(t) ==> {
            &&& t.columns.len() == names.len()
            &&& t.row_count == rows_before(batches, batches.len())
            &&& forall|i: int|
                0 <= i < names.len() ==> {
                    &&& (#[trigger] t.columns[i]).name == names[i]
                    &&& t.columns[i].values.len() == t.row_count
                    &&& batches.len() > 0 ==> class_of_values(t.columns[i].values) == first_class(
                        batches,
                        i,
                    )
                }
        },
{
    if let Some(t) = parquet_table(names, batches) {
        assert forall|i: int| 0 <= i < names.len() implies {
            &&& (#[trigger] t.columns[i]).name == names[i]
            &&& t.columns[i].values.len() == t.row_count
            &&& batches.len() > 0 ==> class_of_values(t.columns[i].values) == first_class(
                batches,
                i,
            )
        } by {
            if batches.len() > 0 {
                lemma_column_after_len(names.len(), batches, i, batches.len());
                lemma_column_after_class(batches, i, batches.len());
            }
        }
    }
}

/// `rows` missing numbers.
fn missing_numbers(rows: usize) -> (v: Vec<Option<String>>)
    ensures
        option_views(v@) == Seq::new(rows as nat, |j: int| None::<Seq<char>>),
{
    let mut v: Vec<Option<String>> = Vec::new();
    while v.len() < rows
        invariant
            v@.len() <= rows,
            forall|j: int| 0 <= j < v@.len() ==> v@[j] is None,
        decreases rows - v@.len(),
    {
        v.push(None);
    }
    assert(option_views(v@) =~= Seq::new(rows as nat, |j: int| None::<Seq<char>>));
    v
}

/// The numbers of column `i`, or `None` where they are not one per row.
fn numeric_chunk(b: &Batch, i: usize, rows: usize) -> (r: Option<Vec<Option<String>>>)
    requires
        i < batch_chunks(*b).len(),
    ensures
        match r {
            Some(v) => v@.len() == rows && ColumnValues::Numeric(option_views(v@)) == chunk_values(
                ColumnClass::Numeric,
                batch_chunks(*b)[i as int],
                rows as nat,
            ),
            None => chunk_values(ColumnClass::Numeric, batch_chunks(*b)[i as int], rows as nat).len()
                != rows,
        },
{
    match column_number_texts(b, i) {
        Some(v) => {
            assert(option_views(v@).len() == v@.len());
            if v.len() == rows {
                Some(v)
            } else {
                None
            }
        },
        None => {
            let v = missing_numbers(rows);
            assert(option_views(v@).len() == v@.len());
            assert(ColumnValues::Numeric(option_views(v@)) == missing_values(ColumnClass::Numeric, rows as nat));
            Some(v)
        },
    }
}

/// The dates and times of column `i`, whose type is named `name`, or `None`
/// where they are not one per row.
fn datetime_chunk(b: &Batch, i: usize, name: &str, rows: usize) -> (r: Option<Vec<Option<Timestamp>>>)
    requires
        i < batch_chunks(*b).len(),
        name@ == batch_chunks(*b)[i as int].arrow_name,
    ensures
        match r {
            Some(v) => v@.len() == rows && ColumnValues::DateTime(v@) == chunk_values(
                ColumnClass::DateTime,
                batch_chunks(*b)[i as int],
                rows as nat,
            ),
            None => chunk_values(ColumnClass::DateTime, batch_chunks(*b)[i as int], rows as nat).len()
                != rows,
        },
{
    let enc = time_encoding_of(name);
    let ints = match enc {
        Some(_) => column_integers(b, i),
        None => None,
    };
    match (enc, ints) {
        (Some(e), Some(v)) => {
            if v.len() != rows {
                return None;
            }
            let mut out: Vec<Option<Timestamp>> = Vec::new();
            let mut j: usize = 0;
            while j < v.len()
                invariant
                    j <= v@.len(),
                    out@ =~= stamps(e, v@).take(j as int),
                decreases v@.len() - j,
            {
                let t = match v[j] {
                    Some(x) => Some(timestamp_from(e, x)),
                    None => None,
                };
                out.push(t);
                j = j + 1;
                assert(out@ =~= stamps(e, v@).take(j as int));
            }
            assert(stamps(e, v@).take(v@.len() as int) =~= stamps(e, v@));
            Some(out)
        },
        _ => {
            let mut out: Vec<Option<Timestamp>> = Vec::new();
            while out.len() < rows
                invariant
                    out@.len() <= rows,
                    forall|j: int| 0 <= j < out@.len() ==> out@[j] is None,
                decreases rows - out@.len(),
            {
                out.push(None);
            }
            assert(out@ =~= Seq::new(rows as nat, |j: int| None::<Timestamp>));
            Some(out)
        },
    }
}

/// The texts of column `i` (nulls as empty texts), or `None` where they are
/// not one per row.
fn text_chunk(b: &Batch, i: usize, rows: usize) -> (r: Option<Vec<String>>)
    requires
        i < batch_chunks(*b).len(),
    ensures
        match r {
            Some(v) => v@.len() == rows && ColumnValues::Text(string_views(v@)) == chunk_values(
                ColumnClass::Text,
                batch_chunks(*b)[i as int],
                rows as nat,
            ),
            None => chunk_values(ColumnClass::Text, batch_chunks(*b)[i as int], rows as nat).len()
                != rows,
        },
{
    match column_texts(b, i) {
        Some(v) => {
            if v.len() != rows {
                return None;
            }
            let ghost want = texts_or_empty(option_views(v@));
            let mut out: Vec<String> = Vec::new();
            let mut j: usize = 0;
            while j < v.len()
                invariant
                    j <= v@.len(),
                    want == texts_or_empty(option_views(v@)),
                    string_views(out@) =~= want.take(j as int),
                decreases v@.len() - j,
            {
                let t = match &v[j] {
                    Some(x) => x.clone(),
                    None => String::new(),
                };
                assert(t@ == want[j as int]);
                let ghost prev = out@;
                out.push(t);
                assert(string_views(out@) =~= string_views(prev).push(t@));
                assert(want.take(j + 1) =~= want.take(j as int).push(want[j as int]));
                j = j + 1;
            }
            assert(want.take(v@.len() as int) =~= want);
            Some(out)
        },
        None => {
            let mut out: Vec<String> = Vec::new();
            while out.len() < rows
                invariant
                    out@.len() <= rows,
                    forall|j: int| 0 <= j < out@.len() ==> out@[j]@ == Seq::<char>::empty(),
                decreases rows - out@.len(),
            {
                out.push(String::new());
            }
            assert(string_views(out@) =~= Seq::new(rows as nat, |j: int| Seq::<char>::empty()));
            Some(out)
        },
    }
}

/// The class a batch column is read under: the column's class once fixed,
/// else that of the batch column's own type.
pub open spec fn chunk_class(fixed: Option<ColumnValues>, k: ChunkView) -> ColumnClass {
    match fixed {
        Some(v) => class_of_values(v),
        None => class_of(arrow_type_spec(k.arrow_name)),
    }
}

/// The values gathered so far, empty of class `c` when none were.
pub open spec fn fixed_or_empty(fixed: Option<ColumnValues>, c: ColumnClass) -> ColumnValues {
    match fixed {
        Some(v) => v,
        None => empty_values(c),
    }
}

/// Adds column `i` of batch `b` to column `i` of `acc`; false (with the
/// column's values left unspecified) where the batch column does not give
/// one value per row.
fn add_chunk(acc: &mut ColumnAccumulator, b: &Batch, i: usize) -> (ok: bool)
    requires
        i < old(acc).columns@.len(),
        i < batch_chunks(*b).len(),
        old(acc).batch_rows == batch_row_count(*b),
        old(acc).len_of(i as int) + old(acc).batch_rows == old(acc).row_count,
    ensures
        final(acc).row_count == old(acc).row_count,
        final(acc).batch_rows == old(acc).batch_rows,
        final(acc).columns@.len() == old(acc).columns@.len(),
        forall|j: int|
            0 <= j < old(acc).columns@.len() && j != i ==> final(acc).columns@[j]
                == old(acc).columns@[j],
        final(acc).columns@[i as int].name == old(acc).columns@[i as int].name,
        ({
            let k = batch_chunks(*b)[i as int];
            let c = chunk_class(old(acc).fixed(i as int), k);
            let add = chunk_values(c, k, batch_row_count(*b));
            &&& ok == (add.len() == batch_row_count(*b))
            &&& ok ==> final(acc).fixed(i as int) == Some(
                join_values(fixed_or_empty(old(acc).fixed(i as int), c), add),
            )
        }),
{
    let name = column_arrow_name(b, i);
    let c = acc.class_for(i, arrow_type_of(name.as_str()));
    let rows = acc.batch_rows;
    match c {
        ColumnClass::Numeric => match numeric_chunk(b, i, rows) {
            Some(v) => {
                acc.append_numeric(i, v);
                true
            },
            None => false,
        },
        ColumnClass::DateTime => match datetime_chunk(b, i, name.as_str(), rows) {
            Some(v) => {
                acc.append_datetime(i, v);
                true
            },
            None => false,
        },
        ColumnClass::Text => match text_chunk(b, i, rows) {
            Some(v) => {
                acc.append_text(i, v);
                true
            },
            None => false,
        },
    }
}

/// Reads a Parquet file's bytes into a table: one column per schema field,
/// each column's kind fixed by its Arrow type in the first batch and the
/// values of every batch read under that kind; the row count is that of
/// all batches.
pub fn load_parquet(bytes: &[u8]) -> (r: Result<Table, LoadError>)
    ensures
        match parquet_decode(bytes@) {
            Ok((names, batches)) => match parquet_table(names, batches) {
                Some(t) => r matches Ok(table) && table@ == t,
                None => r matches Err(LoadError::ParquetLayout),
            },
            Err((ParquetStage::Metadata, m)) => r matches Err(LoadError::ParquetMetadata(s)) && s@
                == m,
            Err((ParquetStage::Reader, m)) => r matches Err(LoadError::ParquetReader(s)) && s@ == m,
            Err((ParquetStage::Batch, m)) => r matches Err(LoadError::ParquetBatch(s)) && s@ == m,
        },
{
    let (names, batches) = match read_parquet(bytes) {
        Ok(decoded) => decoded,
        Err((ParquetStage::Metadata, m)) => return Err(LoadError::ParquetMetadata(m)),
        Err((ParquetStage::Reader, m)) => return Err(LoadError::ParquetReader(m)),
        Err((ParquetStage::Batch, m)) => return Err(LoadError::ParquetBatch(m)),
    };
    let ghost nv = string_views(names@);
    let ghost bv = batches@.map_values(|b: Batch| batch_view(b));
    let n = names.len();
    let mut acc = ColumnAccumulator::new(names);
    let mut k: usize = 0;
    while k < batches.len()
        invariant
            parquet_decode(bytes@) == Ok::<
                (Seq<Seq<char>>, Seq<BatchView>),
                (ParquetStage, Seq<char>),
            >((nv, bv)),
            bv == batches@.map_values(|b: Batch| batch_view(b)),
            n == nv.len(),
            k <= batches@.len(),
            acc.columns@.len() == n,
            forall|i: int| 0 <= i < n ==> (#[trigger] acc.columns@[i]).name@ == nv[i],
            acc.complete(),
            acc.row_count == rows_before(bv, k as nat),
            forall|i: int|
                0 <= i < n ==> #[trigger] acc.fixed(i) == if k == 0 {
                    None
                } else {
                    Some(column_after(bv, i, k as nat))
                },
            forall|j: int| 0 <= j < k ==> #[trigger] batch_fits(n as nat, bv, j),
        decreases batches@.len() - k,
    {
        let b = &batches[k];
        assert(bv[k as int] == batch_view(*b));
        if batch_num_columns(b) != n {
            assert(!batch_fits(n as nat, bv, k as int));
            return Err(LoadError::ParquetLayout);
        }
        let rows = batch_num_rows(b);
        if rows > usize::MAX - acc.row_count {
            proof {
                lemma_rows_grow(bv, (k + 1) as nat, bv.len());
            }
            return Err(LoadError::ParquetLayout);
        }
        let ghost before = acc;
        acc.add_rows(rows);
        assert forall|j: int| 0 <= j < n implies #[trigger] acc.fixed(j) == before.fixed(j)
            && acc.len_of(j) == rows_before(bv, k as nat) by {
            assert(before.len_of(j) == before.row_count);
            assert(acc.columns@[j] == before.columns@[j]);
        }
        let mut i: usize = 0;
        while i < n
            invariant
                parquet_decode(bytes@) == Ok::<
                    (Seq<Seq<char>>, Seq<BatchView>),
                    (ParquetStage, Seq<char>),
                >((nv, bv)),
                bv == batches@.map_values(|b: Batch| batch_view(b)),
                n == nv.len(),
                k < batches@.len(),
                *b == batches@[k as int],
                bv[k as int] == batch_view(*b),
                batch_chunks(*b).len() == n,
                rows == batch_row_count(*b),
                i <= n,
                acc.columns@.len() == n,
                forall|j: int| 0 <= j < n ==> (#[trigger] acc.columns@[j]).name@ == nv[j],
                acc.row_count == rows_before(bv, (k + 1) as nat),
                acc.batch_rows == rows,
                forall|j: int|
                    0 <= j < i ==> #[trigger] acc.fixed(j) == Some(column_after(bv, j, (k + 1) as nat))
                        && acc.len_of(j) == acc.row_count,
                forall|j: int|
                    i <= j < n ==> #[trigger] acc.fixed(j) == (if k == 0 {
                        None
                    } else {
                        Some(column_after(bv, j, k as nat))
                    }) && acc.len_of(j) == rows_before(bv, k as nat),
                forall|j: int|
                    0 <= j < i ==> #[trigger] chunk_values(
                        first_class(bv, j),
                        bv[k as int].chunks[j],
                        bv[k as int].rows,
                    ).len() == bv[k as int].rows,
                forall|j: int| 0 <= j < k ==> #[trigger] batch_fits(n as nat, bv, j),
            decreases n - i,
        {
            proof {
                lemma_column_after_class(bv, i as int, k as nat);
                assert(chunk_class(acc.fixed(i as int), bv[k as int].chunks[i as int]) == first_class(
                    bv,
                    i as int,
                ));
            }
            let ghost prev = acc;
            let ok = add_chunk(&mut acc, b, i);
            if !ok {
                assert(!batch_fits(n as nat, bv, k as int));
                return Err(LoadError::ParquetLayout);
            }
            proof {
                let c = first_class(bv, i as int);
                let add = chunk_values(c, bv[k as int].chunks[i as int], bv[k as int].rows);
                lemma_chunk_class(c, bv[k as int].chunks[i as int], bv[k as int].rows);
                lemma_column_after_class(bv, i as int, k as nat);
                let old_vals = fixed_or_empty(prev.fixed(i as int), c);
                assert(old_vals == column_after(bv, i as int, k as nat));
                lemma_join_len(old_vals, add);
                assert(column_after(bv, i as int, (k + 1) as nat) == join_values(old_vals, add));
                assert(acc.fixed(i as int) == Some(column_after(bv, i as int, (k + 1) as nat)));
                assert(acc.len_of(i as int) == acc.row_count);
                assert forall|j: int| i < j < n implies #[trigger] acc.fixed(j) == prev.fixed(j)
                    && acc.len_of(j) == prev.len_of(j) by {
                    assert(acc.columns@[j] == prev.columns@[j]);
                }
                assert forall|j: int| 0 <= j < i implies #[trigger] acc.fixed(j) == prev.fixed(j)
                    && acc.len_of(j) == prev.len_of(j) by {
                    assert(acc.columns@[j] == prev.columns@[j]);
                }
            }
            i = i + 1;
        }
        assert(batch_fits(n as nat, bv, k as int));
        k = k + 1;
    }
    let table = acc.finish();
    proof {
        let want = parquet_table(nv, bv);
        assert(batches_fit(nv.len(), bv));
        assert(table@.columns =~= want->0.columns);
    }
    Ok(table)
}

} // verus!
