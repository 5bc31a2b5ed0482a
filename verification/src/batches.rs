//! Assembling a table from columnar record batches (as a Parquet file is
//! read): each column's kind is fixed by the Arrow type it has in the first
//! batch, and later batches are appended under that kind.
use vstd::prelude::*;

use crate::data::{column_views, option_views, ColumnData, ColumnKind, ColumnValues, Table};
use crate::datetime::Timestamp;
use crate::model::string_views;

verus! {

/// The Arrow data types the loader tells apart.
#[derive(Clone, Copy, PartialEq, Eq, Debug, Structural)]
pub enum ArrowType {
    Int8,
    Int16,
    Int32,
    Int64,
    UInt8,
    UInt16,
    UInt32,
    UInt64,
    Float16,
    Float32,
    Float64,
    Boolean,
    Decimal128,
    Decimal256,
    Date32,
    Date64,
    Timestamp,
    /// Any other type (strings, lists, structs, ...).
    Other,
}

/// The kind of column an Arrow type becomes.
#[derive(Clone, Copy, PartialEq, Eq, Debug, Structural)]
pub enum ColumnClass {
    Numeric,
    DateTime,
    Text,
}

/// Integers, floats, booleans and decimals are numeric; dates and
/// timestamps are datetimes; everything else is text.
pub open spec fn class_of(t: ArrowType) -> ColumnClass {
    match t {
        ArrowType::Date32 | ArrowType::Date64 | ArrowType::Timestamp => ColumnClass::DateTime,
        ArrowType::Other => ColumnClass::Text,
        _ => ColumnClass::Numeric,
    }
}

pub fn classify_arrow_type(t: ArrowType) -> (c: ColumnClass)
    ensures
        c == class_of(t),
{
    match t {
        ArrowType::Int8 | ArrowType::Int16 | ArrowType::Int32 | ArrowType::Int64 | ArrowType::UInt8
        | ArrowType::UInt16 | ArrowType::UInt32 | ArrowType::UInt64 | ArrowType::Float16
        | ArrowType::Float32 | ArrowType::Float64 | ArrowType::Boolean | ArrowType::Decimal128
        | ArrowType::Decimal256 => ColumnClass::Numeric,
        ArrowType::Date32 | ArrowType::Date64 | ArrowType::Timestamp => ColumnClass::DateTime,
        ArrowType::Other => ColumnClass::Text,
    }
}

/// The class of column values of a given kind.
pub open spec fn class_of_values(v: ColumnValues) -> ColumnClass {
    match v {
        ColumnValues::Numeric(_) => ColumnClass::Numeric,
        ColumnValues::DateTime(_) => ColumnClass::DateTime,
        ColumnValues::Text(_) => ColumnClass::Text,
    }
}

/// Empty values of a class.
pub open spec fn empty_values(c: ColumnClass) -> ColumnValues {
    match c {
        ColumnClass::Numeric => ColumnValues::Numeric(Seq::empty()),
        ColumnClass::DateTime => ColumnValues::DateTime(Seq::empty()),
        ColumnClass::Text => ColumnValues::Text(Seq::empty()),
    }
}

/// A column being assembled: its name and, once its first batch has been
/// seen, the values gathered so far under the kind that batch fixed.
pub struct PendingColumn {
    pub name: String,
    pub values: Option<ColumnKind>,
}

/// The columns of a table being assembled from batches, with the number of
/// rows read so far and the number of rows in the batch being read.
pub struct ColumnAccumulator {
    pub columns: Vec<PendingColumn>,
    pub row_count: usize,
    pub batch_rows: usize,
}

impl ColumnAccumulator {
    /// The kind fixed for column `i` so far, if any.
    pub open spec fn fixed(self, i: int) -> Option<ColumnValues> {
        match self.columns@[i].values {
            Some(k) => Some(k@),
            None => None,
        }
    }

    /// How many values column `i` holds so far.
    pub open spec fn len_of(self, i: int) -> nat {
        match self.fixed(i) {
            Some(v) => v.len(),
            None => 0,
        }
    }

    /// Every column holds one value per row read so far (its kind fixed
    /// once any row has been read).
    pub open spec fn complete(self) -> bool {
        forall|i: int|
            0 <= i < self.columns@.len() ==> #[trigger] self.len_of(i) == self.row_count && (
            self.row_count > 0 ==> self.fixed(i) is Some)
    }

    /// How many values column `i` holds so far.
    pub fn column_len(&self, i: usize) -> (n: usize)
        requires
            i < self.columns@.len(),
        ensures
            n == self.len_of(i as int),
    {
        match &self.columns[i].values {
            Some(ColumnKind::Numeric(v)) => v.len(),
            Some(ColumnKind::DateTime(v)) => v.len(),
            Some(ColumnKind::Text(v)) => v.len(),
            None => 0,
        }
    }

    /// Whether every column holds one value per row read so far.
    pub fn is_complete(&self) -> (b: bool)
        ensures
            b == self.complete(),
    {
        let mut i: usize = 0;
        while i < self.columns.len()
            invariant
                i <= self.columns@.len(),
                forall|k: int|
                    0 <= k < i ==> #[trigger] self.len_of(k) == self.row_count && (self.row_count
                        > 0 ==> self.fixed(k) is Some),
            decreases self.columns@.len() - i,
        {
            if self.column_len(i) != self.row_count {
                return false;
            }
            if self.row_count > 0 && self.columns[i].values.is_none() {
                return false;
            }
            assert(self.len_of(i as int) == self.row_count);
            assert(self.row_count > 0 ==> self.fixed(i as int) is Some);
            i = i + 1;
        }
        true
    }

    /// An accumulator for columns with these names, none of them seen yet.
    pub fn new(names: Vec<String>) -> (acc: Self)
        ensures
            acc.columns@.len() == names@.len(),
            forall|i: int|
                0 <= i < names@.len() ==> (#[trigger] acc.columns@[i]).name@ == names@[i]@
                    && acc.columns@[i].values is None,
            acc.row_count == 0,
            acc.batch_rows == 0,
            acc.complete(),
    {
        let mut columns: Vec<PendingColumn> = Vec::new();
        let mut i: usize = 0;
        while i < names.len()
            invariant
                i <= names@.len(),
                columns@.len() == i,
                forall|k: int|
                    0 <= k < i ==> (#[trigger] columns@[k]).name@ == names@[k]@
                        && columns@[k].values is None,
            decreases names@.len() - i,
        {
            columns.push(PendingColumn { name: names[i].clone(), values: None });
            i = i + 1;
        }
        ColumnAccumulator { columns, row_count: 0, batch_rows: 0 }
    }

    /// Starts another batch of `n` rows, once every column holds all the
    /// rows before it.
    pub fn add_rows(&mut self, n: usize)
        requires
            old(self).row_count + n <= usize::MAX,
            old(self).complete(),
        ensures
            final(self).row_count == old(self).row_count + n,
            final(self).batch_rows == n,
            final(self).columns@ == old(self).columns@,
    {
        self.row_count = self.row_count + n;
        self.batch_rows = n;
    }

    /// The class under which column `i` of a batch whose Arrow type is `t`
    /// is read: the class fixed by the column's first batch, which this
    /// batch fixes when it is the first.
    pub fn class_for(&mut self, i: usize, t: ArrowType) -> (c: ColumnClass)
        requires
            i < old(self).columns@.len(),
        ensures
            final(self).row_count == old(self).row_count,
            final(self).batch_rows == old(self).batch_rows,
            final(self).columns@.len() == old(self).columns@.len(),
            forall|j: int|
                0 <= j < old(self).columns@.len() && j != i ==> final(self).columns@[j]
                    == old(self).columns@[j],
            final(self).columns@[i as int].name == old(self).columns@[i as int].name,
            match old(self).fixed(i as int) {
                Some(v) => c == class_of_values(v) && final(self).fixed(i as int) == Some(v),
                None => c == class_of(t) && final(self).fixed(i as int) == Some(
                    empty_values(class_of(t)),
                ),
            },
    {
        let mut slot = PendingColumn { name: String::new(), values: None };
        self.columns.set_and_swap(i, &mut slot);
        let c = match &slot.values {
            Some(ColumnKind::Numeric(_)) => ColumnClass::Numeric,
            Some(ColumnKind::DateTime(_)) => ColumnClass::DateTime,
            Some(ColumnKind::Text(_)) => ColumnClass::Text,
            None => {
                let c = classify_arrow_type(t);
                slot.values = Some(
                    match c {
                        ColumnClass::Numeric => ColumnKind::Numeric(Vec::new()),
                        ColumnClass::DateTime => ColumnKind::DateTime(Vec::new()),
                        ColumnClass::Text => ColumnKind::Text(Vec::new()),
                    },
                );
                proof {
                    let k = slot.values->0;
                    assert(k@ =~~= empty_values(class_of(t)));
                }
                c
            },
        };
        self.columns.set_and_swap(i, &mut slot);
        c
    }

    /// Appends a batch's values to numeric column `i`.
    pub fn append_numeric(&mut self, i: usize, values: Vec<Option<String>>)
        requires
            i < old(self).columns@.len(),
            old(self).fixed(i as int) matches Some(ColumnValues::Numeric(_)),
            values@.len() == old(self).batch_rows,
            old(self).len_of(i as int) + old(self).batch_rows == old(self).row_count,
        ensures
            final(self).row_count == old(self).row_count,
            final(self).batch_rows == old(self).batch_rows,
            final(self).columns@.len() == old(self).columns@.len(),
            forall|j: int|
                0 <= j < old(self).columns@.len() && j != i ==> final(self).columns@[j]
                    == old(self).columns@[j],
            final(self).columns@[i as int].name == old(self).columns@[i as int].name,
            old(self).fixed(i as int) matches Some(ColumnValues::Numeric(before)) && final(self).fixed(i as int) == Some(ColumnValues::Numeric(before + option_views(values@))),
    {
        let mut slot = PendingColumn { name: String::new(), values: None };
        self.columns.set_and_swap(i, &mut slot);
        let mut vals = values;
        let ghost added = option_views(vals@);
        if let Some(ColumnKind::Numeric(v)) = &mut slot.values {
            let ghost before = option_views(v@);
            v.append(&mut vals);
            assert(option_views(v@) =~= before + added);
        }
        self.columns.set_and_swap(i, &mut slot);
    }

    /// Appends a batch's values to datetime column `i`.
    pub fn append_datetime(&mut self, i: usize, values: Vec<Option<Timestamp>>)
        requires
            i < old(self).columns@.len(),
            old(self).fixed(i as int) matches Some(ColumnValues::DateTime(_)),
            values@.len() == old(self).batch_rows,
            old(self).len_of(i as int) + old(self).batch_rows == old(self).row_count,
        ensures
            final(self).row_count == old(self).row_count,
            final(self).batch_rows == old(self).batch_rows,
            final(self).columns@.len() == old(self).columns@.len(),
            forall|j: int|
                0 <= j < old(self).columns@.len() && j != i ==> final(self).columns@[j]
                    == old(self).columns@[j],
            final(self).columns@[i as int].name == old(self).columns@[i as int].name,
            old(self).fixed(i as int) matches Some(ColumnValues::DateTime(before)) && final(self).fixed(i as int) == Some(ColumnValues::DateTime(before + values@)),
    {
        let mut slot = PendingColumn { name: String::new(), values: None };
        self.columns.set_and_swap(i, &mut slot);
        let mut vals = values;
        if let Some(ColumnKind::DateTime(v)) = &mut slot.values {
            v.append(&mut vals);
        }
        self.columns.set_and_swap(i, &mut slot);
    }

    /// Appends a batch's values to text column `i`.
    pub fn append_text(&mut self, i: usize, values: Vec<String>)
        requires
            i < old(self).columns@.len(),
            old(self).fixed(i as int) matches Some(ColumnValues::Text(_)),
            values@.len() == old(self).batch_rows,
            old(self).len_of(i as int) + old(self).batch_rows == old(self).row_count,
        ensures
            final(self).row_count == old(self).row_count,
            final(self).batch_rows == old(self).batch_rows,
            final(self).columns@.len() == old(self).columns@.len(),
            forall|j: int|
                0 <= j < old(self).columns@.len() && j != i ==> final(self).columns@[j]
                    == old(self).columns@[j],
            final(self).columns@[i as int].name == old(self).columns@[i as int].name,
            old(self).fixed(i as int) matches Some(ColumnValues::Text(before)) && final(self).fixed(i as int) == Some(ColumnValues::Text(before + string_views(values@))),
    {
        let mut slot = PendingColumn { name: String::new(), values: None };
        self.columns.set_and_swap(i, &mut slot);
        let mut vals = values;
        let ghost added = string_views(vals@);
        if let Some(ColumnKind::Text(v)) = &mut slot.values {
            let ghost before = string_views(v@);
            v.append(&mut vals);
            assert(string_views(v@) =~= before + added);
        }
        self.columns.set_and_swap(i, &mut slot);
    }

    /// The finished table: each column with the values gathered under its
    /// kind, or an empty text column when no batch was seen.
    pub fn finish(self) -> (t: Table)
        ensures
            t@.row_count == self.row_count,
            t@.columns.len() == self.columns@.len(),
            forall|i: int|
                0 <= i < self.columns@.len() ==> (#[trigger] t@.columns[i]).name
                    == self.columns@[i].name@ && t@.columns[i].values == match self.fixed(i) {
                    Some(v) => v,
                    None => ColumnValues::Text(Seq::empty()),
                },
            self.complete() ==> forall|i: int|
                0 <= i < self.columns@.len() ==> (#[trigger] t@.columns[i]).values.len()
                    == t@.row_count,
    {
        let ghost old_cols = self.columns@;
        let row_count = self.row_count;
        let mut pending = self.columns;
        let mut out: Vec<ColumnData> = Vec::new();
        let mut i: usize = 0;
        let n = pending.len();
        while i < n
            invariant
                n == pending@.len() == old_cols.len(),
                i <= n,
                out@.len() == i,
                forall|k: int| i <= k < n ==> #[trigger] pending@[k] == old_cols[k],
                forall|k: int|
                    0 <= k < i ==> (#[trigger] out@[k])@.name == old_cols[k].name@ && out@[k]@.values
                        == match old_cols[k].values {
                        Some(v) => v@,
                        None => ColumnValues::Text(Seq::empty()),
                    },
            decreases n - i,
        {
            let mut slot = PendingColumn { name: String::new(), values: None };
            pending.set_and_swap(i, &mut slot);
            let kind = match slot.values {
                Some(k) => k,
                None => {
                    let k = ColumnKind::Text(Vec::new());
                    assert(k@ =~~= ColumnValues::Text(Seq::empty()));
                    k
                },
            };
            out.push(ColumnData { name: slot.name, kind });
            i = i + 1;
        }
        let t = Table { columns: out, row_count };
        assert forall|i: int| 0 <= i < old_cols.len() implies (#[trigger] t@.columns[i]).name
            == old_cols[i].name@ by {
            assert(t@.columns[i] == out@[i]@);
        }
        assert(self.complete() ==> forall|i: int|
            0 <= i < self.columns@.len() ==> (#[trigger] t@.columns[i]).values.len() == t@.row_count)
            by {
            if self.complete() {
                assert forall|i: int| 0 <= i < self.columns@.len() implies (
                #[trigger] t@.columns[i]).values.len() == t@.row_count by {
                    assert(t@.columns[i] == out@[i]@);
                    assert(self.len_of(i) == self.row_count);
                }
            }
        }
        t
    }
}

} // verus!
