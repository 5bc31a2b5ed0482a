//! A small in-memory columnar `Table`, with automatic per-column type
//! inference (numeric / datetime / text), and the questions the plotting
//! code asks of it.
use vstd::prelude::*;

use crate::datetime::{parse_datetime, parse_datetime_spec, Timestamp};
use crate::model::{first_index, lemma_first_index, string_views};
use crate::text::{
    all_ascii, blank, is_blank, is_float_literal, is_float_literal_str, lowercase, lowered, same_text,
    trim, trimmed,
    unicode_lowercase,
};

verus! {

/// The values of one column.
#[derive(Clone, Debug)]
pub enum ColumnKind {
    /// Plain numeric values, each kept as the float literal it was read as
    /// (`f64`'s `FromStr` accepts it); `None` marks a missing value.
    Numeric(Vec<Option<String>>),
    /// Points in time; `None` marks a missing value.
    DateTime(Vec<Option<Timestamp>>),
    /// Free text / categorical values.
    Text(Vec<String>),
}

/// What a column holds, as mathematical values.
#[verifier::ext_equal]
pub enum ColumnValues {
    Numeric(Seq<Option<Seq<char>>>),
    DateTime(Seq<Option<Timestamp>>),
    Text(Seq<Seq<char>>),
}

/// The text of each present string.
pub open spec fn option_views(v: Seq<Option<String>>) -> Seq<Option<Seq<char>>> {
    v.map_values(
        |o: Option<String>|
            match o {
                Some(s) => Some(s@),
                None => None,
            },
    )
}

impl View for ColumnKind {
    type V = ColumnValues;

    open spec fn view(&self) -> ColumnValues {
        match self {
            ColumnKind::Numeric(v) => ColumnValues::Numeric(option_views(v@)),
            ColumnKind::DateTime(v) => ColumnValues::DateTime(v@),
            ColumnKind::Text(v) => ColumnValues::Text(string_views(v@)),
        }
    }
}

impl ColumnValues {
    pub open spec fn len(self) -> nat {
        match self {
            ColumnValues::Numeric(v) => v.len(),
            ColumnValues::DateTime(v) => v.len(),
            ColumnValues::Text(v) => v.len(),
        }
    }
}

#[derive(Clone, Debug)]
pub struct ColumnData {
    pub name: String,
    pub kind: ColumnKind,
}

#[verifier::ext_equal]
pub struct ColumnView {
    pub name: Seq<char>,
    pub values: ColumnValues,
}

impl View for ColumnData {
    type V = ColumnView;

    open spec fn view(&self) -> ColumnView {
        ColumnView { name: self.name@, values: self.kind@ }
    }
}

/// The name shown for each kind of column.
pub open spec fn type_label_spec(v: ColumnValues) -> Seq<char> {
    match v {
        ColumnValues::Numeric(_) => "number"@,
        ColumnValues::DateTime(_) => "datetime"@,
        ColumnValues::Text(_) => "text"@,
    }
}

impl ColumnData {
    pub fn type_label(&self) -> (s: &'static str)
        ensures
            s@ == type_label_spec(self.kind@),
    {
        match self.kind {
            ColumnKind::Numeric(_) => "number",
            ColumnKind::DateTime(_) => "datetime",
            ColumnKind::Text(_) => "text",
        }
    }
}

#[derive(Clone, Debug)]
pub struct Table {
    pub columns: Vec<ColumnData>,
    pub row_count: usize,
}

#[verifier::ext_equal]
pub struct TableView {
    pub columns: Seq<ColumnView>,
    pub row_count: nat,
}

pub open spec fn column_views(cols: Seq<ColumnData>) -> Seq<ColumnView> {
    cols.map_values(|c: ColumnData| c@)
}

impl View for Table {
    type V = TableView;

    open spec fn view(&self) -> TableView {
        TableView { columns: column_views(self.columns@), row_count: self.row_count as nat }
    }
}

impl Default for Table {
    fn default() -> (t: Table)
        ensures
            t@.columns.len() == 0,
            t@.row_count == 0,
    {
        Table { columns: Vec::new(), row_count: 0 }
    }
}

// ---------------------------------------------------------------------
// Questions about columns
// ---------------------------------------------------------------------

/// The names of `cols`, in order.
pub open spec fn names(cols: Seq<ColumnView>) -> Seq<Seq<char>> {
    cols.map_values(|c: ColumnView| c.name)
}

/// The names of the columns that are not text, in order.
pub open spec fn plottable_names(cols: Seq<ColumnView>) -> Seq<Seq<char>>
    decreases cols.len(),
{
    if cols.len() == 0 {
        Seq::empty()
    } else {
        let rest = plottable_names(cols.drop_last());
        if cols.last().values is Text {
            rest
        } else {
            rest.push(cols.last().name)
        }
    }
}

/// The columns offered for a Y axis are exactly the columns that are not
/// text, in table order: their names are those of the table's non-text
/// columns, kept in order.
pub proof fn plottable_names_law(cols: Seq<ColumnView>)
    ensures
        plottable_names(cols) == cols.filter(|c: ColumnView| !(c.values is Text)).map_values(
            |c: ColumnView| c.name,
        ),
    decreases cols.len(),
{
    reveal(Seq::filter);
    if cols.len() > 0 {
        plottable_names_law(cols.drop_last());
        let p = |c: ColumnView| !(c.values is Text);
        let sub = cols.drop_last().filter(p);
        assert(sub.push(cols.last()).map_values(|c: ColumnView| c.name) =~= sub.map_values(
            |c: ColumnView| c.name,
        ).push(cols.last().name));
    } else {
        assert(cols.filter(|c: ColumnView| !(c.values is Text)).map_values(|c: ColumnView| c.name)
            =~= Seq::empty());
    }
}

/// The names of the datetime columns, in order.
pub open spec fn datetime_names(cols: Seq<ColumnView>) -> Seq<Seq<char>>
    decreases cols.len(),
{
    if cols.len() == 0 {
        Seq::empty()
    } else {
        let rest = datetime_names(cols.drop_last());
        if cols.last().values is DateTime {
            rest.push(cols.last().name)
        } else {
            rest
        }
    }
}

/// The name of the first datetime column.
pub open spec fn first_datetime_name(cols: Seq<ColumnView>) -> Option<Seq<char>>
    decreases cols.len(),
{
    if cols.len() == 0 {
        None
    } else {
        match first_datetime_name(cols.drop_last()) {
            Some(n) => Some(n),
            None => if cols.last().values is DateTime {
                Some(cols.last().name)
            } else {
                None
            },
        }
    }
}

/// The columns offered as time columns are exactly the datetime columns,
/// in table order.
pub proof fn datetime_names_law(cols: Seq<ColumnView>)
    ensures
        datetime_names(cols) == cols.filter(|c: ColumnView| c.values is DateTime).map_values(
            |c: ColumnView| c.name,
        ),
    decreases cols.len(),
{
    reveal(Seq::filter);
    if cols.len() > 0 {
        datetime_names_law(cols.drop_last());
        let p = |c: ColumnView| c.values is DateTime;
        let sub = cols.drop_last().filter(p);
        assert(sub.push(cols.last()).map_values(|c: ColumnView| c.name) =~= sub.map_values(
            |c: ColumnView| c.name,
        ).push(cols.last().name));
    } else {
        assert(cols.filter(|c: ColumnView| c.values is DateTime).map_values(|c: ColumnView| c.name)
            =~= Seq::empty());
    }
}

/// The time column is the first datetime column: a name is given only when
/// some column is a datetime column, and then it is the name of the first
/// such column; nothing is given exactly when no column is a datetime
/// column.
pub proof fn first_datetime_law(cols: Seq<ColumnView>)
    ensures
        match first_datetime_name(cols) {
            Some(n) => exists|i: int|
                0 <= i < cols.len() && (#[trigger] cols[i]).name == n && cols[i].values is DateTime
                    && forall|j: int| 0 <= j < i ==> !((#[trigger] cols[j]).values is DateTime),
            None => forall|i: int| 0 <= i < cols.len() ==> !((#[trigger] cols[i]).values is DateTime),
        },
    decreases cols.len(),
{
    if cols.len() > 0 {
        let p = cols.drop_last();
        first_datetime_law(p);
        match first_datetime_name(p) {
            Some(n) => {
                let i = choose|i: int|
                    0 <= i < p.len() && (#[trigger] p[i]).name == n && p[i].values is DateTime
                        && forall|j: int| 0 <= j < i ==> !((#[trigger] p[j]).values is DateTime);
                assert(cols[i] == p[i]);
                assert forall|j: int| 0 <= j < i implies !((#[trigger] cols[j]).values is DateTime) by {
                    assert(cols[j] == p[j]);
                }
            },
            None => {
                assert forall|j: int| 0 <= j < p.len() implies !((#[trigger] cols[j]).values is DateTime) by {
                    assert(cols[j] == p[j]);
                }
                if cols.last().values is DateTime {
                    assert(cols[cols.len() - 1] == cols.last());
                }
            },
        }
    }
}

/// Distinct values of `vals` in order of first appearance.
pub open spec fn first_appearances(vals: Seq<Seq<char>>) -> Seq<Seq<char>>
    decreases vals.len(),
{
    if vals.len() == 0 {
        Seq::empty()
    } else {
        let p = first_appearances(vals.drop_last());
        if p.contains(vals.last()) {
            p
        } else {
            p.push(vals.last())
        }
    }
}

/// The category index of row `i` of a text column: the position of its
/// value among the distinct values in order of first appearance.
pub open spec fn category_index(vals: Seq<Seq<char>>, i: int) -> int {
    first_index(first_appearances(vals), vals[i])
}

/// The value a row takes on a plot axis. The user interface turns each
/// into an `f64`: a number is its literal read as `f64`, a point in time its
/// unix seconds, a category its index, a missing value NaN.
#[derive(Clone, Debug)]
pub enum PlotValue {
    Missing,
    Number(String),
    Instant(Timestamp),
    Category(usize),
}

pub enum PlotPoint {
    Missing,
    Number(Seq<char>),
    Instant(Timestamp),
    Category(int),
}

impl View for PlotValue {
    type V = PlotPoint;

    open spec fn view(&self) -> PlotPoint {
        match self {
            PlotValue::Missing => PlotPoint::Missing,
            PlotValue::Number(s) => PlotPoint::Number(s@),
            PlotValue::Instant(t) => PlotPoint::Instant(*t),
            PlotValue::Category(i) => PlotPoint::Category(*i as int),
        }
    }
}

/// The plot value of row `i` of a column.
pub open spec fn plot_point(v: ColumnValues, i: int) -> PlotPoint {
    match v {
        ColumnValues::Numeric(xs) => match xs[i] {
            Some(s) => PlotPoint::Number(s),
            None => PlotPoint::Missing,
        },
        ColumnValues::DateTime(xs) => match xs[i] {
            Some(t) => PlotPoint::Instant(t),
            None => PlotPoint::Missing,
        },
        ColumnValues::Text(xs) => PlotPoint::Category(category_index(xs, i)),
    }
}

/// A copy of each string.
pub fn clone_strings(v: &[String]) -> (r: Vec<String>)
    ensures
        r@ == v@,
{
    let mut r: Vec<String> = Vec::new();
    let mut i: usize = 0;
    while i < v.len()
        invariant
            i <= v@.len(),
            r@ == v@.take(i as int),
        decreases v@.len() - i,
    {
        r.push(v[i].clone());
        i = i + 1;
        assert(r@ =~= v@.take(i as int));
    }
    assert(v@.take(v@.len() as int) =~= v@);
    r
}

proof fn lemma_first_appearances_step(vals: Seq<Seq<char>>, n: int)
    requires
        0 < n <= vals.len(),
    ensures
        first_appearances(vals.take(n)) == ({
            let p = first_appearances(vals.take(n - 1));
            if p.contains(vals[n - 1]) {
                p
            } else {
                p.push(vals[n - 1])
            }
        }),
{
    assert(vals.take(n).drop_last() =~= vals.take(n - 1));
}

/// The first-appearance order never changes as more values come: the
/// labels of a prefix are a prefix of the labels of the whole.
pub proof fn lemma_first_appearances_prefix(vals: Seq<Seq<char>>, n: int)
    requires
        0 <= n <= vals.len(),
    ensures
        first_appearances(vals.take(n)).len() <= first_appearances(vals).len(),
        first_appearances(vals.take(n)) == first_appearances(vals).take(
            first_appearances(vals.take(n)).len() as int,
        ),
    decreases vals.len() - n,
{
    if n == vals.len() {
        assert(vals.take(n) =~= vals);
        assert(first_appearances(vals).take(first_appearances(vals).len() as int) =~= first_appearances(vals));
    } else {
        lemma_first_appearances_prefix(vals, n + 1);
        lemma_first_appearances_step(vals, n + 1);
        let p = first_appearances(vals.take(n));
        let q = first_appearances(vals.take(n + 1));
        let w = first_appearances(vals);
        if !p.contains(vals[n]) {
            assert(q == p.push(vals[n]));
            assert(p =~= q.take(p.len() as int));
            assert(q.take(p.len() as int) =~= w.take(p.len() as int));
        }
    }
}

/// Each value's category index points back at that value among the labels,
/// equal values share their index, and the labels are distinct and all taken
/// from the values.
pub proof fn category_laws(vals: Seq<Seq<char>>)
    ensures
        forall|i: int, j: int|
            0 <= i < vals.len() && 0 <= j < vals.len() && vals[i] == vals[j] ==> #[trigger] category_index(
                vals,
                i,
            ) == #[trigger] category_index(vals, j),
        forall|i: int|
            0 <= i < vals.len() ==> 0 <= #[trigger] category_index(vals, i) < first_appearances(
                vals,
            ).len() && first_appearances(vals)[category_index(vals, i)] == vals[i],
        forall|a: int, b: int|
            0 <= a < b < first_appearances(vals).len() ==> first_appearances(vals)[a]
                != first_appearances(vals)[b],
        forall|a: int|
            0 <= a < first_appearances(vals).len() ==> vals.contains(
                #[trigger] first_appearances(vals)[a],
            ),
    decreases vals.len(),
{
    let w = first_appearances(vals);
    if vals.len() > 0 {
        let d = vals.drop_last();
        category_laws(d);
        let p = first_appearances(d);
        assert forall|a: int| 0 <= a < p.len() implies vals.contains(#[trigger] p[a]) by {
            let k = choose|k: int| 0 <= k < d.len() && d[k] == p[a];
            assert(vals[k] == p[a]);
        }
        assert forall|a: int| 0 <= a < w.len() implies vals.contains(#[trigger] w[a]) by {
            if a < p.len() {
                assert(w[a] == p[a]);
            } else {
                assert(vals[vals.len() - 1] == w[a]);
            }
        }
        assert forall|i: int| 0 <= i < vals.len() implies 0 <= #[trigger] category_index(vals, i)
            < w.len() && w[category_index(vals, i)] == vals[i] by {
            lemma_first_index(w, vals[i]);
            if !w.contains(vals[i]) {
                if i < d.len() {
                    assert(category_index(d, i) == first_index(p, d[i]));
                    assert(w[category_index(d, i)] == p[category_index(d, i)]);
                } else {
                    assert(w.contains(vals.last())) by {
                        if p.contains(vals.last()) {
                            let j = choose|j: int| 0 <= j < p.len() && p[j] == vals.last();
                            assert(w[j] == p[j]);
                        } else {
                            assert(w[w.len() - 1] == vals.last());
                        }
                    }
                }
            }
        }
        if !p.contains(vals.last()) {
            assert forall|a: int, b: int| 0 <= a < b < w.len() implies w[a] != w[b] by {
                if b == w.len() - 1 {
                    assert(w[a] == p[a]);
                }
            }
        }
    }
}

impl Table {
    pub fn column_names(&self) -> (r: Vec<String>)
        ensures
            string_views(r@) == names(self@.columns),
    {
        let mut r: Vec<String> = Vec::new();
        let mut i: usize = 0;
        while i < self.columns.len()
            invariant
                i <= self.columns@.len(),
                r@.len() == i,
                forall|k: int| 0 <= k < i ==> (#[trigger] r@[k])@ == self.columns@[k].name@,
            decreases self.columns@.len() - i,
        {
            r.push(self.columns[i].name.clone());
            i = i + 1;
        }
        assert(string_views(r@) =~= names(self@.columns));
        r
    }

    /// The first column called `name`.
    pub fn column_index(&self, name: &str) -> (r: Option<usize>)
        ensures
            match r {
                Some(i) => first_index(names(self@.columns), name@) == i,
                None => first_index(names(self@.columns), name@) < 0,
            },
    {
        let wanted = name.to_owned();
        let ghost v = names(self@.columns);
        let mut i: usize = 0;
        while i < self.columns.len()
            invariant
                i <= self.columns@.len(),
                v == names(self@.columns),
                wanted@ == name@,
                forall|k: int| 0 <= k < i ==> v[k] != name@,
            decreases self.columns@.len() - i,
        {
            if self.columns[i].name == wanted {
                proof {
                    lemma_first_index(v, name@);
                    assert(v[i as int] == name@);
                    if first_index(v, name@) < 0 {
                        assert(v.contains(name@));
                    }
                }
                return Some(i);
            }
            i = i + 1;
        }
        proof {
            lemma_first_index(v, name@);
            if first_index(v, name@) >= 0 {
                assert(v[first_index(v, name@)] == name@);
            }
        }
        None
    }

    pub fn is_datetime(&self, idx: usize) -> (b: bool)
        requires
            idx < self@.columns.len(),
        ensures
            b == self@.columns[idx as int].values is DateTime,
    {
        match self.columns[idx].kind {
            ColumnKind::DateTime(_) => true,
            _ => false,
        }
    }

    pub fn is_numeric(&self, idx: usize) -> (b: bool)
        requires
            idx < self@.columns.len(),
        ensures
            b == self@.columns[idx as int].values is Numeric,
    {
        match self.columns[idx].kind {
            ColumnKind::Numeric(_) => true,
            _ => false,
        }
    }

    /// All column names whose kind is Numeric or DateTime (sensible choices for a Y axis).
    pub fn plottable_y_columns(&self) -> (r: Vec<String>)
        ensures
            string_views(r@) == plottable_names(self@.columns),
    {
        let mut r: Vec<String> = Vec::new();
        let mut i: usize = 0;
        while i < self.columns.len()
            invariant
                i <= self.columns@.len(),
                string_views(r@) == plottable_names(self@.columns.take(i as int)),
            decreases self.columns@.len() - i,
        {
            assert(self@.columns.take(i + 1).drop_last() =~= self@.columns.take(i as int));
            let is_text = match self.columns[i].kind {
                ColumnKind::Text(_) => true,
                _ => false,
            };
            if !is_text {
                r.push(self.columns[i].name.clone());
            }
            i = i + 1;
            assert(string_views(r@) =~= plottable_names(self@.columns.take(i as int)));
        }
        assert(self@.columns.take(i as int) =~= self@.columns);
        r
    }

    /// The names of the datetime columns, in order.
    pub fn datetime_column_names(&self) -> (r: Vec<String>)
        ensures
            string_views(r@) == datetime_names(self@.columns),
    {
        let mut r: Vec<String> = Vec::new();
        let mut i: usize = 0;
        while i < self.columns.len()
            invariant
                i <= self.columns@.len(),
                string_views(r@) == datetime_names(self@.columns.take(i as int)),
            decreases self.columns@.len() - i,
        {
            assert(self@.columns.take(i + 1).drop_last() =~= self@.columns.take(i as int));
            if let ColumnKind::DateTime(_) = self.columns[i].kind {
                r.push(self.columns[i].name.clone());
            }
            i = i + 1;
            assert(string_views(r@) =~= datetime_names(self@.columns.take(i as int)));
        }
        assert(self@.columns.take(i as int) =~= self@.columns);
        r
    }

    /// First column detected as a datetime column, if any.
    pub fn first_datetime_column(&self) -> (r: Option<String>)
        ensures
            match r {
                Some(n) => first_datetime_name(self@.columns) == Some(n@),
                None => first_datetime_name(self@.columns) is None,
            },
    {
        let mut i: usize = 0;
        while i < self.columns.len()
            invariant
                i <= self.columns@.len(),
                first_datetime_name(self@.columns.take(i as int)) is None,
            decreases self.columns@.len() - i,
        {
            assert(self@.columns.take(i + 1).drop_last() =~= self@.columns.take(i as int));
            if let ColumnKind::DateTime(_) = self.columns[i].kind {
                proof {
                    lemma_first_datetime_prefix(self@.columns, i + 1);
                }
                return Some(self.columns[i].name.clone());
            }
            i = i + 1;
        }
        assert(self@.columns.take(i as int) =~= self@.columns);
        None
    }

    /// Return the column's values as they go on a plot axis. Text columns
    /// are mapped to a stable per-value category index (0, 1, 2, ... in
    /// order of first appearance).
    pub fn as_f64(&self, idx: usize) -> (r: Vec<PlotValue>)
        requires
            idx < self@.columns.len(),
        ensures
            r@.len() == self@.columns[idx as int].values.len(),
            forall|i: int|
                0 <= i < r@.len() ==> (#[trigger] r@[i])@ == plot_point(
                    self@.columns[idx as int].values,
                    i,
                ),
    {
        match &self.columns[idx].kind {
            ColumnKind::Numeric(v) => {
                let mut out: Vec<PlotValue> = Vec::new();
                let mut i: usize = 0;
                while i < v.len()
                    invariant
                        i <= v@.len(),
                        idx < self.columns@.len(),
                        self.columns@[idx as int].kind == ColumnKind::Numeric(*v),
                        self@.columns[idx as int] == self.columns@[idx as int]@,
                        out@.len() == i,
                        forall|k: int|
                            0 <= k < i ==> (#[trigger] out@[k])@ == plot_point(
                                self@.columns[idx as int].values,
                                k,
                            ),
                    decreases v@.len() - i,
                {
                    let p = match &v[i] {
                        Some(s) => PlotValue::Number(s.clone()),
                        None => PlotValue::Missing,
                    };
                    out.push(p);
                    i = i + 1;
                }
                out
            },
            ColumnKind::DateTime(v) => {
                let mut out: Vec<PlotValue> = Vec::new();
                let mut i: usize = 0;
                while i < v.len()
                    invariant
                        i <= v@.len(),
                        idx < self.columns@.len(),
                        self.columns@[idx as int].kind == ColumnKind::DateTime(*v),
                        self@.columns[idx as int] == self.columns@[idx as int]@,
                        out@.len() == i,
                        forall|k: int|
                            0 <= k < i ==> (#[trigger] out@[k])@ == plot_point(
                                self@.columns[idx as int].values,
                                k,
                            ),
                    decreases v@.len() - i,
                {
                    let p = match v[i] {
                        Some(t) => PlotValue::Instant(t),
                        None => PlotValue::Missing,
                    };
                    out.push(p);
                    i = i + 1;
                }
                out
            },
            ColumnKind::Text(v) => {
                let (labels, cats) = categorize(v);
                let mut out: Vec<PlotValue> = Vec::new();
                let mut i: usize = 0;
                while i < cats.len()
                    invariant
                        i <= cats@.len() == v@.len(),
                        idx < self.columns@.len(),
                        self.columns@[idx as int].kind == ColumnKind::Text(*v),
                        self@.columns[idx as int] == self.columns@[idx as int]@,
                        forall|k: int|
                            0 <= k < cats@.len() ==> #[trigger] cats@[k] == category_index(
                                string_views(v@),
                                k,
                            ),
                        out@.len() == i,
                        forall|k: int|
                            0 <= k < i ==> (#[trigger] out@[k])@ == plot_point(
                                self@.columns[idx as int].values,
                                k,
                            ),
                    decreases cats@.len() - i,
                {
                    out.push(PlotValue::Category(cats[i]));
                    i = i + 1;
                }
                out
            },
        }
    }

    /// For a text column, the unique labels in order of first appearance
    /// (index in this vector matches the category index produced by `as_f64`).
    pub fn text_labels(&self, idx: usize) -> (r: Option<Vec<String>>)
        requires
            idx < self@.columns.len(),
        ensures
            match self@.columns[idx as int].values {
                ColumnValues::Text(v) => r is Some && string_views(r->0@) == first_appearances(v),
                _ => r is None,
            },
    {
        if let ColumnKind::Text(v) = &self.columns[idx].kind {
            let (labels, _cats) = categorize(v);
            Some(labels)
        } else {
            None
        }
    }
}

proof fn lemma_first_datetime_prefix(cols: Seq<ColumnView>, n: int)
    requires
        0 <= n <= cols.len(),
        first_datetime_name(cols.take(n)) is Some,
    ensures
        first_datetime_name(cols) == first_datetime_name(cols.take(n)),
    decreases cols.len() - n,
{
    if n < cols.len() {
        assert(cols.take(n + 1).drop_last() =~= cols.take(n));
        lemma_first_datetime_prefix(cols, n + 1);
    } else {
        assert(cols.take(n) =~= cols);
    }
}

// ---------------------------------------------------------------------
// Categories, found through hash buckets
// ---------------------------------------------------------------------

/// One step of the FNV-1a hash over a character's code point.
pub open spec fn text_hash_step(h: u64, c: char) -> u64 {
    (h ^ (c as u64)).wrapping_mul(0x0000_0100_0000_01b3)
}

/// The FNV-1a hash of a text's code points.
pub open spec fn text_hash(s: Seq<char>) -> u64
    decreases s.len(),
{
    if s.len() == 0 {
        0xcbf2_9ce4_8422_2325
    } else {
        text_hash_step(text_hash(s.drop_last()), s.last())
    }
}

fn hash_text(s: &String) -> (h: u64)
    ensures
        h == text_hash(s@),
{
    let cs = crate::text::chars_of(s.as_str());
    let mut h: u64 = 0xcbf2_9ce4_8422_2325;
    let mut i: usize = 0;
    while i < cs.len()
        invariant
            i <= cs@.len(),
            h == text_hash(cs@.take(i as int)),
        decreases cs@.len() - i,
    {
        assert(cs@.take(i + 1).drop_last() =~= cs@.take(i as int));
        h = (h ^ (cs[i] as u64)).wrapping_mul(0x0000_0100_0000_01b3);
        i = i + 1;
    }
    assert(cs@.take(cs@.len() as int) =~= cs@);
    h
}

/// Every index in a bucket names a label with that bucket's hash.
pub open spec fn buckets_sound(labels: Seq<String>, m: Map<u64, Vec<usize>>) -> bool {
    forall|h: u64, k: int|
        #![trigger m[h]@[k]]
        m.contains_key(h) && 0 <= k < m[h]@.len() ==> m[h]@[k] < labels.len() && text_hash(
            labels[m[h]@[k] as int]@,
        ) == h
}

/// Every label is in the bucket of its hash.
pub open spec fn buckets_complete(labels: Seq<String>, m: Map<u64, Vec<usize>>) -> bool {
    forall|j: int|
        0 <= j < labels.len() ==> m.contains_key(#[trigger] text_hash(labels[j]@)) && m[text_hash(
            labels[j]@,
        )]@.contains(j as usize)
}

/// No two of the texts are equal.
pub open spec fn distinct(v: Seq<Seq<char>>) -> bool {
    forall|a: int, b: int| 0 <= a < b < v.len() ==> v[a] != v[b]
}

/// Where `s` stands among the distinct `labels`, looked up in the bucket of
/// its hash `h`.
fn find_label(
    labels: &Vec<String>,
    buckets: &std::collections::HashMap<u64, Vec<usize>>,
    s: &String,
    h: u64,
) -> (r: Option<usize>)
    requires
        h == text_hash(s@),
        buckets_sound(labels@, buckets@),
        buckets_complete(labels@, buckets@),
        distinct(string_views(labels@)),
    ensures
        match r {
            Some(j) => first_index(string_views(labels@), s@) == j,
            None => first_index(string_views(labels@), s@) < 0,
        },
{
    broadcast use vstd::std_specs::hash::group_hash_axioms;

    let ghost v = string_views(labels@);
    let n_labels = labels.len();
    proof {
        lemma_first_index(v, s@);
    }
    match buckets.get(&h) {
        None => {
            proof {
                let f = first_index(v, s@);
                if f >= 0 {
                    assert(v[f] == labels@[f]@);
                    assert(buckets@.contains_key(text_hash(labels@[f]@)));
                }
                assert(f < 0);
            }
            None
        },
        Some(b) => {
            let mut k: usize = 0;
            while k < b.len()
                invariant
                    k <= b@.len(),
                    buckets@.contains_key(h),
                    buckets@[h] == *b,
                    buckets_sound(labels@, buckets@),
                    buckets_complete(labels@, buckets@),
                    distinct(v),
                    n_labels == labels@.len(),
                    h == text_hash(s@),
                    v == string_views(labels@),
                    forall|q: int| 0 <= q < k ==> labels@[b@[q] as int]@ != s@,
                decreases b@.len() - k,
            {
                let j = b[k];
                assert(buckets@[h]@[k as int] == j);
                if labels[j] == *s {
                    proof {
                        lemma_first_index(v, s@);
                        let f = first_index(v, s@);
                        assert(v[j as int] == s@);
                        if f < 0 {
                            assert(v.contains(s@));
                        } else if f != j {
                            assert(v[f] == s@);
                            if f < j {
                                assert(v[f] != v[j as int]);
                            } else {
                                assert(v[j as int] != v[f]);
                            }
                        }
                    }
                    return Some(j);
                }
                k = k + 1;
            }
            proof {
                lemma_first_index(v, s@);
                let f = first_index(v, s@);
                if f >= 0 {
                    assert(v[f] == labels@[f]@);
                    assert(text_hash(labels@[f]@) == h);
                    assert(buckets@[h]@.contains(f as usize));
                    let q = choose|q: int| 0 <= q < b@.len() && b@[q] == f as usize;
                    assert(labels@[b@[q] as int]@ != s@);
                }
                assert(f < 0);
            }
            None
        },
    }
}

/// The distinct values of `v` in order of first appearance, and each
/// value's category index among them.
pub fn categorize(v: &Vec<String>) -> (r: (Vec<String>, Vec<usize>))
    ensures
        string_views(r.0@) == first_appearances(string_views(v@)),
        r.1@.len() == v@.len(),
        forall|k: int|
            0 <= k < v@.len() ==> #[trigger] r.1@[k] == category_index(string_views(v@), k),
{
    broadcast use vstd::std_specs::hash::group_hash_axioms;

    let ghost vals = string_views(v@);
    let mut labels: Vec<String> = Vec::new();
    let mut cats: Vec<usize> = Vec::new();
    let mut buckets: std::collections::HashMap<u64, Vec<usize>> = std::collections::HashMap::new();
    let mut i: usize = 0;
    while i < v.len()
        invariant
            i <= v@.len(),
            vals == string_views(v@),
            string_views(labels@) == first_appearances(vals.take(i as int)),
            buckets_sound(labels@, buckets@),
            buckets_complete(labels@, buckets@),
            cats@.len() == i,
            forall|k: int| 0 <= k < i ==> #[trigger] cats@[k] == category_index(vals, k),
        decreases v@.len() - i,
    {
        let ghost before = string_views(labels@);
        proof {
            lemma_first_appearances_step(vals, i + 1);
            lemma_first_appearances_prefix(vals, i + 1);
            lemma_first_appearances_prefix(vals, i as int);
            lemma_first_index(before, vals[i as int]);
            category_laws(vals.take(i as int));
            assert(distinct(before));
        }
        let h = hash_text(&v[i]);
        let c = match find_label(&labels, &buckets, &v[i], h) {
            Some(p) => p,
            None => {
                let j = labels.len();
                let ghost old_labels = labels@;
                let ghost old_buckets = buckets@;
                labels.push(v[i].clone());
                assert(string_views(labels@) =~= before.push(vals[i as int]));
                let mut bucket = match buckets.remove(&h) {
                    Some(b) => b,
                    None => Vec::new(),
                };
                let ghost old_bucket = bucket@;
                bucket.push(j);
                buckets.insert(h, bucket);
                proof {
                    assert forall|hh: u64, k: int|
                        #![trigger buckets@[hh]@[k]]
                        buckets@.contains_key(hh) && 0 <= k < buckets@[hh]@.len() implies buckets@[hh]@[k]
                        < labels@.len() && text_hash(labels@[buckets@[hh]@[k] as int]@) == hh by {
                        if hh == h {
                            if k < old_bucket.len() {
                                assert(old_buckets.contains_key(h));
                                assert(old_bucket == old_buckets[h]@);
                                assert(old_buckets[h]@[k] == buckets@[hh]@[k]);
                                assert(labels@[buckets@[hh]@[k] as int] == old_labels[buckets@[hh]@[k] as int]);
                            } else {
                                assert(buckets@[hh]@[k] == j);
                                assert(labels@[j as int] == v@[i as int]);
                            }
                        } else {
                            assert(old_buckets.contains_key(hh));
                            assert(old_buckets[hh] == buckets@[hh]);
                            assert(labels@[buckets@[hh]@[k] as int] == old_labels[buckets@[hh]@[k] as int]);
                        }
                    }
                    assert forall|jj: int| 0 <= jj < labels@.len() implies buckets@.contains_key(
                        #[trigger] text_hash(labels@[jj]@),
                    ) && buckets@[text_hash(labels@[jj]@)]@.contains(jj as usize) by {
                        let hh = text_hash(labels@[jj]@);
                        if jj < j {
                            assert(labels@[jj] == old_labels[jj]);
                            assert(old_buckets.contains_key(hh));
                            if hh == h {
                                assert(old_bucket == old_buckets[h]@);
                                let q = choose|q: int| 0 <= q < old_bucket.len() && old_bucket[q] == jj as usize;
                                assert(buckets@[hh]@[q] == jj as usize);
                            } else {
                                assert(buckets@[hh] == old_buckets[hh]);
                            }
                        } else {
                            assert(labels@[jj] == v@[i as int]);
                            assert(buckets@[hh]@[old_bucket.len() as int] == jj as usize);
                        }
                    }
                }
                j
            },
        };
        proof {
            let w = first_appearances(vals);
            let now = first_appearances(vals.take(i + 1));
            assert(string_views(labels@) == now);
            lemma_first_index(now, vals[i as int]);
            lemma_first_index(w, vals[i as int]);
            assert(now == w.take(now.len() as int));
            assert(now[c as int] == vals[i as int]);
            assert(w[c as int] == vals[i as int]);
            assert forall|j: int| 0 <= j < c implies w[j] != vals[i as int] by {
                assert(w[j] == now[j]);
            }
            let f = first_index(w, vals[i as int]);
            if f != c {
                if f < c {
                    if f >= 0 {
                        assert(w[f] == vals[i as int]);
                    } else {
                        assert(w.contains(vals[i as int]));
                    }
                } else {
                    assert(w[c as int] == vals[i as int]);
                }
            }
        }
        cats.push(c);
        i = i + 1;
    }
    assert(vals.take(i as int) =~= vals);
    (labels, cats)
}

// ---------------------------------------------------------------------
// Type inference
// ---------------------------------------------------------------------

/// A numeric cell: its trimmed literal, or missing when blank.
pub open spec fn numeric_cell(s: Seq<char>) -> Option<Seq<char>> {
    if blank(s) {
        None
    } else {
        Some(trim(s))
    }
}

/// A datetime cell: the point its trimmed text denotes, or missing when blank.
pub open spec fn datetime_cell(s: Seq<char>) -> Option<Timestamp> {
    if blank(s) {
        None
    } else {
        parse_datetime_spec(trim(s))
    }
}

/// Every non-blank value reads as a float.
pub open spec fn all_numeric(vals: Seq<Seq<char>>) -> bool {
    forall|i: int| 0 <= i < vals.len() && !blank(vals[i]) ==> is_float_literal(#[trigger] trim(vals[i]))
}

/// Every non-blank value reads as a date or date-time.
pub open spec fn all_datetime(vals: Seq<Seq<char>>) -> bool {
    forall|i: int|
        0 <= i < vals.len() && !blank(vals[i]) ==> (#[trigger] parse_datetime_spec(trim(vals[i])))
            is Some
}

/// The kind a column of raw text values is given: text when every value is
/// blank; numeric when every non-blank value is a float literal; datetime
/// when every non-blank value is a date or date-time; text otherwise.
pub open spec fn infer_spec(vals: Seq<Seq<char>>) -> ColumnValues {
    if forall|i: int| 0 <= i < vals.len() ==> blank(#[trigger] vals[i]) {
        ColumnValues::Text(vals)
    } else if all_numeric(vals) {
        ColumnValues::Numeric(vals.map_values(|s: Seq<char>| numeric_cell(s)))
    } else if all_datetime(vals) {
        ColumnValues::DateTime(vals.map_values(|s: Seq<char>| datetime_cell(s)))
    } else {
        ColumnValues::Text(vals)
    }
}

/// Classify a column of raw text values and convert it accordingly.
pub fn infer_column(values: &[String]) -> (k: ColumnKind)
    ensures
        k@ == infer_spec(string_views(values@)),
{
    let ghost vals = string_views(values@);
    let n = values.len();
    let mut trims: Vec<String> = Vec::new();
    let mut blanks: Vec<bool> = Vec::new();
    let mut any_filled = false;
    let mut numeric = true;
    let mut i: usize = 0;
    while i < n
        invariant
            n == values@.len() == vals.len(),
            vals == string_views(values@),
            i <= n,
            trims@.len() == i,
            blanks@.len() == i,
            forall|k: int| 0 <= k < i ==> (#[trigger] trims@[k])@ == trim(vals[k]),
            forall|k: int| 0 <= k < i ==> #[trigger] blanks@[k] == blank(vals[k]),
            any_filled == exists|k: int| 0 <= k < i && !blank(#[trigger] vals[k]),
            numeric == forall|k: int| 0 <= k < i && !blank(vals[k]) ==> is_float_literal(#[trigger] trim(vals[k])),
        decreases n - i,
    {
        let t = trimmed(values[i].as_str());
        let b = is_blank(values[i].as_str());
        assert(vals[i as int] == values@[i as int]@);
        if !b {
            any_filled = true;
            if !is_float_literal_str(t.as_str()) {
                numeric = false;
            }
        }
        trims.push(t);
        blanks.push(b);
        i = i + 1;
    }
    if !any_filled {
        let r = ColumnKind::Text(clone_strings(values));
        assert forall|k: int| 0 <= k < vals.len() implies blank(#[trigger] vals[k]) by {}
        return r;
    }
    if numeric {
        let mut out: Vec<Option<String>> = Vec::new();
        let mut j: usize = 0;
        while j < n
            invariant
                n == vals.len() == trims@.len() == blanks@.len(),
                j <= n,
                out@.len() == j,
                forall|k: int| 0 <= k < n ==> (#[trigger] trims@[k])@ == trim(vals[k]),
                forall|k: int| 0 <= k < n ==> #[trigger] blanks@[k] == blank(vals[k]),
                forall|k: int| 0 <= k < j ==> option_views(out@)[k] == numeric_cell(#[trigger] vals[k]),
            decreases n - j,
        {
            let cell = if blanks[j] {
                None
            } else {
                Some(trims[j].clone())
            };
            let ghost before = out@;
            out.push(cell);
            assert forall|k: int| 0 <= k < j + 1 implies option_views(out@)[k] == numeric_cell(#[trigger] vals[k]) by {
                if k < j {
                    assert(out@[k] == before[k]);
                    assert(option_views(before)[k] == numeric_cell(vals[k]));
                }
            }
            j = j + 1;
        }
        let r = ColumnKind::Numeric(out);
        assert(option_views(out@) =~= vals.map_values(|s: Seq<char>| numeric_cell(s)));
        return r;
    }
    let mut stamps: Vec<Option<Timestamp>> = Vec::new();
    let mut dated = true;
    let mut j: usize = 0;
    while j < n
        invariant
            n == vals.len() == trims@.len() == blanks@.len(),
            j <= n,
            stamps@.len() == j,
            forall|k: int| 0 <= k < n ==> (#[trigger] trims@[k])@ == trim(vals[k]),
            forall|k: int| 0 <= k < n ==> #[trigger] blanks@[k] == blank(vals[k]),
            forall|k: int| 0 <= k < j ==> #[trigger] stamps@[k] == datetime_cell(vals[k]),
            dated == forall|k: int| 0 <= k < j && !blank(vals[k]) ==> (#[trigger] parse_datetime_spec(trim(vals[k]))) is Some,
        decreases n - j,
    {
        let cell = if blanks[j] {
            None
        } else {
            let p = parse_datetime(trims[j].as_str());
            if p.is_none() {
                dated = false;
            }
            p
        };
        stamps.push(cell);
        j = j + 1;
    }
    if dated {
        assert(stamps@ =~= vals.map_values(|s: Seq<char>| datetime_cell(s)));
        ColumnKind::DateTime(stamps)
    } else {
        ColumnKind::Text(clone_strings(values))
    }
}

/// What inference keeps: as many values as it was given; text columns hold
/// the values unchanged; a numeric or datetime value is present exactly where
/// the cell is not blank.
pub proof fn infer_laws(vals: Seq<Seq<char>>)
    ensures
        infer_spec(vals).len() == vals.len(),
        infer_spec(vals) matches ColumnValues::Text(t) ==> t == vals,
        infer_spec(vals) matches ColumnValues::Numeric(xs) ==> forall|i: int|
            0 <= i < vals.len() ==> ((#[trigger] xs[i]) is Some <==> !blank(vals[i])),
        infer_spec(vals) matches ColumnValues::DateTime(xs) ==> forall|i: int|
            0 <= i < vals.len() ==> ((#[trigger] xs[i]) is Some <==> !blank(vals[i])),
{
    if infer_spec(vals) is DateTime {
        assert forall|i: int| 0 <= i < vals.len() && !blank(vals[i]) implies (#[trigger] datetime_cell(vals[i])) is Some by {
            assert(all_datetime(vals));
            assert(parse_datetime_spec(trim(vals[i])) is Some);
        }
    }
}

// ---------------------------------------------------------------------
// Building a table from records
// ---------------------------------------------------------------------

/// The text of each field of each record.
pub open spec fn record_views(rows: Seq<Vec<String>>) -> Seq<Seq<Seq<char>>> {
    rows.map_values(|r: Vec<String>| string_views(r@))
}

/// Field `i` of a record, or empty text when the record is shorter.
pub open spec fn record_field(row: Seq<Seq<char>>, i: int) -> Seq<char> {
    if 0 <= i < row.len() {
        row[i]
    } else {
        Seq::empty()
    }
}

/// Field `i` of every record.
pub open spec fn raw_column(rows: Seq<Seq<Seq<char>>>, i: int) -> Seq<Seq<char>> {
    rows.map_values(|r: Seq<Seq<char>>| record_field(r, i))
}

/// The table a header row and data records make: one column per header,
/// named by the trimmed header, holding that field of every record (empty
/// where a record is short) with its kind inferred; as many rows as records
/// (none when there is no column).
pub open spec fn table_from_records_spec(
    headers: Seq<Seq<char>>,
    rows: Seq<Seq<Seq<char>>>,
) -> TableView {
    TableView {
        columns: Seq::new(
            headers.len(),
            |i: int| ColumnView { name: trim(headers[i]), values: infer_spec(raw_column(rows, i)) },
        ),
        row_count: if headers.len() > 0 {
            rows.len()
        } else {
            0
        },
    }
}

/// Field `i` of every record, as owned strings.
fn column_of_records(rows: &[Vec<String>], i: usize) -> (col: Vec<String>)
    ensures
        string_views(col@) == raw_column(record_views(rows@), i as int),
{
    let mut col: Vec<String> = Vec::new();
    let mut r: usize = 0;
    while r < rows.len()
        invariant
            r <= rows@.len(),
            col@.len() == r,
            forall|k: int|
                0 <= k < r ==> (#[trigger] col@[k])@ == record_field(string_views(rows@[k]@), i as int),
        decreases rows@.len() - r,
    {
        let field = if i < rows[r].len() {
            rows[r][i].clone()
        } else {
            String::new()
        };
        col.push(field);
        r = r + 1;
    }
    assert(string_views(col@) =~= raw_column(record_views(rows@), i as int));
    col
}

/// Builds the table from a header row and data records.
pub fn table_from_records(headers: &[String], rows: &[Vec<String>]) -> (t: Table)
    ensures
        t@ == table_from_records_spec(string_views(headers@), record_views(rows@)),
{
    let ghost spec = table_from_records_spec(string_views(headers@), record_views(rows@));
    let mut columns: Vec<ColumnData> = Vec::new();
    let mut i: usize = 0;
    while i < headers.len()
        invariant
            i <= headers@.len(),
            spec == table_from_records_spec(string_views(headers@), record_views(rows@)),
            columns@.len() == i,
            forall|k: int| 0 <= k < i ==> (#[trigger] columns@[k])@ == spec.columns[k],
        decreases headers@.len() - i,
    {
        let name = trimmed(headers[i].as_str());
        let raw = column_of_records(rows, i);
        let kind = infer_column(raw.as_slice());
        assert(string_views(headers@)[i as int] == headers@[i as int]@);
        columns.push(ColumnData { name, kind });
        i = i + 1;
    }
    let row_count = if headers.len() > 0 {
        rows.len()
    } else {
        0
    };
    let t = Table { columns, row_count };
    assert(t@.columns =~= spec.columns);
    t
}

/// Every column of a table built from records holds one value per record,
/// so each column has `row_count` values whenever there is a column.
pub proof fn records_table_laws(headers: Seq<Seq<char>>, rows: Seq<Seq<Seq<char>>>)
    ensures
        table_from_records_spec(headers, rows).columns.len() == headers.len(),
        forall|i: int|
            0 <= i < headers.len() ==> (#[trigger] table_from_records_spec(headers, rows).columns[i]).values.len()
                == rows.len() && table_from_records_spec(headers, rows).row_count == rows.len(),
{
    assert forall|i: int| 0 <= i < headers.len() implies (#[trigger] table_from_records_spec(headers, rows).columns[i]).values.len()
        == rows.len() by {
        infer_laws(raw_column(rows, i));
    }
}

// ---------------------------------------------------------------------
// CSV (csv crate)
// ---------------------------------------------------------------------

/// Where reading CSV data failed.
#[derive(Clone, Copy, PartialEq, Eq, Debug, Structural)]
pub enum CsvStage {
    Header,
    Row,
}

/// What the csv crate reads from `bytes` with the given delimiter (a header
/// row expected, records allowed to differ in length): the header fields
/// and the fields of every following record, or the stage at which it
/// first reports an error together with that error's text (its `Display`).
pub uninterp spec fn csv_decode(bytes: Seq<u8>, delimiter: u8) -> Result<
    (Seq<Seq<char>>, Seq<Seq<Seq<char>>>),
    (CsvStage, Seq<char>),
>;

/// Reads all of `bytes` with csv's `ReaderBuilder` (headers on, flexible
/// record lengths, the given delimiter): the header record, then every
/// record, stopping at the first error, which is handed back as its text.
/// The claim is that the outcome, the error's text included, is a function
/// of `bytes` and `delimiter` (named `csv_decode`); the CSV grammar and the
/// wording of csv's messages are the csv crate's and are not restated.
#[verifier::external_body]
fn read_csv(bytes: &[u8], delimiter: u8) -> (r: Result<
    (Vec<String>, Vec<Vec<String>>),
    (CsvStage, String),
>)
    ensures
        match r {
            Ok((h, rows)) => csv_decode(bytes@, delimiter) == Ok::<
                (Seq<Seq<char>>, Seq<Seq<Seq<char>>>),
                (CsvStage, Seq<char>),
            >((string_views(h@), record_views(rows@))),
            Err((stage, m)) => csv_decode(bytes@, delimiter) == Err::<
                (Seq<Seq<char>>, Seq<Seq<Seq<char>>>),
                (CsvStage, Seq<char>),
            >((stage, m@)),
        },
{
    let mut rdr = csv::ReaderBuilder::new().has_headers(true).flexible(true).delimiter(
        delimiter,
    ).from_reader(bytes);
    let headers: Vec<String> = match rdr.headers() {
        Ok(h) => h.iter().map(|f| f.to_string()).collect(),
        Err(e) => return Err((CsvStage::Header, e.to_string())),
    };
    let mut rows: Vec<Vec<String>> = Vec::new();
    for rec in rdr.records() {
        match rec {
            Ok(r) => rows.push(r.iter().map(|f| f.to_string()).collect()),
            Err(e) => return Err((CsvStage::Row, e.to_string())),
        }
    }
    Ok((headers, rows))
}

/// Why a file could not be loaded.
#[derive(Clone, Debug)]
pub enum LoadError {
    /// The file's extension (lower-cased) names no supported format.
    UnsupportedExtension(String),
    /// The CSV header row could not be read; the csv crate's message.
    CsvHeader(String),
    /// A CSV data row could not be read; the csv crate's message.
    CsvRow(String),
    /// The Parquet metadata could not be read; the parquet crate's message.
    ParquetMetadata(String),
    /// The Parquet reader could not be set up; the parquet crate's message.
    ParquetReader(String),
    /// A Parquet record batch could not be read; arrow's message.
    ParquetBatch(String),
    /// A record batch does not line up with the file's schema (another
    /// number of columns, or a column of another length than the batch),
    /// or the rows overflow a `usize`.
    ParquetLayout,
}

impl LoadError {
    /// The text shown for this error.
    pub open spec fn message_spec(self) -> Seq<char> {
        match self {
            LoadError::UnsupportedExtension(ext) => "Unsupported file extension: ."@ + ext@
                + " (expected .csv, .tsv or .parquet)"@,
            LoadError::CsvHeader(m) => "reading CSV header row: "@ + m@,
            LoadError::CsvRow(m) => "reading CSV row: "@ + m@,
            LoadError::ParquetMetadata(m) => "reading parquet metadata: "@ + m@,
            LoadError::ParquetReader(m) => "building parquet reader: "@ + m@,
            LoadError::ParquetBatch(m) => "reading parquet batch: "@ + m@,
            LoadError::ParquetLayout => "reading parquet batch: the batch does not match the schema"@,
        }
    }

    pub fn message(&self) -> (s: String)
        ensures
            s@ == self.message_spec(),
    {
        match self {
            LoadError::UnsupportedExtension(ext) => {
                let mut s = "Unsupported file extension: .".to_owned();
                s.append(ext.as_str());
                s.append(" (expected .csv, .tsv or .parquet)");
                s
            },
            LoadError::CsvHeader(m) => {
                let mut s = "reading CSV header row: ".to_owned();
                s.append(m.as_str());
                s
            },
            LoadError::CsvRow(m) => {
                let mut s = "reading CSV row: ".to_owned();
                s.append(m.as_str());
                s
            },
            LoadError::ParquetMetadata(m) => {
                let mut s = "reading parquet metadata: ".to_owned();
                s.append(m.as_str());
                s
            },
            LoadError::ParquetReader(m) => {
                let mut s = "building parquet reader: ".to_owned();
                s.append(m.as_str());
                s
            },
            LoadError::ParquetBatch(m) => {
                let mut s = "reading parquet batch: ".to_owned();
                s.append(m.as_str());
                s
            },
            LoadError::ParquetLayout => "reading parquet batch: the batch does not match the schema".to_owned(),
        }
    }
}

/// Reads CSV data into a table, with the kind of each column inferred.
pub fn load_csv(bytes: &[u8], delimiter: u8) -> (r: Result<Table, LoadError>)
    ensures
        match csv_decode(bytes@, delimiter) {
            Ok((h, rows)) => r matches Ok(t) && t@ == table_from_records_spec(h, rows),
            Err((CsvStage::Header, m)) => r matches Err(LoadError::CsvHeader(s)) && s@ == m,
            Err((CsvStage::Row, m)) => r matches Err(LoadError::CsvRow(s)) && s@ == m,
        },
{
    match read_csv(bytes, delimiter) {
        Ok((headers, rows)) => Ok(table_from_records(headers.as_slice(), rows.as_slice())),
        Err((CsvStage::Header, m)) => Err(LoadError::CsvHeader(m)),
        Err((CsvStage::Row, m)) => Err(LoadError::CsvRow(m)),
    }
}

// ---------------------------------------------------------------------
// File formats
// ---------------------------------------------------------------------

/// How a file is read.
#[derive(Clone, Copy, PartialEq, Eq, Debug, Structural)]
pub enum FileFormat {
    /// Delimited text with a header row.
    Csv { delimiter: u8 },
    Parquet,
}

/// The format a lower-cased file extension names.
pub open spec fn format_spec(ext: Seq<char>) -> Option<FileFormat> {
    if ext == "csv"@ || ext == "txt"@ {
        Some(FileFormat::Csv { delimiter: 44 })
    } else if ext == "tsv"@ {
        Some(FileFormat::Csv { delimiter: 9 })
    } else if ext == "parquet"@ || ext == "pq"@ {
        Some(FileFormat::Parquet)
    } else {
        None
    }
}

/// The format for an already lower-cased extension.
pub fn format_for_lowercase_extension(ext: &str) -> (r: Result<FileFormat, LoadError>)
    ensures
        match format_spec(ext@) {
            Some(f) => r == Ok::<FileFormat, LoadError>(f),
            None => r matches Err(LoadError::UnsupportedExtension(e)) && e@ == ext@,
        },
{
    if same_text(ext, "csv") || same_text(ext, "txt") {
        Ok(FileFormat::Csv { delimiter: 44 })
    } else if same_text(ext, "tsv") {
        Ok(FileFormat::Csv { delimiter: 9 })
    } else if same_text(ext, "parquet") || same_text(ext, "pq") {
        Ok(FileFormat::Parquet)
    } else {
        Err(LoadError::UnsupportedExtension(ext.to_owned()))
    }
}

/// The format a file extension names, compared case-insensitively.
pub fn format_for_extension(ext: &str) -> (r: Result<FileFormat, LoadError>)
    ensures
        match format_spec(unicode_lowercase(ext@)) {
            Some(f) => r == Ok::<FileFormat, LoadError>(f),
            None => r matches Err(LoadError::UnsupportedExtension(e)) && e@ == unicode_lowercase(
                ext@,
            ),
        },
        all_ascii(ext@) ==> unicode_lowercase(ext@) == lowered(ext@),
{
    let lower = lowercase(ext);
    format_for_lowercase_extension(lower.as_str())
}

/// The X column a new subplot starts with: the time-filter column when
/// there is one, else the table's first column.
pub fn default_x_column(filter_column: &Option<String>, table: &Table) -> (r: Option<String>)
    ensures
        match filter_column {
            Some(f) => r == Some(*f),
            None => if table@.columns.len() > 0 {
                r matches Some(n) && n@ == table@.columns[0].name
            } else {
                r is None
            },
        },
{
    match filter_column {
        Some(f) => Some(f.clone()),
        None => if table.columns.len() > 0 {
            Some(table.columns[0].name.clone())
        } else {
            None
        },
    }
}

} // verus!
