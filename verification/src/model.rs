//! Configuration structs describing what the user has asked to plot:
//! one or more subplots, each with one or more series.
use vstd::prelude::*;

use crate::text::{decimal, decimal_string};

verus! {

// ---------------------------------------------------------------------
// Identifiers
// ---------------------------------------------------------------------

/// Hands out the identifiers of subplots and series, counting up from 1.
pub struct IdSource {
    pub next: u64,
}

impl IdSource {
    /// A source whose first identifier is 1.
    pub fn new() -> (s: IdSource)
        ensures
            s.next == 1,
    {
        IdSource { next: 1 }
    }
}

/// The identifier after `id`, wrapping around past `u64::MAX` as an atomic
/// `fetch_add` does.
pub open spec fn successor(id: u64) -> u64 {
    if id == u64::MAX {
        0
    } else {
        (id + 1) as u64
    }
}

/// An identifier is never followed by itself, so two identifiers drawn one
/// after the other always differ.
pub proof fn successor_differs(id: u64)
    ensures
        successor(id) != id,
{
}

/// Hands out the next identifier: the current one, moving the source on by one.
pub fn next_id(ids: &mut IdSource) -> (id: u64)
    ensures
        id == old(ids).next,
        final(ids).next == successor(old(ids).next),
{
    let id = ids.next;
    ids.next = if id == u64::MAX {
        0
    } else {
        id + 1
    };
    id
}

// ---------------------------------------------------------------------
// Colours
// ---------------------------------------------------------------------

/// An sRGB colour with alpha.
#[derive(Clone, Copy, PartialEq, Eq, Debug, Structural)]
pub struct Color {
    pub r: u8,
    pub g: u8,
    pub b: u8,
    pub a: u8,
}

impl Color {
    /// An opaque colour.
    pub fn from_rgb(r: u8, g: u8, b: u8) -> (c: Color)
        ensures
            c == (Color { r, g, b, a: 255 }),
    {
        Color { r, g, b, a: 255 }
    }
}

pub const PALETTE_LEN: usize = 10;

/// Color cycle used for new series. The first three match the standard
/// CAD convention for X/Y/Z axes (red/green/blue), since plotting three
/// axes of data is a common case; the rest continue an Excel-like cycle.
pub open spec fn palette(i: int) -> Color {
    let (r, g, b): (u8, u8, u8) = if i == 0 {
        (0xe6, 0x1e, 0x25)
    } else if i == 1 {
        (0x3d, 0xa5, 0x35)
    } else if i == 2 {
        (0x25, 0x63, 0xeb)
    } else if i == 3 {
        (0xff, 0x7f, 0x0e)
    } else if i == 4 {
        (0x94, 0x67, 0xbd)
    } else if i == 5 {
        (0x8c, 0x56, 0x4b)
    } else if i == 6 {
        (0xe3, 0x77, 0xc2)
    } else if i == 7 {
        (0x7f, 0x7f, 0x7f)
    } else if i == 8 {
        (0xbc, 0xbd, 0x22)
    } else {
        (0x17, 0xbe, 0xcf)
    };
    Color { r, g, b, a: 255 }
}

/// The `i`-th colour of the palette.
pub fn palette_color(i: usize) -> (c: Color)
    requires
        i < PALETTE_LEN,
    ensures
        c == palette(i as int),
{
    match i {
        0 => Color::from_rgb(0xe6, 0x1e, 0x25),
        1 => Color::from_rgb(0x3d, 0xa5, 0x35),
        2 => Color::from_rgb(0x25, 0x63, 0xeb),
        3 => Color::from_rgb(0xff, 0x7f, 0x0e),
        4 => Color::from_rgb(0x94, 0x67, 0xbd),
        5 => Color::from_rgb(0x8c, 0x56, 0x4b),
        6 => Color::from_rgb(0xe3, 0x77, 0xc2),
        7 => Color::from_rgb(0x7f, 0x7f, 0x7f),
        8 => Color::from_rgb(0xbc, 0xbd, 0x22),
        _ => Color::from_rgb(0x17, 0xbe, 0xcf),
    }
}

// ---------------------------------------------------------------------
// Chart types and axes
// ---------------------------------------------------------------------

#[derive(Clone, Copy, PartialEq, Eq, Debug, Structural)]
pub enum ChartType {
    Line,
    LineMarker,
    Scatter,
    Bar,
}

impl ChartType {
    pub const ALL: [ChartType; 4] = [
        ChartType::Line,
        ChartType::LineMarker,
        ChartType::Scatter,
        ChartType::Bar,
    ];

    /// The name shown for this chart type.
    pub open spec fn label_spec(self) -> Seq<char> {
        match self {
            ChartType::Line => "Line"@,
            ChartType::LineMarker => "Line + Marker"@,
            ChartType::Scatter => "Scatter"@,
            ChartType::Bar => "Bar"@,
        }
    }

    pub fn label(&self) -> (s: &'static str)
        ensures
            s@ == self.label_spec(),
    {
        match self {
            ChartType::Line => "Line",
            ChartType::LineMarker => "Line + Marker",
            ChartType::Scatter => "Scatter",
            ChartType::Bar => "Bar",
        }
    }
}

#[derive(Clone, Copy, PartialEq, Eq, Debug, Structural)]
pub enum AxisSide {
    Primary,
    Secondary,
}

// ---------------------------------------------------------------------
// Series and subplots
// ---------------------------------------------------------------------

/// One plotted series. Line width and marker radius are kept in hundredths
/// of a point.
#[derive(Clone, Debug)]
pub struct SeriesConfig {
    pub id: u64,
    pub name: String,
    pub y_column: String,
    pub chart_type: ChartType,
    pub axis: AxisSide,
    pub color: Color,
    pub visible: bool,
    pub line_width_hundredths: u32,
    pub marker_radius_hundredths: u32,
}

impl SeriesConfig {
    /// A visible line-and-marker series on the primary axis plotting
    /// `y_column`, named after it, coloured by the palette entry
    /// `palette_idx` (cycling), with a fresh identifier from `ids`.
    pub fn new(ids: &mut IdSource, y_column: String, palette_idx: usize) -> (s: Self)
        ensures
            s.id == old(ids).next,
            final(ids).next == successor(old(ids).next),
            s.name@ == y_column@,
            s.y_column@ == y_column@,
            s.chart_type == ChartType::LineMarker,
            s.axis == AxisSide::Primary,
            s.color == palette((palette_idx % PALETTE_LEN) as int),
            s.visible,
            s.line_width_hundredths == 180,
            s.marker_radius_hundredths == 250,
    {
        let id = next_id(ids);
        SeriesConfig {
            id,
            name: y_column.clone(),
            y_column,
            chart_type: ChartType::LineMarker,
            axis: AxisSide::Primary,
            color: palette_color(palette_idx % PALETTE_LEN),
            visible: true,
            line_width_hundredths: 180,
            marker_radius_hundredths: 250,
        }
    }
}

/// One subplot. Its height is kept in whole points; the axis ranges that
/// follow the live view are held by the user interface.
#[derive(Clone, Debug)]
pub struct SubplotConfig {
    pub id: u64,
    pub title: String,
    pub x_column: Option<String>,
    pub x_axis_title: String,
    pub y_axis_title: String,
    pub y2_axis_title: String,
    pub series: Vec<SeriesConfig>,
    pub show_legend: bool,
    pub height: u32,
    pub collapsed_settings: bool,
    pub reset_scale: bool,
    /// When set, the X/Y axis is clamped to its fixed range every frame
    /// instead of being mouse-zoomable/draggable.
    pub x_axis_fixed: bool,
    pub y_axis_fixed: bool,
}

/// The title of the subplot at position `index`.
pub open spec fn subplot_title(index: nat) -> Seq<char> {
    "Subplot "@ + decimal(index + 1)
}

impl SubplotConfig {
    /// The `index`-th subplot (numbered from 1 in its title), plotting
    /// against `x_column`, which also names the X axis, with no series yet.
    pub fn new(ids: &mut IdSource, index: usize, x_column: Option<String>) -> (s: Self)
        requires
            index < usize::MAX,
        ensures
            s.id == old(ids).next,
            final(ids).next == successor(old(ids).next),
            s.title@ == subplot_title(index as nat),
            s.x_column == x_column,
            s.x_axis_title@ == (match x_column {
                Some(x) => x@,
                None => Seq::<char>::empty(),
            }),
            s.y_axis_title@.len() == 0,
            s.y2_axis_title@.len() == 0,
            s.series@.len() == 0,
            s.show_legend,
            s.height == 320,
            !s.collapsed_settings,
            !s.reset_scale,
            !s.x_axis_fixed,
            !s.y_axis_fixed,
    {
        let x_axis_title = match &x_column {
            Some(x) => x.clone(),
            None => String::new(),
        };
        let mut title = "Subplot ".to_owned();
        let number = decimal_string(index + 1);
        title.append(number.as_str());
        let id = next_id(ids);
        SubplotConfig {
            id,
            title,
            x_column,
            x_axis_title,
            y_axis_title: String::new(),
            y2_axis_title: String::new(),
            series: Vec::new(),
            show_legend: true,
            height: 320,
            collapsed_settings: false,
            reset_scale: false,
            x_axis_fixed: false,
            y_axis_fixed: false,
        }
    }

    /// Whether some visible series is drawn against the secondary axis.
    pub open spec fn has_secondary_spec(self) -> bool {
        exists|i: int|
            0 <= i < self.series@.len() && (#[trigger] self.series@[i]).visible
                && self.series@[i].axis == AxisSide::Secondary
    }

    pub fn has_secondary_series(&self) -> (b: bool)
        ensures
            b == self.has_secondary_spec(),
    {
        let mut i: usize = 0;
        while i < self.series.len()
            invariant
                i <= self.series@.len(),
                forall|k: int|
                    0 <= k < i ==> !((#[trigger] self.series@[k]).visible && self.series@[k].axis
                        == AxisSide::Secondary),
            decreases self.series@.len() - i,
        {
            if self.series[i].visible && self.series[i].axis == AxisSide::Secondary {
                return true;
            }
            i = i + 1;
        }
        false
    }

    /// The column of each series, in order.
    pub open spec fn series_columns(self) -> Seq<Seq<char>> {
        columns_of(self.series@)
    }

    /// Where the search for a new series' column starts after: the most
    /// recently added series' column, or the X column when there is none.
    pub open spec fn anchor_column(self) -> Option<Seq<char>> {
        if self.series@.len() > 0 {
            Some(self.series@.last().y_column@)
        } else {
            match self.x_column {
                Some(x) => Some(x@),
                None => None,
            }
        }
    }
}

// ---------------------------------------------------------------------
// Choosing the column of a new series
// ---------------------------------------------------------------------

/// The text of each string.
pub open spec fn string_views(strs: Seq<String>) -> Seq<Seq<char>> {
    strs.map_values(|s: String| s@)
}

/// The column of each series, in order.
pub open spec fn columns_of(series: Seq<SeriesConfig>) -> Seq<Seq<char>> {
    series.map_values(|s: SeriesConfig| s.y_column@)
}

/// The first index of `c` in `cols`, or -1 where it does not occur.
pub open spec fn first_index(cols: Seq<Seq<char>>, c: Seq<char>) -> int
    decreases cols.len(),
{
    if cols.len() == 0 {
        -1
    } else if first_index(cols.drop_last(), c) >= 0 {
        first_index(cols.drop_last(), c)
    } else if cols.last() == c {
        cols.len() - 1
    } else {
        -1
    }
}

/// The index the search starts at: just after the anchor column, or 0 when
/// there is no anchor or it is not among `cols`.
pub open spec fn start_index(cols: Seq<Seq<char>>, anchor: Option<Seq<char>>) -> int {
    match anchor {
        Some(c) => if first_index(cols, c) >= 0 {
            first_index(cols, c) + 1
        } else {
            0
        },
        None => 0,
    }
}

/// The column `k` steps (cyclically) after position `start`.
pub open spec fn cyclic(cols: Seq<Seq<char>>, start: int, k: int) -> Seq<char> {
    cols[(start + k) % (cols.len() as int)]
}

/// The least step `k >= from` (below `cols.len()`) whose column is unused.
pub open spec fn first_unused_step(
    cols: Seq<Seq<char>>,
    used: Seq<Seq<char>>,
    start: int,
    from: int,
) -> Option<int>
    decreases cols.len() - from,
{
    if from < 0 || from >= cols.len() {
        None
    } else if !used.contains(cyclic(cols, start, from)) {
        Some(from)
    } else {
        first_unused_step(cols, used, start, from + 1)
    }
}

/// The column for a new series: stepping cyclically through `cols` from the
/// one after the anchor, the first that no series uses yet; the first column
/// once every column is used; nothing when there are no columns.
pub open spec fn next_column_spec(
    cols: Seq<Seq<char>>,
    used: Seq<Seq<char>>,
    anchor: Option<Seq<char>>,
) -> Option<Seq<char>> {
    if cols.len() == 0 {
        None
    } else {
        match first_unused_step(cols, used, start_index(cols, anchor), 0) {
            Some(k) => Some(cyclic(cols, start_index(cols, anchor), k)),
            None => Some(cols[0]),
        }
    }
}

/// The first index of `c` among `cols`.
fn find_column(cols: &[String], c: &String) -> (r: Option<usize>)
    ensures
        match r {
            Some(i) => first_index(string_views(cols@), c@) == i,
            None => first_index(string_views(cols@), c@) < 0,
        },
{
    let ghost v = string_views(cols@);
    let mut i: usize = 0;
    while i < cols.len()
        invariant
            i <= cols@.len(),
            v == string_views(cols@),
            first_index(v.take(i as int), c@) < 0,
        decreases cols@.len() - i,
    {
        assert(v.take(i + 1).drop_last() =~= v.take(i as int));
        if cols[i] == *c {
            proof {
                lemma_first_index_prefix(v, c@, i + 1);
            }
            return Some(i);
        }
        i = i + 1;
    }
    assert(v.take(cols@.len() as int) =~= v);
    None
}

/// An occurrence found in a prefix is the first in the whole sequence.
proof fn lemma_first_index_prefix(v: Seq<Seq<char>>, c: Seq<char>, n: int)
    requires
        0 <= n <= v.len(),
        first_index(v.take(n), c) >= 0,
    ensures
        first_index(v, c) == first_index(v.take(n), c),
    decreases v.len() - n,
{
    if n < v.len() {
        assert(v.take(n + 1).drop_last() =~= v.take(n));
        lemma_first_index_prefix(v, c, n + 1);
    } else {
        assert(v.take(n) =~= v);
    }
}

/// `first_index` finds `c` exactly at its first occurrence.
pub proof fn lemma_first_index(cols: Seq<Seq<char>>, c: Seq<char>)
    ensures
        -1 <= first_index(cols, c) < cols.len(),
        first_index(cols, c) >= 0 ==> cols[first_index(cols, c)] == c,
        forall|j: int| 0 <= j < cols.len() && j < first_index(cols, c) ==> cols[j] != c,
        first_index(cols, c) < 0 ==> !cols.contains(c),
    decreases cols.len(),
{
    if cols.len() > 0 {
        let p = cols.drop_last();
        lemma_first_index(p, c);
        assert forall|j: int| 0 <= j < p.len() implies p[j] == cols[j] by {}
        if first_index(p, c) < 0 && cols.last() != c {
            assert forall|j: int| 0 <= j < cols.len() implies cols[j] != c by {
                if j < p.len() {
                    assert(!p.contains(c));
                    assert(p[j] == cols[j]);
                }
            }
        }
    }
}

/// Whether some series of `series` plots column `c`.
fn column_in_use(series: &Vec<SeriesConfig>, c: &String) -> (b: bool)
    ensures
        b == columns_of(series@).contains(c@),
{
    let ghost used = columns_of(series@);
    let mut i: usize = 0;
    while i < series.len()
        invariant
            i <= series@.len(),
            used == columns_of(series@),
            forall|k: int| 0 <= k < i ==> used[k] != c@,
        decreases series@.len() - i,
    {
        if series[i].y_column == *c {
            assert(used[i as int] == c@);
            return true;
        }
        i = i + 1;
    }
    false
}

/// Pick the column for a newly-added series: the one right after the most
/// recently added series' column (or after the X column, if there are no
/// series yet), so repeated adds step through `y_columns` in order. Wraps
/// around, and falls back to the first column once every column is used.
pub fn next_series_column(y_columns: &[String], subplot: &SubplotConfig) -> (r: Option<String>)
    ensures
        match r {
            Some(c) => next_column_spec(
                string_views(y_columns@),
                subplot.series_columns(),
                subplot.anchor_column(),
            ) == Some(c@),
            None => next_column_spec(
                string_views(y_columns@),
                subplot.series_columns(),
                subplot.anchor_column(),
            ) is None,
        },
{
    let ghost cols = string_views(y_columns@);
    let ghost used = subplot.series_columns();
    let n = y_columns.len();
    if n == 0 {
        return None;
    }
    let anchor: Option<&String> = if subplot.series.len() > 0 {
        Some(&subplot.series[subplot.series.len() - 1].y_column)
    } else {
        match &subplot.x_column {
            Some(x) => Some(x),
            None => None,
        }
    };
    let start: usize = match anchor {
        Some(c) => match find_column(y_columns, c) {
            Some(p) => {
                proof {
                    lemma_first_index(cols, c@);
                }
                p + 1
            },
            None => 0,
        },
        None => 0,
    };
    assert(start == start_index(cols, subplot.anchor_column()));
    let mut k: usize = 0;
    while k < n
        invariant
            n == y_columns@.len() == cols.len() > 0,
            start <= n,
            start == start_index(cols, subplot.anchor_column()),
            cols == string_views(y_columns@),
            used == subplot.series_columns(),
            k <= n,
            first_unused_step(cols, used, start as int, 0) == first_unused_step(
                cols,
                used,
                start as int,
                k as int,
            ),
        decreases n - k,
    {
        let idx = if k < n - start {
            start + k
        } else {
            k - (n - start)
        };
        assert(idx == (start + k) % (n as int)) by (nonlinear_arith)
            requires
                start <= n,
                k < n,
                idx == (if k < n - start { start + k } else { k - (n - start) }),
        ;
        let c = &y_columns[idx];
        assert(c@ == cyclic(cols, start as int, k as int));
        if !column_in_use(&subplot.series, c) {
            return Some(c.clone());
        }
        k = k + 1;
    }
    Some(y_columns[0].clone())
}

/// What the column choice promises: nothing only when there are no
/// columns; otherwise one of the columns, never one already in use while
/// some column is free (and then the first free one stepping on from the
/// anchor), and the first column once every column is in use.
pub proof fn next_column_laws(
    cols: Seq<Seq<char>>,
    used: Seq<Seq<char>>,
    anchor: Option<Seq<char>>,
)
    ensures
        next_column_spec(cols, used, anchor) is None <==> cols.len() == 0,
        next_column_spec(cols, used, anchor) matches Some(c) ==> cols.contains(c),
        (exists|i: int| 0 <= i < cols.len() && !used.contains(#[trigger] cols[i])) ==> (
        next_column_spec(cols, used, anchor) matches Some(c) && !used.contains(c)),
        (forall|i: int| 0 <= i < cols.len() ==> used.contains(#[trigger] cols[i])) && cols.len()
            > 0 ==> next_column_spec(cols, used, anchor) == Some(cols[0]),
        ({
            let r = next_column_spec(cols, used, anchor);
            r is Some && !used.contains(r->0) ==> exists|k: int|
                0 <= k < cols.len() && r->0 == cyclic(cols, start_index(cols, anchor), k) && forall|
                    j: int,
                | 0 <= j < k ==> used.contains(#[trigger] cyclic(cols, start_index(cols, anchor), j))
        }),
{
    if cols.len() > 0 {
        let s = start_index(cols, anchor);
        match anchor {
            Some(c) => lemma_first_index(cols, c),
            None => {},
        }
        assert(0 <= s <= cols.len());
        lemma_first_unused_step(cols, used, s, 0);
        match first_unused_step(cols, used, s, 0) {
            Some(k) => {
                let idx = (s + k) % (cols.len() as int);
                assert(0 <= idx < cols.len()) by (nonlinear_arith)
                    requires
                        cols.len() > 0,
                        idx == (s + k) % (cols.len() as int),
                ;
                assert(cols[idx] == cyclic(cols, s, k));
            },
            None => {
                assert(cols[0] == cols[0]);
                if exists|i: int| 0 <= i < cols.len() && !used.contains(#[trigger] cols[i]) {
                    let i = choose|i: int| 0 <= i < cols.len() && !used.contains(#[trigger] cols[i]);
                    // the step that lands on `i`
                    let n = cols.len() as int;
                    let k = if i >= s % n {
                        i - s % n
                    } else {
                        i + n - s % n
                    };
                    assert(0 <= k < n && (s + k) % n == i) by (nonlinear_arith)
                        requires
                            n > 0,
                            0 <= s <= n,
                            0 <= i < n,
                            k == (if i >= s % n { i - s % n } else { i + n - s % n }),
                    ;
                    assert(used.contains(cyclic(cols, s, k)));
                }
            },
        }
    }
}

/// The columns of the series of a subplot that had none and X column `x`,
/// after `k` series were added, each on the column that `next_series_column`
/// picks (the last added column being the anchor of the next pick).
pub open spec fn added_columns(cols: Seq<Seq<char>>, x: Option<Seq<char>>, k: nat) -> Seq<
    Seq<char>,
>
    decreases k,
{
    if k == 0 {
        Seq::empty()
    } else {
        let u = added_columns(cols, x, (k - 1) as nat);
        match next_column_spec(cols, u, added_anchor(u, x)) {
            Some(c) => u.push(c),
            None => u,
        }
    }
}

/// The anchor of the next pick: the last added column, or `x` when none was
/// added.
pub open spec fn added_anchor(u: Seq<Seq<char>>, x: Option<Seq<char>>) -> Option<Seq<char>> {
    if u.len() > 0 {
        Some(u.last())
    } else {
        x
    }
}

/// No column name occurs twice.
pub open spec fn distinct_columns(cols: Seq<Seq<char>>) -> bool {
    forall|i: int, j: int| 0 <= i < j < cols.len() ==> cols[i] != cols[j]
}

/// Two different steps below `n` land on different positions.
proof fn lemma_steps_differ(s: int, i: int, k: int, n: int)
    requires
        n > 0,
        s >= 0,
        0 <= i < k < n,
    ensures
        (s + i) % n != (s + k) % n,
{
    let a = s + i;
    let b = s + k;
    assert(a == n * (a / n) + a % n) by (nonlinear_arith)
        requires
            n > 0,
    ;
    assert(b == n * (b / n) + b % n) by (nonlinear_arith)
        requires
            n > 0,
    ;
    if a % n == b % n {
        let d = b / n - a / n;
        assert(n * d == b - a) by (nonlinear_arith)
            requires
                a == n * (a / n) + a % n,
                b == n * (b / n) + b % n,
                a % n == b % n,
                d == b / n - a / n,
        ;
        assert(false) by (nonlinear_arith)
            requires
                n * d == b - a,
                0 < b - a < n,
                n > 0,
        ;
    }
}

/// The step from `s` that lands on position `i`.
proof fn lemma_step_to(s: int, i: int, n: int) -> (k: int)
    requires
        n > 0,
        0 <= s <= n,
        0 <= i < n,
    ensures
        0 <= k < n,
        (s + k) % n == i,
{
    let k = if i >= s % n {
        i - s % n
    } else {
        i + n - s % n
    };
    assert(0 <= k < n && (s + k) % n == i) by (nonlinear_arith)
        requires
            n > 0,
            0 <= s <= n,
            0 <= i < n,
            k == (if i >= s % n { i - s % n } else { i + n - s % n }),
    ;
    k
}

/// The pick after `k < n` adds, given that the first `k` adds took the
/// first `k` steps from the start.
proof fn lemma_next_pick(cols: Seq<Seq<char>>, x: Option<Seq<char>>, u: Seq<Seq<char>>, k: int)
    requires
        cols.len() > 0,
        distinct_columns(cols),
        0 <= k < cols.len(),
        u.len() == k,
        forall|i: int| 0 <= i < k ==> u[i] == cyclic(cols, start_index(cols, x), i),
    ensures
        next_column_spec(cols, u, added_anchor(u, x)) == Some(cyclic(cols, start_index(cols, x), k)),
{
    let n = cols.len() as int;
    let s = start_index(cols, x);
    match x {
        Some(c) => lemma_first_index(cols, c),
        None => {},
    }
    assert(0 <= s <= n);
    let t = start_index(cols, added_anchor(u, x));
    let c = cyclic(cols, s, k);
    // the anchor is followed by the column `k` steps from the start
    if k == 0 {
        assert(t == s);
    } else {
        let m = (s + k - 1) % n;
        assert(0 <= m < n) by (nonlinear_arith)
            requires
                n > 0,
                m == (s + k - 1) % n,
                s + k - 1 >= 0,
        ;
        let a = u.last();
        assert(a == cols[m]);
        lemma_first_index(cols, a);
        assert(cols.contains(a));
        let f = first_index(cols, a);
        assert(f == m);
        assert(t == m + 1);
        assert((m + 1) % n == (s + k) % n) by (nonlinear_arith)
            requires
                n > 0,
                m == (s + k - 1) % n,
                s + k - 1 >= 0,
        ;
    }
    assert(cyclic(cols, t, 0) == c);
    // and that column is not used yet
    assert(0 <= (s + k) % n < n) by (nonlinear_arith)
        requires
            n > 0,
            s + k >= 0,
    ;
    assert forall|i: int| 0 <= i < u.len() implies #[trigger] u[i] != c by {
        lemma_steps_differ(s, i, k, n);
        assert(0 <= (s + i) % n < n) by (nonlinear_arith)
            requires
                n > 0,
                s + i >= 0,
        ;
    }
    assert(!u.contains(c));
    assert(first_unused_step(cols, u, t, 0) == Some(0int));
}

/// Repeated adds to a subplot with no series step through distinct columns
/// in order, from the one after the X column (from the first when the X
/// column is not among them), wrapping around; after as many adds as there
/// are columns every column has been used once, and the next pick is the
/// first column.
pub proof fn repeated_adds_law(cols: Seq<Seq<char>>, x: Option<Seq<char>>, k: nat)
    requires
        cols.len() > 0,
        distinct_columns(cols),
        k <= cols.len(),
    ensures
        added_columns(cols, x, k).len() == k,
        forall|i: int|
            0 <= i < k ==> #[trigger] added_columns(cols, x, k)[i] == cyclic(
                cols,
                start_index(cols, x),
                i,
            ),
        k < cols.len() ==> next_column_spec(
            cols,
            added_columns(cols, x, k),
            added_anchor(added_columns(cols, x, k), x),
        ) == Some(cyclic(cols, start_index(cols, x), k as int)),
        k == cols.len() ==> forall|i: int|
            0 <= i < cols.len() ==> added_columns(cols, x, k).contains(#[trigger] cols[i]),
        k == cols.len() ==> next_column_spec(
            cols,
            added_columns(cols, x, k),
            added_anchor(added_columns(cols, x, k), x),
        ) == Some(cols[0]),
    decreases k,
{
    let s = start_index(cols, x);
    let n = cols.len() as int;
    let u = added_columns(cols, x, k);
    if k > 0 {
        repeated_adds_law(cols, x, (k - 1) as nat);
        let p = added_columns(cols, x, (k - 1) as nat);
        assert(u == p.push(cyclic(cols, s, k - 1)));
    }
    if k < cols.len() {
        lemma_next_pick(cols, x, u, k as int);
    } else {
        match x {
            Some(c) => lemma_first_index(cols, c),
            None => {},
        }
        assert forall|i: int| 0 <= i < cols.len() implies u.contains(#[trigger] cols[i]) by {
            let j = lemma_step_to(s, i, n);
            assert(u[j] == cols[i]);
        }
        next_column_laws(cols, u, added_anchor(u, x));
    }
}

/// `first_unused_step` yields the least free step from `from`, and when it
/// yields nothing every step from `from` is in use.
proof fn lemma_first_unused_step(
    cols: Seq<Seq<char>>,
    used: Seq<Seq<char>>,
    start: int,
    from: int,
)
    requires
        0 <= from <= cols.len(),
    ensures
        match first_unused_step(cols, used, start, from) {
            Some(k) => from <= k < cols.len() && !used.contains(cyclic(cols, start, k)) && forall|
                j: int,
            | from <= j < k ==> used.contains(#[trigger] cyclic(cols, start, j)),
            None => forall|j: int|
                from <= j < cols.len() ==> used.contains(#[trigger] cyclic(cols, start, j)),
        },
    decreases cols.len() - from,
{
    if from < cols.len() {
        lemma_first_unused_step(cols, used, start, from + 1);
    }
}

} // verus!
