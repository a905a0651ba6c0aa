//! Vertical cell merges: which cells of generated table rows start or continue a span.
use vstd::prelude::*;

verus! {

/// A vertical-merge marker on a table cell.
#[derive(Debug, Clone, Copy, PartialEq, Eq, Structural)]
pub enum VMerge {
    /// The cell starts a span.
    Restart,
    /// The cell continues the span above it; its text is left out.
    Continue,
}

/// Rendered cell texts of one row.
pub type RowView = Seq<Seq<char>>;

/// The text of cell `c` of an optional row.
pub open spec fn cell_of(row: Option<RowView>, c: int) -> Option<Seq<char>> {
    match row {
        Some(r) => if 0 <= c < r.len() {
            Some(r[c])
        } else {
            None
        },
        None => None,
    }
}

/// The marker of cell `c`: it continues a span that is open in its column and equal to
/// the cell above; else it starts one when the cell below is equal and it is not empty.
pub open spec fn directive(
    merging: bool,
    prev: Option<RowView>,
    cur: RowView,
    next: Option<RowView>,
    c: int,
) -> Option<VMerge> {
    if merging && cell_of(prev, c) == Some(cur[c]) {
        Some(VMerge::Continue)
    } else if cell_of(next, c) == Some(cur[c]) && cur[c].len() > 0 {
        Some(VMerge::Restart)
    } else {
        None
    }
}

/// The markers of a row: one per cell, none for the cells past the tracked columns.
pub open spec fn row_directives(
    merging: Seq<bool>,
    prev: Option<RowView>,
    cur: RowView,
    next: Option<RowView>,
) -> Seq<Option<VMerge>> {
    Seq::new(
        cur.len(),
        |c: int|
            if c < merging.len() {
                directive(merging[c], prev, cur, next, c)
            } else {
                None
            },
    )
}

/// The open spans after a row.
pub open spec fn next_merging(
    merging: Seq<bool>,
    prev: Option<RowView>,
    cur: RowView,
    next: Option<RowView>,
) -> Seq<bool> {
    Seq::new(
        merging.len(),
        |c: int|
            if c < cur.len() {
                directive(merging[c], prev, cur, next, c) is Some
            } else {
                merging[c]
            },
    )
}

/// The tracked columns for a row: set up, all closed, from the first row that has cells.
pub open spec fn start_merging(merging: Seq<bool>, cur: RowView) -> Seq<bool> {
    if merging.len() == 0 {
        Seq::new(cur.len(), |c: int| false)
    } else {
        merging
    }
}

/// The rows' texts as mathematical values.
pub open spec fn rows_view(rows: Seq<Vec<String>>) -> Seq<RowView> {
    Seq::new(rows.len(), |i: int| Seq::new(rows[i]@.len(), |c: int| rows[i]@[c]@))
}

/// Row `i`, where there is one.
pub open spec fn opt_row(rows: Seq<RowView>, i: int) -> Option<RowView> {
    if 0 <= i < rows.len() {
        Some(rows[i])
    } else {
        None
    }
}

/// The open spans before row `i`.
pub open spec fn merging_before(rows: Seq<RowView>, i: nat) -> Seq<bool>
    decreases i,
{
    if i == 0 {
        Seq::empty()
    } else {
        let k = i - 1;
        let m = start_merging(merging_before(rows, (i - 1) as nat), rows[k]);
        next_merging(m, opt_row(rows, k - 1), rows[k], opt_row(rows, k + 1))
    }
}

/// The markers of row `i` of `rows`.
pub open spec fn plan_row(rows: Seq<RowView>, i: nat) -> Seq<Option<VMerge>> {
    row_directives(
        start_merging(merging_before(rows, i), rows[i as int]),
        opt_row(rows, i - 1),
        rows[i as int],
        opt_row(rows, (i + 1) as int),
    )
}

fn cell_equals(row: &Option<Vec<String>>, c: usize, v: &String) -> (r: bool)
    ensures
        r == (cell_of(opt_view(row), c as int) == Some(v@)),
{
    match row {
        Some(cells) => {
            if c < cells.len() {
                cells[c] == *v
            } else {
                false
            }
        },
        None => false,
    }
}

/// The texts of an optional row.
pub open spec fn opt_view(row: &Option<Vec<String>>) -> Option<RowView> {
    match row {
        Some(r) => Some(Seq::new(r@.len(), |c: int| r@[c]@)),
        None => None,
    }
}

/// The texts of a row.
pub open spec fn row_view(row: &Vec<String>) -> RowView {
    Seq::new(row@.len(), |c: int| row@[c]@)
}

/// The markers of the row `cur`, between `prev` and `next`, with `merging` the open
/// spans per column; `merging` is set up from `cur` when it tracks no column yet, and
/// then records the spans open after `cur`.
pub fn merge_step(
    merging: &mut Vec<bool>,
    prev: &Option<Vec<String>>,
    cur: &Vec<String>,
    next: &Option<Vec<String>>,
) -> (r: Vec<Option<VMerge>>)
    ensures
        r@ == row_directives(
            start_merging(old(merging)@, row_view(cur)),
            opt_view(prev),
            row_view(cur),
            opt_view(next),
        ),
        final(merging)@ == next_merging(
            start_merging(old(merging)@, row_view(cur)),
            opt_view(prev),
            row_view(cur),
            opt_view(next),
        ),
{
    if merging.len() == 0 {
        let mut c: usize = 0;
        while c < cur.len()
            invariant
                c <= cur.len(),
                merging@ =~= Seq::new(c as nat, |j: int| false),
            decreases cur.len() - c,
        {
            merging.push(false);
            c = c + 1;
        }
    }
    let ghost m0 = merging@;
    assert(m0 =~= start_merging(old(merging)@, row_view(cur)));
    let ghost pv = opt_view(prev);
    let ghost nv = opt_view(next);
    let ghost cv = row_view(cur);
    let mut out: Vec<Option<VMerge>> = Vec::new();
    let mut c: usize = 0;
    while c < cur.len()
        invariant
            c <= cur.len(),
            cv == row_view(cur),
            pv == opt_view(prev),
            nv == opt_view(next),
            merging@.len() == m0.len(),
            out@.len() == c,
            forall|j: int| 0 <= j < c ==> out@[j] == row_directives(m0, pv, cv, nv)[j],
            forall|j: int|
                0 <= j < m0.len() ==> merging@[j] == (if j < c {
                    next_merging(m0, pv, cv, nv)[j]
                } else {
                    m0[j]
                }),
        decreases cur.len() - c,
    {
        assert(cv[c as int] == cur@[c as int]@);
        if c >= merging.len() {
            out.push(None);
        } else if merging[c] && cell_equals(prev, c, &cur[c]) {
            out.push(Some(VMerge::Continue));
        } else if cell_equals(next, c, &cur[c]) && !cur[c].as_str().is_empty() {
            merging.set(c, true);
            out.push(Some(VMerge::Restart));
        } else {
            merging.set(c, false);
            out.push(None);
        }
        c = c + 1;
    }
    assert(out@ =~= row_directives(m0, pv, cv, nv));
    assert(merging@ =~= next_merging(m0, pv, cv, nv));
    out
}

/// The markers of every row of `rows`, computed one row at a time with the row before
/// and the row after in view.
pub fn merge_plan(rows: &Vec<Vec<String>>) -> (r: Vec<Vec<Option<VMerge>>>)
    ensures
        r@.len() == rows@.len(),
        forall|i: int| 0 <= i < rows@.len() ==> r@[i]@ == plan_row(rows_view(rows@), i as nat),
{
    let ghost rv = rows_view(rows@);
    let mut merging: Vec<bool> = Vec::new();
    let mut out: Vec<Vec<Option<VMerge>>> = Vec::new();
    let mut prev: Option<Vec<String>> = None;
    let mut i: usize = 0;
    while i < rows.len()
        invariant
            i <= rows.len(),
            rv == rows_view(rows@),
            out@.len() == i,
            merging@ == merging_before(rv, i as nat),
            opt_view(&prev) == opt_row(rv, i - 1),
            forall|j: int| 0 <= j < i ==> out@[j]@ == plan_row(rv, j as nat),
        decreases rows.len() - i,
    {
        let next: Option<Vec<String>> = if i + 1 < rows.len() {
            Some(rows[i + 1].clone())
        } else {
            None
        };
        proof {
            assert(row_view(&rows@[i as int]) =~= rv[i as int]);
            if i + 1 < rows.len() {
                assert(opt_view(&next)->0 =~= rv[i + 1]);
            }
        }
        let directives = merge_step(&mut merging, &prev, &rows[i], &next);
        out.push(directives);
        let cur = rows[i].clone();
        proof {
            assert(opt_view(&Some(cur))->0 =~= rv[i as int]);
        }
        prev = Some(cur);
        i = i + 1;
    }
    out
}

/// Every row has `width` cells.
pub open spec fn uniform(rows: Seq<RowView>, width: nat) -> bool {
    forall|i: int| 0 <= i < rows.len() ==> (#[trigger] rows[i]).len() == width
}

proof fn lemma_merging_len(rows: Seq<RowView>, width: nat, i: nat)
    requires
        uniform(rows, width),
        width > 0,
        0 < i <= rows.len(),
    ensures
        merging_before(rows, i).len() == width,
    decreases i,
{
    if i > 1 {
        lemma_merging_len(rows, width, (i - 1) as nat);
    }
    assert(rows[i - 1].len() == width);
    let k = i - 1;
    let m = start_merging(merging_before(rows, (i - 1) as nat), rows[k]);
    assert(m.len() == width);
    assert(merging_before(rows, i) == next_merging(m, opt_row(rows, k - 1), rows[k], opt_row(rows, k + 1)));
}

/// In rows of equal width, the marker of cell `c` of row `i` depends on that column
/// alone: the span open above it (the cell above has a marker) and the cells above and
/// below.
pub proof fn lemma_plan_column(rows: Seq<RowView>, width: nat, c: int, i: nat)
    requires
        uniform(rows, width),
        0 <= c < width,
        i < rows.len(),
    ensures
        plan_row(rows, i)[c] == directive(
            i > 0 && plan_row(rows, (i - 1) as nat)[c] is Some,
            opt_row(rows, i - 1),
            rows[i as int],
            opt_row(rows, (i + 1) as int),
            c,
        ),
{
    assert(rows[i as int].len() == width);
    if i > 0 {
        lemma_merging_len(rows, width, i);
        assert(rows[i - 1].len() == width);
        if i > 1 {
            lemma_merging_len(rows, width, (i - 1) as nat);
        }
    }
}

/// A run of equal non-empty cells gets one start marker and then continue markers, and a
/// following different cell gets none: cells `[a, a, a, b]` down column `c` of four
/// rows of equal width give `[Restart, Continue, Continue, none]` in that column.
pub proof fn lemma_run_collapses(rows: Seq<RowView>, width: nat, c: int, a: Seq<char>, b: Seq<char>)
    requires
        rows.len() == 4,
        uniform(rows, width),
        0 <= c < width,
        a.len() > 0,
        b.len() > 0,
        a != b,
        rows[0][c] == a,
        rows[1][c] == a,
        rows[2][c] == a,
        rows[3][c] == b,
    ensures
        plan_row(rows, 0)[c] == Some(VMerge::Restart),
        plan_row(rows, 1)[c] == Some(VMerge::Continue),
        plan_row(rows, 2)[c] == Some(VMerge::Continue),
        plan_row(rows, 3)[c] == None::<VMerge>,
{
    lemma_plan_column(rows, width, c, 0);
    lemma_plan_column(rows, width, c, 1);
    lemma_plan_column(rows, width, c, 2);
    lemma_plan_column(rows, width, c, 3);
    assert(rows[0].len() == width && rows[1].len() == width && rows[2].len() == width
        && rows[3].len() == width);
}

/// Empty cells never start a span, even when equal: cells `["", "", x]` down column `c`
/// of three rows of equal width get no marker in that column.
pub proof fn lemma_empty_never_starts(rows: Seq<RowView>, width: nat, c: int, x: Seq<char>)
    requires
        rows.len() == 3,
        uniform(rows, width),
        0 <= c < width,
        rows[0][c] == Seq::<char>::empty(),
        rows[1][c] == Seq::<char>::empty(),
        rows[2][c] == x,
    ensures
        plan_row(rows, 0)[c] == None::<VMerge>,
        plan_row(rows, 1)[c] == None::<VMerge>,
        plan_row(rows, 2)[c] == None::<VMerge>,
{
    lemma_plan_column(rows, width, c, 0);
    lemma_plan_column(rows, width, c, 1);
    lemma_plan_column(rows, width, c, 2);
    assert(rows[0].len() == width && rows[1].len() == width && rows[2].len() == width);
}

} // verus!
