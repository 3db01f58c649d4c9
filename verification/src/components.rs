use vstd::prelude::*;

verus! {

/// The width of one character on screen, in pixels.
pub const CHAR_WIDTH: usize = 9;

/// The pixels the terminal's margins take from the window's width.
pub const TERMINAL_MARGINS: usize = 65;

/// The most columns a listing is laid out in.
pub const MAX_COLUMNS: usize = 10;

/// `n` items in `cols` columns take this many rows.
pub open spec fn spec_num_rows(n: nat, cols: nat) -> nat
    recommends
        cols > 0,
{
    if n % cols > 0 {
        n / cols + 1
    } else {
        n / cols
    }
}

/// The number of rows `num_items` items take in `cols` columns.
pub fn num_rows(num_items: usize, cols: usize) -> (r: usize)
    requires
        cols > 0,
    ensures
        r == spec_num_rows(num_items as nat, cols as nat),
{
    let items_per_row = num_items / cols;
    if num_items % cols > 0 {
        proof {
            vstd::arithmetic::div_mod::lemma_fundamental_div_mod(num_items as int, cols as int);
            assert(items_per_row < usize::MAX) by (nonlinear_arith)
                requires
                    num_items == cols * items_per_row + num_items % cols,
                    num_items % cols > 0,
                    cols > 0,
                    num_items <= usize::MAX,
            ;
        }
        items_per_row + 1
    } else {
        items_per_row
    }
}

/// The screen width of an item: its text and two spaces.
pub open spec fn cell(len: usize) -> nat {
    len as nat + 2
}

/// The width of all items on one line.
pub open spec fn total_width(lens: Seq<usize>) -> nat
    decreases lens.len(),
{
    if lens.len() == 0 {
        0
    } else {
        total_width(lens.drop_last()) + cell(lens.last())
    }
}

/// The widest item.
pub open spec fn max_width(lens: Seq<usize>) -> nat
    decreases lens.len(),
{
    if lens.len() == 0 {
        0
    } else {
        let m = max_width(lens.drop_last());
        if cell(lens.last()) > m {
            cell(lens.last())
        } else {
            m
        }
    }
}

/// The items of column `k` when each column holds `rows` of them.
pub open spec fn column(lens: Seq<usize>, rows: nat, k: nat) -> Seq<usize> {
    let start = k * rows;
    let end = if (k + 1) * rows < lens.len() {
        (k + 1) * rows
    } else {
        lens.len() as nat
    };
    lens.subrange(start as int, end as int)
}

/// The width of each column when each holds `rows` items.
pub open spec fn column_widths(lens: Seq<usize>, rows: nat) -> Seq<nat>
    recommends
        rows > 0,
{
    Seq::new(spec_num_rows(lens.len(), rows), |k: int| max_width(column(lens, rows, k as nat)))
}

/// The sum of some widths.
pub open spec fn sum(ws: Seq<nat>) -> nat
    decreases ws.len(),
{
    if ws.len() == 0 {
        0
    } else {
        sum(ws.drop_last()) + ws.last()
    }
}

/// The number of columns used: the most (from `n` down) whose layout fits
/// in `avail`, else one.
pub open spec fn choose_cols(lens: Seq<usize>, avail: nat, n: nat) -> nat
    decreases n,
{
    if n == 0 {
        1
    } else if sum(column_widths(lens, spec_num_rows(lens.len(), n))) < avail {
        n
    } else {
        choose_cols(lens, avail, (n - 1) as nat)
    }
}

/// How a listing is laid out: on one line when it fits, else in columns
/// filled top to bottom, each `rows` items high and as wide as its
/// widest item.
pub enum Layout {
    Row,
    Grid { rows: usize, widths: Vec<usize> },
}

/// The width of the widest of `lens[start..end]`.
fn widest(lens: &Vec<usize>, start: usize, end: usize) -> (r: usize)
    requires
        start <= end <= lens@.len(),
        forall|i: int| 0 <= i < lens@.len() ==> lens@[i] + 2 <= usize::MAX,
    ensures
        r == max_width(lens@.subrange(start as int, end as int)),
{
    let mut m: usize = 0;
    let mut i: usize = start;
    assert(lens@.subrange(start as int, start as int) =~= Seq::<usize>::empty());
    while i < end
        invariant
            start <= i <= end <= lens@.len(),
            forall|q: int| 0 <= q < lens@.len() ==> lens@[q] + 2 <= usize::MAX,
            m == max_width(lens@.subrange(start as int, i as int)),
        decreases end - i,
    {
        assert(lens@.subrange(start as int, i + 1).drop_last() =~= lens@.subrange(start as int, i as int));
        let w = lens[i] + 2;
        if w > m {
            m = w;
        }
        i = i + 1;
    }
    m
}

proof fn lemma_max_le_total(lens: Seq<usize>)
    ensures
        max_width(lens) <= total_width(lens),
    decreases lens.len(),
{
    if lens.len() > 0 {
        lemma_max_le_total(lens.drop_last());
    }
}

/// Column `k` of a layout `rows` items high starts before the last item.
proof fn lemma_column_start(n: nat, rows: nat, k: nat)
    requires
        rows > 0,
        k < spec_num_rows(n, rows),
    ensures
        k * rows < n,
        (k + 1) * rows == k * rows + rows,
{
    let q = n / rows;
    let m = n % rows;
    vstd::arithmetic::div_mod::lemma_fundamental_div_mod(n as int, rows as int);
    assert(n == rows * q + m);
    if m > 0 {
        assert(k * rows < n) by (nonlinear_arith)
            requires
                k <= q,
                n == rows * q + m,
                m > 0,
                rows > 0,
        ;
    } else {
        assert(k * rows < n) by (nonlinear_arith)
            requires
                k < q,
                n == rows * q + m,
                m == 0,
                rows > 0,
        ;
    }
    assert((k + 1) * rows == k * rows + rows) by (nonlinear_arith);
}

/// A nonempty listing takes at least one row.
proof fn lemma_rows_positive(n: nat, cols: nat)
    requires
        cols > 0,
        n > 0,
    ensures
        spec_num_rows(n, cols) > 0,
{
    vstd::arithmetic::div_mod::lemma_fundamental_div_mod(n as int, cols as int);
    if n % cols == 0 {
        assert(n / cols > 0) by (nonlinear_arith)
            requires
                n == cols * (n / cols) + n % cols,
                n % cols == 0,
                n > 0,
        ;
    }
}

/// The width of a line is additive over its parts.
proof fn lemma_total_append(a: Seq<usize>, b: Seq<usize>)
    ensures
        total_width(a + b) == total_width(a) + total_width(b),
    decreases b.len(),
{
    if b.len() > 0 {
        assert((a + b).drop_last() =~= a + b.drop_last());
        lemma_total_append(a, b.drop_last());
    } else {
        assert(a + b =~= a);
    }
}

/// Every item is narrower than the whole line.
proof fn lemma_cell_le_total(lens: Seq<usize>, i: int)
    requires
        0 <= i < lens.len(),
    ensures
        cell(lens[i]) <= total_width(lens),
    decreases lens.len(),
{
    if i < lens.len() - 1 {
        lemma_cell_le_total(lens.drop_last(), i);
    }
}

/// The widths of the columns when each holds `rows` items, and their sum.
fn widths_for(lens: &Vec<usize>, rows: usize) -> (r: (Vec<usize>, usize))
    requires
        rows > 0,
        total_width(lens@) <= usize::MAX,
    ensures
        r.0@.map_values(|w: usize| w as nat) == column_widths(lens@, rows as nat),
        r.1 == sum(column_widths(lens@, rows as nat)),
{
    let n = lens.len();
    let cols = num_rows(n, rows);
    let ghost want = column_widths(lens@, rows as nat);
    proof {
        assert forall|i: int| 0 <= i < lens@.len() implies lens@[i] + 2 <= usize::MAX by {
            lemma_cell_le_total(lens@, i);
        }
    }
    let mut widths: Vec<usize> = Vec::new();
    let mut total: usize = 0;
    let mut k: usize = 0;
    assert(lens@.take(0) =~= Seq::<usize>::empty());
    assert(widths@.map_values(|w: usize| w as nat) =~= want.take(0));
    while k < cols
        invariant
            n == lens@.len(),
            rows > 0,
            cols == spec_num_rows(n as nat, rows as nat),
            want == column_widths(lens@, rows as nat),
            want.len() == cols,
            total_width(lens@) <= usize::MAX,
            forall|i: int| 0 <= i < lens@.len() ==> lens@[i] + 2 <= usize::MAX,
            k <= cols,
            widths@.map_values(|w: usize| w as nat) == want.take(k as int),
            total == sum(want.take(k as int)),
            k < cols ==> total <= total_width(lens@.take((k * rows) as int)),
        decreases cols - k,
    {
        proof {
            lemma_column_start(n as nat, rows as nat, k as nat);
        }
        let start = k * rows;
        let end = if rows < n - start {
            start + rows
        } else {
            n
        };
        let w = widest(lens, start, end);
        proof {
            let sub = lens@.subrange(start as int, end as int);
            assert(column(lens@, rows as nat, k as nat) =~= sub);
            assert(want[k as int] == w);
            lemma_max_le_total(sub);
            assert(lens@.take(end as int) =~= lens@.take(start as int) + sub);
            lemma_total_append(lens@.take(start as int), sub);
            assert(lens@ =~= lens@.take(end as int) + lens@.skip(end as int));
            lemma_total_append(lens@.take(end as int), lens@.skip(end as int));
            assert(want.take(k + 1).drop_last() =~= want.take(k as int));
            if k + 1 < cols {
                lemma_column_start(n as nat, rows as nat, (k + 1) as nat);
                assert(end == (k + 1) * rows);
            }
        }
        widths.push(w);
        total = total + w;
        k = k + 1;
        assert(widths@.map_values(|w: usize| w as nat) =~= want.take(k as int));
    }
    assert(want.take(cols as int) =~= want);
    (widths, total)
}

/// The characters that fit on one line of a window `width` pixels wide.
pub fn available_chars(width: usize) -> (r: usize)
    requires
        width >= TERMINAL_MARGINS,
    ensures
        r == (width - TERMINAL_MARGINS) as nat / (CHAR_WIDTH as nat),
{
    (width - TERMINAL_MARGINS) / CHAR_WIDTH
}

/// The width of all items on one line.
fn line_width(lens: &Vec<usize>) -> (r: usize)
    requires
        total_width(lens@) <= usize::MAX,
    ensures
        r == total_width(lens@),
{
    let mut total: usize = 0;
    let mut i: usize = 0;
    assert(lens@.take(0) =~= Seq::<usize>::empty());
    while i < lens.len()
        invariant
            i <= lens@.len(),
            total_width(lens@) <= usize::MAX,
            total == total_width(lens@.take(i as int)),
        decreases lens@.len() - i,
    {
        proof {
            assert(lens@.take(i + 1).drop_last() =~= lens@.take(i as int));
            assert(lens@ =~= lens@.take(i + 1) + lens@.skip(i + 1));
            lemma_total_append(lens@.take(i + 1), lens@.skip(i + 1));
        }
        total = total + lens[i] + 2;
        i = i + 1;
    }
    assert(lens@.take(i as int) =~= lens@);
    total
}

/// The most columns tried for `n` items.
pub open spec fn max_columns(n: nat) -> nat {
    if n < MAX_COLUMNS {
        n
    } else {
        MAX_COLUMNS as nat
    }
}

/// Lays out items of the given text lengths on a line `available`
/// characters wide: on one line when they fit; otherwise in as many
/// columns (at most ten) as fit, filled top to bottom, each as wide as its
/// widest item plus two spaces, and in one column when none fit.
pub fn columnar_layout(lens: &Vec<usize>, available: usize) -> (r: Layout)
    requires
        lens@.len() > 0 || available > 0,
        total_width(lens@) <= usize::MAX,
    ensures
        (r is Row) <==> total_width(lens@) < available,
        r matches Layout::Grid { rows, widths } ==> {
            &&& rows == spec_num_rows(
                lens@.len(),
                choose_cols(lens@, available as nat, max_columns(lens@.len())),
            )
            &&& widths@.map_values(|w: usize| w as nat) == column_widths(lens@, rows as nat)
        },
{
    let total = line_width(lens);
    if total < available {
        return Layout::Row;
    }
    let n = lens.len();
    let max_cols = if n < MAX_COLUMNS {
        n
    } else {
        MAX_COLUMNS
    };
    let ghost want = choose_cols(lens@, available as nat, max_cols as nat);
    let mut cols: usize = 1;
    let mut m: usize = max_cols;
    while m > 0
        invariant_except_break
            want == choose_cols(lens@, available as nat, m as nat),
            cols == 1,
        invariant
            n == lens@.len(),
            n > 0,
            m <= n,
            total_width(lens@) <= usize::MAX,
        ensures
            cols == want,
            1 <= cols <= n,
        decreases m,
    {
        proof {
            lemma_rows_positive(n as nat, m as nat);
        }
        let per_col = num_rows(n, m);
        let (_ws, s) = widths_for(lens, per_col);
        if s < available {
            cols = m;
            break;
        }
        m = m - 1;
    }
    proof {
        lemma_rows_positive(n as nat, cols as nat);
    }
    let rows = num_rows(n, cols);
    let (widths, _s) = widths_for(lens, rows);
    Layout::Grid { rows, widths }
}

} // verus!
