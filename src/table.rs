//! Table accumulation and layout: column widths, padded rows and the
//! divider row.
use vstd::prelude::*;
use crate::event::ColumnAlign;
use crate::text::{spaces, push_chars, push_spaces};

verus! {

/// The cells of one table, collected between its start and end events.
pub struct Table {
    pub alignments: Vec<ColumnAlign>,
    pub head: Vec<Vec<char>>,
    pub body: Vec<Vec<Vec<char>>>,
}

pub open spec fn max_nat(a: nat, b: nat) -> nat {
    if a >= b {
        a
    } else {
        b
    }
}

/// Cell `i` of a row; a row that is too short has an empty cell there.
pub open spec fn cell_of(row: Seq<Vec<char>>, i: int) -> Seq<char> {
    if 0 <= i < row.len() {
        row[i]@
    } else {
        Seq::empty()
    }
}

/// The longest cell of column `i` over the body rows.
pub open spec fn body_width(body: Seq<Vec<Vec<char>>>, i: int) -> nat
    decreases body.len(),
{
    if body.len() == 0 {
        0
    } else {
        max_nat(body_width(body.drop_last(), i), cell_of(body.last()@, i).len())
    }
}

/// Width of column `i`: its longest cell, and at least three.
pub open spec fn column_width(head: Seq<Vec<char>>, body: Seq<Vec<Vec<char>>>, i: int) -> nat {
    max_nat(3, max_nat(cell_of(head, i).len(), body_width(body, i)))
}

/// One cell padded to width `w`, with its separators.
pub open spec fn padded_cell(cell: Seq<char>, w: nat) -> Seq<char> {
    seq![' '] + cell + spaces((w - cell.len()) as nat) + seq![' ', '|']
}

/// The first `k` columns of a row.
pub open spec fn row_prefix(row: Seq<Vec<char>>, widths: Seq<usize>, k: int) -> Seq<char>
    decreases k,
{
    if k <= 0 {
        seq!['|']
    } else {
        row_prefix(row, widths, k - 1) + padded_cell(cell_of(row, k - 1), widths[k - 1] as nat)
    }
}

/// A table row laid out in the given column widths.
pub open spec fn row_text(row: Seq<Vec<char>>, widths: Seq<usize>) -> Seq<char> {
    row_prefix(row, widths, widths.len() as int)
}

/// ColumnAlign of column `i`; a column without one is unaligned.
pub open spec fn align_of(aligns: Seq<ColumnAlign>, i: int) -> ColumnAlign {
    if 0 <= i < aligns.len() {
        aligns[i]
    } else {
        ColumnAlign::Unaligned
    }
}

/// `n` dashes.
pub open spec fn dashes(n: nat) -> Seq<char> {
    Seq::new(n, |i: int| '-')
}

/// The divider cell of a column of width `w`: dashes, with a colon at the
/// side or sides the column is aligned to.
pub open spec fn divider_cell(w: nat, a: ColumnAlign) -> Seq<char> {
    let first = if a == ColumnAlign::Left || a == ColumnAlign::Center {
        ':'
    } else {
        '-'
    };
    let last = if a == ColumnAlign::Right || a == ColumnAlign::Center {
        ':'
    } else {
        '-'
    };
    seq![' ', first] + dashes((w - 2) as nat) + seq![last, ' ', '|']
}

/// The first `k` columns of the divider row.
pub open spec fn divider_prefix(widths: Seq<usize>, aligns: Seq<ColumnAlign>, k: int) -> Seq<char>
    decreases k,
{
    if k <= 0 {
        seq!['|']
    } else {
        divider_prefix(widths, aligns, k - 1) + divider_cell(
            widths[k - 1] as nat,
            align_of(aligns, k - 1),
        )
    }
}

/// The divider row of a table.
pub open spec fn divider_text(widths: Seq<usize>, aligns: Seq<ColumnAlign>) -> Seq<char> {
    divider_prefix(widths, aligns, widths.len() as int)
}

/// Length of a table line over the first `k` columns.
pub open spec fn line_len(widths: Seq<usize>, k: int) -> nat
    decreases k,
{
    if k <= 0 {
        1
    } else {
        line_len(widths, k - 1) + widths[k - 1] as nat + 3
    }
}

/// The widths fit every cell of `row`.
pub open spec fn fits(row: Seq<Vec<char>>, widths: Seq<usize>) -> bool {
    forall|i: int| 0 <= i < widths.len() ==> cell_of(row, i).len() <= widths[i]
}

/// `after` is `before` with `cell` as the next cell: of the last body row,
/// or of the header while there is no body row.
pub open spec fn cell_filed(before: Table, after: Table, cell: Seq<char>) -> bool {
    &&& after.alignments == before.alignments
    &&& if before.body@.len() > 0 {
        &&& after.head == before.head
        &&& after.body@.len() == before.body@.len()
        &&& forall|i: int| 0 <= i < before.body@.len() - 1 ==> after.body@[i] == before.body@[i]
        &&& after.body@.last()@.len() == before.body@.last()@.len() + 1
        &&& forall|i: int|
            0 <= i < before.body@.last()@.len() ==> after.body@.last()@[i] == before.body@.last()@[i]
        &&& after.body@.last()@.last()@ == cell
    } else {
        &&& after.body == before.body
        &&& after.head@.len() == before.head@.len() + 1
        &&& forall|i: int| 0 <= i < before.head@.len() ==> after.head@[i] == before.head@[i]
        &&& after.head@.last()@ == cell
    }
}

/// The column widths of a table.
pub open spec fn table_widths(t: Table) -> Seq<usize> {
    Seq::new(t.head@.len(), |i: int| column_width(t.head@, t.body@, i) as usize)
}

/// The lines of a laid-out table: header, divider and body rows.
pub open spec fn table_texts(t: Table) -> Seq<Seq<char>> {
    let w = table_widths(t);
    seq![row_text(t.head@, w), divider_text(w, t.alignments@)] + t.body@.map_values(
        |row: Vec<Vec<char>>| row_text(row@, w),
    )
}

impl Table {
    /// An empty table with the given column alignments.
    pub fn new(alignments: Vec<ColumnAlign>) -> (t: Table)
        ensures
            t.alignments@ == alignments@,
            t.head@.len() == 0,
            t.body@.len() == 0,
    {
        Table { alignments, head: Vec::new(), body: Vec::new() }
    }

    /// The width of each column, one per header cell.
    pub fn column_widths(&self) -> (r: Vec<usize>)
        ensures
            r@.len() == self.head@.len(),
            forall|i: int|
                0 <= i < r@.len() ==> r@[i] as nat == column_width(self.head@, self.body@, i),
    {
        let mut r: Vec<usize> = Vec::new();
        let mut i: usize = 0;
        while i < self.head.len()
            invariant
                i <= self.head@.len(),
                r@.len() == i,
                forall|j: int|
                    0 <= j < i ==> r@[j] as nat == column_width(self.head@, self.body@, j),
            decreases self.head@.len() - i,
        {
            let mut w: usize = 0;
            let mut k: usize = 0;
            while k < self.body.len()
                invariant
                    k <= self.body@.len(),
                    i < self.head@.len(),
                    w as nat == body_width(self.body@.subrange(0, k as int), i as int),
                decreases self.body@.len() - k,
            {
                let row = &self.body[k];
                let c: usize = if i < row.len() {
                    row[i].len()
                } else {
                    0
                };
                assert(self.body@.subrange(0, k + 1).drop_last() == self.body@.subrange(
                    0,
                    k as int,
                ));
                if c > w {
                    w = c;
                }
                k += 1;
            }
            assert(self.body@.subrange(0, self.body@.len() as int) == self.body@);
            let h = self.head[i].len();
            if h > w {
                w = h;
            }
            if w < 3 {
                w = 3;
            }
            r.push(w);
            i += 1;
        }
        r
    }
}

/// Appends `row` laid out in `widths` to `buf`.
pub fn push_row(buf: &mut Vec<char>, row: &Vec<Vec<char>>, widths: &Vec<usize>)
    requires
        fits(row@, widths@),
    ensures
        final(buf)@ == old(buf)@ + row_text(row@, widths@),
{
    buf.push('|');
    let mut i: usize = 0;
    while i < widths.len()
        invariant
            i <= widths@.len(),
            fits(row@, widths@),
            buf@ == old(buf)@ + row_prefix(row@, widths@, i as int),
        decreases widths@.len() - i,
    {
        buf.push(' ');
        let n: usize = if i < row.len() {
            push_chars(buf, &row[i]);
            row[i].len()
        } else {
            0
        };
        assert(n == cell_of(row@, i as int).len());
        push_spaces(buf, widths[i] - n);
        buf.push(' ');
        buf.push('|');
        assert(buf@ == old(buf)@ + row_prefix(row@, widths@, i + 1));
        i += 1;
    }
}

/// Appends the divider row for `widths` and `aligns` to `buf`.
pub fn push_divider(buf: &mut Vec<char>, widths: &Vec<usize>, aligns: &Vec<ColumnAlign>)
    requires
        forall|i: int| 0 <= i < widths@.len() ==> widths@[i] >= 2,
    ensures
        final(buf)@ == old(buf)@ + divider_text(widths@, aligns@),
{
    buf.push('|');
    let mut i: usize = 0;
    while i < widths.len()
        invariant
            i <= widths@.len(),
            forall|j: int| 0 <= j < widths@.len() ==> widths@[j] >= 2,
            buf@ == old(buf)@ + divider_prefix(widths@, aligns@, i as int),
        decreases widths@.len() - i,
    {
        let a = if i < aligns.len() {
            aligns[i]
        } else {
            ColumnAlign::Unaligned
        };
        push_divider_cell(buf, widths[i], a);
        assert(buf@ == old(buf)@ + divider_prefix(widths@, aligns@, i + 1));
        i += 1;
    }
}

fn push_dashes(buf: &mut Vec<char>, n: usize)
    ensures
        final(buf)@ == old(buf)@ + dashes(n as nat),
{
    let mut i: usize = 0;
    while i < n
        invariant
            i <= n,
            buf@ == old(buf)@ + dashes(i as nat),
        decreases n - i,
    {
        buf.push('-');
        assert(dashes((i + 1) as nat) == dashes(i as nat).push('-'));
        i += 1;
    }
}

fn push_divider_cell(buf: &mut Vec<char>, w: usize, a: ColumnAlign)
    requires
        w >= 2,
    ensures
        final(buf)@ == old(buf)@ + divider_cell(w as nat, a),
{
    buf.push(' ');
    buf.push(
        if a == ColumnAlign::Left || a == ColumnAlign::Center {
            ':'
        } else {
            '-'
        },
    );
    push_dashes(buf, w - 2);
    buf.push(
        if a == ColumnAlign::Right || a == ColumnAlign::Center {
            ':'
        } else {
            '-'
        },
    );
    buf.push(' ');
    buf.push('|');
}

proof fn lemma_row_prefix_len(row: Seq<Vec<char>>, widths: Seq<usize>, k: int)
    requires
        0 <= k <= widths.len(),
        fits(row, widths),
    ensures
        row_prefix(row, widths, k).len() == line_len(widths, k),
    decreases k,
{
    if k > 0 {
        lemma_row_prefix_len(row, widths, k - 1);
    }
}

proof fn lemma_divider_prefix_len(widths: Seq<usize>, aligns: Seq<ColumnAlign>, k: int)
    requires
        0 <= k <= widths.len(),
        forall|i: int| 0 <= i < widths.len() ==> widths[i] >= 2,
    ensures
        divider_prefix(widths, aligns, k).len() == line_len(widths, k),
    decreases k,
{
    if k > 0 {
        lemma_divider_prefix_len(widths, aligns, k - 1);
    }
}

/// A laid-out table lines up: each column is as wide as its longest cell
/// and at least three, so it fits every cell; and the header row, the
/// divider row and every body row, short ones too, have one cell per
/// header cell and the same length.
pub proof fn lemma_table_lines_up(t: &Table, widths: Seq<usize>)
    requires
        widths.len() == t.head@.len(),
        forall|i: int|
            0 <= i < widths.len() ==> widths[i] as nat == column_width(t.head@, t.body@, i),
    ensures
        forall|i: int| 0 <= i < widths.len() ==> widths[i] >= 3,
        fits(t.head@, widths),
        forall|r: int| 0 <= r < t.body@.len() ==> fits(t.body@[r]@, widths),
        row_text(t.head@, widths).len() == line_len(widths, widths.len() as int),
        divider_text(widths, t.alignments@).len() == line_len(widths, widths.len() as int),
        forall|r: int|
            0 <= r < t.body@.len() ==> row_text(t.body@[r]@, widths).len() == line_len(
                widths,
                widths.len() as int,
            ),
{
    assert forall|r: int| 0 <= r < t.body@.len() implies fits(t.body@[r]@, widths) by {
        assert forall|i: int| 0 <= i < widths.len() implies cell_of(t.body@[r]@, i).len()
            <= widths[i] by {
            lemma_body_width_bounds(t.body@, i, r);
        }
    }
    lemma_row_prefix_len(t.head@, widths, widths.len() as int);
    lemma_divider_prefix_len(widths, t.alignments@, widths.len() as int);
    assert forall|r: int| 0 <= r < t.body@.len() implies row_text(t.body@[r]@, widths).len()
        == line_len(widths, widths.len() as int) by {
        lemma_row_prefix_len(t.body@[r]@, widths, widths.len() as int);
    }
}

proof fn lemma_body_width_bounds(body: Seq<Vec<Vec<char>>>, i: int, r: int)
    requires
        0 <= r < body.len(),
    ensures
        cell_of(body[r]@, i).len() <= body_width(body, i),
    decreases body.len(),
{
    if r < body.len() - 1 {
        lemma_body_width_bounds(body.drop_last(), i, r);
    }
}

} // verus!
