//! Scanlines, the unit of parallel work, and their reassembly in row order.

use vstd::prelude::*;

verus! {

/// One horizontal row of the image: the pixels of row `line_num`, left to
/// right. Row 0 is the top of the image.
pub struct Scanline<P> {
    pub pixels: Vec<P>,
    pub line_num: usize,
}

impl<P> Scanline<P> {
    /// The scanline of row `line_num` with the given pixels.
    pub fn new(pixels: Vec<P>, line_num: usize) -> (line: Self)
        ensures
            line.pixels == pixels,
            line.line_num == line_num,
    {
        Self { pixels, line_num }
    }
}

/// The rows of `s` never decrease from one scanline to the next.
pub open spec fn sorted_by_row<P>(s: Seq<Scanline<P>>) -> bool {
    forall|i: int, j: int| 0 <= i < j < s.len() ==> s[i].line_num <= s[j].line_num
}

/// The scanlines of `s` that belong to `row`, in the order in which they
/// stand in `s`.
pub open spec fn row_lines<P>(s: Seq<Scanline<P>>, row: usize) -> Seq<Scanline<P>> {
    s.filter(|l: Scanline<P>| l.line_num == row)
}

/// `s` holds exactly one scanline for each of the rows `0..n`, and none for
/// any other row.
pub open spec fn every_row_once<P>(s: Seq<Scanline<P>>, n: nat) -> bool {
    forall|row: usize| #[trigger] row_lines(s, row).len() == (if row < n { 1nat } else { 0nat })
}

/// The scanlines of a row in `a + b` are those in `a` followed by those in `b`.
pub proof fn lemma_row_lines_add<P>(a: Seq<Scanline<P>>, b: Seq<Scanline<P>>, row: usize)
    ensures
        row_lines(a + b, row) == row_lines(a, row) + row_lines(b, row),
{
    Seq::filter_distributes_over_add(a, b, |l: Scanline<P>| l.line_num == row);
}

/// A single scanline belongs to its own row and to no other.
pub proof fn lemma_row_lines_one<P>(line: Scanline<P>, row: usize)
    ensures
        row_lines(seq![line], row) == if row == line.line_num {
            seq![line]
        } else {
            Seq::empty()
        },
{
    let one = seq![line];
    reveal_with_fuel(Seq::filter, 2);
    assert(one.drop_last() =~= Seq::<Scanline<P>>::empty());
    assert(row_lines(one, row) =~= if row == line.line_num {
        one
    } else {
        Seq::empty()
    });
}

/// A row has scanlines in `s` exactly if some scanline of `s` names it.
pub proof fn lemma_row_present<P>(s: Seq<Scanline<P>>, row: usize)
    ensures
        row_lines(s, row).len() > 0 <==> exists|i: int|
            0 <= i < s.len() && (#[trigger] s[i]).line_num == row,
{
    let pred = |l: Scanline<P>| l.line_num == row;
    if exists|i: int| 0 <= i < s.len() && (#[trigger] s[i]).line_num == row {
        let i = choose|i: int| 0 <= i < s.len() && (#[trigger] s[i]).line_num == row;
        s.lemma_filter_contains(pred, i);
    } else {
        s.lemma_all_neg_filter_empty(pred);
    }
}

/// Two scanlines of one row make that row's scanlines at least two.
pub proof fn lemma_row_twice<P>(s: Seq<Scanline<P>>, i: int, j: int)
    requires
        0 <= i < j < s.len(),
        s[i].line_num == s[j].line_num,
    ensures
        row_lines(s, s[i].line_num).len() >= 2,
{
    let row = s[i].line_num;
    let head = s.subrange(0, j);
    let tail = s.subrange(j, s.len() as int);
    assert(s =~= head + tail);
    lemma_row_lines_add(head, tail, row);
    assert(head[i].line_num == row);
    lemma_row_present(head, row);
    assert(tail[0].line_num == row);
    lemma_row_present(tail, row);
}

/// Inserting `line` behind scanlines of strictly smaller rows puts it at the
/// head of its own row's scanlines and leaves every other row alone.
proof fn lemma_row_lines_insert<P>(s: Seq<Scanline<P>>, at: int, line: Scanline<P>, row: usize)
    requires
        0 <= at <= s.len(),
        forall|k: int| 0 <= k < at ==> s[k].line_num < line.line_num,
    ensures
        row_lines(s.insert(at, line), row) == if row == line.line_num {
            seq![line] + row_lines(s, row)
        } else {
            row_lines(s, row)
        },
{
    let head = s.subrange(0, at);
    let tail = s.subrange(at, s.len() as int);
    let one = seq![line];
    assert(s.insert(at, line) =~= (head + one) + tail);
    assert(s =~= head + tail);
    lemma_row_lines_add(head + one, tail, row);
    lemma_row_lines_add(head, one, row);
    lemma_row_lines_add(head, tail, row);
    lemma_row_lines_one(line, row);
    if row == line.line_num {
        lemma_row_present(head, row);
        assert(row_lines(head, row) =~= Seq::<Scanline<P>>::empty());
    }
}

/// Sorted, with each of the rows `0..n` exactly once: then the scanline of
/// row `i` stands at index `i`.
proof fn lemma_row_at_index<P>(s: Seq<Scanline<P>>, n: nat, i: int)
    requires
        sorted_by_row(s),
        every_row_once(s, n),
        0 <= i < n <= usize::MAX,
    ensures
        i < s.len(),
        s[i].line_num == i,
    decreases i,
{
    let row = i as usize;
    assert(row_lines(s, row).len() == 1);
    lemma_row_present(s, row);
    let j = choose|j: int| 0 <= j < s.len() && (#[trigger] s[j]).line_num == row;
    if i > 0 {
        lemma_row_at_index(s, n, i - 1);
        assert(j >= i);
        if s[i].line_num < i {
            lemma_row_twice(s, i - 1, i);
            assert(row_lines(s, s[i - 1].line_num).len() <= 1);
        }
    }
    if j > i && s[i].line_num == s[j].line_num {
        lemma_row_twice(s, i, j);
    }
}

/// The image law: a sorted sequence that holds each of the rows `0..n`
/// exactly once has `n` scanlines, and the one at index `i` is that of row
/// `i`, the only scanline of that row.
pub proof fn lemma_sorted_rows_in_place<P>(s: Seq<Scanline<P>>, n: nat)
    requires
        sorted_by_row(s),
        every_row_once(s, n),
        n <= usize::MAX,
    ensures
        s.len() == n,
        forall|i: int| 0 <= i < n ==> (#[trigger] s[i]).line_num == i,
        forall|i: int| 0 <= i < n ==> row_lines(s, i as usize) == seq![#[trigger] s[i]],
{
    if n > 0 {
        lemma_row_at_index(s, n, n - 1);
    }
    if s.len() > n {
        let extra = s[n as int].line_num;
        lemma_row_present(s, extra);
        assert(row_lines(s, extra).len() > 0);
        if extra < n {
            lemma_row_at_index(s, n, extra as int);
            lemma_row_twice(s, extra as int, n as int);
        }
    }
    assert forall|i: int| 0 <= i < n implies (#[trigger] s[i]).line_num == i && row_lines(
        s,
        i as usize,
    ) == seq![s[i]] by {
        lemma_row_at_index(s, n, i);
        let row = i as usize;
        let here = row_lines(s, row);
        assert(here.len() == 1);
        s.lemma_filter_contains(|l: Scanline<P>| l.line_num == row, i);
        assert(here.contains(s[i]));
        assert(here =~= seq![s[i]]);
    }
}

/// The order in which scanlines arrive does not show in the sorted image:
/// two sorted sequences that hold the same scanline for each of the rows
/// `0..n`, and nothing else, are equal.
pub proof fn lemma_arrival_order_irrelevant<P>(a: Seq<Scanline<P>>, b: Seq<Scanline<P>>, n: nat)
    requires
        sorted_by_row(a),
        sorted_by_row(b),
        every_row_once(a, n),
        n <= usize::MAX,
        forall|row: usize| #[trigger] row_lines(a, row) == row_lines(b, row),
    ensures
        a == b,
{
    assert(every_row_once(b, n)) by {
        assert forall|row: usize| #[trigger]
            row_lines(b, row).len() == (if row < n { 1nat } else { 0nat }) by {
            assert(row_lines(a, row) == row_lines(b, row));
        }
    }
    lemma_sorted_rows_in_place(a, n);
    lemma_sorted_rows_in_place(b, n);
    assert forall|i: int| 0 <= i < n implies a[i] == b[i] by {
        assert(row_lines(a, i as usize) == row_lines(b, i as usize));
        assert(seq![a[i]][0] == seq![b[i]][0]);
    }
    assert(a =~= b);
}

/// Puts scanlines in ascending row order. Scanlines of one row keep the order
/// they came in, so the result is the only sorted sequence that holds, for
/// every row, exactly the scanlines that `lines` holds for it.
pub fn sort_by_row<P>(lines: Vec<Scanline<P>>) -> (sorted: Vec<Scanline<P>>)
    ensures
        sorted_by_row(sorted@),
        sorted@.len() == lines@.len(),
        forall|row: usize| #[trigger] row_lines(sorted@, row) == row_lines(lines@, row),
{
    let ghost all = lines@;
    let mut rest = lines;
    let mut sorted: Vec<Scanline<P>> = Vec::new();
    proof {
        assert(all.subrange(all.len() as int, all.len() as int) =~= Seq::<Scanline<P>>::empty());
    }
    while rest.len() > 0
        invariant
            rest@.len() <= all.len(),
            rest@ == all.subrange(0, rest@.len() as int),
            sorted_by_row(sorted@),
            sorted@.len() + rest@.len() == all.len(),
            forall|row: usize| #[trigger]
                row_lines(sorted@, row) == row_lines(
                    all.subrange(rest@.len() as int, all.len() as int),
                    row,
                ),
        decreases rest.len(),
    {
        let ghost before = sorted@;
        let ghost k = rest@.len() as int;
        let line = rest.pop().unwrap();
        let mut at: usize = 0;
        while at < sorted.len() && sorted[at].line_num < line.line_num
            invariant
                at <= sorted.len(),
                forall|i: int| 0 <= i < at ==> sorted[i].line_num < line.line_num,
            decreases sorted.len() - at,
        {
            at += 1;
        }
        sorted.insert(at, line);
        proof {
            assert(line == all[k - 1]);
            assert(rest@ =~= all.subrange(0, k - 1));
            let done = all.subrange(k, all.len() as int);
            let more = all.subrange(k - 1, all.len() as int);
            assert(more =~= seq![line] + done);
            assert forall|row: usize| #[trigger]
                row_lines(sorted@, row) == row_lines(more, row) by {
                lemma_row_lines_insert(before, at as int, line, row);
                lemma_row_lines_insert(done, 0, line, row);
                assert(done.insert(0, line) =~= more);
                assert(row_lines(before, row) == row_lines(done, row));
            }
        }
    }
    proof {
        assert(all.subrange(0, all.len() as int) =~= all);
    }
    sorted
}

} // verus!
