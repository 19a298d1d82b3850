use vstd::prelude::*;

verus! {

/// The number of slots of a triangular table whose rows have the lengths
/// `1` to `n`.
pub open spec fn triangle(n: nat) -> nat {
    n * (n + 1) / 2
}

/// A table of `n` rows is a table of `n - 1` rows and one row of `n` slots.
pub proof fn lemma_triangle_step(n: nat)
    requires
        n > 0,
    ensures
        triangle(n) == triangle((n - 1) as nat) + n,
{
    assert(n * (n + 1) == (n - 1) * n + 2 * n) by (nonlinear_arith);
}

/// A deeper table is at least as large, and a table has room for its longest
/// row.
pub proof fn lemma_triangle_grows(m: nat, n: nat)
    requires
        m <= n,
    ensures
        triangle(m) <= triangle(n),
        n <= triangle(n),
    decreases n,
{
    if n > 0 {
        lemma_triangle_step(n);
        if m < n {
            lemma_triangle_grows(m, (n - 1) as nat);
        } else {
            lemma_triangle_grows((n - 1) as nat, (n - 1) as nat);
        }
    }
}

/// Where the row of a node with `depth` plies to go starts in a table of
/// `len` slots: the rows of the shallower nodes lie behind it, up to the end.
pub open spec fn row_start(len: nat, depth: nat) -> int {
    len - triangle(depth)
}

/// The row of a node with `depth` plies to go: its best line, `depth` moves.
pub open spec fn row<M>(table: Seq<M>, depth: nat) -> Seq<M> {
    table.subrange(row_start(table.len(), depth), row_start(table.len(), depth) + depth)
}

/// The table after a node with `depth` plies to go has found a new best
/// move: the move comes first in the node's row, and the row of the child
/// just searched, which lies right behind, is copied after it.
pub open spec fn record<M>(table: Seq<M>, depth: nat, best: M) -> Seq<M> {
    let start = row_start(table.len(), depth);
    Seq::new(
        table.len(),
        |j: int|
            if j == start {
                best
            } else if start < j < start + depth {
                table[j + depth - 1]
            } else {
                table[j]
            },
    )
}

/// Recording keeps the table's length and everything in front of the node's
/// row, and the node's row is then the move followed by the child's row.
pub proof fn lemma_record<M>(table: Seq<M>, depth: nat, best: M)
    requires
        depth >= 1,
        triangle(depth) <= table.len(),
    ensures
        record(table, depth, best).len() == table.len(),
        forall|j: int|
            0 <= j < row_start(table.len(), depth) ==> record(table, depth, best)[j] == table[j],
        row(record(table, depth, best), depth) == seq![best] + row(table, (depth - 1) as nat),
{
    lemma_triangle_step(depth);
    lemma_triangle_grows((depth - 1) as nat, (depth - 1) as nat);
    let after = record(table, depth, best);
    let start = row_start(table.len(), depth);
    let child = row(table, (depth - 1) as nat);
    assert(row_start(table.len(), (depth - 1) as nat) == start + depth);
    assert(child.len() == depth - 1);
    assert forall|j: int| 0 <= j < depth implies #[trigger] row(after, depth)[j] == (seq![best]
        + child)[j] by {
        if j > 0 {
            assert(after[start + j] == table[start + j + depth - 1]);
            assert(child[j - 1] == table[start + depth + j - 1]);
        }
    }
    assert(row(after, depth) =~= seq![best] + child);
}

/// Writes a new best move and the child's line into the row that starts at
/// `start`.
pub fn record_line<M: Copy>(table: &mut Vec<M>, start: usize, depth: usize, best: M)
    requires
        depth >= 1,
        start + triangle(depth as nat) == old(table).len(),
    ensures
        final(table)@ == record(old(table)@, depth as nat, best),
{
    let ghost before = table@;
    proof {
        lemma_triangle_step(depth as nat);
        lemma_triangle_grows((depth - 1) as nat, (depth - 1) as nat);
    }
    table.set(start, best);
    let mut i: usize = 1;
    while i < depth
        invariant
            1 <= i <= depth,
            table.len() == before.len(),
            start + triangle(depth as nat) == before.len(),
            triangle(depth as nat) == triangle((depth - 1) as nat) + depth,
            depth - 1 <= triangle((depth - 1) as nat),
            forall|j: int|
                0 <= j < before.len() ==> table@[j] == (if j == start {
                    best
                } else if start < j < start + i {
                    before[j + depth - 1]
                } else {
                    before[j]
                }),
        decreases depth - i,
    {
        let copied = table[start + i + depth - 1];
        table.set(start + i, copied);
        i += 1;
    }
    assert(table@ =~= record(before, depth as nat, best));
}

} // verus!
