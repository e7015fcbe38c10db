//! Counting spec functions over cell sequences and bomb-position sequences,
//! with the lemmas the grid operations need: how the counts react to a
//! point update or a push, and how membership counting relates to length.

use vstd::prelude::*;

verus! {

use crate::cell::{Cell, CellStatus, CellType};

/// 1 when the cell holds a bomb, else 0.
pub open spec fn bomb_ind_cell(c: Cell) -> int {
    if c.cell_type == CellType::Bomb {
        1
    } else {
        0
    }
}

/// 1 when the cell is still hidden, else 0.
pub open spec fn hidden_ind_cell(c: Cell) -> int {
    if c.cell_status == CellStatus::Hidden {
        1
    } else {
        0
    }
}

/// How many cells of the sequence hold a bomb.
pub open spec fn count_bombs(s: Seq<Cell>) -> int
    decreases s.len(),
{
    if s.len() == 0 {
        0
    } else {
        count_bombs(s.drop_last()) + bomb_ind_cell(s.last())
    }
}

/// How many cells of the sequence are hidden.
pub open spec fn count_hidden(s: Seq<Cell>) -> int
    decreases s.len(),
{
    if s.len() == 0 {
        0
    } else {
        count_hidden(s.drop_last()) + hidden_ind_cell(s.last())
    }
}

pub proof fn lemma_count_bombs_push(s: Seq<Cell>, c: Cell)
    ensures
        count_bombs(s.push(c)) == count_bombs(s) + bomb_ind_cell(c),
{
    assert(s.push(c).drop_last() =~= s);
}

pub proof fn lemma_count_bombs_update(s: Seq<Cell>, i: int, c: Cell)
    requires
        0 <= i < s.len(),
    ensures
        count_bombs(s.update(i, c)) == count_bombs(s) - bomb_ind_cell(s[i]) + bomb_ind_cell(c),
    decreases s.len(),
{
    let t = s.update(i, c);
    if i == s.len() - 1 {
        assert(t.drop_last() =~= s.drop_last());
    } else {
        assert(t.drop_last() =~= s.drop_last().update(i, c));
        lemma_count_bombs_update(s.drop_last(), i, c);
        assert(t.last() == s.last());
    }
}

pub proof fn lemma_count_hidden_update(s: Seq<Cell>, i: int, c: Cell)
    requires
        0 <= i < s.len(),
    ensures
        count_hidden(s.update(i, c)) == count_hidden(s) - hidden_ind_cell(s[i]) + hidden_ind_cell(
            c,
        ),
    decreases s.len(),
{
    let t = s.update(i, c);
    if i == s.len() - 1 {
        assert(t.drop_last() =~= s.drop_last());
    } else {
        assert(t.drop_last() =~= s.drop_last().update(i, c));
        lemma_count_hidden_update(s.drop_last(), i, c);
        assert(t.last() == s.last());
    }
}

/// Counts are never negative.
pub proof fn lemma_counts_nonneg(s: Seq<Cell>)
    ensures
        count_bombs(s) >= 0,
        count_hidden(s) >= 0,
    decreases s.len(),
{
    if s.len() > 0 {
        lemma_counts_nonneg(s.drop_last());
    }
}

/// How many entries of the position sequence are below `n`.
pub open spec fn count_below(s: Seq<u16>, n: int) -> int
    decreases s.len(),
{
    if s.len() == 0 {
        0
    } else {
        count_below(s.drop_last(), n) + if (s.last() as int) < n {
            1int
        } else {
            0int
        }
    }
}

/// How many entries of the position sequence equal `n`.
pub open spec fn count_equal(s: Seq<u16>, n: int) -> int
    decreases s.len(),
{
    if s.len() == 0 {
        0
    } else {
        count_equal(s.drop_last(), n) + if s.last() as int == n {
            1int
        } else {
            0int
        }
    }
}

/// No entry lies below a non-positive bound.
pub proof fn lemma_count_below_nonpos(s: Seq<u16>, n: int)
    requires
        n <= 0,
    ensures
        count_below(s, n) == 0,
    decreases s.len(),
{
    if s.len() > 0 {
        lemma_count_below_nonpos(s.drop_last(), n);
    }
}

/// Raising the bound by one adds exactly the entries that equal the old bound.
pub proof fn lemma_count_below_step(s: Seq<u16>, n: int)
    ensures
        count_below(s, n + 1) == count_below(s, n) + count_equal(s, n),
    decreases s.len(),
{
    if s.len() > 0 {
        lemma_count_below_step(s.drop_last(), n);
    }
}

/// In a duplicate-free sequence a value occurs once if it is present and
/// never otherwise.
pub proof fn lemma_count_equal_no_dup(s: Seq<u16>, v: u16)
    requires
        s.no_duplicates(),
    ensures
        count_equal(s, v as int) == if s.contains(v) {
            1int
        } else {
            0int
        },
    decreases s.len(),
{
    if s.len() > 0 {
        assert(s.drop_last().no_duplicates());
        lemma_count_equal_no_dup(s.drop_last(), v);
        if s.last() == v {
            assert(!s.drop_last().contains(v)) by {
                if s.drop_last().contains(v) {
                    let j = choose|j: int| 0 <= j < s.len() - 1 && s.drop_last()[j] == v;
                    assert(s[j] == s[s.len() - 1]);
                }
            }
            assert(s.contains(v)) by {
                assert(s[s.len() - 1] == v);
            }
        } else {
            if s.drop_last().contains(v) {
                let j = choose|j: int| 0 <= j < s.len() - 1 && s.drop_last()[j] == v;
                assert(s[j] == v);
            }
            if s.contains(v) {
                let j = choose|j: int| 0 <= j < s.len() && s[j] == v;
                assert(j < s.len() - 1);
                assert(s.drop_last()[j] == v);
            }
        }
    }
}

/// When every entry is below the bound, the count below it is the length.
pub proof fn lemma_count_below_all(s: Seq<u16>, n: int)
    requires
        forall|k: int| 0 <= k < s.len() ==> (s[k] as int) < n,
    ensures
        count_below(s, n) == s.len(),
    decreases s.len(),
{
    if s.len() > 0 {
        lemma_count_below_all(s.drop_last(), n);
    }
}

} // verus!
