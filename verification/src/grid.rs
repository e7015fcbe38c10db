//! The grid engine: a rectangular array of cells, indexed row-major by
//! `y * width + x`, with construction, neighbor geometry, bomb-count
//! queries, reveal with flood-fill, and flag toggling.

use vstd::prelude::*;

verus! {

use crate::cell::{Cell, CellStatus, CellType, toggled_status};
use crate::count::{
    bomb_ind_cell,
    count_below,
    count_bombs,
    count_hidden,
    hidden_ind_cell,
    lemma_count_below_all,
    lemma_count_below_nonpos,
    lemma_count_below_step,
    lemma_count_bombs_push,
    lemma_count_bombs_update,
    lemma_count_equal_no_dup,
    lemma_count_hidden_update,
    lemma_counts_nonneg,
};

broadcast use
    vstd::seq_lib::lemma_seq_concat_contains_all_elements,
    vstd::seq_lib::lemma_seq_contains_after_push,
    vstd::seq_lib::lemma_seq_empty_contains_nothing,
;

/// A Minesweeper grid: fixed dimensions and bomb count, and one cell per
/// position, stored row-major.
pub struct Game {
    pub width: u8,
    pub height: u8,
    pub cells: Vec<Cell>,
    pub bomb_count: u16,
}

/// Whether `(nx, ny)` is one of the up-to-eight cells adjacent to `(x, y)`:
/// both coordinates within one step, and not the origin itself.
pub open spec fn is_neighbor(x: u8, y: u8, nx: u8, ny: u8) -> bool {
    &&& !(nx == x && ny == y)
    &&& x - 1 <= nx <= x + 1
    &&& y - 1 <= ny <= y + 1
}

/// A singleton coordinate sequence when the guard holds, else empty.
pub open spec fn opt_coord(guard: bool, p: (u8, u8)) -> Seq<(u8, u8)> {
    if guard {
        seq![p]
    } else {
        Seq::empty()
    }
}

/// The neighbors of `(x, y)` in a `w` by `h` grid, in the fixed enumeration
/// order: the row above left to right, the row below left to right, then the
/// left and right neighbors of the same row.
pub open spec fn neighbor_seq(w: u8, h: u8, x: u8, y: u8) -> Seq<(u8, u8)> {
    opt_coord(y > 0 && x > 0, ((x - 1) as u8, (y - 1) as u8)) + opt_coord(
        y > 0,
        (x, (y - 1) as u8),
    ) + opt_coord(y > 0 && x < w - 1, ((x + 1) as u8, (y - 1) as u8)) + opt_coord(
        y < h - 1 && x > 0,
        ((x - 1) as u8, (y + 1) as u8),
    ) + opt_coord(y < h - 1, (x, (y + 1) as u8)) + opt_coord(
        y < h - 1 && x < w - 1,
        ((x + 1) as u8, (y + 1) as u8),
    ) + opt_coord(x > 0, ((x - 1) as u8, y)) + opt_coord(x < w - 1, ((x + 1) as u8, y))
}

/// How many positions of the coordinate sequence hold a bomb in the grid.
pub open spec fn count_bombs_at(g: Game, s: Seq<(u8, u8)>) -> int
    decreases s.len(),
{
    if s.len() == 0 {
        0
    } else {
        count_bombs_at(g, s.drop_last()) + bomb_ind_cell(g.cell_at(s.last().0, s.last().1))
    }
}

/// Concatenation of duplicate-free sequences with no common element is
/// duplicate-free.
proof fn lemma_no_dup_concat_disjoint(a: Seq<(u8, u8)>, b: Seq<(u8, u8)>)
    requires
        a.no_duplicates(),
        b.no_duplicates(),
        forall|q: (u8, u8)| a.contains(q) ==> !b.contains(q),
    ensures
        (a + b).no_duplicates(),
{
    assert forall|i: int, j: int| 0 <= i < a.len() && 0 <= j < b.len() implies a[i] != b[j] by {
        if a[i] == b[j] {
            assert(a.contains(a[i]));
            assert(b.contains(b[j]));
        }
    }
    vstd::seq_lib::lemma_no_dup_in_concat(a, b);
}

/// The neighbor enumeration holds exactly the in-bounds adjacent positions,
/// each once, and its length is the size of the surrounding box minus the
/// origin itself.
pub proof fn lemma_neighbor_seq_props(w: u8, h: u8, x: u8, y: u8)
    requires
        x < w,
        y < h,
    ensures
        forall|q: (u8, u8)|
            #[trigger] neighbor_seq(w, h, x, y).contains(q) <==> (q.0 < w && q.1 < h && is_neighbor(
                x,
                y,
                q.0,
                q.1,
            )),
        neighbor_seq(w, h, x, y).no_duplicates(),
        neighbor_seq(w, h, x, y).len() == (1 + (if x > 0 {
            1int
        } else {
            0int
        }) + (if x < w - 1 {
            1int
        } else {
            0int
        })) * (1 + (if y > 0 {
            1int
        } else {
            0int
        }) + (if y < h - 1 {
            1int
        } else {
            0int
        })) - 1,
{
    let s1 = opt_coord(y > 0 && x > 0, ((x - 1) as u8, (y - 1) as u8));
    let s2 = opt_coord(y > 0, (x, (y - 1) as u8));
    let s3 = opt_coord(y > 0 && x < w - 1, ((x + 1) as u8, (y - 1) as u8));
    let s4 = opt_coord(y < h - 1 && x > 0, ((x - 1) as u8, (y + 1) as u8));
    let s5 = opt_coord(y < h - 1, (x, (y + 1) as u8));
    let s6 = opt_coord(y < h - 1 && x < w - 1, ((x + 1) as u8, (y + 1) as u8));
    let s7 = opt_coord(x > 0, ((x - 1) as u8, y));
    let s8 = opt_coord(x < w - 1, ((x + 1) as u8, y));
    let s = neighbor_seq(w, h, x, y);
    assert(s == s1 + s2 + s3 + s4 + s5 + s6 + s7 + s8);
    lemma_no_dup_concat_disjoint(s1, s2);
    lemma_no_dup_concat_disjoint(s1 + s2, s3);
    lemma_no_dup_concat_disjoint(s1 + s2 + s3, s4);
    lemma_no_dup_concat_disjoint(s1 + s2 + s3 + s4, s5);
    lemma_no_dup_concat_disjoint(s1 + s2 + s3 + s4 + s5, s6);
    lemma_no_dup_concat_disjoint(s1 + s2 + s3 + s4 + s5 + s6, s7);
    lemma_no_dup_concat_disjoint(s1 + s2 + s3 + s4 + s5 + s6 + s7, s8);
    let a: int = if x > 0 {
        1
    } else {
        0
    };
    let b: int = if x < w - 1 {
        1
    } else {
        0
    };
    let c: int = if y > 0 {
        1
    } else {
        0
    };
    let d: int = if y < h - 1 {
        1
    } else {
        0
    };
    assert(s.len() == c * a + c + c * b + d * a + d + d * b + a + b);
    assert((1 + a + b) * (1 + c + d) - 1 == c * a + c + c * b + d * a + d + d * b + a + b) by (
    nonlinear_arith);
}

/// Bomb counting distributes over concatenation of coordinate sequences.
proof fn lemma_count_bombs_at_concat(g: Game, a: Seq<(u8, u8)>, b: Seq<(u8, u8)>)
    ensures
        count_bombs_at(g, a + b) == count_bombs_at(g, a) + count_bombs_at(g, b),
    decreases b.len(),
{
    if b.len() == 0 {
        assert(a + b =~= a);
    } else {
        assert((a + b).drop_last() =~= a + b.drop_last());
        lemma_count_bombs_at_concat(g, a, b.drop_last());
        assert((a + b).last() == b.last());
    }
}

/// Bomb count of a guarded singleton is the guarded indicator of its cell.
proof fn lemma_count_bombs_at_opt(g: Game, guard: bool, p: (u8, u8))
    ensures
        count_bombs_at(g, opt_coord(guard, p)) == if guard {
            bomb_ind_cell(g.cell_at(p.0, p.1))
        } else {
            0int
        },
{
    if guard {
        let s = opt_coord(guard, p);
        assert(s.len() == 1);
        assert(s.last() == p);
        assert(s.drop_last() =~= Seq::<(u8, u8)>::empty());
        assert(count_bombs_at(g, Seq::<(u8, u8)>::empty()) == 0);
    }
}

/// The neighboring bomb count of a position equals the number of bomb cells
/// among its enumerated neighbor coordinates.
pub proof fn lemma_neighbor_bomb_count(g: Game, x: u8, y: u8)
    requires
        g.wf(),
        g.in_bounds(x, y),
    ensures
        g.bomb_neighbors(x, y) == count_bombs_at(g, neighbor_seq(g.width, g.height, x, y)),
{
    let w = g.width;
    let h = g.height;
    let s1 = opt_coord(y > 0 && x > 0, ((x - 1) as u8, (y - 1) as u8));
    let s2 = opt_coord(y > 0, (x, (y - 1) as u8));
    let s3 = opt_coord(y > 0 && x < w - 1, ((x + 1) as u8, (y - 1) as u8));
    let s4 = opt_coord(y < h - 1 && x > 0, ((x - 1) as u8, (y + 1) as u8));
    let s5 = opt_coord(y < h - 1, (x, (y + 1) as u8));
    let s6 = opt_coord(y < h - 1 && x < w - 1, ((x + 1) as u8, (y + 1) as u8));
    let s7 = opt_coord(x > 0, ((x - 1) as u8, y));
    let s8 = opt_coord(x < w - 1, ((x + 1) as u8, y));
    lemma_count_bombs_at_concat(g, s1, s2);
    lemma_count_bombs_at_concat(g, s1 + s2, s3);
    lemma_count_bombs_at_concat(g, s1 + s2 + s3, s4);
    lemma_count_bombs_at_concat(g, s1 + s2 + s3 + s4, s5);
    lemma_count_bombs_at_concat(g, s1 + s2 + s3 + s4 + s5, s6);
    lemma_count_bombs_at_concat(g, s1 + s2 + s3 + s4 + s5 + s6, s7);
    lemma_count_bombs_at_concat(g, s1 + s2 + s3 + s4 + s5 + s6 + s7, s8);
    lemma_count_bombs_at_opt(g, y > 0 && x > 0, ((x - 1) as u8, (y - 1) as u8));
    lemma_count_bombs_at_opt(g, y > 0, (x, (y - 1) as u8));
    lemma_count_bombs_at_opt(g, y > 0 && x < w - 1, ((x + 1) as u8, (y - 1) as u8));
    lemma_count_bombs_at_opt(g, y < h - 1 && x > 0, ((x - 1) as u8, (y + 1) as u8));
    lemma_count_bombs_at_opt(g, y < h - 1, (x, (y + 1) as u8));
    lemma_count_bombs_at_opt(g, y < h - 1 && x < w - 1, ((x + 1) as u8, (y + 1) as u8));
    lemma_count_bombs_at_opt(g, x > 0, ((x - 1) as u8, y));
    lemma_count_bombs_at_opt(g, x < w - 1, ((x + 1) as u8, y));
    assert(count_bombs_at(g, s1) == g.bomb_ind(x - 1, y - 1));
    assert(count_bombs_at(g, s2) == g.bomb_ind(x as int, y - 1));
    assert(count_bombs_at(g, s3) == g.bomb_ind(x + 1, y - 1));
    assert(count_bombs_at(g, s4) == g.bomb_ind(x - 1, y + 1));
    assert(count_bombs_at(g, s5) == g.bomb_ind(x as int, y + 1));
    assert(count_bombs_at(g, s6) == g.bomb_ind(x + 1, y + 1));
    assert(count_bombs_at(g, s7) == g.bomb_ind(x - 1, y as int));
    assert(count_bombs_at(g, s8) == g.bomb_ind(x + 1, y as int));
}

/// Distinct in-bounds coordinates have distinct row-major indices.
pub proof fn lemma_sidx_injective(g: Game, x1: u8, y1: u8, x2: u8, y2: u8)
    requires
        g.in_bounds(x1, y1),
        g.in_bounds(x2, y2),
        g.sidx(x1, y1) == g.sidx(x2, y2),
    ensures
        x1 == x2 && y1 == y2,
{
    assert(x1 == x2 && y1 == y2) by (nonlinear_arith)
        requires
            0 <= (x1 as int) < (g.width as int),
            0 <= (x2 as int) < (g.width as int),
            0 <= y1 as int,
            0 <= y2 as int,
            y1 as int * g.width as int + x1 as int == y2 as int * g.width as int + x2 as int,
    ;
}

/// A cell with no bombs among its neighbors has only empty in-bounds
/// neighbors; a cascade that enters them can never reveal a bomb.
pub proof fn lemma_zero_count_neighbors_empty(g: Game, x: u8, y: u8)
    requires
        g.wf(),
        g.in_bounds(x, y),
        g.bomb_neighbors(x, y) == 0,
    ensures
        forall|nx: u8, ny: u8|
            g.in_bounds(nx, ny) && #[trigger] is_neighbor(x, y, nx, ny) ==> g.type_at(nx, ny)
                == CellType::Empty,
{
    assert forall|nx: u8, ny: u8|
        g.in_bounds(nx, ny) && #[trigger] is_neighbor(x, y, nx, ny) implies g.type_at(nx, ny)
        == CellType::Empty by {
        assert(g.bomb_ind(nx as int, ny as int) == 0);
    }
}

/// A position has at most eight neighbors, and at least three whenever the
/// grid is at least two cells wide and two cells tall.
pub proof fn lemma_neighbor_count_bounds(w: u8, h: u8, x: u8, y: u8)
    requires
        x < w,
        y < h,
    ensures
        neighbor_seq(w, h, x, y).len() <= 8,
        w >= 2 && h >= 2 ==> neighbor_seq(w, h, x, y).len() >= 3,
{
    lemma_neighbor_seq_props(w, h, x, y);
}

/// The two states have the same dimensions and bomb count, and every cell
/// kept its type: operations after construction move statuses only.
pub open spec fn only_statuses_changed(pre: Game, post: Game) -> bool {
    &&& post.width == pre.width
    &&& post.height == pre.height
    &&& post.bomb_count == pre.bomb_count
    &&& post.spec_cells().len() == pre.spec_cells().len()
    &&& forall|i: int|
        0 <= i < pre.spec_cells().len() ==> (#[trigger] post.spec_cells()[i]).cell_type
            == pre.spec_cells()[i].cell_type
}

/// Away from the revealed target, a cell either kept type and status, or was
/// a hidden empty cell that became revealed: a reveal never flags, kills or
/// hides anything else, and never exposes a bomb as a side effect.
pub open spec fn reveal_frame(pre: Game, post: Game, x: u8, y: u8) -> bool {
    forall|nx: u8, ny: u8|
        #![trigger post.cell_at(nx, ny)]
        pre.in_bounds(nx, ny) && !(nx == x && ny == y) ==> (post.cell_at(nx, ny) == pre.cell_at(
            nx,
            ny,
        ) || (pre.status_at(nx, ny) == CellStatus::Hidden && pre.type_at(nx, ny)
            == CellType::Empty && post.cell_at(nx, ny) == (Cell {
            cell_type: CellType::Empty,
            cell_status: CellStatus::Revealed,
        })))
}

/// Every cell whose status changed besides the target borders some revealed
/// cell with no bombs around it: cascading reveals only spread out of
/// zero-count cells.
pub open spec fn cascade_sound(pre: Game, post: Game, x: u8, y: u8) -> bool {
    forall|nx: u8, ny: u8|
        #![trigger post.status_at(nx, ny)]
        pre.in_bounds(nx, ny) && !(nx == x && ny == y) && post.status_at(nx, ny) != pre.status_at(
            nx,
            ny,
        ) ==> exists|mx: u8, my: u8|
            #![trigger is_neighbor(nx, ny, mx, my)]
            is_neighbor(nx, ny, mx, my) && pre.in_bounds(mx, my) && post.status_at(mx, my)
                == CellStatus::Revealed && post.bomb_neighbors(mx, my) == 0
}

/// Every newly revealed zero-count cell (the target included) has no hidden
/// neighbor left outside the pending worklist: with an empty worklist the
/// cascade has covered the whole connected zero-count region and its border.
pub open spec fn cascade_pending(
    pre: Game,
    cur: Game,
    x: u8,
    y: u8,
    pending: Seq<(u8, u8)>,
) -> bool {
    forall|nx: u8, ny: u8, mx: u8, my: u8|
        #![trigger is_neighbor(nx, ny, mx, my)]
        pre.in_bounds(nx, ny) && ((nx == x && ny == y) || pre.status_at(nx, ny)
            == CellStatus::Hidden) && cur.status_at(nx, ny) == CellStatus::Revealed
            && cur.bomb_neighbors(nx, ny) == 0 && is_neighbor(nx, ny, mx, my) && pre.in_bounds(
            mx,
            my,
        ) ==> (cur.status_at(mx, my) != CellStatus::Hidden || pending.contains((mx, my)))
}

/// After a reveal, no newly revealed zero-count cell has a hidden neighbor.
pub open spec fn cascade_complete(pre: Game, post: Game, x: u8, y: u8) -> bool {
    forall|nx: u8, ny: u8, mx: u8, my: u8|
        #![trigger is_neighbor(nx, ny, mx, my)]
        pre.in_bounds(nx, ny) && ((nx == x && ny == y) || pre.status_at(nx, ny)
            == CellStatus::Hidden) && post.status_at(nx, ny) == CellStatus::Revealed
            && post.bomb_neighbors(nx, ny) == 0 && is_neighbor(nx, ny, mx, my) && pre.in_bounds(
            mx,
            my,
        ) ==> post.status_at(mx, my) != CellStatus::Hidden
}

/// A worklist entry is an in-bounds empty cell bordering some revealed cell
/// with no bombs around it.
pub open spec fn stack_entry_ok(cur: Game, p: (u8, u8)) -> bool {
    &&& cur.in_bounds(p.0, p.1)
    &&& cur.type_at(p.0, p.1) == CellType::Empty
    &&& exists|mx: u8, my: u8|
        #![trigger is_neighbor(p.0, p.1, mx, my)]
        is_neighbor(p.0, p.1, mx, my) && cur.in_bounds(mx, my) && cur.status_at(mx, my)
            == CellStatus::Revealed && cur.bomb_neighbors(mx, my) == 0
}

/// All worklist entries are acceptable cascade candidates.
pub open spec fn stack_entries_ok(cur: Game, entries: Seq<(u8, u8)>) -> bool {
    forall|j: int| #![trigger entries[j]] 0 <= j < entries.len() ==> stack_entry_ok(cur, entries[j])
}

/// Revealing the popped hidden empty cell keeps the reveal frame and the target cell.
#[verifier::rlimit(100)]
proof fn lemma_cascade_step_frame(
    g0: Game,
    s0: Game,
    s1: Game,
    sp0: Seq<(u8, u8)>,
    nv: Seq<(u8, u8)>,
    x: u8,
    y: u8,
    cx: u8,
    cy: u8,
)
    requires
        s0.wf(),
        s1.wf(),
        only_statuses_changed(g0, s0),
        only_statuses_changed(s0, s1),
        s0.status_at(x, y) == CellStatus::Revealed,
        g0.in_bounds(x, y),
        reveal_frame(g0, s0, x, y),
        cascade_sound(g0, s0, x, y),
        stack_entries_ok(s0, sp0),
        cascade_pending(g0, s0, x, y, sp0),
        sp0.len() > 0,
        sp0.last() == (cx, cy),
        s0.in_bounds(cx, cy),
        s0.status_at(cx, cy) == CellStatus::Hidden,
        s0.type_at(cx, cy) == CellType::Empty,
        s1.status_at(cx, cy) == CellStatus::Revealed,
        s1.type_at(cx, cy) == CellType::Empty,
        forall|nx: u8, ny: u8|
            #![trigger s1.cell_at(nx, ny)]
            s0.in_bounds(nx, ny) && !(nx == cx && ny == cy) ==> s1.cell_at(nx, ny) == s0.cell_at(
                nx,
                ny,
            ),
        forall|nx: u8, ny: u8|
            #![trigger s1.bomb_neighbors(nx, ny)]
            s1.bomb_neighbors(nx, ny) == s0.bomb_neighbors(nx, ny),
        forall|nx: u8, ny: u8|
            #![trigger s1.type_at(nx, ny)]
            s0.in_bounds(nx, ny) ==> s1.type_at(nx, ny) == s0.type_at(nx, ny),
        s1.bomb_neighbors(cx, cy) == 0 ==> forall|mx: u8, my: u8|
            s1.in_bounds(mx, my) && #[trigger] is_neighbor(cx, cy, mx, my) ==> nv.contains(
                (mx, my),
            ),
        forall|i: int|
            #![trigger nv[i]]
            0 <= i < nv.len() ==> s1.in_bounds(nv[i].0, nv[i].1) && is_neighbor(
                cx,
                cy,
                nv[i].0,
                nv[i].1,
            ),
        s1.bomb_neighbors(cx, cy) != 0 ==> nv.len() == 0,
    ensures
        only_statuses_changed(g0, s1),
        s1.status_at(x, y) == CellStatus::Revealed,
        reveal_frame(g0, s1, x, y),
{
    let mid = sp0.drop_last();
    let stk = mid + nv;
    assert(sp0 =~= mid.push((cx, cy)));
    assert(s0.cell_at(cx, cy) == g0.cell_at(cx, cy));
    assert(g0.status_at(cx, cy) == CellStatus::Hidden);
    assert(g0.type_at(cx, cy) == CellType::Empty);
    assert(!(cx == x && cy == y));
    assert(s1.cell_at(x, y) == s0.cell_at(x, y));
    assert(reveal_frame(g0, s1, x, y)) by {
        assert forall|nx: u8, ny: u8|
            g0.in_bounds(nx, ny) && !(nx == x && ny == y) implies (#[trigger] s1.cell_at(nx, ny)
            == g0.cell_at(nx, ny) || (g0.status_at(nx, ny) == CellStatus::Hidden && g0.type_at(
            nx,
            ny,
        ) == CellType::Empty && s1.cell_at(nx, ny) == (Cell {
            cell_type: CellType::Empty,
            cell_status: CellStatus::Revealed,
        }))) by {
            if !(nx == cx && ny == cy) {
                assert(s1.cell_at(nx, ny) == s0.cell_at(nx, ny));
            } else {
                assert(s1.cell_at(nx, ny) == (Cell {
                    cell_type: CellType::Empty,
                    cell_status: CellStatus::Revealed,
                }));
            }
        }
    }

}

/// Revealing the popped cell keeps every changed cell next to a revealed zero-count cell.
#[verifier::rlimit(100)]
proof fn lemma_cascade_step_sound(
    g0: Game,
    s0: Game,
    s1: Game,
    sp0: Seq<(u8, u8)>,
    nv: Seq<(u8, u8)>,
    x: u8,
    y: u8,
    cx: u8,
    cy: u8,
)
    requires
        s0.wf(),
        s1.wf(),
        only_statuses_changed(g0, s0),
        only_statuses_changed(s0, s1),
        s0.status_at(x, y) == CellStatus::Revealed,
        g0.in_bounds(x, y),
        reveal_frame(g0, s0, x, y),
        cascade_sound(g0, s0, x, y),
        stack_entries_ok(s0, sp0),
        cascade_pending(g0, s0, x, y, sp0),
        sp0.len() > 0,
        sp0.last() == (cx, cy),
        s0.in_bounds(cx, cy),
        s0.status_at(cx, cy) == CellStatus::Hidden,
        s0.type_at(cx, cy) == CellType::Empty,
        s1.status_at(cx, cy) == CellStatus::Revealed,
        s1.type_at(cx, cy) == CellType::Empty,
        forall|nx: u8, ny: u8|
            #![trigger s1.cell_at(nx, ny)]
            s0.in_bounds(nx, ny) && !(nx == cx && ny == cy) ==> s1.cell_at(nx, ny) == s0.cell_at(
                nx,
                ny,
            ),
        forall|nx: u8, ny: u8|
            #![trigger s1.bomb_neighbors(nx, ny)]
            s1.bomb_neighbors(nx, ny) == s0.bomb_neighbors(nx, ny),
        forall|nx: u8, ny: u8|
            #![trigger s1.type_at(nx, ny)]
            s0.in_bounds(nx, ny) ==> s1.type_at(nx, ny) == s0.type_at(nx, ny),
        s1.bomb_neighbors(cx, cy) == 0 ==> forall|mx: u8, my: u8|
            s1.in_bounds(mx, my) && #[trigger] is_neighbor(cx, cy, mx, my) ==> nv.contains(
                (mx, my),
            ),
        forall|i: int|
            #![trigger nv[i]]
            0 <= i < nv.len() ==> s1.in_bounds(nv[i].0, nv[i].1) && is_neighbor(
                cx,
                cy,
                nv[i].0,
                nv[i].1,
            ),
        s1.bomb_neighbors(cx, cy) != 0 ==> nv.len() == 0,
    ensures
        cascade_sound(g0, s1, x, y),
{
    let mid = sp0.drop_last();
    let stk = mid + nv;
    assert(sp0 =~= mid.push((cx, cy)));
    assert(s0.cell_at(cx, cy) == g0.cell_at(cx, cy));
    assert(g0.status_at(cx, cy) == CellStatus::Hidden);
    assert(g0.type_at(cx, cy) == CellType::Empty);
    assert(!(cx == x && cy == y));
    assert(s1.cell_at(x, y) == s0.cell_at(x, y));
    assert(reveal_frame(g0, s1, x, y)) by {
        assert forall|nx: u8, ny: u8|
            g0.in_bounds(nx, ny) && !(nx == x && ny == y) implies (#[trigger] s1.cell_at(nx, ny)
            == g0.cell_at(nx, ny) || (g0.status_at(nx, ny) == CellStatus::Hidden && g0.type_at(
            nx,
            ny,
        ) == CellType::Empty && s1.cell_at(nx, ny) == (Cell {
            cell_type: CellType::Empty,
            cell_status: CellStatus::Revealed,
        }))) by {
            if !(nx == cx && ny == cy) {
                assert(s1.cell_at(nx, ny) == s0.cell_at(nx, ny));
            } else {
                assert(s1.cell_at(nx, ny) == (Cell {
                    cell_type: CellType::Empty,
                    cell_status: CellStatus::Revealed,
                }));
            }
        }
    }
    assert(cascade_sound(g0, s1, x, y)) by {
        assert forall|nx: u8, ny: u8|
            g0.in_bounds(nx, ny) && !(nx == x && ny == y) && #[trigger] s1.status_at(nx, ny)
                != g0.status_at(nx, ny) implies exists|mx: u8, my: u8|
            #![trigger is_neighbor(nx, ny, mx, my)]
            is_neighbor(nx, ny, mx, my) && g0.in_bounds(mx, my) && s1.status_at(mx, my)
                == CellStatus::Revealed && s1.bomb_neighbors(mx, my) == 0 by {
            if nx == cx && ny == cy {
                let (mx, my): (u8, u8) = choose|mx: u8, my: u8|
                    is_neighbor(cx, cy, mx, my) && s0.in_bounds(mx, my) && s0.status_at(mx, my)
                        == CellStatus::Revealed && s0.bomb_neighbors(mx, my) == 0;
                assert(s1.cell_at(mx, my) == s0.cell_at(mx, my));
                assert(is_neighbor(nx, ny, mx, my) && g0.in_bounds(mx, my) && s1.status_at(mx, my)
                    == CellStatus::Revealed && s1.bomb_neighbors(mx, my) == 0);
            } else {
                assert(s1.cell_at(nx, ny) == s0.cell_at(nx, ny));
                assert(s0.status_at(nx, ny) != g0.status_at(nx, ny));
                let (mx, my): (u8, u8) = choose|mx: u8, my: u8|
                    is_neighbor(nx, ny, mx, my) && g0.in_bounds(mx, my) && s0.status_at(mx, my)
                        == CellStatus::Revealed && s0.bomb_neighbors(mx, my) == 0;
                if !(mx == cx && my == cy) {
                    assert(s1.cell_at(mx, my) == s0.cell_at(mx, my));
                }
                assert(is_neighbor(nx, ny, mx, my) && g0.in_bounds(mx, my) && s1.status_at(mx, my)
                    == CellStatus::Revealed && s1.bomb_neighbors(mx, my) == 0);
            }
        }
    }
}

/// After the reveal, old and newly pushed worklist entries are still acceptable.
#[verifier::rlimit(100)]
proof fn lemma_cascade_step_entries(
    g0: Game,
    s0: Game,
    s1: Game,
    sp0: Seq<(u8, u8)>,
    nv: Seq<(u8, u8)>,
    x: u8,
    y: u8,
    cx: u8,
    cy: u8,
)
    requires
        s0.wf(),
        s1.wf(),
        only_statuses_changed(g0, s0),
        only_statuses_changed(s0, s1),
        s0.status_at(x, y) == CellStatus::Revealed,
        g0.in_bounds(x, y),
        reveal_frame(g0, s0, x, y),
        cascade_sound(g0, s0, x, y),
        stack_entries_ok(s0, sp0),
        cascade_pending(g0, s0, x, y, sp0),
        sp0.len() > 0,
        sp0.last() == (cx, cy),
        s0.in_bounds(cx, cy),
        s0.status_at(cx, cy) == CellStatus::Hidden,
        s0.type_at(cx, cy) == CellType::Empty,
        s1.status_at(cx, cy) == CellStatus::Revealed,
        s1.type_at(cx, cy) == CellType::Empty,
        forall|nx: u8, ny: u8|
            #![trigger s1.cell_at(nx, ny)]
            s0.in_bounds(nx, ny) && !(nx == cx && ny == cy) ==> s1.cell_at(nx, ny) == s0.cell_at(
                nx,
                ny,
            ),
        forall|nx: u8, ny: u8|
            #![trigger s1.bomb_neighbors(nx, ny)]
            s1.bomb_neighbors(nx, ny) == s0.bomb_neighbors(nx, ny),
        forall|nx: u8, ny: u8|
            #![trigger s1.type_at(nx, ny)]
            s0.in_bounds(nx, ny) ==> s1.type_at(nx, ny) == s0.type_at(nx, ny),
        s1.bomb_neighbors(cx, cy) == 0 ==> forall|mx: u8, my: u8|
            s1.in_bounds(mx, my) && #[trigger] is_neighbor(cx, cy, mx, my) ==> nv.contains(
                (mx, my),
            ),
        forall|i: int|
            #![trigger nv[i]]
            0 <= i < nv.len() ==> s1.in_bounds(nv[i].0, nv[i].1) && is_neighbor(
                cx,
                cy,
                nv[i].0,
                nv[i].1,
            ),
        s1.bomb_neighbors(cx, cy) != 0 ==> nv.len() == 0,
    ensures
        stack_entries_ok(s1, sp0.drop_last() + nv),
{
    let mid = sp0.drop_last();
    let stk = mid + nv;
    assert(sp0 =~= mid.push((cx, cy)));
    assert(s0.cell_at(cx, cy) == g0.cell_at(cx, cy));
    assert(g0.status_at(cx, cy) == CellStatus::Hidden);
    assert(g0.type_at(cx, cy) == CellType::Empty);
    assert(!(cx == x && cy == y));
    assert(s1.cell_at(x, y) == s0.cell_at(x, y));
    assert(reveal_frame(g0, s1, x, y)) by {
        assert forall|nx: u8, ny: u8|
            g0.in_bounds(nx, ny) && !(nx == x && ny == y) implies (#[trigger] s1.cell_at(nx, ny)
            == g0.cell_at(nx, ny) || (g0.status_at(nx, ny) == CellStatus::Hidden && g0.type_at(
            nx,
            ny,
        ) == CellType::Empty && s1.cell_at(nx, ny) == (Cell {
            cell_type: CellType::Empty,
            cell_status: CellStatus::Revealed,
        }))) by {
            if !(nx == cx && ny == cy) {
                assert(s1.cell_at(nx, ny) == s0.cell_at(nx, ny));
            } else {
                assert(s1.cell_at(nx, ny) == (Cell {
                    cell_type: CellType::Empty,
                    cell_status: CellStatus::Revealed,
                }));
            }
        }
    }
    if s1.bomb_neighbors(cx, cy) == 0 {
        lemma_zero_count_neighbors_empty(s1, cx, cy);
    }
    assert(stack_entries_ok(s1, stk)) by {
        assert forall|j: int| 0 <= j < stk.len() implies stack_entry_ok(s1, #[trigger] stk[j]) by {
            if j < mid.len() {
                let q = stk[j];
                assert(q == sp0[j]);
                assert(stack_entry_ok(s0, q));
                let (mx, my): (u8, u8) = choose|mx: u8, my: u8|
                    is_neighbor(q.0, q.1, mx, my) && s0.in_bounds(mx, my) && s0.status_at(mx, my)
                        == CellStatus::Revealed && s0.bomb_neighbors(mx, my) == 0;
                if !(mx == cx && my == cy) {
                    assert(s1.cell_at(mx, my) == s0.cell_at(mx, my));
                }
                assert(is_neighbor(q.0, q.1, mx, my) && s1.in_bounds(mx, my) && s1.status_at(
                    mx,
                    my,
                ) == CellStatus::Revealed && s1.bomb_neighbors(mx, my) == 0);
                assert(s1.type_at(q.0, q.1) == s0.type_at(q.0, q.1));
            } else {
                let q = stk[j];
                assert(q == nv[j - mid.len()]);
                assert(is_neighbor(cx, cy, q.0, q.1) && s1.in_bounds(q.0, q.1));
                assert(is_neighbor(q.0, q.1, cx, cy));
                assert(s1.type_at(q.0, q.1) == CellType::Empty);
                assert(s1.status_at(cx, cy) == CellStatus::Revealed && s1.bomb_neighbors(cx, cy)
                    == 0);
            }
        }
    }
}

/// After the reveal, no newly revealed zero-count cell has a hidden neighbor outside the worklist.
#[verifier::rlimit(100)]
proof fn lemma_cascade_step_pending(
    g0: Game,
    s0: Game,
    s1: Game,
    sp0: Seq<(u8, u8)>,
    nv: Seq<(u8, u8)>,
    x: u8,
    y: u8,
    cx: u8,
    cy: u8,
)
    requires
        s0.wf(),
        s1.wf(),
        only_statuses_changed(g0, s0),
        only_statuses_changed(s0, s1),
        s0.status_at(x, y) == CellStatus::Revealed,
        g0.in_bounds(x, y),
        reveal_frame(g0, s0, x, y),
        cascade_sound(g0, s0, x, y),
        stack_entries_ok(s0, sp0),
        cascade_pending(g0, s0, x, y, sp0),
        sp0.len() > 0,
        sp0.last() == (cx, cy),
        s0.in_bounds(cx, cy),
        s0.status_at(cx, cy) == CellStatus::Hidden,
        s0.type_at(cx, cy) == CellType::Empty,
        s1.status_at(cx, cy) == CellStatus::Revealed,
        s1.type_at(cx, cy) == CellType::Empty,
        forall|nx: u8, ny: u8|
            #![trigger s1.cell_at(nx, ny)]
            s0.in_bounds(nx, ny) && !(nx == cx && ny == cy) ==> s1.cell_at(nx, ny) == s0.cell_at(
                nx,
                ny,
            ),
        forall|nx: u8, ny: u8|
            #![trigger s1.bomb_neighbors(nx, ny)]
            s1.bomb_neighbors(nx, ny) == s0.bomb_neighbors(nx, ny),
        forall|nx: u8, ny: u8|
            #![trigger s1.type_at(nx, ny)]
            s0.in_bounds(nx, ny) ==> s1.type_at(nx, ny) == s0.type_at(nx, ny),
        s1.bomb_neighbors(cx, cy) == 0 ==> forall|mx: u8, my: u8|
            s1.in_bounds(mx, my) && #[trigger] is_neighbor(cx, cy, mx, my) ==> nv.contains(
                (mx, my),
            ),
        forall|i: int|
            #![trigger nv[i]]
            0 <= i < nv.len() ==> s1.in_bounds(nv[i].0, nv[i].1) && is_neighbor(
                cx,
                cy,
                nv[i].0,
                nv[i].1,
            ),
        s1.bomb_neighbors(cx, cy) != 0 ==> nv.len() == 0,
    ensures
        cascade_pending(g0, s1, x, y, sp0.drop_last() + nv),
{
    let mid = sp0.drop_last();
    let stk = mid + nv;
    assert(sp0 =~= mid.push((cx, cy)));
    assert(s0.cell_at(cx, cy) == g0.cell_at(cx, cy));
    assert(g0.status_at(cx, cy) == CellStatus::Hidden);
    assert(g0.type_at(cx, cy) == CellType::Empty);
    assert(!(cx == x && cy == y));
    assert(s1.cell_at(x, y) == s0.cell_at(x, y));
    assert(reveal_frame(g0, s1, x, y)) by {
        assert forall|nx: u8, ny: u8|
            g0.in_bounds(nx, ny) && !(nx == x && ny == y) implies (#[trigger] s1.cell_at(nx, ny)
            == g0.cell_at(nx, ny) || (g0.status_at(nx, ny) == CellStatus::Hidden && g0.type_at(
            nx,
            ny,
        ) == CellType::Empty && s1.cell_at(nx, ny) == (Cell {
            cell_type: CellType::Empty,
            cell_status: CellStatus::Revealed,
        }))) by {
            if !(nx == cx && ny == cy) {
                assert(s1.cell_at(nx, ny) == s0.cell_at(nx, ny));
            } else {
                assert(s1.cell_at(nx, ny) == (Cell {
                    cell_type: CellType::Empty,
                    cell_status: CellStatus::Revealed,
                }));
            }
        }
    }
    assert(cascade_pending(g0, s1, x, y, stk)) by {
        assert forall|nx: u8, ny: u8, mx: u8, my: u8|
            g0.in_bounds(nx, ny) && ((nx == x && ny == y) || g0.status_at(nx, ny)
                == CellStatus::Hidden) && s1.status_at(nx, ny) == CellStatus::Revealed
                && s1.bomb_neighbors(nx, ny) == 0 && #[trigger] is_neighbor(nx, ny, mx, my)
                && g0.in_bounds(mx, my) implies (s1.status_at(mx, my) != CellStatus::Hidden
            || stk.contains((mx, my))) by {
            if nx == cx && ny == cy {
                assert(nv.contains((mx, my)));
            } else {
                assert(s1.cell_at(nx, ny) == s0.cell_at(nx, ny));
                assert(s0.status_at(nx, ny) == CellStatus::Revealed);
                assert(s0.bomb_neighbors(nx, ny) == 0);
                assert(s0.status_at(mx, my) != CellStatus::Hidden || sp0.contains((mx, my)));
                if s0.status_at(mx, my) != CellStatus::Hidden {
                    if !(mx == cx && my == cy) {
                        assert(s1.cell_at(mx, my) == s0.cell_at(mx, my));
                    }
                } else {
                    assert(sp0.contains((mx, my)));
                    if mx == cx && my == cy {
                        assert(s1.status_at(mx, my) == CellStatus::Revealed);
                    } else {
                        assert(mid.contains((mx, my)));
                        assert(stk.contains((mx, my)));
                    }
                }
            }
        }
    }
}

/// One cascade step that reveals the popped hidden empty cell `(cx, cy)` preserves every property the reveal loop maintains; `nv` holds the neighbors pushed for a zero-count cell and is empty otherwise.
#[verifier::rlimit(100)]
proof fn lemma_cascade_step_reveal(
    g0: Game,
    s0: Game,
    s1: Game,
    sp0: Seq<(u8, u8)>,
    nv: Seq<(u8, u8)>,
    x: u8,
    y: u8,
    cx: u8,
    cy: u8,
)
    requires
        s0.wf(),
        s1.wf(),
        only_statuses_changed(g0, s0),
        only_statuses_changed(s0, s1),
        s0.status_at(x, y) == CellStatus::Revealed,
        g0.in_bounds(x, y),
        reveal_frame(g0, s0, x, y),
        cascade_sound(g0, s0, x, y),
        stack_entries_ok(s0, sp0),
        cascade_pending(g0, s0, x, y, sp0),
        sp0.len() > 0,
        sp0.last() == (cx, cy),
        s0.in_bounds(cx, cy),
        s0.status_at(cx, cy) == CellStatus::Hidden,
        s0.type_at(cx, cy) == CellType::Empty,
        s1.status_at(cx, cy) == CellStatus::Revealed,
        s1.type_at(cx, cy) == CellType::Empty,
        forall|nx: u8, ny: u8|
            #![trigger s1.cell_at(nx, ny)]
            s0.in_bounds(nx, ny) && !(nx == cx && ny == cy) ==> s1.cell_at(nx, ny) == s0.cell_at(
                nx,
                ny,
            ),
        forall|nx: u8, ny: u8|
            #![trigger s1.bomb_neighbors(nx, ny)]
            s1.bomb_neighbors(nx, ny) == s0.bomb_neighbors(nx, ny),
        forall|nx: u8, ny: u8|
            #![trigger s1.type_at(nx, ny)]
            s0.in_bounds(nx, ny) ==> s1.type_at(nx, ny) == s0.type_at(nx, ny),
        s1.bomb_neighbors(cx, cy) == 0 ==> forall|mx: u8, my: u8|
            s1.in_bounds(mx, my) && #[trigger] is_neighbor(cx, cy, mx, my) ==> nv.contains(
                (mx, my),
            ),
        forall|i: int|
            #![trigger nv[i]]
            0 <= i < nv.len() ==> s1.in_bounds(nv[i].0, nv[i].1) && is_neighbor(
                cx,
                cy,
                nv[i].0,
                nv[i].1,
            ),
        s1.bomb_neighbors(cx, cy) != 0 ==> nv.len() == 0,
    ensures
        only_statuses_changed(g0, s1),
        s1.status_at(x, y) == CellStatus::Revealed,
        reveal_frame(g0, s1, x, y),
        cascade_sound(g0, s1, x, y),
        stack_entries_ok(s1, sp0.drop_last() + nv),
        cascade_pending(g0, s1, x, y, sp0.drop_last() + nv),
{
    let mid = sp0.drop_last();
    let stk = mid + nv;
    assert(sp0 =~= mid.push((cx, cy)));
    assert(s0.cell_at(cx, cy) == g0.cell_at(cx, cy));
    assert(g0.status_at(cx, cy) == CellStatus::Hidden);
    assert(g0.type_at(cx, cy) == CellType::Empty);
    assert(!(cx == x && cy == y));
    assert(s1.cell_at(x, y) == s0.cell_at(x, y));
    assert(reveal_frame(g0, s1, x, y)) by {
        assert forall|nx: u8, ny: u8|
            g0.in_bounds(nx, ny) && !(nx == x && ny == y) implies (#[trigger] s1.cell_at(nx, ny)
            == g0.cell_at(nx, ny) || (g0.status_at(nx, ny) == CellStatus::Hidden && g0.type_at(
            nx,
            ny,
        ) == CellType::Empty && s1.cell_at(nx, ny) == (Cell {
            cell_type: CellType::Empty,
            cell_status: CellStatus::Revealed,
        }))) by {
            if !(nx == cx && ny == cy) {
                assert(s1.cell_at(nx, ny) == s0.cell_at(nx, ny));
            } else {
                assert(s1.cell_at(nx, ny) == (Cell {
                    cell_type: CellType::Empty,
                    cell_status: CellStatus::Revealed,
                }));
            }
        }
    }
    lemma_cascade_step_sound(g0, s0, s1, sp0, nv, x, y, cx, cy);
    lemma_cascade_step_entries(g0, s0, s1, sp0, nv, x, y, cx, cy);
    lemma_cascade_step_pending(g0, s0, s1, sp0, nv, x, y, cx, cy);
}

/// A cascade step that pops an already non-hidden coordinate changes
/// nothing; the loop's properties carry over to the shorter worklist.
proof fn lemma_cascade_step_skip(
    g0: Game,
    s0: Game,
    sp0: Seq<(u8, u8)>,
    x: u8,
    y: u8,
    cx: u8,
    cy: u8,
)
    requires
        stack_entries_ok(s0, sp0),
        cascade_pending(g0, s0, x, y, sp0),
        sp0.len() > 0,
        sp0.last() == (cx, cy),
        s0.status_at(cx, cy) != CellStatus::Hidden,
    ensures
        stack_entries_ok(s0, sp0.drop_last()),
        cascade_pending(g0, s0, x, y, sp0.drop_last()),
{
    let mid = sp0.drop_last();
    assert(sp0 =~= mid.push((cx, cy)));
    assert(stack_entries_ok(s0, mid)) by {
        assert forall|j: int| 0 <= j < mid.len() implies stack_entry_ok(s0, #[trigger] mid[j]) by {
            assert(mid[j] == sp0[j]);
            assert(stack_entry_ok(s0, sp0[j]));
        }
    }
    assert(cascade_pending(g0, s0, x, y, mid)) by {
        assert forall|nx: u8, ny: u8, mx: u8, my: u8|
            g0.in_bounds(nx, ny) && ((nx == x && ny == y) || g0.status_at(nx, ny)
                == CellStatus::Hidden) && s0.status_at(nx, ny) == CellStatus::Revealed
                && s0.bomb_neighbors(nx, ny) == 0 && #[trigger] is_neighbor(nx, ny, mx, my)
                && g0.in_bounds(mx, my) implies (s0.status_at(mx, my) != CellStatus::Hidden
            || mid.contains((mx, my))) by {
            assert(s0.status_at(mx, my) != CellStatus::Hidden || sp0.contains((mx, my)));
            if s0.status_at(mx, my) == CellStatus::Hidden {
                assert(sp0.contains((mx, my)));
                assert(!(mx == cx && my == cy));
                assert(mid.contains((mx, my)));
            }
        }
    }
}

impl Game {
    /// The cells as a mathematical sequence; all contracts speak of this view.
    pub open spec fn spec_cells(self) -> Seq<Cell> {
        self.cells@
    }

    /// Whether integer coordinates lie on the grid.
    pub open spec fn in_bounds_i(self, nx: int, ny: int) -> bool {
        0 <= nx < self.width as int && 0 <= ny < self.height as int
    }

    /// Whether the coordinates lie on the grid.
    pub open spec fn in_bounds(self, x: u8, y: u8) -> bool {
        self.in_bounds_i(x as int, y as int)
    }

    /// Row-major index of integer coordinates.
    pub open spec fn sidx_i(self, nx: int, ny: int) -> int {
        ny * self.width as int + nx
    }

    /// Row-major index of the coordinates.
    pub open spec fn sidx(self, x: u8, y: u8) -> int {
        self.sidx_i(x as int, y as int)
    }

    /// The cell at the coordinates.
    pub open spec fn cell_at(self, x: u8, y: u8) -> Cell {
        self.spec_cells()[self.sidx(x, y)]
    }

    /// The immutable type of the cell at the coordinates.
    pub open spec fn type_at(self, x: u8, y: u8) -> CellType {
        self.cell_at(x, y).cell_type
    }

    /// The current status of the cell at the coordinates.
    pub open spec fn status_at(self, x: u8, y: u8) -> CellStatus {
        self.cell_at(x, y).cell_status
    }

    /// 1 when integer coordinates are on the grid and hold a bomb, else 0.
    pub open spec fn bomb_ind(self, nx: int, ny: int) -> int {
        if self.in_bounds_i(nx, ny) && self.spec_cells()[self.sidx_i(nx, ny)].cell_type
            == CellType::Bomb {
            1
        } else {
            0
        }
    }

    /// How many of the neighbors of `(x, y)` hold a bomb: the sum of the
    /// eight adjacent positions' indicators, out-of-grid positions counting
    /// as zero.
    pub open spec fn bomb_neighbors(self, x: u8, y: u8) -> int {
        let xi = x as int;
        let yi = y as int;
        self.bomb_ind(xi - 1, yi - 1) + self.bomb_ind(xi, yi - 1) + self.bomb_ind(xi + 1, yi - 1)
            + self.bomb_ind(xi - 1, yi + 1) + self.bomb_ind(xi, yi + 1) + self.bomb_ind(
            xi + 1,
            yi + 1,
        ) + self.bomb_ind(xi - 1, yi) + self.bomb_ind(xi + 1, yi)
    }

    /// Well-formedness: one cell per grid position, and exactly `bomb_count`
    /// of them hold a bomb. Every operation preserves this.
    pub open spec fn wf(self) -> bool {
        &&& self.spec_cells().len() == self.width as int * self.height as int
        &&& count_bombs(self.spec_cells()) == self.bomb_count as int
    }

    /// Row-major index of in-bounds coordinates, shown to lie inside the
    /// cell array.
    fn cell_index(&self, x: u8, y: u8) -> (i: usize)
        requires
            self.wf(),
            self.in_bounds(x, y),
        ensures
            i == self.sidx(x, y),
            i < self.spec_cells().len(),
    {
        proof {
            assert((y as int) * (self.width as int) + (x as int) < (self.height as int) * (
            self.width as int) && (y as int) * (self.width as int) <= 255 * 255) by (
            nonlinear_arith)
                requires
                    (x as int) < (self.width as int),
                    (y as int) < (self.height as int),
                    0 <= x as int,
                    0 <= y as int,
                    self.width as int <= 255,
                    y as int <= 255,
            ;
        }
        y as usize * self.width as usize + x as usize
    }

    /// A copy of the cell at in-bounds coordinates; the caller gets a
    /// snapshot, never a live handle into the grid.
    pub fn get_cell(&self, x: u8, y: u8) -> (c: Cell)
        requires
            self.wf(),
            self.in_bounds(x, y),
        ensures
            c == self.cell_at(x, y),
    {
        let i = self.cell_index(x, y);
        self.cells[i]
    }

    /// Overwrites the status of the cell at in-bounds coordinates, leaving
    /// its type and everything else unchanged.
    fn set_status(&mut self, x: u8, y: u8, status: CellStatus)
        requires
            old(self).wf(),
            old(self).in_bounds(x, y),
        ensures
            final(self).width == old(self).width,
            final(self).height == old(self).height,
            final(self).bomb_count == old(self).bomb_count,
            final(self).spec_cells() == old(self).spec_cells().update(
                old(self).sidx(x, y),
                Cell { cell_type: old(self).type_at(x, y), cell_status: status },
            ),
            final(self).wf(),
            final(self).status_at(x, y) == status,
            final(self).type_at(x, y) == old(self).type_at(x, y),
            forall|nx: u8, ny: u8|
                #![trigger final(self).cell_at(nx, ny)]
                old(self).in_bounds(nx, ny) && !(nx == x && ny == y) ==> final(self).cell_at(
                    nx,
                    ny,
                ) == old(self).cell_at(nx, ny),
            forall|i: int|
                0 <= i < old(self).spec_cells().len() ==> (#[trigger] final(self).spec_cells()[i]).cell_type
                    == old(self).spec_cells()[i].cell_type,
            forall|nx: u8, ny: u8|
                #![trigger final(self).type_at(nx, ny)]
                old(self).in_bounds(nx, ny) ==> final(self).type_at(nx, ny) == old(self).type_at(
                    nx,
                    ny,
                ),
            forall|nx: u8, ny: u8|
                #![trigger final(self).bomb_neighbors(nx, ny)]
                final(self).bomb_neighbors(nx, ny) == old(self).bomb_neighbors(nx, ny),
            count_hidden(final(self).spec_cells()) == count_hidden(old(self).spec_cells())
                - hidden_ind_cell(old(self).cell_at(x, y)) + hidden_ind_cell(
                Cell { cell_type: old(self).type_at(x, y), cell_status: status },
            ),
    {
        let i = self.cell_index(x, y);
        let c = self.cells[i];
        self.cells[i] = Cell { cell_type: c.cell_type, cell_status: status };
        proof {
            let pre = *old(self);
            let post = *self;
            let nc = Cell { cell_type: pre.type_at(x, y), cell_status: status };
            lemma_count_bombs_update(pre.spec_cells(), pre.sidx(x, y), nc);
            lemma_count_hidden_update(pre.spec_cells(), pre.sidx(x, y), nc);
            assert forall|nx: u8, ny: u8|
                pre.in_bounds(nx, ny) && !(nx == x && ny == y) implies #[trigger] post.cell_at(
                nx,
                ny,
            ) == pre.cell_at(nx, ny) by {
                if pre.sidx(nx, ny) == pre.sidx(x, y) {
                    lemma_sidx_injective(pre, nx, ny, x, y);
                } else {
                    assert((x as int) * (pre.width as int) >= 0);
                    assert(pre.sidx_i(nx as int, ny as int) < pre.spec_cells().len()) by (
                    nonlinear_arith)
                        requires
                            0 <= (nx as int) < (pre.width as int),
                            0 <= (ny as int) < (pre.height as int),
                            pre.spec_cells().len() == pre.width as int * pre.height as int,
                            pre.sidx_i(nx as int, ny as int) == ny as int * pre.width as int
                                + nx as int,
                    ;
                }
            }
            assert forall|nx: u8, ny: u8| #[trigger]
                post.bomb_neighbors(nx, ny) == pre.bomb_neighbors(nx, ny) by {
                assert forall|a: int, b: int| #[trigger]
                    post.bomb_ind(a, b) == pre.bomb_ind(a, b) by {
                    if pre.in_bounds_i(a, b) {
                        assert(0 <= b * (pre.width as int) + a < (pre.width as int) * (
                        pre.height as int)) by (nonlinear_arith)
                            requires
                                0 <= a < (pre.width as int),
                                0 <= b < (pre.height as int),
                        ;
                    }
                }
            }
        }
    }

    /// Flips the flag of a hidden or flagged cell: hidden becomes flagged
    /// and flagged becomes hidden; no other cell changes. Calling it on a
    /// revealed or killed cell is a contract violation of the host.
    pub fn toggle_cell_flag(&mut self, x: u8, y: u8)
        requires
            old(self).wf(),
            old(self).in_bounds(x, y),
            old(self).status_at(x, y) == CellStatus::Hidden || old(self).status_at(x, y)
                == CellStatus::Flagged,
        ensures
            final(self).width == old(self).width,
            final(self).height == old(self).height,
            final(self).bomb_count == old(self).bomb_count,
            final(self).wf(),
            final(self).spec_cells() == old(self).spec_cells().update(
                old(self).sidx(x, y),
                Cell {
                    cell_type: old(self).type_at(x, y),
                    cell_status: toggled_status(old(self).status_at(x, y)),
                },
            ),
            final(self).status_at(x, y) == toggled_status(old(self).status_at(x, y)),
    {
        let i = self.cell_index(x, y);
        let c = self.cells[i];
        if c.cell_status == CellStatus::Hidden {
            self.set_status(x, y, CellStatus::Flagged);
        } else {
            self.set_status(x, y, CellStatus::Hidden);
        }
    }

    /// Reveals the hidden cell at `(x, y)`. A bomb cell moves to `Killed`
    /// and the call returns true, with no other cell touched. An empty cell
    /// moves to `Revealed` and the call returns false; when it has a bomb
    /// among its neighbors only that one cell changes, and when it has none
    /// the reveal cascades through the connected zero-count region and its
    /// border, entering only hidden empty cells and never a bomb.
    #[verifier::loop_isolation(false)]
    #[verifier::rlimit(100)]
    pub fn reveal_cell(&mut self, x: u8, y: u8) -> (killed: bool)
        requires
            old(self).wf(),
            old(self).in_bounds(x, y),
            old(self).status_at(x, y) == CellStatus::Hidden,
        ensures
            final(self).wf(),
            only_statuses_changed(*old(self), *final(self)),
            killed == (old(self).type_at(x, y) == CellType::Bomb),
            killed ==> final(self).spec_cells() == old(self).spec_cells().update(
                old(self).sidx(x, y),
                (Cell { cell_type: CellType::Bomb, cell_status: CellStatus::Killed }),
            ),
            !killed ==> final(self).status_at(x, y) == CellStatus::Revealed,
            !killed ==> reveal_frame(*old(self), *final(self), x, y),
            !killed && old(self).bomb_neighbors(x, y) != 0 ==> final(self).spec_cells() == old(
                self,
            ).spec_cells().update(
                old(self).sidx(x, y),
                (Cell { cell_type: CellType::Empty, cell_status: CellStatus::Revealed }),
            ),
            !killed ==> cascade_sound(*old(self), *final(self), x, y),
            !killed ==> cascade_complete(*old(self), *final(self), x, y),
    {
        let i = self.cell_index(x, y);
        let c = self.cells[i];
        if c.cell_type == CellType::Bomb {
            self.set_status(x, y, CellStatus::Killed);
            true
        } else {
            self.set_status(x, y, CellStatus::Revealed);
            let count = self.get_neighboring_bomb_count(x, y);
            if count == 0 {
                let mut stack = self.get_neighboring_coords(x, y);
                proof {
                    lemma_zero_count_neighbors_empty(*self, x, y);
                    assert forall|j: int| 0 <= j < stack@.len() implies stack_entry_ok(
                        *self,
                        #[trigger] stack@[j],
                    ) by {
                        let p = stack@[j];
                        assert(is_neighbor(p.0, p.1, x, y));
                        assert(self.status_at(x, y) == CellStatus::Revealed
                            && self.bomb_neighbors(x, y) == 0);
                    }
                }
                while stack.len() > 0
                    invariant
                        self.wf(),
                        only_statuses_changed(*old(self), *self),
                        self.status_at(x, y) == CellStatus::Revealed,
                        reveal_frame(*old(self), *self, x, y),
                        cascade_sound(*old(self), *self, x, y),
                        stack_entries_ok(*self, stack@),
                        cascade_pending(*old(self), *self, x, y, stack@),
                    decreases 9 * count_hidden(self.spec_cells()) + stack@.len(),
                {
                    self.cascade_step(&mut stack, x, y, Ghost(*old(self)));
                }
                proof {
                    assert(cascade_complete(*old(self), *self, x, y)) by {
                        assert forall|q: (u8, u8)| !stack@.contains(q) by {
                            if stack@.contains(q) {
                                let j = choose|j: int| 0 <= j < stack@.len() && stack@[j] == q;
                            }
                        }
                    }
                }
            }
            false
        }
    }

    /// One step of the reveal cascade: pops a pending coordinate; if it is
    /// still hidden it is revealed, and when it has no bombs around it its
    /// neighbors join the worklist. `g0` is the state the whole reveal
    /// started from.
    #[verifier::rlimit(100)]
    fn cascade_step(&mut self, stack: &mut Vec<(u8, u8)>, x: u8, y: u8, Ghost(g0): Ghost<Game>)
        requires
            old(self).wf(),
            only_statuses_changed(g0, *old(self)),
            old(self).status_at(x, y) == CellStatus::Revealed,
            g0.in_bounds(x, y),
            reveal_frame(g0, *old(self), x, y),
            cascade_sound(g0, *old(self), x, y),
            stack_entries_ok(*old(self), old(stack)@),
            cascade_pending(g0, *old(self), x, y, old(stack)@),
            old(stack)@.len() > 0,
        ensures
            final(self).wf(),
            only_statuses_changed(g0, *final(self)),
            final(self).status_at(x, y) == CellStatus::Revealed,
            reveal_frame(g0, *final(self), x, y),
            cascade_sound(g0, *final(self), x, y),
            stack_entries_ok(*final(self), final(stack)@),
            cascade_pending(g0, *final(self), x, y, final(stack)@),
            9 * count_hidden(final(self).spec_cells()) + final(stack)@.len() < 9 * count_hidden(
                old(self).spec_cells(),
            ) + old(stack)@.len(),
            0 <= 9 * count_hidden(final(self).spec_cells()) + final(stack)@.len(),
    {
        let ghost s0 = *self;
        let ghost sp0 = stack@;
        let p = stack.pop().unwrap();
        let cx = p.0;
        let cy = p.1;
        proof {
            assert(sp0[sp0.len() - 1] == p);
            assert(stack_entry_ok(s0, p));
            lemma_counts_nonneg(s0.spec_cells());
        }
        let ci = self.cell_index(cx, cy);
        let cc = self.cells[ci];
        if cc.cell_status == CellStatus::Hidden {
            proof {
                assert(s0.status_at(cx, cy) == CellStatus::Hidden);
                assert(!(cx == x && cy == y));
            }
            self.set_status(cx, cy, CellStatus::Revealed);
            let ghost s1 = *self;
            let cnt = self.get_neighboring_bomb_count(cx, cy);
            if cnt == 0 {
                let mut nbrs = self.get_neighboring_coords(cx, cy);
                let ghost nv = nbrs@;
                stack.append(&mut nbrs);
                proof {
                    assert(stack@ == sp0.drop_last() + nv);
                    lemma_counts_nonneg(s1.spec_cells());
                    lemma_cascade_step_reveal(g0, s0, s1, sp0, nv, x, y, cx, cy);
                }
            } else {
                proof {
                    let nv = Seq::<(u8, u8)>::empty();
                    assert(stack@ =~= sp0.drop_last() + nv);
                    lemma_counts_nonneg(s1.spec_cells());
                    lemma_cascade_step_reveal(g0, s0, s1, sp0, nv, x, y, cx, cy);
                }
            }
        } else {
            proof {
                assert(stack@ == sp0.drop_last());
                lemma_cascade_step_skip(g0, s0, sp0, x, y, cx, cy);
            }
        }
    }

    /// The coordinates adjacent to `(x, y)`: exactly the in-bounds positions
    /// within one step, each once, never the origin itself, in the fixed
    /// enumeration order. The count is the surrounding box size minus one.
    pub fn get_neighboring_coords(&self, x: u8, y: u8) -> (r: Vec<(u8, u8)>)
        requires
            self.wf(),
            self.in_bounds(x, y),
        ensures
            r@ == neighbor_seq(self.width, self.height, x, y),
            forall|i: int|
                #![trigger r@[i]]
                0 <= i < r@.len() ==> self.in_bounds(r@[i].0, r@[i].1) && is_neighbor(
                    x,
                    y,
                    r@[i].0,
                    r@[i].1,
                ),
            forall|nx: u8, ny: u8|
                self.in_bounds(nx, ny) && #[trigger] is_neighbor(x, y, nx, ny) ==> r@.contains(
                    (nx, ny),
                ),
            r@.no_duplicates(),
            r@.len() <= 8,
            r@.len() == (1 + (if x > 0 {
                1int
            } else {
                0int
            }) + (if x < self.width - 1 {
                1int
            } else {
                0int
            })) * (1 + (if y > 0 {
                1int
            } else {
                0int
            }) + (if y < self.height - 1 {
                1int
            } else {
                0int
            })) - 1,
    {
        let max_x = self.width - 1;
        let max_y = self.height - 1;
        let mut coords: Vec<(u8, u8)> = Vec::new();
        if y > 0 {
            if x > 0 {
                coords.push((x - 1, y - 1));
            }
            coords.push((x, y - 1));
            if x < max_x {
                coords.push((x + 1, y - 1));
            }
        }
        if y < max_y {
            if x > 0 {
                coords.push((x - 1, y + 1));
            }
            coords.push((x, y + 1));
            if x < max_x {
                coords.push((x + 1, y + 1));
            }
        }
        if x > 0 {
            coords.push((x - 1, y));
        }
        if x < max_x {
            coords.push((x + 1, y));
        }
        proof {
            assert(coords@ =~= neighbor_seq(self.width, self.height, x, y));
            lemma_neighbor_seq_props(self.width, self.height, x, y);
            lemma_neighbor_count_bounds(self.width, self.height, x, y);
            assert forall|i: int| #![trigger coords@[i]] 0 <= i < coords@.len() implies self
                .in_bounds(coords@[i].0, coords@[i].1) && is_neighbor(
                x,
                y,
                coords@[i].0,
                coords@[i].1,
            ) by {
                assert(coords@.contains(coords@[i]));
            }
        }
        coords
    }

    /// Copies of the cells adjacent to `(x, y)`, in enumeration order.
    #[verifier::loop_isolation(false)]
    pub fn get_neighboring_cells(&self, x: u8, y: u8) -> (r: Vec<Cell>)
        requires
            self.wf(),
            self.in_bounds(x, y),
        ensures
            ({
                let ns = neighbor_seq(self.width, self.height, x, y);
                r@.len() == ns.len() && (forall|i: int|
                    0 <= i < ns.len() ==> r@[i] == self.cell_at(ns[i].0, ns[i].1))
            }),
    {
        let coords = self.get_neighboring_coords(x, y);
        let mut cells: Vec<Cell> = Vec::new();
        let mut k: usize = 0;
        while k < coords.len()
            invariant
                k <= coords@.len(),
                cells@.len() == k,
                forall|i: int| 0 <= i < k ==> cells@[i] == self.cell_at(coords@[i].0, coords@[i].1),
            decreases coords@.len() - k,
        {
            let p = coords[k];
            cells.push(self.get_cell(p.0, p.1));
            k = k + 1;
        }
        cells
    }

    /// How many of the cells adjacent to `(x, y)` hold a bomb. Never
    /// mutates; valid on any cell whatever its status.
    #[verifier::loop_isolation(false)]
    pub fn get_neighboring_bomb_count(&self, x: u8, y: u8) -> (r: u16)
        requires
            self.wf(),
            self.in_bounds(x, y),
        ensures
            r as int == self.bomb_neighbors(x, y),
            r as int == count_bombs_at(*self, neighbor_seq(self.width, self.height, x, y)),
            r <= 8,
    {
        let coords = self.get_neighboring_coords(x, y);
        let ghost ns = neighbor_seq(self.width, self.height, x, y);
        let mut bomb_count: u16 = 0;
        let mut k: usize = 0;
        while k < coords.len()
            invariant
                k <= coords@.len(),
                bomb_count as int == count_bombs_at(*self, ns.take(k as int)),
                bomb_count <= k,
            decreases coords@.len() - k,
        {
            let p = coords[k];
            proof {
                assert(ns.take(k as int + 1).drop_last() =~= ns.take(k as int));
                assert(ns.take(k as int + 1).last() == ns[k as int]);
            }
            if self.get_cell(p.0, p.1).cell_type == CellType::Bomb {
                bomb_count = bomb_count + 1;
            }
            k = k + 1;
        }
        proof {
            assert(ns.take(coords@.len() as int) =~= ns);
            lemma_neighbor_bomb_count(*self, x, y);
        }
        bomb_count
    }

    /// A grid with the bombs at exactly the given row-major positions and
    /// every cell hidden. The positions must be distinct and on the grid,
    /// and must leave at least one cell empty.
    #[verifier::loop_isolation(false)]
    pub fn new_with_bombs(width: u8, height: u8, bombs: Vec<u16>) -> (g: Game)
        requires
            bombs@.no_duplicates(),
            forall|k: int| 0 <= k < bombs@.len() ==> (bombs@[k] as int) < width as int * height as int,
            bombs@.len() < width as int * height as int,
        ensures
            g.wf(),
            g.width == width,
            g.height == height,
            g.bomb_count as int == bombs@.len(),
            (g.bomb_count as int) < width as int * height as int,
            forall|i: int|
                0 <= i < g.spec_cells().len() ==> (#[trigger] g.spec_cells()[i]).cell_type == (
                if bombs@.contains(i as u16) {
                    CellType::Bomb
                } else {
                    CellType::Empty
                }),
            forall|i: int|
                0 <= i < g.spec_cells().len() ==> (#[trigger] g.spec_cells()[i]).cell_status
                    == CellStatus::Hidden,
    {
        proof {
            assert(width as int * height as int <= 255 * 255) by (nonlinear_arith)
                requires
                    width as int <= 255,
                    height as int <= 255,
                    0 <= width as int,
                    0 <= height as int,
            ;
        }
        let cell_count: u16 = width as u16 * height as u16;
        let mut cells: Vec<Cell> = Vec::new();
        proof {
            lemma_count_below_nonpos(bombs@, 0);
        }
        let mut i: u16 = 0;
        while i < cell_count
            invariant
                i <= cell_count,
                cells@.len() == i as int,
                forall|j: int|
                    0 <= j < i as int ==> (#[trigger] cells@[j]).cell_type == (
                    if bombs@.contains(j as u16) {
                        CellType::Bomb
                    } else {
                        CellType::Empty
                    }),
                forall|j: int|
                    0 <= j < i as int ==> (#[trigger] cells@[j]).cell_status == CellStatus::Hidden,
                count_bombs(cells@) == count_below(bombs@, i as int),
            decreases cell_count as int - i as int,
        {
            let ghost prev = cells@;
            let is_bomb = contains_position(&bombs, i);
            let cell_type = if is_bomb {
                CellType::Bomb
            } else {
                CellType::Empty
            };
            cells.push(Cell::new(cell_type));
            proof {
                lemma_count_bombs_push(
                    prev,
                    Cell { cell_type, cell_status: CellStatus::Hidden },
                );
                lemma_count_below_step(bombs@, i as int);
                lemma_count_equal_no_dup(bombs@, i);
            }
            i = i + 1;
        }
        proof {
            lemma_count_below_all(bombs@, cell_count as int);
        }
        let bomb_count: u16 = bombs.len() as u16;
        Game { width, height, cells, bomb_count }
    }

    /// A fresh game: `bomb_count` bombs drawn without replacement, uniformly
    /// over all positions of the `width` by `height` grid, with every cell
    /// hidden. The host must leave at least one cell empty.
    #[verifier::loop_isolation(false)]
    pub fn new(width: u8, height: u8, bomb_count: u16) -> (g: Game)
        requires
            (bomb_count as int) < width as int * height as int,
        ensures
            g.wf(),
            g.width == width,
            g.height == height,
            g.bomb_count == bomb_count,
            forall|i: int|
                0 <= i < g.spec_cells().len() ==> (#[trigger] g.spec_cells()[i]).cell_status
                    == CellStatus::Hidden,
    {
        proof {
            assert(width as int * height as int <= 255 * 255) by (nonlinear_arith)
                requires
                    width as int <= 255,
                    height as int <= 255,
                    0 <= width as int,
                    0 <= height as int,
            ;
        }
        let cell_count: u16 = width as u16 * height as u16;
        let mut possible_bomb_placements: Vec<u16> = Vec::new();
        let mut i: u16 = 0;
        while i < cell_count
            invariant
                i <= cell_count,
                possible_bomb_placements@.len() == i as int,
                forall|j: int|
                    0 <= j < i as int ==> (#[trigger] possible_bomb_placements@[j]) as int == j,
            decreases cell_count as int - i as int,
        {
            possible_bomb_placements.push(i);
            i = i + 1;
        }
        let mut bomb_placements: Vec<u16> = Vec::new();
        let mut k: u16 = 0;
        while k < bomb_count
            invariant
                k <= bomb_count,
                bomb_placements@.len() == k as int,
                bomb_placements@.no_duplicates(),
                possible_bomb_placements@.no_duplicates(),
                possible_bomb_placements@.len() == cell_count as int - k as int,
                forall|j: int|
                    0 <= j < bomb_placements@.len() ==> ((#[trigger] bomb_placements@[j]) as int)
                        < cell_count as int,
                forall|j: int|
                    0 <= j < possible_bomb_placements@.len() ==> ((
                    #[trigger] possible_bomb_placements@[j]) as int) < cell_count as int,
                forall|a: int, b: int|
                    #![trigger bomb_placements@[a], possible_bomb_placements@[b]]
                    0 <= a < bomb_placements@.len() && 0 <= b < possible_bomb_placements@.len()
                        ==> bomb_placements@[a] != possible_bomb_placements@[b],
            decreases bomb_count as int - k as int,
        {
            let ghost prev_chosen = bomb_placements@;
            let ghost prev_pool = possible_bomb_placements@;
            let index = random_below(possible_bomb_placements.len());
            let position = possible_bomb_placements[index];
            bomb_placements.push(position);
            let _ = possible_bomb_placements.remove(index);
            proof {
                assert(possible_bomb_placements@ == prev_pool.remove(index as int));
                assert forall|j: int|
                    0 <= j < possible_bomb_placements@.len() implies #[trigger] possible_bomb_placements@[j]
                    != position by {
                    if j < index as int {
                        assert(possible_bomb_placements@[j] == prev_pool[j]);
                    } else {
                        assert(possible_bomb_placements@[j] == prev_pool[j + 1]);
                    }
                }
                assert(bomb_placements@.no_duplicates()) by {
                    assert(forall|a: int|
                        0 <= a < prev_chosen.len() ==> #[trigger] prev_chosen[a] != position);
                }
            }
            k = k + 1;
        }
        Game::new_with_bombs(width, height, bomb_placements)
    }
}

/// Whether the position occurs among the listed bomb positions.
fn contains_position(positions: &Vec<u16>, x: u16) -> (b: bool)
    ensures
        b == positions@.contains(x),
{
    let mut k: usize = 0;
    while k < positions.len()
        invariant
            k <= positions@.len(),
            forall|j: int| 0 <= j < k as int ==> positions@[j] != x,
        decreases positions@.len() - k as int,
    {
        if positions[k] == x {
            assert(positions@[k as int] == x);
            return true;
        }
        k = k + 1;
    }
    false
}

/// Relies on rand::random_range over `0..n`, a uniform draw from the
/// non-empty range: whatever it returns lies below `n`.
#[verifier::external_body]
fn random_below(n: usize) -> (r: usize)
    requires
        n > 0,
    ensures
        r < n,
{
    rand::random_range(0..n)
}

} // verus!
