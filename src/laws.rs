//! Properties of the matrix operations, proved over the models that their
//! contracts speak of.

use crate::bits::max_bits;
use crate::matrix::{decoded, lemma_offset_in_bounds, lemma_offset_injective, MatrixView};
use vstd::arithmetic::div_mod::{lemma_fundamental_div_mod, lemma_div_pos_is_pos, lemma_mod_pos_bound};
use vstd::prelude::*;

verus! {

/// A new matrix has the shape it was asked for, one bit per cell, and every
/// cell reads `false`.
pub proof fn new_is_all_false(h: nat, w: nat)
    requires
        h * w <= max_bits(),
    ensures
        MatrixView::zeros(h, w).wf(),
        MatrixView::zeros(h, w).height == h,
        MatrixView::zeros(h, w).width == w,
        MatrixView::zeros(h, w).bits.len() == h * w,
        forall|i: int, j: int| #![auto] MatrixView::zeros(h, w).in_bounds(i, j) ==> !MatrixView::zeros(h, w).cell(i, j),
{
    let m = MatrixView::zeros(h, w);
    assert forall|i: int, j: int| #![auto] m.in_bounds(i, j) implies !m.cell(i, j) by {
        lemma_offset_in_bounds(h, w, i as nat, j as nat);
    }
}

/// After cell `(i, j)` is set to `v` it reads `v`, and every other cell
/// reads as before.
pub proof fn set_then_get(m: MatrixView, i: int, j: int, v: bool)
    requires
        m.wf(),
        m.in_bounds(i, j),
    ensures
        m.set_cell(i, j, v).wf(),
        m.set_cell(i, j, v).cell(i, j) == v,
        forall|a: int, b: int|
            m.in_bounds(a, b) && (a, b) != (i, j) ==> #[trigger] m.set_cell(i, j, v).cell(a, b) == m.cell(a, b),
{
    lemma_offset_in_bounds(m.height, m.width, i as nat, j as nat);
    assert forall|a: int, b: int| m.in_bounds(a, b) && (a, b) != (i, j) implies
        #[trigger] m.set_cell(i, j, v).cell(a, b) == m.cell(a, b) by {
        lemma_offset_in_bounds(m.height, m.width, a as nat, b as nat);
        if m.offset(a, b) == m.offset(i, j) {
            lemma_offset_injective(m.width, a as nat, b as nat, i as nat, j as nat);
        }
    }
}

/// After every bit is set to `v`, every cell reads `v`.
pub proof fn set_all_saturates(m: MatrixView, v: bool)
    requires
        m.wf(),
    ensures
        m.filled(v).wf(),
        forall|i: int, j: int| #![auto] m.in_bounds(i, j) ==> m.filled(v).cell(i, j) == v,
{
    assert forall|i: int, j: int| #![auto] m.in_bounds(i, j) implies m.filled(v).cell(i, j) == v by {
        lemma_offset_in_bounds(m.height, m.width, i as nat, j as nat);
    }
}

/// The bit at offset `k` is cell `(k / width, k % width)`.
proof fn lemma_offset_to_cell(m: MatrixView, k: int)
    requires
        m.wf(),
        0 <= k < m.bits.len(),
    ensures
        m.width > 0,
        m.in_bounds(k / m.width as int, k % m.width as int),
        m.offset(k / m.width as int, k % m.width as int) == k,
{
    let w = m.width as int;
    if w == 0 {
        assert(m.height * m.width == 0) by (nonlinear_arith)
            requires
                m.width == 0,
        ;
    }
    lemma_fundamental_div_mod(k, w);
    lemma_div_pos_is_pos(k, w);
    lemma_mod_pos_bound(k, w);
    if k / w >= m.height {
        assert(k / w * w >= m.height * w) by (nonlinear_arith)
            requires
                k / w >= m.height,
                w > 0,
        ;
    }
}

/// Position `k` of the row-major bit sequence lies in row `k / width` and
/// column `k % width`, and holds that cell's value.
pub open spec fn position_is_cell(m: MatrixView, k: int) -> bool {
    let i = k / (m.width as int);
    let j = k % (m.width as int);
    m.in_bounds(i, j) && m.bits[k] == m.cell(i, j)
}

/// The bits, in the order that `iter` yields them, are the cells row after
/// row, each row left to right: the bit at position `k` is cell
/// `(k / width, k % width)`.
pub proof fn iteration_is_row_major(m: MatrixView)
    requires
        m.wf(),
    ensures
        m.bits.len() == m.height * m.width,
        forall|k: int| 0 <= k < m.bits.len() ==> #[trigger] position_is_cell(m, k),
{
    assert forall|k: int| 0 <= k < m.bits.len() implies #[trigger] position_is_cell(m, k) by {
        lemma_offset_to_cell(m, k);
    }
}

/// Row `i` holds the cells `(i, 0)` to `(i, width - 1)`, in order.
pub proof fn row_is_its_cells(m: MatrixView, i: int)
    requires
        m.wf(),
        0 <= i < m.height,
    ensures
        m.row(i).len() == m.width,
        forall|j: int| 0 <= j < m.width ==> #[trigger] m.row(i)[j] == m.cell(i, j),
{
    assert((i + 1) * m.width <= m.height * m.width) by (nonlinear_arith)
        requires
            i < m.height,
    ;
    assert((i + 1) * m.width == i * m.width + m.width) by (nonlinear_arith);
}

/// Two matrices of the same shape whose cells all agree are equal.
pub proof fn equal_cells_equal(a: MatrixView, b: MatrixView)
    requires
        a.wf(),
        b.wf(),
        a.height == b.height,
        a.width == b.width,
        forall|i: int, j: int| #![auto] a.in_bounds(i, j) ==> a.cell(i, j) == b.cell(i, j),
    ensures
        a == b,
{
    iteration_is_row_major(a);
    iteration_is_row_major(b);
    assert forall|k: int| 0 <= k < a.bits.len() implies a.bits[k] == b.bits[k] by {
        assert(position_is_cell(a, k));
        assert(position_is_cell(b, k));
    }
    assert(a.bits =~= b.bits);
}

/// Two matrices that differ in one cell are not equal.
pub proof fn differing_cell_unequal(a: MatrixView, b: MatrixView, i: int, j: int)
    requires
        a.in_bounds(i, j),
        a.cell(i, j) != b.cell(i, j),
    ensures
        a != b,
{
}

/// Decoding a matrix's bits with its shape gives the matrix back.
pub proof fn decode_encode(m: MatrixView)
    requires
        m.wf(),
    ensures
        decoded(m.bits, m.height, m.width) == Some(m),
{
}

} // verus!
