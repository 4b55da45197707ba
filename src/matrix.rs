//! The bit matrix: shape, cell addressing, access and iteration.

use crate::bits::{
    bit, bit_range, bits_of, duplicate, fill, from_bools, max_bits, same_bits, set_bit, text_of_chars,
    zeroed, Storage,
};
use vstd::prelude::*;

verus! {

/// The mathematical value of a matrix: its shape and its bits, row-major.
pub struct MatrixView {
    pub height: nat,
    pub width: nat,
    pub bits: Seq<bool>,
}

impl MatrixView {
    /// The buffer holds exactly one bit per cell, and fits in one buffer.
    pub open spec fn wf(self) -> bool {
        &&& self.bits.len() == self.height * self.width
        &&& self.bits.len() <= max_bits()
    }

    /// `(i, j)` names a cell of the matrix.
    pub open spec fn in_bounds(self, i: int, j: int) -> bool {
        0 <= i < self.height && 0 <= j < self.width
    }

    /// An `h` by `w` matrix whose bits are all `false`.
    pub open spec fn zeros(h: nat, w: nat) -> MatrixView {
        MatrixView { height: h, width: w, bits: Seq::new(h * w, |k: int| false) }
    }

    /// The matrix with every bit set to `v`.
    pub open spec fn filled(self, v: bool) -> MatrixView {
        MatrixView { bits: Seq::new(self.bits.len(), |k: int| v), ..self }
    }

    /// The matrix after cell `(i, j)` is set to `v`.
    pub open spec fn set_cell(self, i: int, j: int, v: bool) -> MatrixView {
        MatrixView { bits: self.bits.update(self.offset(i, j), v), ..self }
    }

    /// The bit offset of cell `(i, j)`.
    pub open spec fn offset(self, i: int, j: int) -> int {
        i * self.width + j
    }

    /// The value of cell `(i, j)`.
    pub open spec fn cell(self, i: int, j: int) -> bool {
        self.bits[self.offset(i, j)]
    }

    /// The bits of row `i`, left to right.
    pub open spec fn row(self, i: int) -> Seq<bool> {
        self.bits.subrange(i * self.width, (i + 1) * self.width)
    }
}

/// What decoding `bits` as an `h` by `w` matrix gives: nothing unless there
/// is exactly one bit per cell.
pub open spec fn decoded(bits: Seq<bool>, h: nat, w: nat) -> Option<MatrixView> {
    if bits.len() == h * w && bits.len() <= max_bits() {
        Some(MatrixView { height: h, width: w, bits })
    } else {
        None
    }
}

/// The character that renders one bit.
pub open spec fn digit(b: bool) -> char {
    if b {
        '1'
    } else {
        '0'
    }
}

/// One row rendered: a digit per bit, then a line break.
pub open spec fn row_text(row: Seq<bool>) -> Seq<char> {
    row.map_values(|b: bool| digit(b)).push('\n')
}

/// The first `n` rows of `m` rendered, one line each.
pub open spec fn text_upto(m: MatrixView, n: nat) -> Seq<char>
    decreases n,
{
    if n == 0 {
        Seq::empty()
    } else {
        text_upto(m, (n - 1) as nat) + row_text(m.row(n - 1))
    }
}

/// A fixed-size matrix of bits, all held in one packed buffer.
#[derive(Hash)]
pub struct BitMatrix {
    storage: Storage,
    height: usize,
    width: usize,
}

/// Cell `(i, j)` of an `h` by `w` matrix lies inside the buffer, and row `i`
/// ends where row `i + 1` starts.
pub(crate) proof fn lemma_offset_in_bounds(h: nat, w: nat, i: nat, j: nat)
    requires
        i < h,
        j < w,
    ensures
        i * w + j < h * w,
        (i + 1) * w <= h * w,
        (i + 1) * w == i * w + w,
{
    assert(i * w + j < h * w) by (nonlinear_arith)
        requires
            i < h,
            j < w,
    ;
    assert((i + 1) * w <= h * w) by (nonlinear_arith)
        requires
            i < h,
    ;
    assert((i + 1) * w == i * w + w) by (nonlinear_arith);
}

/// A row that comes before row `i` lies wholly before it.
pub(crate) proof fn lemma_earlier_row(w: nat, a: nat, b: nat, i: nat)
    requires
        a < i,
        b < w,
    ensures
        a * w + b < i * w,
{
    assert(a * w + b < i * w) by (nonlinear_arith)
        requires
            a < i,
            b < w,
    ;
}

/// Distinct cells have distinct offsets.
pub(crate) proof fn lemma_offset_injective(w: nat, a: nat, b: nat, i: nat, j: nat)
    requires
        b < w,
        j < w,
        a * w + b == i * w + j,
    ensures
        a == i,
        b == j,
{
    if a < i {
        lemma_earlier_row(w, a, b, i);
    } else if i < a {
        lemma_earlier_row(w, i, j, a);
    }
}

impl PartialEq for BitMatrix {
    /// Equal shapes and equal bits.
    fn eq(&self, other: &BitMatrix) -> (r: bool) {
        self.height == other.height && self.width == other.width && same_bits(&self.storage, &other.storage)
    }
}

impl vstd::std_specs::cmp::PartialEqSpecImpl for BitMatrix {
    open spec fn obeys_eq_spec() -> bool {
        true
    }

    open spec fn eq_spec(&self, other: &BitMatrix) -> bool {
        self@ == other@
    }
}

impl Eq for BitMatrix {
}

impl Clone for BitMatrix {
    fn clone(&self) -> (r: BitMatrix)
        ensures
            r@ == self@,
    {
        BitMatrix { storage: duplicate(&self.storage), height: self.height, width: self.width }
    }
}

impl View for BitMatrix {
    type V = MatrixView;

    closed spec fn view(&self) -> MatrixView {
        MatrixView { height: self.height as nat, width: self.width as nat, bits: bits_of(self.storage) }
    }
}

impl BitMatrix {
    /// The matrix is well formed: one bit per cell.
    pub open spec fn wf(&self) -> bool {
        self@.wf()
    }

    /// A `height` by `width` matrix with every bit `false`.
    pub fn new(height: usize, width: usize) -> (r: BitMatrix)
        requires
            height * width <= max_bits(),
        ensures
            r.wf(),
            r@ == MatrixView::zeros(height as nat, width as nat),
    {
        let size = height * width;
        let r = BitMatrix { storage: zeroed(size), height, width };
        assert(r@ =~= MatrixView::zeros(height as nat, width as nat));
        r
    }

    /// The number of rows.
    pub fn height(&self) -> (r: usize)
        ensures
            r == self@.height,
    {
        self.height
    }

    /// The offset of the first bit of row `i`.
    fn row_ix(&self, i: usize) -> (r: usize)
        requires
            self.wf(),
            i <= self.height,
        ensures
            r == i * self.width,
    {
        proof {
            assert(i * self.width <= self.height * self.width) by (nonlinear_arith)
                requires
                    i <= self.height,
            ;
        }
        i * self.width
    }

    /// The value of cell `(i, j)`.
    pub fn get(&self, i: usize, j: usize) -> (r: bool)
        requires
            self.wf(),
            i < self@.height,
            j < self@.width,
        ensures
            r == self@.cell(i as int, j as int),
    {
        proof {
            lemma_offset_in_bounds(self.height as nat, self.width as nat, i as nat, j as nat);
        }
        let begin = self.row_ix(i);
        bit(&self.storage, begin + j)
    }

    /// Sets cell `(i, j)` to `value`; every other cell keeps its value.
    pub fn set(&mut self, index: (usize, usize), value: bool)
        requires
            old(self).wf(),
            index.0 < old(self)@.height,
            index.1 < old(self)@.width,
        ensures
            final(self).wf(),
            final(self)@ == old(self)@.set_cell(index.0 as int, index.1 as int, value),
    {
        let (i, j) = index;
        proof {
            lemma_offset_in_bounds(self.height as nat, self.width as nat, i as nat, j as nat);
        }
        let begin = self.row_ix(i);
        set_bit(&mut self.storage, begin + j, value);
    }

    /// Sets every cell to `value`.
    pub fn set_all(&mut self, value: bool)
        requires
            old(self).wf(),
        ensures
            final(self).wf(),
            final(self)@ == old(self)@.filled(value),
    {
        fill(&mut self.storage, value);
        assert(self@ =~= old(self)@.filled(value));
    }

    /// A view of row `i`; it borrows the matrix and copies no bits.
    pub fn row(&self, i: usize) -> (r: Row<'_>)
        requires
            self.wf(),
            i < self@.height,
        ensures
            r.wf(),
            r@ == self@.row(i as int),
    {
        Row { matrix: self, index: i }
    }

    /// A writable view of row `i`; writes through it land in the matrix.
    pub fn row_mut(&mut self, i: usize) -> (r: RowMut<'_>)
        requires
            old(self).wf(),
            i < old(self)@.height,
        ensures
            r.wf(),
            r.index == i,
            r.matrix@ == old(self)@,
            *final(self) == *final(r.matrix),
    {
        RowMut { matrix: self, index: i }
    }

    /// Every bit of the matrix, row after row.
    pub fn iter(&self) -> (r: Vec<bool>)
        requires
            self.wf(),
        ensures
            r@ == self@.bits,
    {
        let end = self.row_ix(self.height);
        let r = bit_range(&self.storage, 0, end);
        assert(r@ =~= self@.bits);
        r
    }

    /// The rows of the matrix, in order.
    pub fn rows(&self) -> (r: Vec<Row<'_>>)
        requires
            self.wf(),
        ensures
            r@.len() == self@.height,
            forall|i: int| 0 <= i < self@.height ==> (#[trigger] r@[i]).wf() && r@[i]@ == self@.row(i),
    {
        let mut r: Vec<Row<'_>> = Vec::new();
        let mut i: usize = 0;
        while i < self.height
            invariant
                self.wf(),
                i <= self@.height,
                r@.len() == i,
                forall|a: int| 0 <= a < i ==> (#[trigger] r@[a]).wf() && r@[a]@ == self@.row(a),
            decreases self@.height - i,
        {
            r.push(self.row(i));
            i = i + 1;
        }
        r
    }

    /// Visits every bit in row-major order, replacing the bit at offset `k`
    /// with `f(k, bit)`.
    pub fn iter_mut<F: Fn(usize, bool) -> bool>(&mut self, f: F)
        requires
            old(self).wf(),
            forall|k: usize, b: bool| f.requires((k, b)),
        ensures
            final(self).wf(),
            final(self)@.height == old(self)@.height,
            final(self)@.width == old(self)@.width,
            final(self)@.bits.len() == old(self)@.bits.len(),
            forall|k: int|
                0 <= k < old(self)@.bits.len() ==> f.ensures(
                    (k as usize, old(self)@.bits[k]),
                    #[trigger] final(self)@.bits[k],
                ),
    {
        let ghost before = self@;
        let n = self.row_ix(self.height);
        let mut k: usize = 0;
        while k < n
            invariant
                self.wf(),
                forall|k: usize, b: bool| f.requires((k, b)),
                n == before.bits.len(),
                k <= n,
                self@.height == before.height,
                self@.width == before.width,
                self@.bits.len() == before.bits.len(),
                forall|m: int| 0 <= m < k ==> f.ensures((m as usize, before.bits[m]), #[trigger] self@.bits[m]),
                forall|m: int| k <= m < n ==> #[trigger] self@.bits[m] == before.bits[m],
            decreases n - k,
        {
            let b = bit(&self.storage, k);
            let nb = f(k, b);
            set_bit(&mut self.storage, k, nb);
            k = k + 1;
        }
    }

    /// Visits the rows in order and each row left to right, replacing cell
    /// `(i, j)` with `f(i, j, cell)`.
    pub fn rows_mut<F: Fn(usize, usize, bool) -> bool>(&mut self, f: F)
        requires
            old(self).wf(),
            forall|i: usize, j: usize, b: bool| f.requires((i, j, b)),
        ensures
            final(self).wf(),
            final(self)@.height == old(self)@.height,
            final(self)@.width == old(self)@.width,
            forall|i: int, j: int|
                old(self)@.in_bounds(i, j) ==> f.ensures(
                    (i as usize, j as usize, old(self)@.cell(i, j)),
                    #[trigger] final(self)@.cell(i, j),
                ),
    {
        let ghost before = self@;
        let mut i: usize = 0;
        while i < self.height
            invariant
                self.wf(),
                forall|i: usize, j: usize, b: bool| f.requires((i, j, b)),
                i <= before.height,
                self@.height == before.height,
                self@.width == before.width,
                self@.bits.len() == before.bits.len(),
                forall|a: int, b: int|
                    0 <= a < i && 0 <= b < before.width ==> f.ensures(
                        (a as usize, b as usize, before.cell(a, b)),
                        #[trigger] self@.cell(a, b),
                    ),
                forall|m: int| i * before.width <= m < before.bits.len() ==> #[trigger] self@.bits[m] == before.bits[m],
            decreases before.height - i,
        {
            let begin = self.row_ix(i);
            let mut j: usize = 0;
            while j < self.width
                invariant
                    self.wf(),
                    forall|i: usize, j: usize, b: bool| f.requires((i, j, b)),
                    i < before.height,
                    j <= before.width,
                    begin == i * before.width,
                    self@.height == before.height,
                    self@.width == before.width,
                    self@.bits.len() == before.bits.len(),
                    forall|a: int, b: int|
                        0 <= a < i && 0 <= b < before.width ==> f.ensures(
                            (a as usize, b as usize, before.cell(a, b)),
                            #[trigger] self@.cell(a, b),
                        ),
                    forall|b: int|
                        0 <= b < j ==> f.ensures(
                            (i as usize, b as usize, before.cell(i as int, b)),
                            #[trigger] self@.cell(i as int, b),
                        ),
                    forall|m: int| begin + j <= m < before.bits.len() ==> #[trigger] self@.bits[m] == before.bits[m],
                decreases before.width - j,
            {
                proof {
                    lemma_offset_in_bounds(before.height, before.width, i as nat, j as nat);
                    assert forall|a: int, b: int| 0 <= a < i && 0 <= b < before.width implies
                        #[trigger] before.offset(a, b) < begin by {
                        lemma_earlier_row(before.width, a as nat, b as nat, i as nat);
                    }
                }
                let ghost prev = self@;
                let b = bit(&self.storage, begin + j);
                let nb = f(i, j, b);
                set_bit(&mut self.storage, begin + j, nb);
                proof {
                    assert forall|a: int, b: int| 0 <= a < i && 0 <= b < before.width implies
                        #[trigger] self@.cell(a, b) == prev.cell(a, b) by {
                        lemma_earlier_row(before.width, a as nat, b as nat, i as nat);
                    }
                    assert forall|b: int| 0 <= b < j implies
                        #[trigger] self@.cell(i as int, b) == prev.cell(i as int, b) by {}
                    assert(self@.cell(i as int, j as int) == nb);
                }
                j = j + 1;
            }
            proof {
                assert((i + 1) * before.width == i * before.width + before.width) by (nonlinear_arith);
                assert forall|a: int, b: int| 0 <= a < i + 1 && 0 <= b < before.width implies f.ensures(
                    (a as usize, b as usize, before.cell(a, b)),
                    #[trigger] self@.cell(a, b),
                ) by {
                    if a == i {
                        assert(self@.cell(i as int, b) == self@.cell(a, b));
                    }
                }
            }
            i = i + 1;
        }
    }

    /// Rebuilds an `height` by `width` matrix from its bits in row-major
    /// order, as `iter` gives them; `None` unless there is exactly one bit
    /// per cell.
    pub fn from_bits(bits: &Vec<bool>, height: usize, width: usize) -> (r: Option<BitMatrix>)
        ensures
            decoded(bits@, height as nat, width as nat) is None ==> r is None,
            decoded(bits@, height as nat, width as nat) matches Some(m) ==> (r matches Some(x) && x.wf() && x@ == m),
    {
        if bits.len() > usize::MAX / 8 {
            return None;
        }
        match height.checked_mul(width) {
            Some(n) if n == bits.len() => {
                Some(BitMatrix { storage: from_bools(bits), height, width })
            },
            _ => None,
        }
    }

    /// The matrix as text: one line per row, a `0` or `1` per bit, each line
    /// ended by a line break.
    pub fn render(&self) -> (r: String)
        requires
            self.wf(),
        ensures
            r@ == text_upto(self@, self@.height),
    {
        let mut out: Vec<char> = Vec::new();
        let mut i: usize = 0;
        while i < self.height
            invariant
                self.wf(),
                i <= self@.height,
                out@ == text_upto(self@, i as nat),
            decreases self@.height - i,
        {
            let row = self.row(i).to_vec();
            let mut j: usize = 0;
            let ghost start = out@;
            while j < row.len()
                invariant
                    j <= row@.len(),
                    out@ == start + row@.subrange(0, j as int).map_values(|b: bool| digit(b)),
                decreases row@.len() - j,
            {
                let c = if row[j] { '1' } else { '0' };
                out.push(c);
                j = j + 1;
                assert(row@.subrange(0, j as int) =~= row@.subrange(0, j - 1).push(row@[j - 1]));
                assert(out@ =~= start + row@.subrange(0, j as int).map_values(|b: bool| digit(b)));
            }
            out.push('\n');
            assert(row@.subrange(0, j as int) =~= row@);
            assert(out@ =~= text_upto(self@, (i + 1) as nat));
            i = i + 1;
        }
        text_of_chars(out)
    }

    /// The number of columns.
    pub fn width(&self) -> (r: usize)
        ensures
            r == self@.width,
    {
        self.width
    }
}

/// A writable window onto one row of a matrix.
pub struct RowMut<'a> {
    /// The borrowed matrix.
    pub matrix: &'a mut BitMatrix,
    /// The row's index.
    pub index: usize,
}

impl<'a> RowMut<'a> {
    /// The window lies on a row of a well-formed matrix.
    pub open spec fn wf(&self) -> bool {
        self.matrix.wf() && self.index < self.matrix@.height
    }

    /// The bit in column `j`.
    pub fn get(&self, j: usize) -> (r: bool)
        requires
            self.wf(),
            j < self.matrix@.width,
        ensures
            r == old(self.matrix)@.cell(self.index as int, j as int),
    {
        self.matrix.get(self.index, j)
    }

    /// Sets column `j` of the row to `v`.
    pub fn set(&mut self, j: usize, v: bool)
        requires
            old(self).wf(),
            j < old(self).matrix@.width,
        ensures
            final(self).wf(),
            final(self).index == old(self).index,
            final(self).matrix@ == old(self).matrix@.set_cell(old(self).index as int, j as int, v),
            *final(final(self).matrix) == *final(old(self).matrix),
    {
        self.matrix.set((self.index, j), v);
    }
}

/// A read-only window onto one row of a matrix: the matrix it borrows and
/// the row's index.
pub struct Row<'a> {
    matrix: &'a BitMatrix,
    index: usize,
}

impl<'a> View for Row<'a> {
    type V = Seq<bool>;

    closed spec fn view(&self) -> Seq<bool> {
        self.matrix@.row(self.index as int)
    }
}

impl<'a> Row<'a> {
    /// The window lies on a row of a well-formed matrix.
    pub closed spec fn wf(&self) -> bool {
        self.matrix.wf() && self.index < self.matrix@.height
    }

    /// The number of bits in the row: the matrix width.
    pub fn len(&self) -> (r: usize)
        requires
            self.wf(),
        ensures
            r == self@.len(),
    {
        proof {
            self.lemma_bounds();
        }
        self.matrix.width
    }

    /// The bit in column `j`.
    pub fn get(&self, j: usize) -> (r: bool)
        requires
            self.wf(),
            j < self@.len(),
        ensures
            r == self@[j as int],
    {
        proof {
            self.lemma_bounds();
        }
        self.matrix.get(self.index, j)
    }

    /// The row's bits, copied out.
    pub fn to_vec(&self) -> (r: Vec<bool>)
        requires
            self.wf(),
        ensures
            r@ == self@,
    {
        proof {
            self.lemma_bounds();
        }
        let begin = self.matrix.row_ix(self.index);
        let end = self.matrix.row_ix(self.index + 1);
        bit_range(&self.matrix.storage, begin, end)
    }

    proof fn lemma_bounds(&self)
        requires
            self.wf(),
        ensures
            self.index * self.matrix.width <= (self.index + 1) * self.matrix.width,
            (self.index + 1) * self.matrix.width <= self.matrix.height * self.matrix.width,
            (self.index + 1) * self.matrix.width == self.index * self.matrix.width + self.matrix.width,
            self@.len() == self.matrix@.width,
    {
        let (i, w, h) = (self.index as int, self.matrix.width as int, self.matrix.height as int);
        assert(i * w <= (i + 1) * w) by (nonlinear_arith)
            requires
                w >= 0,
                i >= 0,
        ;
        assert((i + 1) * w <= h * w) by (nonlinear_arith)
            requires
                i < h,
                w >= 0,
        ;
        assert((i + 1) * w == i * w + w) by (nonlinear_arith);
    }
}

} // verus!
