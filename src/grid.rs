use vstd::prelude::*;
use vstd::std_specs::cmp::PartialEqSpec;

verus! {

/// The contents of each row.
pub open spec fn rows_view<T>(rows: Seq<Vec<T>>) -> Seq<Seq<T>> {
    rows.map_values(|r: Vec<T>| r@)
}

/// Every row has `w` cells.
pub open spec fn rectangular<T>(g: Seq<Seq<T>>, w: nat) -> bool {
    forall|i: int| 0 <= i < g.len() ==> (#[trigger] g[i]).len() == w
}

/// The cells row after row.
pub open spec fn flatten_rows<T>(g: Seq<Seq<T>>) -> Seq<T>
    decreases g.len(),
{
    if g.len() == 0 {
        Seq::empty()
    } else {
        flatten_rows(g.drop_last()) + g.last()
    }
}

/// Each cell with its column and row, row after row.
pub open spec fn enumerated<T>(g: Seq<Seq<T>>) -> Seq<((usize, usize), T)> {
    flatten_rows(
        Seq::new(g.len(), |y: int| Seq::new(g[y].len(), |x: int| ((x as usize, y as usize), g[y][x]))),
    )
}

/// The rows of `g` turned a quarter to the right: column `x` read bottom to top becomes row `x`.
pub open spec fn rotated<T>(g: Seq<Seq<T>>, w: nat) -> Seq<Seq<T>> {
    Seq::new(w, |x: int| Seq::new(g.len(), |y: int| g[g.len() - 1 - y][x]))
}

/// The rows of `g`, each reversed.
pub open spec fn flipped<T>(g: Seq<Seq<T>>, w: nat) -> Seq<Seq<T>> {
    Seq::new(g.len(), |y: int| Seq::new(w, |x: int| g[y][w - 1 - x]))
}

/// A grid `a` of width `wa` lies inside `b` of width `wb` when shifted by `(ox, oy)`.
pub open spec fn fits_inside<T>(a: Seq<Seq<T>>, wa: nat, b: Seq<Seq<T>>, wb: nat, ox: int, oy: int) -> bool {
    wa + ox <= wb && a.len() + oy <= b.len()
}

/// Each cell of `a` equals, by `eq_spec`, the cell of `b` that lies under it when `a` is
/// shifted by `(ox, oy)`.
pub open spec fn cells_match<T: PartialEqSpec>(a: Seq<Seq<T>>, b: Seq<Seq<T>>, ox: int, oy: int) -> bool {
    forall|y: int, x: int|
        0 <= y < a.len() && 0 <= x < a[y].len() ==> (#[trigger] a[y][x]).eq_spec(&b[y + oy][x + ox])
}

/// `b` with the cells of `a` (width `wa`) written over it at offset `(ox, oy)`, for the rows of
/// `a` before `ky` and the first `kx` cells of row `ky`.
pub open spec fn stamped_upto<T>(
    b: Seq<Seq<T>>,
    a: Seq<Seq<T>>,
    wa: int,
    ox: int,
    oy: int,
    ky: int,
    kx: int,
) -> Seq<Seq<T>> {
    Seq::new(
        b.len(),
        |y: int|
            Seq::new(
                b[y].len(),
                |x: int|
                    if oy <= y && ox <= x < ox + wa && (y - oy < ky || (y - oy == ky && x - ox
                        < kx)) {
                        a[y - oy][x - ox]
                    } else {
                        b[y][x]
                    },
            ),
    )
}

/// `b` with all of `a` (width `wa`) written over it at offset `(ox, oy)`.
pub open spec fn stamped<T>(b: Seq<Seq<T>>, a: Seq<Seq<T>>, wa: int, ox: int, oy: int) -> Seq<Seq<T>> {
    stamped_upto(b, a, wa, ox, oy, a.len() as int, 0)
}

/// A rectangular grid of cells; (0, 0) is the upper left corner.
#[derive(PartialEq, Eq, Debug, Clone)]
pub struct Grid<T> {
    rows: Vec<Vec<T>>,
    size_x: usize,
}

impl<T> View for Grid<T> {
    type V = Seq<Seq<T>>;

    closed spec fn view(&self) -> Seq<Seq<T>> {
        rows_view(self.rows@)
    }
}

impl<T: Copy> Grid<T> {
    /// The number of cells in each row.
    pub closed spec fn width(&self) -> nat {
        self.size_x as nat
    }

    /// Every row has the grid's width, and the width is zero exactly when there are no rows.
    pub open spec fn wf(&self) -> bool {
        rectangular(self@, self.width()) && (self.width() == 0 <==> self@.len() == 0)
    }

    /// An empty grid.
    pub fn new() -> (r: Grid<T>)
        ensures
            r.wf(),
            r@.len() == 0,
            r.width() == 0,
    {
        let r = Grid { rows: Vec::new(), size_x: 0 };
        assert(r@ =~= Seq::<Seq<T>>::empty());
        r
    }

    /// A grid of the given rows, which must all be of one length.
    pub fn from_rows(rows: Vec<Vec<T>>) -> (r: Grid<T>)
        requires
            forall|i: int, j: int|
                0 <= i < rows@.len() && 0 <= j < rows@.len() ==> (#[trigger] rows@[i])@.len()
                    == (#[trigger] rows@[j])@.len(),
        ensures
            r.wf(),
            rows@.len() == 0 || rows@[0]@.len() == 0 ==> r@.len() == 0 && r.width() == 0,
            rows@.len() > 0 && rows@[0]@.len() > 0 ==> r@ == rows_view(rows@) && r.width()
                == rows@[0]@.len(),
    {
        if rows.len() == 0 || rows[0].len() == 0 {
            Grid::new()
        } else {
            let size_x = rows[0].len();
            let r = Grid { rows, size_x };
            assert forall|i: int| 0 <= i < r@.len() implies (#[trigger] r@[i]).len() == r.width() by {
                assert(r.rows@[i]@.len() == r.rows@[0]@.len());
            }
            r
        }
    }

    pub fn size_x(&self) -> (r: usize)
        ensures
            r == self.width(),
    {
        self.size_x
    }

    pub fn size_y(&self) -> (r: usize)
        ensures
            r == self@.len(),
    {
        self.rows.len()
    }

    /// Appends a row. The first non-empty row fixes the width; an empty row added to an
    /// empty grid leaves it empty.
    pub fn add_row(&mut self, row: Vec<T>)
        requires
            old(self).wf(),
            old(self)@.len() == 0 || row@.len() == old(self).width(),
        ensures
            final(self).wf(),
            old(self)@.len() == 0 && row@.len() == 0 ==> final(self)@.len() == 0,
            old(self)@.len() == 0 && row@.len() > 0 ==> final(self)@ == seq![row@]
                && final(self).width() == row@.len(),
            old(self)@.len() > 0 ==> final(self)@ == old(self)@.push(row@) && final(self).width()
                == old(self).width(),
    {
        let ghost prev = self.rows@;
        if self.rows.len() == 0 {
            if row.len() == 0 {
                self.size_x = 0;
                return;
            }
            self.size_x = row.len();
        }
        self.rows.push(row);
        assert(self@ =~= rows_view(prev).push(row@));
    }

    /// Appends a copy of the cells of `row`, as `add_row` does.
    pub fn add_row_slice(&mut self, row: &[T])
        requires
            old(self).wf(),
            old(self)@.len() == 0 || row@.len() == old(self).width(),
        ensures
            final(self).wf(),
            old(self)@.len() == 0 && row@.len() == 0 ==> final(self)@.len() == 0,
            old(self)@.len() == 0 && row@.len() > 0 ==> final(self)@ == seq![row@]
                && final(self).width() == row@.len(),
            old(self)@.len() > 0 ==> final(self)@ == old(self)@.push(row@) && final(self).width()
                == old(self).width(),
    {
        let mut v: Vec<T> = Vec::new();
        let mut i: usize = 0;
        while i < row.len()
            invariant
                i <= row@.len(),
                v@ == row@.take(i as int),
            decreases row@.len() - i,
        {
            v.push(row[i]);
            i += 1;
            assert(v@ =~= row@.take(i as int));
        }
        assert(v@ =~= row@);
        self.add_row(v);
    }

    /// The cell at column `x` of row `y`, if there is such a row.
    pub fn get(&self, x: usize, y: usize) -> (r: Option<&T>)
        requires
            self.wf(),
            x < self.width(),
        ensures
            y < self@.len() ==> r == Some(&self@[y as int][x as int]),
            y >= self@.len() ==> r is None,
    {
        if y < self.rows.len() {
            assert(self.rows@[y as int]@ == self@[y as int]);
            Some(&self.rows[y][x])
        } else {
            None
        }
    }

    /// A mutable borrow of the cell at column `x` of row `y`, if there is such a row; what is
    /// written through it becomes the cell's value.
    pub fn get_mut(&mut self, x: usize, y: usize) -> (r: Option<&mut T>)
        requires
            old(self).wf(),
            x < old(self).width(),
        ensures
            y >= old(self)@.len() ==> r is None && final(self)@ == old(self)@ && final(self).width()
                == old(self).width(),
            y < old(self)@.len() ==> r is Some && *r->0 == old(self)@[y as int][x as int]
                && final(self)@ == old(self)@.update(y as int, old(self)@[y as int].update(x as int, *final(r->0)))
                && final(self).width() == old(self).width(),
    {
        if y < self.rows.len() {
            assert(self.rows@[y as int]@ == self@[y as int]);
            assert(self@[y as int].len() == self.width());
            Some(&mut self.rows[y][x])
        } else {
            None
        }
    }

    /// Stores `value` at column `x` of row `y`.
    pub fn set(&mut self, x: usize, y: usize, value: T)
        requires
            old(self).wf(),
            x < old(self).width(),
            y < old(self)@.len(),
        ensures
            final(self).wf(),
            final(self).width() == old(self).width(),
            final(self)@ == old(self)@.update(y as int, old(self)@[y as int].update(x as int, value)),
    {
        let ghost prev = self@;
        assert(self.rows@[y as int]@ == prev[y as int]);
        let mut row: Vec<T> = Vec::new();
        std::mem::swap(&mut row, &mut self.rows[y]);
        row.set(x, value);
        self.rows.set(y, row);
        assert(self@ =~= prev.update(y as int, prev[y as int].update(x as int, value)));
    }

    /// The rows of the grid, top to bottom.
    pub fn rows(&self) -> (r: &Vec<Vec<T>>)
        ensures
            rows_view(r@) == self@,
    {
        &self.rows
    }

    /// Every cell, row after row.
    pub fn iter(&self) -> (r: Vec<T>)
        requires
            self.wf(),
        ensures
            r@ == flatten_rows(self@),
    {
        let mut out: Vec<T> = Vec::new();
        let mut y: usize = 0;
        while y < self.rows.len()
            invariant
                self.wf(),
                y <= self@.len(),
                out@ == flatten_rows(self@.take(y as int)),
            decreases self@.len() - y,
        {
            let row = &self.rows[y];
            assert(row@ == self@[y as int]);
            let ghost before = out@;
            let mut x: usize = 0;
            while x < row.len()
                invariant
                    x <= row@.len(),
                    out@ == before + row@.take(x as int),
                decreases row@.len() - x,
            {
                out.push(row[x]);
                x += 1;
                assert(out@ =~= before + row@.take(x as int));
            }
            assert(row@.take(x as int) =~= row@);
            assert(self@.take(y + 1).drop_last() =~= self@.take(y as int));
            y += 1;
        }
        assert(self@.take(y as int) =~= self@);
        out
    }

    /// Every cell with its column and row, row after row.
    pub fn enumerate(&self) -> (r: Vec<((usize, usize), T)>)
        requires
            self.wf(),
        ensures
            r@ == enumerated(self@),
    {
        let ghost g = self@;
        let ghost tagged = Seq::new(
            g.len(),
            |y: int| Seq::new(g[y].len(), |x: int| ((x as usize, y as usize), g[y][x])),
        );
        let mut out: Vec<((usize, usize), T)> = Vec::new();
        let mut y: usize = 0;
        while y < self.rows.len()
            invariant
                g == self@,
                tagged.len() == g.len(),
                forall|k: int| 0 <= k < g.len() ==> #[trigger] tagged[k] == Seq::new(g[k].len(), |x: int| ((x as usize, k as usize), g[k][x])),
                y <= g.len(),
                out@ == flatten_rows(tagged.take(y as int)),
            decreases g.len() - y,
        {
            let row = &self.rows[y];
            assert(row@ == g[y as int]);
            let ghost before = out@;
            let ghost t = tagged[y as int];
            let mut x: usize = 0;
            while x < row.len()
                invariant
                    x <= row@.len(),
                    row@ == g[y as int],
                    t == Seq::new(g[y as int].len(), |i: int| ((i as usize, y as usize), g[y as int][i])),
                    out@ == before + t.take(x as int),
                decreases row@.len() - x,
            {
                out.push(((x, y), row[x]));
                x += 1;
                assert(out@ =~= before + t.take(x as int));
            }
            assert(t.take(x as int) =~= t);
            assert(tagged.take(y + 1).drop_last() =~= tagged.take(y as int));
            y += 1;
        }
        assert(tagged.take(y as int) =~= tagged);
        out
    }

    /// The grid turned a quarter to the right.
    pub fn rotate_right(&self) -> (r: Grid<T>)
        requires
            self.wf(),
        ensures
            r.wf(),
            r@ == rotated(self@, self.width()),
            r.width() == (if self.width() == 0 { 0 } else { self@.len() }),
    {
        let ghost g = self@;
        let h = self.rows.len();
        let w = self.size_x;
        let mut out: Vec<Vec<T>> = Vec::new();
        let mut x: usize = 0;
        while x < w
            invariant
                self.wf(),
                g == self@,
                h == g.len(),
                w == self.width(),
                x <= w,
                rows_view(out@) == rotated(g, w as nat).take(x as int),
            decreases w - x,
        {
            let mut new_row: Vec<T> = Vec::new();
            let mut y: usize = 0;
            while y < h
                invariant
                    self.wf(),
                    g == self@,
                    h == g.len(),
                    x < w == self.width(),
                    y <= h,
                    new_row@ == Seq::new(y as nat, |k: int| g[h - 1 - k][x as int]),
                decreases h - y,
            {
                assert(self.rows@[h - 1 - y]@ == g[h - 1 - y]);
                new_row.push(self.rows[h - 1 - y][x]);
                y += 1;
                assert(new_row@ =~= Seq::new(y as nat, |k: int| g[h - 1 - k][x as int]));
            }
            let ghost prev = out@;
            out.push(new_row);
            assert(rows_view(out@) =~= rows_view(prev).push(new_row@));
            assert(rows_view(out@) =~= rotated(g, w as nat).take(x + 1));
            x += 1;
        }
        assert(rows_view(out@) =~= rotated(g, w as nat));
        let size_x = if w == 0 { 0 } else { h };
        let r = Grid { rows: out, size_x };
        assert(r@ == rows_view(out@));
        r
    }

    /// The grid mirrored left to right.
    pub fn flip_across_y(&self) -> (r: Grid<T>)
        requires
            self.wf(),
        ensures
            r.wf(),
            r@ == flipped(self@, self.width()),
            r.width() == self.width(),
    {
        let ghost g = self@;
        let h = self.rows.len();
        let w = self.size_x;
        let mut out: Vec<Vec<T>> = Vec::new();
        let mut y: usize = 0;
        while y < h
            invariant
                self.wf(),
                g == self@,
                h == g.len(),
                w == self.width(),
                y <= h,
                rows_view(out@) == flipped(g, w as nat).take(y as int),
            decreases h - y,
        {
            let row = &self.rows[y];
            assert(row@ == g[y as int]);
            let mut new_row: Vec<T> = Vec::new();
            let mut x: usize = 0;
            while x < w
                invariant
                    row@ == g[y as int],
                    row@.len() == w,
                    x <= w,
                    new_row@ == Seq::new(x as nat, |k: int| g[y as int][w - 1 - k]),
                decreases w - x,
            {
                new_row.push(row[w - 1 - x]);
                x += 1;
                assert(new_row@ =~= Seq::new(x as nat, |k: int| g[y as int][w - 1 - k]));
            }
            let ghost prev = out@;
            out.push(new_row);
            assert(rows_view(out@) =~= rows_view(prev).push(new_row@));
            assert(rows_view(out@) =~= flipped(g, w as nat).take(y + 1));
            y += 1;
        }
        assert(rows_view(out@) =~= flipped(g, w as nat));
        let r = Grid { rows: out, size_x: w };
        assert(r@ == rows_view(out@));
        r
    }

    /// Writes every cell of this grid over `other`, shifted by the offsets.
    pub fn stamp_onto(&self, other: &mut Grid<T>, offset_in_other_x: usize, offset_in_other_y: usize)
        requires
            self.wf(),
            old(other).wf(),
            fits_inside(
                self@,
                self.width(),
                old(other)@,
                old(other).width(),
                offset_in_other_x as int,
                offset_in_other_y as int,
            ),
        ensures
            final(other).wf(),
            final(other).width() == old(other).width(),
            final(other)@ == stamped(
                old(other)@,
                self@,
                self.width() as int,
                offset_in_other_x as int,
                offset_in_other_y as int,
            ),
    {
        let ghost a = self@;
        let ghost b = old(other)@;
        let ghost wa = self.width() as int;
        let ox = offset_in_other_x;
        let oy = offset_in_other_y;
        let h = self.rows.len();
        let w = self.size_x;
        let mut y: usize = 0;
        let oh = other.size_y();
        assert(other@ =~~= stamped_upto(b, a, wa, ox as int, oy as int, 0, 0));
        while y < h
            invariant
                self.wf(),
                other.wf(),
                a == self@,
                h == a.len(),
                w == wa,
                wa == self.width(),
                other.width() == old(other).width(),
                b == old(other)@,
                oh == b.len(),
                fits_inside(a, wa as nat, b, other.width(), ox as int, oy as int),
                y <= h,
                other@ == stamped_upto(b, a, wa, ox as int, oy as int, y as int, 0),
            decreases h - y,
        {
            let mut x: usize = 0;
            while x < w
                invariant
                    self.wf(),
                    other.wf(),
                    a == self@,
                    h == a.len(),
                    w == wa,
                    wa == self.width(),
                    other.width() == old(other).width(),
                    b == old(other)@,
                    oh == b.len(),
                    fits_inside(a, wa as nat, b, other.width(), ox as int, oy as int),
                    y < h,
                    x <= w,
                    other@ == stamped_upto(b, a, wa, ox as int, oy as int, y as int, x as int),
                decreases w - x,
            {
                assert(self.rows@[y as int]@ == a[y as int]);
                assert(a[y as int].len() == w);
                let v = self.rows[y][x];
                other.set(x + ox, y + oy, v);
                assert(other@ =~~= stamped_upto(b, a, wa, ox as int, oy as int, y as int, x + 1));
                x += 1;
            }
            assert(other@ =~~= stamped_upto(b, a, wa, ox as int, oy as int, y + 1, 0));
            y += 1;
        }
    }
}

impl<T: Copy + PartialEq> Grid<T> {
    /// Whether this grid, shifted by the offsets, lies inside `other` and equals the cells
    /// beneath it.
    pub fn matches_on(&self, other: &Grid<T>, offset_in_other_x: usize, offset_in_other_y: usize) -> (r: bool)
        requires
            self.wf(),
            other.wf(),
        ensures
            !fits_inside(
                self@,
                self.width(),
                other@,
                other.width(),
                offset_in_other_x as int,
                offset_in_other_y as int,
            ) ==> !r,
            T::obeys_eq_spec() ==> r == (fits_inside(
                self@,
                self.width(),
                other@,
                other.width(),
                offset_in_other_x as int,
                offset_in_other_y as int,
            ) && cells_match(self@, other@, offset_in_other_x as int, offset_in_other_y as int)),
    {
        let ox = offset_in_other_x;
        let oy = offset_in_other_y;
        let h = self.rows.len();
        let w = self.size_x;
        if !(w <= other.size_x && ox <= other.size_x - w && h <= other.rows.len() && oy
            <= other.rows.len() - h) {
            return false;
        }
        let ghost a = self@;
        let ghost b = other@;
        let oh = other.size_y();
        let mut y: usize = 0;
        while y < h
            invariant
                self.wf(),
                other.wf(),
                a == self@,
                b == other@,
                ox == offset_in_other_x,
                oy == offset_in_other_y,
                oh == b.len(),
                h == a.len(),
                w == self.width(),
                fits_inside(a, w as nat, b, other.width(), ox as int, oy as int),
                y <= h,
                T::obeys_eq_spec() ==> forall|yy: int, xx: int|
                    0 <= yy < y && 0 <= xx < a[yy].len() ==> (#[trigger] a[yy][xx]).eq_spec(
                        &b[yy + oy][xx + ox],
                    ),
            decreases h - y,
        {
            let mut x: usize = 0;
            while x < w
                invariant
                    self.wf(),
                    other.wf(),
                    a == self@,
                    b == other@,
                    ox == offset_in_other_x,
                    oy == offset_in_other_y,
                    oh == b.len(),
                    h == a.len(),
                    w == self.width(),
                    fits_inside(a, w as nat, b, other.width(), ox as int, oy as int),
                    y < h,
                    x <= w,
                    T::obeys_eq_spec() ==> forall|yy: int, xx: int|
                        0 <= yy < y && 0 <= xx < a[yy].len() ==> (#[trigger] a[yy][xx]).eq_spec(
                            &b[yy + oy][xx + ox],
                        ),
                    T::obeys_eq_spec() ==> forall|xx: int|
                        0 <= xx < x ==> (#[trigger] a[y as int][xx]).eq_spec(&b[y + oy][xx + ox]),
                decreases w - x,
            {
                assert(self.rows@[y as int]@ == a[y as int]);
                assert(a[y as int].len() == w);
                assert(other.rows@[(y + oy) as int]@ == b[y + oy]);
                assert(b[y + oy].len() == other.width());
                if !(self.rows[y][x] == other.rows[y + oy][x + ox]) {
                    proof {
                        if T::obeys_eq_spec() {
                            assert(!(a[y as int][x as int]).eq_spec(&b[y + oy][x + ox]));

                        }
                    }
                    return false;
                }
                x += 1;
            }
            y += 1;
        }
        true
    }
}

} // verus!
