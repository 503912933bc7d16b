use vstd::prelude::*;

verus! {

/// One pixel: red, green, blue and alpha channels.
#[derive(Debug, Clone, Copy, PartialEq, Eq, Structural)]
pub struct Rgba {
    pub r: u8,
    pub g: u8,
    pub b: u8,
    pub a: u8,
}

/// A decoded image held as rows of pixels, top row first.
#[derive(Debug)]
pub struct Picture {
    pub width: u32,
    pub height: u32,
    pub rows: Vec<Vec<Rgba>>,
}

/// A grid of pixels, row by row.
pub type Grid = Seq<Seq<Rgba>>;

/// A pixel that is not fully transparent.
pub open spec fn opaque(p: Rgba) -> bool {
    p.a != 0
}

/// A row holding at least one pixel that is not fully transparent.
pub open spec fn row_opaque(row: Seq<Rgba>) -> bool {
    exists|j: int| 0 <= j < row.len() && opaque(#[trigger] row[j])
}

/// Every row of the grid has `w` pixels.
pub open spec fn rows_of_width(w: nat, g: Grid) -> bool {
    forall|i: int| 0 <= i < g.len() ==> (#[trigger] g[i]).len() == w
}

/// The grid cut to the rectangle of `w` by `h` pixels whose top left corner is at
/// column `x`, row `y`.
pub open spec fn crop_grid(g: Grid, x: int, y: int, w: nat, h: nat) -> Grid {
    Seq::new(h, |i: int| Seq::new(w, |j: int| g[y + i][x + j]))
}

/// The grid mirrored left to right.
pub open spec fn mirror_h(w: nat, g: Grid) -> Grid {
    Seq::new(g.len(), |i: int| Seq::new(w, |j: int| g[i][w - 1 - j]))
}

/// The grid mirrored top to bottom.
pub open spec fn mirror_v(g: Grid) -> Grid {
    Seq::new(g.len(), |i: int| g[g.len() - 1 - i])
}

/// The grid of width `w` turned a quarter clockwise: column `i` read bottom-up
/// becomes row `i`.
pub open spec fn rot(w: nat, g: Grid) -> Grid {
    Seq::new(w, |i: int| Seq::new(g.len(), |j: int| g[g.len() - 1 - j][i]))
}

/// How many rows at the top of the grid are fully transparent, before the first
/// row that is not.
pub open spec fn leading_clear(g: Grid) -> nat
    decreases g.len(),
{
    if g.len() == 0 {
        0
    } else if row_opaque(g[0]) {
        0
    } else {
        1 + leading_clear(g.drop_first())
    }
}

/// The grid without the fully transparent rows above its first row that is not;
/// a grid with no such row is left as it is.
pub open spec fn trim_top(g: Grid) -> Grid {
    if leading_clear(g) < g.len() {
        g.subrange(leading_clear(g) as int, g.len() as int)
    } else {
        g
    }
}

/// One pass of the margin trim on a grid of width `p.0`: trim the top, then turn
/// a quarter clockwise. The result's width is the trimmed grid's height.
pub open spec fn squeeze_step(p: (nat, Grid)) -> (nat, Grid) {
    (trim_top(p.1).len(), rot(p.0, trim_top(p.1)))
}

/// The margin trim: four passes, so that each side is trimmed once and the
/// grid ends in its first orientation.
pub open spec fn squeeze_grid(p: (nat, Grid)) -> (nat, Grid) {
    squeeze_step(squeeze_step(squeeze_step(squeeze_step(p))))
}

/// The rows above the first one that is not fully transparent are all fully
/// transparent, and that row (where there is one) is not.
pub proof fn lemma_leading_clear(g: Grid)
    ensures
        leading_clear(g) <= g.len(),
        forall|i: int| 0 <= i < leading_clear(g) ==> !row_opaque(#[trigger] g[i]),
        leading_clear(g) < g.len() ==> row_opaque(g[leading_clear(g) as int]),
    decreases g.len(),
{
    if g.len() > 0 && !row_opaque(g[0]) {
        lemma_leading_clear(g.drop_first());
        assert forall|i: int| 0 <= i < leading_clear(g) implies !row_opaque(#[trigger] g[i]) by {
            if i > 0 {
                assert(g[i] == g.drop_first()[i - 1]);
            }
        }
    }
}

/// `leading_clear` is the one index that has those properties.
pub proof fn lemma_leading_clear_unique(g: Grid, k: int)
    requires
        0 <= k <= g.len(),
        forall|i: int| 0 <= i < k ==> !row_opaque(#[trigger] g[i]),
        k < g.len() ==> row_opaque(g[k]),
    ensures
        leading_clear(g) == k,
    decreases g.len(),
{
    if g.len() > 0 && k > 0 {
        assert(!row_opaque(g[0]));
        assert forall|i: int| 0 <= i < k - 1 implies !row_opaque(#[trigger] g.drop_first()[i]) by {
            assert(g.drop_first()[i] == g[i + 1]);
        }
        lemma_leading_clear_unique(g.drop_first(), k - 1);
    }
}

/// Column `c` holds a pixel that is not fully transparent.
pub open spec fn col_opaque(g: Grid, c: int) -> bool {
    exists|i: int| 0 <= i < g.len() && opaque(#[trigger] g[i][c])
}

/// Some pixel of the grid is not fully transparent.
pub open spec fn any_opaque(g: Grid) -> bool {
    exists|i: int| 0 <= i < g.len() && row_opaque(#[trigger] g[i])
}

/// The top row holds a pixel that is not fully transparent.
pub open spec fn top_tight(g: Grid) -> bool {
    g.len() > 0 && row_opaque(g[0])
}

/// The bottom row holds a pixel that is not fully transparent.
pub open spec fn bottom_tight(g: Grid) -> bool {
    g.len() > 0 && row_opaque(g[g.len() - 1])
}

/// The leftmost column holds a pixel that is not fully transparent.
pub open spec fn left_tight(w: nat, g: Grid) -> bool {
    w > 0 && col_opaque(g, 0)
}

/// The rightmost column holds a pixel that is not fully transparent.
pub open spec fn right_tight(w: nat, g: Grid) -> bool {
    w > 0 && col_opaque(g, w - 1)
}

/// Each of the four sides of the grid holds a pixel that is not fully transparent.
pub open spec fn tight(p: (nat, Grid)) -> bool {
    &&& top_tight(p.1)
    &&& bottom_tight(p.1)
    &&& left_tight(p.0, p.1)
    &&& right_tight(p.0, p.1)
}

/// The grid turned half a turn.
pub open spec fn half_turn(w: nat, g: Grid) -> Grid {
    Seq::new(g.len(), |i: int| Seq::new(w, |j: int| g[g.len() - 1 - i][w - 1 - j]))
}

proof fn lemma_trim(w: nat, g: Grid)
    requires
        rows_of_width(w, g),
        any_opaque(g),
    ensures
        rows_of_width(w, trim_top(g)),
        any_opaque(trim_top(g)),
        top_tight(trim_top(g)),
        bottom_tight(g) ==> bottom_tight(trim_top(g)),
        left_tight(w, g) ==> left_tight(w, trim_top(g)),
        right_tight(w, g) ==> right_tight(w, trim_top(g)),
{
    lemma_leading_clear(g);
    let k = leading_clear(g) as int;
    let i0 = choose|i: int| 0 <= i < g.len() && row_opaque(#[trigger] g[i]);
    assert(k <= i0);
    let t = trim_top(g);
    assert(t == g.subrange(k, g.len() as int));
    assert(t[0] == g[k]);
    assert(t[i0 - k] == g[i0]);
    if bottom_tight(g) {
        assert(t[t.len() - 1] == g[g.len() - 1]);
    }
    assert forall|c: int| #![trigger col_opaque(g, c)] 0 <= c < w && col_opaque(g, c) implies col_opaque(t, c) by {
        let i = choose|i: int| 0 <= i < g.len() && opaque(#[trigger] g[i][c]);
        assert(row_opaque(g[i]));
        assert(k <= i);
        assert(t[i - k] == g[i]);
        assert(opaque(t[i - k][c]));
    }
}

proof fn lemma_trim_clear(g: Grid)
    requires
        !any_opaque(g),
    ensures
        trim_top(g) == g,
{
    lemma_leading_clear(g);
    if leading_clear(g) < g.len() {
        assert(row_opaque(g[leading_clear(g) as int]));
    }
}

proof fn lemma_trim_tight(g: Grid)
    requires
        top_tight(g),
    ensures
        trim_top(g) == g,
{
    assert(leading_clear(g) == 0);
    assert(g.subrange(0, g.len() as int) =~= g);
}

proof fn lemma_rot(w: nat, g: Grid)
    requires
        rows_of_width(w, g),
    ensures
        rows_of_width(g.len(), rot(w, g)),
        rot(w, g).len() == w,
        any_opaque(g) ==> any_opaque(rot(w, g)),
        !any_opaque(g) ==> !any_opaque(rot(w, g)),
        top_tight(g) ==> right_tight(g.len(), rot(w, g)),
        right_tight(w, g) ==> bottom_tight(rot(w, g)),
        bottom_tight(g) ==> left_tight(g.len(), rot(w, g)),
        left_tight(w, g) ==> top_tight(rot(w, g)),
{
    let h = g.len() as int;
    let r = rot(w, g);
    if any_opaque(g) {
        let i = choose|i: int| 0 <= i < g.len() && row_opaque(#[trigger] g[i]);
        let j = choose|j: int| 0 <= j < g[i].len() && opaque(#[trigger] g[i][j]);
        assert(r[j][h - 1 - i] == g[i][j]);
        assert(row_opaque(r[j]));
    }
    if any_opaque(r) {
        let a = choose|a: int| 0 <= a < r.len() && row_opaque(#[trigger] r[a]);
        let b = choose|b: int| 0 <= b < r[a].len() && opaque(#[trigger] r[a][b]);
        assert(r[a][b] == g[h - 1 - b][a]);
        assert(row_opaque(g[h - 1 - b]));
    }
    if top_tight(g) {
        let j = choose|j: int| 0 <= j < g[0].len() && opaque(#[trigger] g[0][j]);
        assert(r[j][h - 1] == g[0][j]);
    }
    if right_tight(w, g) {
        let i = choose|i: int| 0 <= i < g.len() && opaque(#[trigger] g[i][w - 1]);
        assert(r[w - 1][h - 1 - i] == g[i][w - 1]);
    }
    if bottom_tight(g) {
        let j = choose|j: int| 0 <= j < g[h - 1].len() && opaque(#[trigger] g[h - 1][j]);
        assert(r[j][0] == g[h - 1][j]);
    }
    if left_tight(w, g) {
        let i = choose|i: int| 0 <= i < g.len() && opaque(#[trigger] g[i][0]);
        assert(r[0][h - 1 - i] == g[i][0]);
    }
}

proof fn lemma_half_turn(w: nat, g: Grid)
    requires
        rows_of_width(w, g),
    ensures
        rot(g.len(), rot(w, g)) == half_turn(w, g),
        rows_of_width(w, half_turn(w, g)),
        half_turn(w, half_turn(w, g)) == g,
{
    let h = g.len();
    let r = rot(w, g);
    assert forall|i: int| 0 <= i < h implies #[trigger] rot(h, r)[i] == half_turn(w, g)[i] by {
        assert forall|j: int| 0 <= j < w implies #[trigger] rot(h, r)[i][j] == half_turn(w, g)[i][j] by {
            assert(r[w - 1 - j][i] == g[h - 1 - i][w - 1 - j]);
        }
        assert(rot(h, r)[i] =~= half_turn(w, g)[i]);
    }
    assert(rot(h, r) =~= half_turn(w, g));
    let q = half_turn(w, g);
    assert forall|i: int| 0 <= i < h implies #[trigger] half_turn(w, q)[i] == g[i] by {
        assert(half_turn(w, q)[i] =~= g[i]);
    }
    assert(half_turn(w, q) =~= g);
}

/// Four quarter turns bring a grid back.
proof fn lemma_full_turn(w: nat, g: Grid)
    requires
        rows_of_width(w, g),
    ensures
        rot(g.len(), rot(w, rot(g.len(), rot(w, g)))) == g,
{
    lemma_half_turn(w, g);
    let q = half_turn(w, g);
    lemma_half_turn(w, q);
}

proof fn lemma_step(p: (nat, Grid))
    requires
        rows_of_width(p.0, p.1),
    ensures
        rows_of_width(squeeze_step(p).0, squeeze_step(p).1),
        any_opaque(p.1) ==> any_opaque(squeeze_step(p).1) && right_tight(squeeze_step(p).0, squeeze_step(p).1),
        any_opaque(p.1) && right_tight(p.0, p.1) ==> bottom_tight(squeeze_step(p).1),
        any_opaque(p.1) && bottom_tight(p.1) ==> left_tight(squeeze_step(p).0, squeeze_step(p).1),
        any_opaque(p.1) && left_tight(p.0, p.1) ==> top_tight(squeeze_step(p).1),
        !any_opaque(p.1) ==> !any_opaque(squeeze_step(p).1) && squeeze_step(p) == (p.1.len(), rot(p.0, p.1)),
        tight(p) ==> tight(squeeze_step(p)) && squeeze_step(p) == (p.1.len(), rot(p.0, p.1)),
{
    if any_opaque(p.1) {
        lemma_trim(p.0, p.1);
    } else {
        lemma_trim_clear(p.1);
    }
    if tight(p) {
        lemma_trim_tight(p.1);
    }
    lemma_rot(p.0, trim_top(p.1));
}

/// The margin trim of a grid with no pixel that is not fully transparent is
/// the grid itself.
proof fn lemma_squeeze_clear(p: (nat, Grid))
    requires
        rows_of_width(p.0, p.1),
        !any_opaque(p.1),
    ensures
        squeeze_grid(p) == p,
{
    let p1 = squeeze_step(p);
    lemma_step(p);
    let p2 = squeeze_step(p1);
    lemma_step(p1);
    let p3 = squeeze_step(p2);
    lemma_step(p2);
    lemma_step(p3);
    lemma_full_turn(p.0, p.1);
}

/// The margin trim of a grid whose four sides are tight is the grid itself.
proof fn lemma_squeeze_tight(p: (nat, Grid))
    requires
        rows_of_width(p.0, p.1),
        tight(p),
    ensures
        squeeze_grid(p) == p,
{
    let p1 = squeeze_step(p);
    lemma_step(p);
    let p2 = squeeze_step(p1);
    lemma_step(p1);
    let p3 = squeeze_step(p2);
    lemma_step(p2);
    lemma_step(p3);
    lemma_full_turn(p.0, p.1);
}

/// The margin trim leaves rows of one width, and either changes nothing (no
/// pixel is visible) or leaves a visible pixel on each of the four sides.
pub proof fn lemma_squeeze_result(p: (nat, Grid))
    requires
        rows_of_width(p.0, p.1),
    ensures
        rows_of_width(squeeze_grid(p).0, squeeze_grid(p).1),
        !any_opaque(p.1) ==> squeeze_grid(p) == p,
        any_opaque(p.1) ==> tight(squeeze_grid(p)),
{
    if !any_opaque(p.1) {
        lemma_squeeze_clear(p);
    }
    let p1 = squeeze_step(p);
    lemma_step(p);
    let p2 = squeeze_step(p1);
    lemma_step(p1);
    let p3 = squeeze_step(p2);
    lemma_step(p2);
    lemma_step(p3);
}

/// Trimming the margin of a picture a second time changes nothing.
pub proof fn lemma_squeeze_idempotent(pic: Picture)
    requires
        pic.wf(),
    ensures
        squeeze_grid(squeeze_grid(pic.shape())) == squeeze_grid(pic.shape()),
{
    let p = pic.shape();
    assert(rows_of_width(p.0, p.1));
    lemma_squeeze_result(p);
    let q = squeeze_grid(p);
    if any_opaque(p.1) {
        lemma_squeeze_tight(q);
    } else {
        lemma_squeeze_clear(q);
    }
}

impl Picture {
    /// The width and height agree with the rows.
    pub open spec fn wf(&self) -> bool {
        &&& self.rows@.len() == self.height
        &&& forall|i: int| 0 <= i < self.rows@.len() ==> (#[trigger] self.rows@[i])@.len() == self.width
    }

    /// The pixels, row by row.
    pub open spec fn grid(&self) -> Grid {
        Seq::new(self.rows@.len(), |i: int| self.rows@[i]@)
    }

    /// The width and the pixels.
    pub open spec fn shape(&self) -> (nat, Grid) {
        (self.width as nat, self.grid())
    }

    /// A picture of the given width from its rows, top row first; `None` where a
    /// row has another width.
    pub fn from_rows(width: u32, rows: Vec<Vec<Rgba>>) -> (r: Option<Picture>)
        ensures
            r.is_some() <==> (rows@.len() <= u32::MAX && forall|i: int|
                0 <= i < rows@.len() ==> (#[trigger] rows@[i])@.len() == width),
            r matches Some(p) ==> p.wf() && p.width == width && p.rows@ == rows@,
    {
        if rows.len() > u32::MAX as usize {
            return None;
        }
        let mut i: usize = 0;
        while i < rows.len()
            invariant
                i <= rows@.len(),
                forall|k: int| 0 <= k < i ==> (#[trigger] rows@[k])@.len() == width,
            decreases rows@.len() - i,
        {
            if rows[i].len() != width as usize {
                return None;
            }
            i = i + 1;
        }
        let height = rows.len() as u32;
        Some(Picture { width, height, rows })
    }

    /// The pixel at column `x`, row `y`.
    pub fn pixel(&self, x: u32, y: u32) -> (r: Rgba)
        requires
            self.wf(),
            x < self.width,
            y < self.height,
        ensures
            r == self.grid()[y as int][x as int],
    {
        self.rows[y as usize][x as usize]
    }

    /// A copy of the rectangle of `w` by `h` pixels whose top left corner is at
    /// column `x`, row `y`; `None` where the rectangle leaves the picture.
    pub fn crop(&self, x: u32, y: u32, w: u32, h: u32) -> (r: Option<Picture>)
        requires
            self.wf(),
        ensures
            r.is_some() <==> (x + w <= self.width && y + h <= self.height),
            r matches Some(p) ==> p.wf() && p.width == w && p.height == h
                && p.grid() == crop_grid(self.grid(), x as int, y as int, w as nat, h as nat),
    {
        if x as u64 + w as u64 > self.width as u64 || y as u64 + h as u64 > self.height as u64 {
            return None;
        }
        let ghost g = self.grid();
        let mut rows: Vec<Vec<Rgba>> = Vec::new();
        let mut i: u32 = 0;
        while i < h
            invariant
                self.wf(),
                g == self.grid(),
                x + w <= self.width,
                y + h <= self.height,
                i <= h,
                rows@.len() == i,
                forall|k: int| 0 <= k < i ==> (#[trigger] rows@[k])@ == crop_grid(g, x as int, y as int, w as nat, h as nat)[k],
            decreases h - i,
        {
            let src = &self.rows[(y + i) as usize];
            let mut row: Vec<Rgba> = Vec::new();
            let mut j: u32 = 0;
            while j < w
                invariant
                    self.wf(),
                    g == self.grid(),
                    x + w <= self.width,
                    y + h <= self.height,
                    i < h,
                    j <= w,
                    *src == self.rows@[y + i],
                    row@.len() == j,
                    forall|m: int| 0 <= m < j ==> #[trigger] row@[m] == g[y + i][x + m],
                decreases w - j,
            {
                row.push(src[(x + j) as usize]);
                j = j + 1;
            }
            assert(row@ =~= crop_grid(g, x as int, y as int, w as nat, h as nat)[i as int]);
            rows.push(row);
            i = i + 1;
        }
        let p = Picture { width: w, height: h, rows };
        assert(p.grid() =~= crop_grid(g, x as int, y as int, w as nat, h as nat));
        Some(p)
    }

    /// The picture mirrored left to right.
    pub fn fliph(&self) -> (r: Picture)
        requires
            self.wf(),
        ensures
            r.wf(),
            r.width == self.width,
            r.height == self.height,
            r.grid() == mirror_h(self.width as nat, self.grid()),
    {
        let ghost g = self.grid();
        let w = self.width;
        let mut rows: Vec<Vec<Rgba>> = Vec::new();
        let mut i: usize = 0;
        while i < self.rows.len()
            invariant
                self.wf(),
                g == self.grid(),
                w == self.width,
                i <= self.rows@.len(),
                rows@.len() == i,
                forall|k: int| 0 <= k < i ==> (#[trigger] rows@[k])@ == mirror_h(w as nat, g)[k],
            decreases self.rows@.len() - i,
        {
            let src = &self.rows[i];
            let mut row: Vec<Rgba> = Vec::new();
            let mut j: u32 = 0;
            while j < w
                invariant
                    self.wf(),
                    g == self.grid(),
                    w == self.width,
                    i < self.rows@.len(),
                    j <= w,
                    *src == self.rows@[i as int],
                    row@.len() == j,
                    forall|m: int| 0 <= m < j ==> #[trigger] row@[m] == g[i as int][w - 1 - m],
                decreases w - j,
            {
                row.push(src[(w - 1 - j) as usize]);
                j = j + 1;
            }
            assert(row@ =~= mirror_h(w as nat, g)[i as int]);
            rows.push(row);
            i = i + 1;
        }
        let p = Picture { width: w, height: self.height, rows };
        assert(p.grid() =~= mirror_h(w as nat, g));
        p
    }

    /// The picture mirrored top to bottom.
    pub fn flipv(&self) -> (r: Picture)
        requires
            self.wf(),
        ensures
            r.wf(),
            r.width == self.width,
            r.height == self.height,
            r.grid() == mirror_v(self.grid()),
    {
        let ghost g = self.grid();
        let n = self.rows.len();
        let mut rows: Vec<Vec<Rgba>> = Vec::new();
        let mut i: usize = 0;
        while i < n
            invariant
                self.wf(),
                g == self.grid(),
                n == self.rows@.len(),
                i <= n,
                rows@.len() == i,
                forall|k: int| 0 <= k < i ==> (#[trigger] rows@[k])@ == mirror_v(g)[k],
                forall|k: int| 0 <= k < i ==> (#[trigger] rows@[k])@.len() == self.width,
            decreases n - i,
        {
            let row = self.rows[n - 1 - i].clone();
            rows.push(row);
            i = i + 1;
        }
        let p = Picture { width: self.width, height: self.height, rows };
        assert(p.grid() =~= mirror_v(g));
        p
    }

    /// The picture turned a quarter clockwise.
    pub fn rotate90(&self) -> (r: Picture)
        requires
            self.wf(),
        ensures
            r.wf(),
            r.width == self.height,
            r.height == self.width,
            r.grid() == rot(self.width as nat, self.grid()),
    {
        let ghost g = self.grid();
        let w = self.width;
        let h = self.height;
        let mut rows: Vec<Vec<Rgba>> = Vec::new();
        let mut i: u32 = 0;
        while i < w
            invariant
                self.wf(),
                g == self.grid(),
                w == self.width,
                h == self.height,
                i <= w,
                rows@.len() == i,
                forall|k: int| 0 <= k < i ==> (#[trigger] rows@[k])@ == rot(w as nat, g)[k],
            decreases w - i,
        {
            let mut row: Vec<Rgba> = Vec::new();
            let mut j: u32 = 0;
            while j < h
                invariant
                    self.wf(),
                    g == self.grid(),
                    w == self.width,
                    h == self.height,
                    i < w,
                    j <= h,
                    row@.len() == j,
                    forall|m: int| 0 <= m < j ==> #[trigger] row@[m] == g[h - 1 - m][i as int],
                decreases h - j,
            {
                row.push(self.rows[(h - 1 - j) as usize][i as usize]);
                j = j + 1;
            }
            assert(row@ =~= rot(w as nat, g)[i as int]);
            rows.push(row);
            i = i + 1;
        }
        let p = Picture { width: h, height: w, rows };
        assert(p.grid() =~= rot(w as nat, g));
        p
    }
    /// Drops the fully transparent rows above the first row that is not; a fully
    /// transparent picture is left as it is.
    pub fn trim_top(&mut self)
        requires
            old(self).wf(),
        ensures
            final(self).wf(),
            final(self).width == old(self).width,
            final(self).grid() == trim_top(old(self).grid()),
    {
        let ghost g = self.grid();
        let n = self.rows.len();
        let mut k: usize = 0;
        let mut found = false;
        while k < n && !found
            invariant
                self.wf(),
                g == self.grid(),
                n == g.len(),
                k <= n,
                forall|i: int| 0 <= i < k ==> !row_opaque(#[trigger] g[i]),
                found ==> k < n && row_opaque(g[k as int]),
            decreases n - k + (if found { 0int } else { 1int }),
        {
            let row = &self.rows[k];
            let mut j: usize = 0;
            while j < row.len() && !found
                invariant
                    *row == self.rows@[k as int],
                    g == self.grid(),
                    k < n,
                    n == g.len(),
                    j <= row@.len(),
                    forall|m: int| 0 <= m < j ==> !opaque(#[trigger] row@[m]),
                    found ==> j < row@.len() && opaque(row@[j as int]),
                decreases row@.len() - j + (if found { 0int } else { 1int }),
            {
                if row[j].a != 0 {
                    found = true;
                } else {
                    j = j + 1;
                }
            }
            assert(g[k as int] == row@);
            if !found {
                k = k + 1;
            }
        }
        proof {
            lemma_leading_clear_unique(g, k as int);
        }
        if found && k > 0 {
            let mut rows: Vec<Vec<Rgba>> = Vec::new();
            let mut i: usize = k;
            while i < n
                invariant
                    self.wf(),
                    g == self.grid(),
                    n == g.len(),
                    k <= i <= n,
                    rows@.len() == i - k,
                    forall|m: int| 0 <= m < i - k ==> (#[trigger] rows@[m])@ == g[m + k],
                    forall|m: int| 0 <= m < i - k ==> (#[trigger] rows@[m])@.len() == self.width,
                decreases n - i,
            {
                rows.push(self.rows[i].clone());
                i = i + 1;
            }
            self.height = (n - k) as u32;
            self.rows = rows;
            assert(self.grid() =~= g.subrange(k as int, n as int));
        } else {
            assert(g.subrange(0, n as int) =~= g);
        }
    }

    /// Trims the fully transparent margin off all four sides: four times, the top
    /// is trimmed and the picture turned a quarter clockwise.
    pub fn squeeze(&mut self)
        requires
            old(self).wf(),
        ensures
            final(self).wf(),
            final(self).shape() == squeeze_grid(old(self).shape()),
    {
        let mut pass: usize = 0;
        while pass < 4
            invariant
                self.wf(),
                pass <= 4,
                self.shape() == if pass == 0 {
                    old(self).shape()
                } else if pass == 1 {
                    squeeze_step(old(self).shape())
                } else if pass == 2 {
                    squeeze_step(squeeze_step(old(self).shape()))
                } else if pass == 3 {
                    squeeze_step(squeeze_step(squeeze_step(old(self).shape())))
                } else {
                    squeeze_grid(old(self).shape())
                },
            decreases 4 - pass,
        {
            let ghost before = self.shape();
            self.trim_top();
            *self = self.rotate90();
            assert(self.shape() == squeeze_step(before));
            pass = pass + 1;
        }
    }
}

} // verus!
