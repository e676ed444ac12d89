use vstd::prelude::*;
use vstd::string::StringExecFns;

use crate::style::StyleBits;

verus! {

/// What a cell stands for; a tag only, nothing evaluates it.
#[derive(Debug, Clone, Copy, PartialEq, Eq, Structural)]
pub enum CellType {
    /// Plain data.
    Data,
    /// An operation or formula.
    Code,
    /// A variable assignment.
    VarAssign,
    /// A variable read.
    VarRead,
    /// A horizontal view.
    ViewHorizontal,
    /// A vertical view.
    ViewVertical,
}

impl Default for CellType {
    fn default() -> (r: Self)
        ensures
            r == CellType::Data,
    {
        CellType::Data
    }
}

/// An RGBA color.
#[derive(Debug, Clone, Copy, PartialEq, Eq, Structural)]
pub struct Color {
    pub r: u8,
    pub g: u8,
    pub b: u8,
    pub a: u8,
}

impl Color {
    /// Opaque white.
    pub fn white() -> (c: Self)
        ensures
            c == white_color(),
    {
        Color { r: 255, g: 255, b: 255, a: 255 }
    }

    /// Opaque black.
    pub fn black() -> (c: Self)
        ensures
            c == black_color(),
    {
        Color { r: 0, g: 0, b: 0, a: 255 }
    }

    pub fn new(r: u8, g: u8, b: u8, a: u8) -> (c: Self)
        ensures
            c == (Color { r, g, b, a }),
    {
        Color { r, g, b, a }
    }

    /// An opaque color.
    pub fn rgb(r: u8, g: u8, b: u8) -> (c: Self)
        ensures
            c == (Color { r, g, b, a: 255 }),
    {
        Color { r, g, b, a: 255 }
    }
}

impl Default for Color {
    fn default() -> (c: Self)
        ensures
            c == white_color(),
    {
        Color::white()
    }
}

pub open spec fn white_color() -> Color {
    Color { r: 255, g: 255, b: 255, a: 255 }
}

pub open spec fn black_color() -> Color {
    Color { r: 0, g: 0, b: 0, a: 255 }
}

/// Background color of a cell that sets none: opaque white.
pub fn default_cell_color() -> (c: Color)
    ensures
        c == white_color(),
{
    Color::white()
}

/// Text color of a cell that sets none: opaque black.
pub fn default_text_color() -> (c: Color)
    ensures
        c == black_color(),
{
    Color::black()
}

/// Border color of a cell that sets none: opaque white.
pub fn default_border_color() -> (c: Color)
    ensures
        c == white_color(),
{
    Color::white()
}

/// How the children of a cell are arranged.
#[derive(Debug, Clone, Copy, PartialEq, Eq, Structural)]
pub enum GridLayout {
    Horizontal,
    Vertical,
}

impl Default for GridLayout {
    fn default() -> (r: Self)
        ensures
            r == GridLayout::Vertical,
    {
        GridLayout::Vertical
    }
}

/// The mathematical value of a cell: its fields, with strings as character
/// sequences and children as a sequence of such values.
pub struct CellView {
    pub text: Seq<char>,
    pub children: Seq<CellView>,
    pub cell_type: CellType,
    pub style: StyleBits,
    pub rel_size: i32,
    pub cell_color: Color,
    pub text_color: Color,
    pub folded: bool,
    pub layout: GridLayout,
    pub image: Option<Seq<char>>,
    pub border_color: Color,
}

/// One node of the document tree: text, owned children and display attributes.
#[derive(Debug, PartialEq, Eq)]
pub struct Cell {
    pub text: String,
    pub children: Vec<Cell>,
    pub cell_type: CellType,
    pub style: StyleBits,
    pub rel_size: i32,
    pub cell_color: Color,
    pub text_color: Color,
    pub folded: bool,
    pub layout: GridLayout,
    pub image: Option<String>,
    pub border_color: Color,
}

pub open spec fn opt_view(s: Option<String>) -> Option<Seq<char>> {
    match s {
        Some(t) => Some(t@),
        None => None,
    }
}

pub open spec fn cell_view(c: Cell) -> CellView
    decreases c,
{
    CellView {
        text: c.text@,
        children: Seq::new(
            c.children@.len(),
            |i: int|
                if 0 <= i < c.children@.len() {
                    cell_view(c.children@[i])
                } else {
                    leaf_view(Seq::empty())
                },
        ),
        cell_type: c.cell_type,
        style: c.style,
        rel_size: c.rel_size,
        cell_color: c.cell_color,
        text_color: c.text_color,
        folded: c.folded,
        layout: c.layout,
        image: opt_view(c.image),
        border_color: c.border_color,
    }
}

impl View for Cell {
    type V = CellView;

    open spec fn view(&self) -> CellView {
        cell_view(*self)
    }
}

/// A cell with the given text, no children, and every attribute at its default.
pub open spec fn leaf_view(text: Seq<char>) -> CellView {
    CellView {
        text,
        children: Seq::empty(),
        cell_type: CellType::Data,
        style: StyleBits(0),
        rel_size: 0,
        cell_color: white_color(),
        text_color: black_color(),
        folded: false,
        layout: GridLayout::Vertical,
        image: None,
        border_color: white_color(),
    }
}

/// Number of levels of the tree under `c`, counting `c` itself.
pub open spec fn height(c: CellView) -> nat
    decreases c,
{
    1 + max_height(c.children)
}

/// The largest height among `s`, or 0 for none.
pub open spec fn max_height(s: Seq<CellView>) -> nat
    decreases s,
{
    if s.len() == 0 {
        0
    } else {
        let h = height(s.last());
        let m = max_height(s.drop_last());
        if h > m { h } else { m }
    }
}

impl Cell {
    /// A leaf cell with the given text and every attribute at its default.
    pub fn new(text: &str) -> (c: Self)
        ensures
            c@ == leaf_view(text@),
    {
        let c = Cell {
            text: String::from_str(text),
            children: Vec::new(),
            cell_type: CellType::default(),
            style: StyleBits::default(),
            rel_size: 0,
            cell_color: default_cell_color(),
            text_color: default_text_color(),
            folded: false,
            layout: GridLayout::default(),
            image: None,
            border_color: default_border_color(),
        };
        assert(c@.children =~= Seq::<CellView>::empty());
        c
    }

    /// A leaf cell with the given style and text color.
    pub fn with_style(text: &str, style: StyleBits, color: Color) -> (c: Self)
        ensures
            c@ == (CellView { style, text_color: color, ..leaf_view(text@) }),
    {
        let mut c = Self::new(text);
        c.style = style;
        c.text_color = color;
        c
    }

    /// A leaf cell of the given type.
    pub fn with_type(text: &str, cell_type: CellType) -> (c: Self)
        ensures
            c@ == (CellView { cell_type, ..leaf_view(text@) }),
    {
        let mut c = Self::new(text);
        c.cell_type = cell_type;
        c
    }

    pub fn is_leaf(&self) -> (r: bool)
        ensures
            r == (self@.children.len() == 0),
    {
        self.children.len() == 0
    }

    pub fn child_count(&self) -> (r: usize)
        ensures
            r == self@.children.len(),
    {
        self.children.len()
    }

    /// Appends `child` after the existing children.
    pub fn add_child(&mut self, child: Cell)
        ensures
            final(self)@ == (CellView { children: old(self)@.children.push(child@), ..old(self)@ }),
    {
        self.children.push(child);
        assert(self@.children =~= old(self)@.children.push(child@));
    }

    /// Whether any style flag is set, the size is adjusted, or the cell or
    /// text color differs from its default.
    pub fn has_styling(&self) -> (r: bool)
        ensures
            r == (self@.style.0 != 0 || self@.rel_size != 0 || self@.cell_color != white_color()
                || self@.text_color != black_color()),
    {
        self.style.0 != 0 || self.rel_size != 0 || self.cell_color != Color::white() || self.text_color
            != Color::black()
    }

    /// Whether the cell has text or children.
    pub fn has_content(&self) -> (r: bool)
        ensures
            r == (self@.text.len() != 0 || self@.children.len() != 0),
    {
        !self.text.as_str().is_empty() || self.children.len() != 0
    }

    /// Folds an unfolded cell, and unfolds a folded one.
    pub fn toggle_fold(&mut self)
        ensures
            final(self)@ == (CellView { folded: !old(self)@.folded, ..old(self)@ }),
    {
        self.folded = !self.folded;
        assert(self@.children =~= old(self)@.children);
    }

    pub fn set_layout(&mut self, layout: GridLayout)
        ensures
            final(self)@ == (CellView { layout, ..old(self)@ }),
    {
        self.layout = layout;
        assert(self@.children =~= old(self)@.children);
    }
}

/// The cells under `c`, `c` first, each with its depth, in depth-first
/// pre-order: a cell comes before its children, and children in their order.
pub open spec fn preorder(c: Cell, depth: int) -> Seq<(Cell, int)>
    decreases c, 0int,
{
    seq![(c, depth)] + preorder_forest(c.children@, depth + 1, c.children@.len() as int)
}

/// The pre-orders of the first `n` of `cs`, one after the other.
pub open spec fn preorder_forest(cs: Seq<Cell>, depth: int, n: int) -> Seq<(Cell, int)>
    decreases cs, n,
{
    if n <= 0 || n > cs.len() {
        Seq::empty()
    } else {
        preorder_forest(cs, depth, n - 1) + preorder(cs[n - 1], depth)
    }
}

/// Whether the visitor `f`, called on the cell and depth of `v`, may answer `answer`.
pub open spec fn answers<F: FnMut(&Cell, usize) -> bool>(f: F, v: (Cell, int), answer: bool) -> bool {
    call_ensures(f, (&v.0, v.1 as usize), answer)
}

/// Whether the visitor answered "go on" at each of `vs`.
pub open spec fn all_continue<F: FnMut(&Cell, usize) -> bool>(f: F, vs: Seq<(Cell, int)>) -> bool {
    forall|k: int| 0 <= k < vs.len() ==> #[trigger] answers(f, vs[k], true)
}

/// Whether the visitor answered "stop" at one of `vs`, after "go on" at each before it.
pub open spec fn stopped_in<F: FnMut(&Cell, usize) -> bool>(f: F, vs: Seq<(Cell, int)>) -> bool {
    exists|k: int| 0 <= k < vs.len() && #[trigger] answers(f, vs[k], false) && all_continue(f, vs.take(k))
}

/// A child is lower than its parent.
pub proof fn lemma_height_child(c: CellView, i: int)
    requires
        0 <= i < c.children.len(),
    ensures
        height(c.children[i]) < height(c),
{
    lemma_max_height_ge(c.children, i);
}

proof fn lemma_max_height_ge(s: Seq<CellView>, i: int)
    requires
        0 <= i < s.len(),
    ensures
        height(s[i]) <= max_height(s),
    decreases s.len(),
{
    if i < s.len() - 1 {
        lemma_max_height_ge(s.drop_last(), i);
    }
}

impl Cell {
    /// Visits this cell at `depth` and then, depth-first in pre-order, every
    /// cell under it, each with its depth. The visitor answers `true` to go on;
    /// on its first `false` no further cell is visited and `false` is returned.
    pub fn walk<F>(&self, depth: usize, f: &mut F) -> (r: bool)
        where
            F: FnMut(&Cell, usize) -> bool,
        requires
            depth + height(self@) <= usize::MAX + 1,
            forall|c: &Cell, d: usize| call_requires(*old(f), (c, d)),
        ensures
            *final(f) == *old(f),
            r ==> all_continue(*final(f), preorder(*self, depth as int)),
            !r ==> stopped_in(*final(f), preorder(*self, depth as int)),
        decreases self@,
    {
        let ghost pre = preorder(*self, depth as int);
        let ghost n = self.children@.len() as int;
        if !f(self, depth) {
            assert(answers(*f, pre[0], false));
            assert(pre.take(0) =~= Seq::<(Cell, int)>::empty());
            return false;
        }
        let mut i: usize = 0;
        while i < self.children.len()
            invariant
                i <= n,
                n == self.children@.len(),
                *f == *old(f),
                forall|c: &Cell, d: usize| call_requires(*f, (c, d)),
                depth + height(self@) <= usize::MAX + 1,
                pre == preorder(*self, depth as int),
                pre == seq![(*self, depth as int)] + preorder_forest(self.children@, depth + 1, n),
                all_continue(*f, seq![(*self, depth as int)] + preorder_forest(self.children@, depth + 1, i as int)),
            decreases n - i,
        {
            proof {
                lemma_height_child(self@, i as int);
            }
            assert(self@.children[i as int] == self.children@[i as int]@);
            let ghost done = seq![(*self, depth as int)] + preorder_forest(self.children@, depth + 1, i as int);
            let ghost sub = preorder(self.children@[i as int], depth + 1);
            assert(seq![(*self, depth as int)] + preorder_forest(self.children@, depth + 1, i + 1) =~= done + sub);
            if !self.children[i].walk(depth + 1, f) {
                proof {
                    lemma_forest_prefix(self.children@, depth + 1, i + 1, n);
                    let k = choose|k: int| 0 <= k < sub.len() && #[trigger] answers(*f, sub[k], false) && all_continue(*f, sub.take(k));
                    let rest = preorder_forest(self.children@, depth + 1, n).subrange(preorder_forest(self.children@, depth + 1, i + 1).len() as int, preorder_forest(self.children@, depth + 1, n).len() as int);
                    assert(pre =~= done + sub + rest);
                    assert(pre[done.len() + k] == sub[k]);
                    assert(pre.take(done.len() + k) =~= done + sub.take(k));
                    assert(all_continue(*f, pre.take(done.len() + k)));
                }
                return false;
            }
            assert(all_continue(*f, done + sub));
            i = i + 1;
        }
        true
    }
}

proof fn lemma_max_height_le(s: Seq<CellView>, m: nat)
    requires
        forall|i: int| 0 <= i < s.len() ==> height(#[trigger] s[i]) <= m,
    ensures
        max_height(s) <= m,
    decreases s.len(),
{
    if s.len() > 0 {
        let init = s.drop_last();
        assert(forall|i: int| 0 <= i < init.len() ==> init[i] == s[i]);
        lemma_max_height_le(init, m);
    }
}

/// Whether `c` is at most `room + 1` levels high, found by walking the tree.
fn fits_below(c: &Cell, room: usize) -> (r: bool)
    ensures
        r == (height(c@) <= room + 1),
    decreases c@,
{
    let n = c.children.len();
    if n == 0 {
        assert(max_height(c@.children) == 0);
        return true;
    }
    if room == 0 {
        proof {
            lemma_height_child(c@, 0);
        }
        return false;
    }
    let mut i: usize = 0;
    while i < n
        invariant
            n == c.children@.len(),
            n == c@.children.len(),
            room > 0,
            i <= n,
            forall|j: int| 0 <= j < i ==> height(#[trigger] c@.children[j]) <= room,
        decreases n - i,
    {
        assert(c@.children[i as int] == c.children@[i as int]@);
        if !fits_below(&c.children[i], room - 1) {
            proof {
                lemma_max_height_ge(c@.children, i as int);
            }
            return false;
        }
        i = i + 1;
    }
    proof {
        lemma_max_height_le(c@.children, room as nat);
    }
    true
}

impl Cell {
    /// Whether the cells under this one, counted from `depth`, all have a
    /// depth that fits in a `usize`: what the traversals and the formatter
    /// ask of a tree.
    pub fn depth_fits(&self, depth: usize) -> (r: bool)
        ensures
            r == (depth + height(self@) <= usize::MAX + 1),
    {
        fits_below(self, usize::MAX - depth)
    }
}

impl Cell {
    /// A copy of this cell and of everything under it.
    pub fn deep_copy(&self) -> (r: Cell)
        ensures
            r@ == self@,
        decreases self@,
    {
        let mut children: Vec<Cell> = Vec::new();
        let mut i: usize = 0;
        while i < self.children.len()
            invariant
                i <= self.children@.len(),
                children@.len() == i,
                forall|j: int| 0 <= j < i ==> #[trigger] children@[j]@ == self.children@[j]@,
            decreases self.children@.len() - i,
        {
            assert(self@.children[i as int] == self.children@[i as int]@);
            children.push(self.children[i].deep_copy());
            i = i + 1;
        }
        let image = match &self.image {
            Some(s) => Some(s.clone()),
            None => None,
        };
        let r = Cell {
            text: self.text.clone(),
            children,
            cell_type: self.cell_type,
            style: self.style,
            rel_size: self.rel_size,
            cell_color: self.cell_color,
            text_color: self.text_color,
            folded: self.folded,
            layout: self.layout,
            image,
            border_color: self.border_color,
        };
        assert forall|j: int| 0 <= j < self@.children.len() implies r@.children[j] == self@.children[j] by {
            assert(self@.children[j] == self.children@[j]@);
            assert(r@.children[j] == r.children@[j]@);
        }
        assert(r@.children =~= self@.children);
        r
    }
}

impl Clone for Cell {
    fn clone(&self) -> (r: Self)
        ensures
            r@ == self@,
    {
        self.deep_copy()
    }
}

/// Whether two cells have the same shape: as many children, pairwise of the
/// same shape, at every depth.
pub open spec fn same_shape(a: CellView, b: CellView) -> bool
    decreases a, 0int,
{
    a.children.len() == b.children.len() && shapes_match(a.children, b.children, a.children.len() as int)
}

/// Whether the first `n` of `xs` have, pairwise, the shape of the first `n` of `ys`.
pub open spec fn shapes_match(xs: Seq<CellView>, ys: Seq<CellView>, n: int) -> bool
    decreases xs, n,
{
    if n <= 0 || n > xs.len() || n > ys.len() {
        true
    } else {
        shapes_match(xs, ys, n - 1) && same_shape(xs[n - 1], ys[n - 1])
    }
}

proof fn lemma_shapes_match_prefix(xs1: Seq<CellView>, xs2: Seq<CellView>, ys: Seq<CellView>, n: int)
    requires
        0 <= n <= xs1.len(),
        n <= xs2.len(),
        forall|j: int| 0 <= j < n ==> xs1[j] == xs2[j],
    ensures
        shapes_match(xs1, ys, n) == shapes_match(xs2, ys, n),
    decreases n,
{
    if n > 0 {
        lemma_shapes_match_prefix(xs1, xs2, ys, n - 1);
    }
}

/// `fin` is `visited` with the children of `fin`: every field but the
/// children is as the visitor left it.
pub open spec fn fields_as_visited(visited: CellView, fin: CellView) -> bool {
    (CellView { children: fin.children, ..visited }) == fin
}

impl Cell {
    /// Calls `f` on this cell at `depth` and then, depth-first in pre-order, on
    /// every cell under it, each with its depth. `f` may change the cells it is
    /// handed but not their children, so every cell keeps its place and the
    /// tree keeps its shape.
    pub fn walk_mut<F>(&mut self, depth: usize, f: &mut F)
        where
            F: FnMut(&mut Cell, usize),
        requires
            depth + height(old(self)@) <= usize::MAX + 1,
            forall|x: &mut Cell, d: usize| call_requires(*old(f), (x, d)),
            forall|x: &mut Cell, d: usize|
                #[trigger] call_ensures(*old(f), (x, d), ()) ==> mut_ref_future(x).children
                    == mut_ref_current(x).children,
        ensures
            *final(f) == *old(f),
            same_shape(final(self)@, old(self)@),
            // the visitor was applied to this cell at `depth`
            exists|x: &mut Cell|
                #[trigger] call_ensures(*old(f), (x, depth), ()) && mut_ref_current(x) == *old(self)
                    && fields_as_visited(mut_ref_future(x)@, final(self)@),
            // and to each child at `depth + 1`
            forall|i: int|
                #![trigger old(self).children@[i]]
                0 <= i < final(self).children@.len() ==> exists|x: &mut Cell|
                    #[trigger] call_ensures(*old(f), (x, (depth + 1) as usize), ()) && mut_ref_current(x)
                        == old(self).children@[i] && fields_as_visited(
                        mut_ref_future(x)@,
                        final(self).children@[i]@,
                    ),
        decreases old(self)@,
    {
        let ghost before = *self;
        f(self, depth);
        let ghost visited = *self;
        assert(exists|x: &mut Cell|
            #[trigger] call_ensures(*f, (x, depth), ()) && mut_ref_current(x) == before
                && mut_ref_future(x) == visited);
        let ghost kids = self.children@;
        assert(kids == old(self).children@);
        assert(self@.children =~= old(self)@.children);
        let mut i: usize = 0;
        while i < self.children.len()
            invariant
                *f == *old(f),
                forall|x: &mut Cell, d: usize| call_requires(*f, (x, d)),
                forall|x: &mut Cell, d: usize|
                    #[trigger] call_ensures(*f, (x, d), ()) ==> mut_ref_future(x).children
                        == mut_ref_current(x).children,
                before == *old(self),
                exists|x: &mut Cell|
                    #[trigger] call_ensures(*f, (x, depth), ()) && mut_ref_current(x) == before
                        && mut_ref_future(x) == visited,
                fields_as_visited(visited@, self@),
                kids == old(self).children@,
                self.children@.len() == kids.len(),
                i <= kids.len(),
                depth + height(old(self)@) <= usize::MAX + 1,
                forall|j: int| i <= j < kids.len() ==> #[trigger] self.children@[j] == kids[j],
                forall|j: int|
                    #![trigger kids[j]]
                    0 <= j < i ==> exists|x: &mut Cell|
                        #[trigger] call_ensures(*f, (x, (depth + 1) as usize), ()) && mut_ref_current(x)
                            == kids[j] && fields_as_visited(mut_ref_future(x)@, self.children@[j]@),
                shapes_match(self@.children, old(self)@.children, i as int),
            decreases kids.len() - i,
        {
            proof {
                lemma_height_child(old(self)@, i as int);
            }
            assert(old(self)@.children[i as int] == kids[i as int]@);
            let ghost prev = self@.children;
            let ghost prev_cells = self.children@;
            self.children[i].walk_mut(depth + 1, f);
            proof {
                assert(forall|j: int| 0 <= j < i ==> self@.children[j] == prev[j]);
                lemma_shapes_match_prefix(prev, self@.children, old(self)@.children, i as int);
                assert(self@.children[i as int] == self.children@[i as int]@);
            }
            let ghost done = i;
            i = i + 1;
            proof {
                assert forall|j: int|
                    #![trigger kids[j]]
                    0 <= j < i implies exists|x: &mut Cell|
                        #[trigger] call_ensures(*f, (x, (depth + 1) as usize), ()) && mut_ref_current(x)
                            == kids[j] && fields_as_visited(mut_ref_future(x)@, self.children@[j]@) by {
                    if j < done {
                        assert(self.children@[j] == prev_cells[j]);
                    }
                }
            }
        }
    }
}

/// Whether the visitor `f` may have been called on each of `vs`.
pub open spec fn visited_all<F: FnMut(&Cell, usize)>(f: F, vs: Seq<(Cell, int)>) -> bool {
    forall|k: int| 0 <= k < vs.len() ==> #[trigger] call_ensures(f, (&vs[k].0, vs[k].1 as usize), ())
}

fn visit_all<F>(c: &Cell, depth: usize, f: &mut F)
    where
        F: FnMut(&Cell, usize),
    requires
        depth + height(c@) <= usize::MAX + 1,
        forall|x: &Cell, d: usize| call_requires(*old(f), (x, d)),
    ensures
        *final(f) == *old(f),
        visited_all(*final(f), preorder(*c, depth as int)),
    decreases c@,
{
    let ghost n = c.children@.len() as int;
    f(c, depth);
    let mut i: usize = 0;
    while i < c.children.len()
        invariant
            i <= n,
            n == c.children@.len(),
            *f == *old(f),
            forall|x: &Cell, d: usize| call_requires(*f, (x, d)),
            depth + height(c@) <= usize::MAX + 1,
            visited_all(*f, seq![(*c, depth as int)] + preorder_forest(c.children@, depth + 1, i as int)),
        decreases n - i,
    {
        proof {
            lemma_height_child(c@, i as int);
        }
        assert(c@.children[i as int] == c.children@[i as int]@);
        let ghost done = seq![(*c, depth as int)] + preorder_forest(c.children@, depth + 1, i as int);
        let ghost sub = preorder(c.children@[i as int], depth + 1);
        assert(seq![(*c, depth as int)] + preorder_forest(c.children@, depth + 1, i + 1) =~= done + sub);
        visit_all(&c.children[i], depth + 1, f);
        assert(visited_all(*f, done + sub));
        i = i + 1;
    }
}

/// The pre-order of the first `i` of `cs` is a prefix of that of the first `n`.
proof fn lemma_forest_prefix(cs: Seq<Cell>, depth: int, i: int, n: int)
    requires
        0 <= i <= n <= cs.len(),
    ensures
        preorder_forest(cs, depth, n).len() >= preorder_forest(cs, depth, i).len(),
        preorder_forest(cs, depth, n).take(preorder_forest(cs, depth, i).len() as int) == preorder_forest(cs, depth, i),
    decreases n - i,
{
    if n > i {
        lemma_forest_prefix(cs, depth, i, n - 1);
        let a = preorder_forest(cs, depth, n - 1);
        let b = preorder_forest(cs, depth, i);
        assert((a + preorder(cs[n - 1], depth)).take(b.len() as int) =~= a.take(b.len() as int));
    } else {
        assert(preorder_forest(cs, depth, n).take(preorder_forest(cs, depth, n).len() as int) =~= preorder_forest(cs, depth, n));
    }
}

/// The cell that an index path leads to from `c`: each index picks a child
/// of the cell reached so far; `None` once an index is out of range.
pub open spec fn resolve(c: CellView, path: Seq<usize>) -> Option<CellView>
    decreases path.len(),
{
    if path.len() == 0 {
        Some(c)
    } else if (path[0] as int) < c.children.len() {
        resolve(c.children[path[0] as int], path.drop_first())
    } else {
        None
    }
}

/// `c` with the text of the cell at `path` replaced; `c` itself where the
/// path leads nowhere.
pub open spec fn with_text_at(c: CellView, path: Seq<usize>, text: Seq<char>) -> CellView
    decreases path.len(),
{
    if path.len() == 0 {
        CellView { text, ..c }
    } else if (path[0] as int) < c.children.len() {
        CellView {
            children: c.children.update(
                path[0] as int,
                with_text_at(c.children[path[0] as int], path.drop_first(), text),
            ),
            ..c
        }
    } else {
        c
    }
}

impl Cell {
    /// The cell that `path` leads to from this one, or `None` where an index
    /// is out of range.
    pub fn cell_at(&self, path: &[usize]) -> (r: Option<&Cell>)
        ensures
            match r {
                Some(x) => resolve(self@, path@) == Some(x@),
                None => resolve(self@, path@) is None,
            },
    {
        let mut current = self;
        let mut i: usize = 0;
        assert(path@.skip(0) =~= path@);
        while i < path.len()
            invariant
                i <= path@.len(),
                resolve(self@, path@) == resolve(current@, path@.skip(i as int)),
            decreases path@.len() - i,
        {
            let index = path[i];
            assert(path@.skip(i as int).drop_first() =~= path@.skip(i + 1));
            if index < current.children.len() {
                assert(current@.children[index as int] == current.children@[index as int]@);
                current = &current.children[index];
            } else {
                return None;
            }
            i = i + 1;
        }
        assert(path@.skip(i as int) =~= Seq::<usize>::empty());
        Some(current)
    }

    /// Replaces the text of the cell that `path[from..]` leads to; `false`,
    /// with nothing changed, where an index is out of range.
    pub fn set_text_at(&mut self, path: &[usize], from: usize, text: String) -> (r: bool)
        requires
            from <= path@.len(),
        ensures
            r == (resolve(old(self)@, path@.skip(from as int)) is Some),
            final(self)@ == with_text_at(old(self)@, path@.skip(from as int), text@),
        decreases path@.len() - from,
    {
        let ghost rest = path@.skip(from as int);
        if from == path.len() {
            self.text = text;
            assert(self@.children =~= old(self)@.children);
            return true;
        }
        let index = path[from];
        assert(rest.drop_first() =~= path@.skip(from + 1));
        if index < self.children.len() {
            assert(old(self)@.children[index as int] == old(self).children@[index as int]@);
            let found = self.children[index].set_text_at(path, from + 1, text);
            assert(self@.children =~= old(self)@.children.update(
                index as int,
                with_text_at(old(self)@.children[index as int], rest.drop_first(), text@),
            ));
            found
        } else {
            false
        }
    }
}

/// The mathematical value of a sheet.
pub struct SheetView {
    pub title: Seq<char>,
    pub root: CellView,
}

/// A whole document: a title and the root of the tree.
#[derive(Debug, PartialEq, Eq)]
pub struct Sheet {
    pub title: String,
    pub root: Cell,
}

impl Clone for Sheet {
    fn clone(&self) -> (r: Self)
        ensures
            r@ == self@,
    {
        Sheet { title: self.title.clone(), root: self.root.clone() }
    }
}

impl View for Sheet {
    type V = SheetView;

    open spec fn view(&self) -> SheetView {
        SheetView { title: self.title@, root: self.root@ }
    }
}

/// A cell with the given text whose children are the given cells.
pub open spec fn branch_view(text: Seq<char>, children: Seq<CellView>) -> CellView {
    CellView { children, ..leaf_view(text) }
}

/// The demonstration document.
pub open spec fn sample_view() -> SheetView {
    SheetView {
        title: "Sample Sheet"@,
        root: branch_view(
            "TreeSheets Rust Prototype"@,
            seq![
                branch_view("Personal"@, seq![leaf_view("Tasks"@), leaf_view("Notes"@)]),
                branch_view(
                    "Work"@,
                    seq![
                        branch_view(
                            "TreeSheets RS"@,
                            seq![
                                leaf_view("Implement sheet data model"@),
                                leaf_view("Design CLI workflows"@),
                            ],
                        ),
                        leaf_view("Retrospective"@),
                    ],
                ),
            ],
        ),
    }
}

impl Sheet {
    pub fn new(title: &str, root: Cell) -> (s: Self)
        ensures
            s@ == (SheetView { title: title@, root: root@ }),
    {
        Sheet { title: String::from_str(title), root }
    }

    /// Calls `f` on every cell of the sheet with its depth, the root at depth
    /// 0, depth-first in pre-order.
    pub fn for_each_cell<F>(&self, f: F)
        where
            F: FnMut(&Cell, usize),
        requires
            height(self@.root) <= usize::MAX + 1,
            forall|x: &Cell, d: usize| call_requires(f, (x, d)),
        ensures
            visited_all(f, preorder(self.root, 0)),
    {
        let mut f = f;
        visit_all(&self.root, 0, &mut f);
    }

    /// The fixed demonstration document.
    pub fn sample() -> (s: Self)
        ensures
            s@ == sample_view(),
    {
        let mut root = Cell::new("TreeSheets Rust Prototype");

        let mut left = Cell::new("Personal");
        left.add_child(Cell::new("Tasks"));
        left.add_child(Cell::new("Notes"));

        let mut right = Cell::new("Work");
        let mut project = Cell::new("TreeSheets RS");
        project.add_child(Cell::new("Implement sheet data model"));
        project.add_child(Cell::new("Design CLI workflows"));
        right.add_child(project);
        right.add_child(Cell::new("Retrospective"));

        root.add_child(left);
        root.add_child(right);

        let s = Sheet::new("Sample Sheet", root);
        let ghost v = sample_view();
        assert(s@.root.children[0].children =~= v.root.children[0].children);
        assert(s@.root.children[1].children[0].children =~= v.root.children[1].children[0].children);
        assert(s@.root.children[1].children =~= v.root.children[1].children);
        assert(s@.root.children =~= v.root.children);
        s
    }
}

} // verus!
