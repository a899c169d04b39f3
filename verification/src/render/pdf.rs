//! Painting a document onto a PDF page: what is painted for each box and in
//! which order, the shape of borders and rounded corners, gradients, and how
//! glyphs are put together with the text they show.
//!
//! Lengths and positions are numbers that the layout engine measured. Here
//! stands which of them are used for what; adding them up is left to the painter.
use vstd::prelude::*;

use crate::render::single;

verus! {

/// A color.
#[derive(Debug, Clone, Copy, PartialEq, Eq, Structural)]
pub struct Rgb {
    pub r: u8,
    pub g: u8,
    pub b: u8,
}

impl Default for Rgb {
    fn default() -> (r: Self)
        ensures
            r == (Rgb { r: 0, g: 0, b: 0 }),
    {
        Rgb { r: 0, g: 0, b: 0 }
    }
}

impl Rgb {
    /// A color by its parts.
    pub fn new(r: u8, g: u8, b: u8) -> (c: Rgb)
        ensures
            c == (Rgb { r, g, b }),
    {
        Rgb { r, g, b }
    }
}

/// The background of a page: the color without its alpha.
pub fn page_background(rgba: [u8; 4]) -> (c: Rgb)
    ensures
        c == (Rgb { r: rgba@[0], g: rgba@[1], b: rgba@[2] }),
{
    Rgb::new(rgba[0], rgba[1], rgba[2])
}

/// The radii of a box's corners, across and down, by the bits of single
/// precision numbers.
#[derive(Debug, Clone, Copy, PartialEq, Eq)]
pub struct BorderRadii {
    pub top_left: (u32, u32),
    pub top_right: (u32, u32),
    pub bottom_right: (u32, u32),
    pub bottom_left: (u32, u32),
}

/// A radius that is not zero both ways.
pub open spec fn has_radius(r: (u32, u32)) -> bool {
    single::nonzero(r.0) || single::nonzero(r.1)
}

impl BorderRadii {
    /// Whether any corner has a radius.
    pub fn has_any_radius(&self) -> (r: bool)
        ensures
            r == (has_radius(self.top_left) || has_radius(self.top_right) || has_radius(
                self.bottom_right,
            ) || has_radius(self.bottom_left)),
    {
        single::is_nonzero(self.top_left.0) || single::is_nonzero(self.top_left.1)
            || single::is_nonzero(self.top_right.0) || single::is_nonzero(self.top_right.1)
            || single::is_nonzero(self.bottom_right.0) || single::is_nonzero(self.bottom_right.1)
            || single::is_nonzero(self.bottom_left.0) || single::is_nonzero(self.bottom_left.1)
    }
}

/// A corner of a box.
#[derive(Debug, Clone, Copy, PartialEq, Eq, Structural)]
pub enum Corner {
    TopLeft,
    TopRight,
    BottomRight,
    BottomLeft,
}

/// A side of a box.
#[derive(Debug, Clone, Copy, PartialEq, Eq, Structural)]
pub enum Edge {
    Top,
    Right,
    Bottom,
    Left,
}

/// A part of the outline of a box with rounded corners. At each corner the
/// outline has an end before the corner and one behind it, on the way round
/// from the top left corner to the right.
#[derive(Debug, Clone, Copy, PartialEq, Eq, Structural)]
pub enum PathStep {
    /// Begins at the end behind a corner.
    MoveBehind(Corner),
    /// A line to the end before a corner.
    LineBefore(Corner),
    /// A curve round a corner, from the end before it to the end behind it.
    CurveRound(Corner),
    /// Closes the outline.
    Close,
}

/// The way to and round a corner: there is a curve only where the corner is round.
pub open spec fn corner_steps(c: Corner, round: bool) -> Seq<PathStep> {
    if round {
        seq![PathStep::LineBefore(c), PathStep::CurveRound(c)]
    } else {
        seq![PathStep::LineBefore(c)]
    }
}

/// The outline of a box of which some corners are round.
pub open spec fn outline(tl: bool, tr: bool, br: bool, bl: bool) -> Seq<PathStep> {
    seq![PathStep::MoveBehind(Corner::TopLeft)] + corner_steps(Corner::TopRight, tr)
        + corner_steps(Corner::BottomRight, br) + corner_steps(Corner::BottomLeft, bl)
        + corner_steps(Corner::TopLeft, tl) + seq![PathStep::Close]
}

fn go_round(v: &mut Vec<PathStep>, c: Corner, round: bool)
    ensures
        final(v)@ == old(v)@ + corner_steps(c, round),
{
    v.push(PathStep::LineBefore(c));
    if round {
        v.push(PathStep::CurveRound(c));
    }
    assert(v@ =~= old(v)@ + corner_steps(c, round));
}

/// The outline of a box of which some corners are round: those whose radius,
/// kept to half of the box, is positive both ways.
pub fn rounded_rect_path(tl: bool, tr: bool, br: bool, bl: bool) -> (r: Vec<PathStep>)
    ensures
        r@ == outline(tl, tr, br, bl),
{
    let mut v: Vec<PathStep> = Vec::new();
    v.push(PathStep::MoveBehind(Corner::TopLeft));
    go_round(&mut v, Corner::TopRight, tr);
    go_round(&mut v, Corner::BottomRight, br);
    go_round(&mut v, Corner::BottomLeft, bl);
    go_round(&mut v, Corner::TopLeft, tl);
    v.push(PathStep::Close);
    assert(v@ =~= outline(tl, tr, br, bl));
    v
}

/// A corner of a border: of its outside or of its inside.
#[derive(Debug, Clone, Copy, PartialEq, Eq, Structural)]
pub enum BorderPoint {
    Outer(Corner),
    Inner(Corner),
}

/// The two corners of a side, on the way round to the right.
pub open spec fn edge_corners(e: Edge) -> (Corner, Corner) {
    match e {
        Edge::Top => (Corner::TopLeft, Corner::TopRight),
        Edge::Right => (Corner::TopRight, Corner::BottomRight),
        Edge::Bottom => (Corner::BottomRight, Corner::BottomLeft),
        Edge::Left => (Corner::BottomLeft, Corner::TopLeft),
    }
}

/// The shape of the border on a side: along its outside, and back along its inside.
pub open spec fn border_shape(e: Edge) -> Seq<BorderPoint> {
    let (a, b) = edge_corners(e);
    seq![
        BorderPoint::Outer(a),
        BorderPoint::Outer(b),
        BorderPoint::Inner(b),
        BorderPoint::Inner(a),
    ]
}

/// The shape of the border on a side.
pub fn border_edge(e: Edge) -> (r: Vec<BorderPoint>)
    ensures
        r@ == border_shape(e),
{
    let (a, b): (Corner, Corner) = match e {
        Edge::Top => (Corner::TopLeft, Corner::TopRight),
        Edge::Right => (Corner::TopRight, Corner::BottomRight),
        Edge::Bottom => (Corner::BottomRight, Corner::BottomLeft),
        Edge::Left => (Corner::BottomLeft, Corner::TopLeft),
    };
    let r: Vec<BorderPoint> = vec![
        BorderPoint::Outer(a),
        BorderPoint::Outer(b),
        BorderPoint::Inner(b),
        BorderPoint::Inner(a),
    ];
    assert(r@ =~= border_shape(e));
    r
}

/// The next side, on the way round to the right.
pub open spec fn next_edge(e: Edge) -> Edge {
    match e {
        Edge::Top => Edge::Right,
        Edge::Right => Edge::Bottom,
        Edge::Bottom => Edge::Left,
        Edge::Left => Edge::Top,
    }
}

/// The borders of two sides that meet share the line from the outer to the
/// inner corner between them, so that they leave no gap.
pub proof fn lemma_borders_meet(e: Edge)
    ensures
        border_shape(e)[1] == border_shape(next_edge(e))[0],
        border_shape(e)[2] == border_shape(next_edge(e))[3],
{
}

/// Where along a box a gradient begins or ends: at its start, in its middle, at its end.
#[derive(Debug, Clone, Copy, PartialEq, Eq, Structural)]
pub enum Along {
    Start,
    Middle,
    End,
}

/// Across which way a gradient runs.
#[derive(Debug, Clone, Copy, PartialEq, Eq, Structural)]
pub enum Horizontal {
    Left,
    Right,
}

/// Up or down which way a gradient runs.
#[derive(Debug, Clone, Copy, PartialEq, Eq, Structural)]
pub enum Vertical {
    Top,
    Bottom,
}

/// The direction of a gradient that is given by keywords.
#[derive(Debug, Clone, Copy, PartialEq, Eq, Structural)]
pub enum Direction {
    Horizontal(Horizontal),
    Vertical(Vertical),
    Corner(Horizontal, Vertical),
}

/// The line of a gradient: from a point to another, each across and down.
#[derive(Debug, Clone, Copy, PartialEq, Eq)]
pub struct GradientLine {
    pub from: (Along, Along),
    pub to: (Along, Along),
}

/// What a gradient paints beyond its line: its colors over again, or the last
/// one of each side on and on.
#[derive(Debug, Clone, Copy, PartialEq, Eq, Structural)]
pub enum Spread {
    Repeat,
    Pad,
}

/// What a gradient paints beyond its line. One without stops paints nothing at all.
pub fn gradient_spread(stops: usize, repeating: bool) -> (r: Option<Spread>)
    ensures
        r is None <==> stops == 0,
        r == Some(Spread::Repeat) <==> stops > 0 && repeating,
        r == Some(Spread::Pad) <==> stops > 0 && !repeating,
{
    if stops == 0 {
        None
    } else if repeating {
        Some(Spread::Repeat)
    } else {
        Some(Spread::Pad)
    }
}

/// Where a gradient that runs to a side begins and ends across.
pub open spec fn across(h: Horizontal) -> (Along, Along) {
    match h {
        Horizontal::Right => (Along::Start, Along::End),
        Horizontal::Left => (Along::End, Along::Start),
    }
}

/// Where a gradient that runs up or down begins and ends.
pub open spec fn downwards(v: Vertical) -> (Along, Along) {
    match v {
        Vertical::Top => (Along::End, Along::Start),
        Vertical::Bottom => (Along::Start, Along::End),
    }
}

/// The line of a gradient with a direction.
pub open spec fn line_of(d: Direction) -> GradientLine {
    match d {
        Direction::Horizontal(h) => GradientLine {
            from: (across(h).0, Along::Middle),
            to: (across(h).1, Along::Middle),
        },
        Direction::Vertical(v) => GradientLine {
            from: (Along::Middle, downwards(v).0),
            to: (Along::Middle, downwards(v).1),
        },
        Direction::Corner(h, v) => GradientLine {
            from: (across(h).0, downwards(v).0),
            to: (across(h).1, downwards(v).1),
        },
    }
}

/// The line of a gradient with a direction.
pub fn gradient_line(d: Direction) -> (r: GradientLine)
    ensures
        r == line_of(d),
{
    match d {
        Direction::Horizontal(h) => match h {
            Horizontal::Right => GradientLine {
                from: (Along::Start, Along::Middle),
                to: (Along::End, Along::Middle),
            },
            Horizontal::Left => GradientLine {
                from: (Along::End, Along::Middle),
                to: (Along::Start, Along::Middle),
            },
        },
        Direction::Vertical(v) => match v {
            Vertical::Top => GradientLine {
                from: (Along::Middle, Along::End),
                to: (Along::Middle, Along::Start),
            },
            Vertical::Bottom => GradientLine {
                from: (Along::Middle, Along::Start),
                to: (Along::Middle, Along::End),
            },
        },
        Direction::Corner(h, v) => {
            let (x1, x2): (Along, Along) = match h {
                Horizontal::Right => (Along::Start, Along::End),
                Horizontal::Left => (Along::End, Along::Start),
            };
            let (y1, y2): (Along, Along) = match v {
                Vertical::Top => (Along::End, Along::Start),
                Vertical::Bottom => (Along::Start, Along::End),
            };
            GradientLine { from: (x1, y1), to: (x2, y2) }
        },
    }
}

/// An item of a gradient.
#[derive(Debug, Clone, Copy, PartialEq, Eq, Structural)]
pub enum GradientItem {
    /// A color without a place.
    Simple,
    /// A color with a place; whether the place is known as a part of the whole.
    Placed(bool),
    /// No color, but a hint for those around it.
    Hint,
}

/// The place of a color on a gradient.
#[derive(Debug, Clone, Copy, PartialEq, Eq, Structural)]
pub enum StopPlace {
    /// At the start.
    Start,
    /// This many of so many equal parts on the way.
    Part { index: usize, parts: usize },
    /// Where its item says.
    Given,
}

/// A color on a gradient: the item it comes from, and its place.
#[derive(Debug, Clone, Copy, PartialEq, Eq, Structural)]
pub struct GradientStop {
    pub item: usize,
    pub place: StopPlace,
}

/// How many items have a color.
pub open spec fn color_count(items: Seq<GradientItem>) -> nat
    decreases items.len(),
{
    if items.len() == 0 {
        0
    } else {
        color_count(items.drop_last()) + if items.last() is Hint {
            0nat
        } else {
            1nat
        }
    }
}

/// How many of the items have a color whose place is found.
pub open spec fn placed_count(items: Seq<GradientItem>) -> nat
    decreases items.len(),
{
    if items.len() == 0 {
        0
    } else {
        placed_count(items.drop_last()) + if items.last() is Simple || items.last()
            == GradientItem::Placed(true) {
            1nat
        } else {
            0nat
        }
    }
}

/// The colors of the first `n` items of a gradient that has `total` colors: a
/// color without a place stands where it would if all were spread evenly, by
/// how many came before it; one whose place is not known is left out.
pub open spec fn stops_of(items: Seq<GradientItem>, n: int, total: nat) -> Seq<GradientStop>
    decreases n,
{
    if n <= 0 || n > items.len() {
        Seq::empty()
    } else {
        let front = stops_of(items, n - 1, total);
        match items[n - 1] {
            GradientItem::Simple => front.push(
                GradientStop {
                    item: (n - 1) as usize,
                    place: if total > 1 {
                        StopPlace::Part {
                            index: placed_count(items.take(n - 1)) as usize,
                            parts: (total - 1) as usize,
                        }
                    } else {
                        StopPlace::Start
                    },
                },
            ),
            GradientItem::Placed(known) => if known {
                front.push(GradientStop { item: (n - 1) as usize, place: StopPlace::Given })
            } else {
                front
            },
            GradientItem::Hint => front,
        }
    }
}

proof fn lemma_counts(items: Seq<GradientItem>)
    ensures
        placed_count(items) <= color_count(items) <= items.len(),
    decreases items.len(),
{
    if items.len() > 0 {
        lemma_counts(items.drop_last());
    }
}

/// The colors of a gradient and their places.
pub fn gradient_stops(items: &[GradientItem]) -> (r: Vec<GradientStop>)
    ensures
        r@ == stops_of(items@, items@.len() as int, color_count(items@)),
{
    let mut total: usize = 0;
    let mut i: usize = 0;
    assert(items@.take(0) =~= Seq::empty());
    while i < items.len()
        invariant
            i <= items.len(),
            total == color_count(items@.take(i as int)),
            total <= i,
        decreases items.len() - i,
    {
        assert(items@.take(i + 1).drop_last() =~= items@.take(i as int));
        match items[i] {
            GradientItem::Hint => {},
            _ => {
                total = total + 1;
            },
        }
        i = i + 1;
    }
    assert(items@.take(i as int) =~= items@);
    let mut r: Vec<GradientStop> = Vec::new();
    let mut placed: usize = 0;
    let mut k: usize = 0;
    while k < items.len()
        invariant
            k <= items.len(),
            total == color_count(items@),
            placed == placed_count(items@.take(k as int)),
            placed <= k,
            r@ == stops_of(items@, k as int, color_count(items@)),
        decreases items.len() - k,
    {
        assert(items@.take(k + 1).drop_last() =~= items@.take(k as int));
        match items[k] {
            GradientItem::Simple => {
                let place: StopPlace = if total > 1 {
                    StopPlace::Part { index: placed, parts: total - 1 }
                } else {
                    StopPlace::Start
                };
                r.push(GradientStop { item: k, place });
                placed = placed + 1;
            },
            GradientItem::Placed(known) => {
                if known {
                    r.push(GradientStop { item: k, place: StopPlace::Given });
                    placed = placed + 1;
                }
            },
            GradientItem::Hint => {},
        }
        k = k + 1;
    }
    r
}

/// A color that is spread evenly stands on the gradient: not behind its end.
pub proof fn lemma_stops_on_gradient(items: Seq<GradientItem>, n: int)
    requires
        0 <= n <= items.len(),
        items.len() <= usize::MAX,
    ensures
        forall|i: int|
            0 <= i < stops_of(items, n, color_count(items)).len() ==> {
                let s = #[trigger] stops_of(items, n, color_count(items))[i];
                s.place matches StopPlace::Part { index, parts } ==> index <= parts && parts > 0
            },
    decreases n,
{
    if n > 0 {
        lemma_stops_on_gradient(items, n - 1);
        lemma_counts(items);
        lemma_prefix_counts(items, n);
        lemma_counts(items.take(n - 1));
        let total = color_count(items);
        let front = stops_of(items, n - 1, total);
        let all = stops_of(items, n, total);
        assert(items.take(n).drop_last() =~= items.take(n - 1));
        assert forall|i: int| 0 <= i < all.len() implies {
            let s = #[trigger] all[i];
            s.place matches StopPlace::Part { index, parts } ==> index <= parts && parts > 0
        } by {
            if i < front.len() {
                assert(all[i] == front[i]);
            }
        }
    }
}

proof fn lemma_prefix_counts(items: Seq<GradientItem>, n: int)
    requires
        0 <= n <= items.len(),
    ensures
        color_count(items.take(n)) <= color_count(items),
    decreases items.len(),
{
    if n == items.len() {
        assert(items.take(n) =~= items);
    } else {
        lemma_prefix_counts(items.drop_last(), n);
        assert(items.drop_last().take(n) =~= items.take(n));
    }
}

/// A cluster of a run of glyphs: the text it shows, by its place in the whole
/// text, how many glyphs it has, and whether it goes on a ligature that began before it.
#[derive(Debug, Clone, Copy, PartialEq, Eq, Structural)]
pub struct Cluster {
    pub continues: bool,
    pub start: usize,
    pub end: usize,
    pub glyphs: usize,
}

/// A glyph to draw: which one of which cluster, and the text it shows.
#[derive(Debug, Clone, Copy, PartialEq, Eq, Structural)]
pub struct DrawnGlyph {
    pub cluster: usize,
    pub index: usize,
    pub start: usize,
    pub end: usize,
}

/// The first `n` glyphs of the cluster at place `k`.
pub open spec fn cluster_glyphs(k: int, c: Cluster, n: nat) -> Seq<DrawnGlyph> {
    Seq::new(
        n,
        |i: int|
            DrawnGlyph { cluster: k as usize, index: i as usize, start: c.start, end: c.end },
    )
}

/// The glyphs of the first `n` clusters. A cluster that goes on a ligature
/// draws nothing: the last glyph before it shows its text too.
pub open spec fn drawn(clusters: Seq<Cluster>, n: int) -> Seq<DrawnGlyph>
    decreases n,
{
    if n <= 0 || n > clusters.len() {
        Seq::empty()
    } else {
        let front = drawn(clusters, n - 1);
        let c = clusters[n - 1];
        if c.continues {
            if front.len() > 0 {
                front.update(front.len() - 1, DrawnGlyph { end: c.end, ..front.last() })
            } else {
                front
            }
        } else {
            front + cluster_glyphs(n - 1, c, c.glyphs as nat)
        }
    }
}

/// The glyphs of a run, each with the text it shows.
pub fn draw_glyphs(clusters: &[Cluster]) -> (r: Vec<DrawnGlyph>)
    ensures
        r@ == drawn(clusters@, clusters@.len() as int),
{
    let mut r: Vec<DrawnGlyph> = Vec::new();
    let mut k: usize = 0;
    while k < clusters.len()
        invariant
            k <= clusters.len(),
            r@ == drawn(clusters@, k as int),
        decreases clusters.len() - k,
    {
        let c: Cluster = clusters[k];
        let ghost front = r@;
        if c.continues {
            let n: usize = r.len();
            if n > 0 {
                let last: DrawnGlyph = r[n - 1];
                r.set(n - 1, DrawnGlyph { end: c.end, ..last });
            }
        } else {
            let mut i: usize = 0;
            assert(r@ =~= front + cluster_glyphs(k as int, c, 0));
            while i < c.glyphs
                invariant
                    i <= c.glyphs,
                    r@ == front + cluster_glyphs(k as int, c, i as nat),
                decreases c.glyphs - i,
            {
                r.push(DrawnGlyph { cluster: k, index: i, start: c.start, end: c.end });
                assert(r@ =~= front + cluster_glyphs(k as int, c, (i + 1) as nat));
                i = i + 1;
            }
        }
        k = k + 1;
    }
    r
}

/// The fonts that have been loaded, by their ids.
pub struct FontCache {
    pub loaded: Vec<u64>,
}

impl FontCache {
    /// No font was loaded twice.
    pub open spec fn wf(&self) -> bool {
        self.loaded@.no_duplicates()
    }

    /// No font has been loaded.
    pub fn new() -> (r: FontCache)
        ensures
            r.wf(),
            r.loaded@ == Seq::<u64>::empty(),
    {
        FontCache { loaded: Vec::new() }
    }

    /// The place of a font among those that have been loaded, if it is one of them.
    pub fn find(&self, id: u64) -> (r: Option<usize>)
        ensures
            match r {
                Some(i) => i < self.loaded@.len() && self.loaded@[i as int] == id,
                None => !self.loaded@.contains(id),
            },
    {
        let mut i: usize = 0;
        while i < self.loaded.len()
            invariant
                i <= self.loaded.len(),
                forall|j: int| 0 <= j < i ==> self.loaded@[j] != id,
            decreases self.loaded.len() - i,
        {
            if self.loaded[i] == id {
                return Some(i);
            }
            i = i + 1;
        }
        None
    }

    /// Notes that a font has been loaded, and gives its place.
    pub fn add(&mut self, id: u64) -> (r: usize)
        requires
            old(self).wf(),
            !old(self).loaded@.contains(id),
        ensures
            final(self).wf(),
            final(self).loaded@ == old(self).loaded@.push(id),
            r == old(self).loaded@.len(),
    {
        let r: usize = self.loaded.len();
        self.loaded.push(id);
        proof {
            let before = old(self).loaded@;
            let now = self.loaded@;
            assert forall|i: int, j: int| 0 <= i < j < now.len() implies now[i] != now[j] by {
                if j == before.len() {
                    assert(before.contains(before[i]));
                }
            }
        }
        r
    }
}

/// A shadow of a box: whether it falls inside, and its opacity by the bits of
/// a single precision number.
#[derive(Debug, Clone, Copy, PartialEq, Eq, Structural)]
pub struct BoxShadow {
    pub inset: bool,
    pub alpha: u32,
}

/// The border on a side of a box: its width and opacity, by the bits of single
/// precision numbers, and whether its style is one that shows.
#[derive(Debug, Clone, Copy, PartialEq, Eq, Structural)]
pub struct EdgeBorder {
    pub width: u32,
    pub styled: bool,
    pub alpha: u32,
}

/// A box of the document, as far as what is painted of it depends on it.
/// Lengths and opacities are single precision numbers by their bits.
pub struct PaintBox {
    pub id: u64,
    pub width: u32,
    pub height: u32,
    pub radii: BorderRadii,
    /// Whether its outline is one that can be clipped to.
    pub has_outline: bool,
    pub shadows: Vec<BoxShadow>,
    /// The opacity of its background color, if it has one.
    pub background_alpha: Option<u32>,
    /// Its background images: whether each is a gradient that can be painted.
    pub gradients: Vec<bool>,
    pub top: EdgeBorder,
    pub right: EdgeBorder,
    pub bottom: EdgeBorder,
    pub left: EdgeBorder,
    /// Whether it shows text.
    pub text: bool,
    /// Its children, in the order in which they are painted.
    pub children: Vec<PaintBox>,
}

/// Something that is painted.
#[derive(Debug, Clone, Copy, PartialEq, Eq, Structural)]
pub enum PaintOp {
    OutsetShadow { id: u64, index: usize },
    PushClip { id: u64 },
    Background { id: u64 },
    Gradient { id: u64, index: usize },
    InsetShadow { id: u64, index: usize },
    Border { id: u64, edge: Edge },
    Text { id: u64 },
    PopClip { id: u64 },
}

/// The box has an area: neither its width nor its height is zero or less.
pub open spec fn has_area(b: PaintBox) -> bool {
    !single::at_most_zero(b.width) && !single::at_most_zero(b.height)
}

/// A corner of the box has a radius.
pub open spec fn rounded(b: PaintBox) -> bool {
    has_radius(b.radii.top_left) || has_radius(b.radii.top_right) || has_radius(
        b.radii.bottom_right,
    ) || has_radius(b.radii.bottom_left)
}

/// The border on a side is painted: it has a width, a style that shows and some opacity.
pub open spec fn edge_shows(e: EdgeBorder) -> bool {
    !single::at_most_zero(e.width) && e.styled && single::positive(e.alpha)
}

/// Whether the border on a side is painted.
pub fn is_edge_shown(e: EdgeBorder) -> (r: bool)
    ensures
        r == edge_shows(e),
{
    !single::is_at_most_zero(e.width) && e.styled && single::is_positive(e.alpha)
}

/// One thing painted if a condition holds.
pub open spec fn op_if(c: bool, op: PaintOp) -> Seq<PaintOp> {
    if c {
        seq![op]
    } else {
        Seq::empty()
    }
}

/// What is painted for a shadow: nothing for a transparent one; one that falls
/// inside is clipped to the box.
pub open spec fn shadow_op(id: u64, index: int, s: BoxShadow, outline: bool) -> Seq<PaintOp> {
    if single::at_most_zero(s.alpha) {
        Seq::empty()
    } else if s.inset {
        op_if(outline, PaintOp::PushClip { id }) + seq![
            PaintOp::InsetShadow { id, index: index as usize },
            PaintOp::PopClip { id },
        ]
    } else {
        seq![PaintOp::OutsetShadow { id, index: index as usize }]
    }
}

/// What is painted for those of the first `n` shadows that fall inside, or for
/// those that fall outside.
pub open spec fn shadow_ops(
    id: u64,
    shadows: Seq<BoxShadow>,
    n: int,
    inset: bool,
    outline: bool,
) -> Seq<PaintOp>
    decreases n,
{
    if n <= 0 || n > shadows.len() {
        Seq::empty()
    } else {
        let front = shadow_ops(id, shadows, n - 1, inset, outline);
        if shadows[n - 1].inset == inset {
            front + shadow_op(id, n - 1, shadows[n - 1], outline)
        } else {
            front
        }
    }
}

/// The gradients among the first `n` background images that can be painted.
pub open spec fn gradient_ops(id: u64, gradients: Seq<bool>, n: int) -> Seq<PaintOp>
    decreases n,
{
    if n <= 0 || n > gradients.len() {
        Seq::empty()
    } else {
        gradient_ops(id, gradients, n - 1) + op_if(
            gradients[n - 1],
            PaintOp::Gradient { id, index: (n - 1) as usize },
        )
    }
}

/// The sides of the border that are painted, from the top round to the right.
pub open spec fn border_ops(b: PaintBox) -> Seq<PaintOp> {
    op_if(edge_shows(b.top), PaintOp::Border { id: b.id, edge: Edge::Top }) + op_if(
        edge_shows(b.right),
        PaintOp::Border { id: b.id, edge: Edge::Right },
    ) + op_if(edge_shows(b.bottom), PaintOp::Border { id: b.id, edge: Edge::Bottom }) + op_if(
        edge_shows(b.left),
        PaintOp::Border { id: b.id, edge: Edge::Left },
    )
}

/// The background color shows: there is one, with some opacity.
pub open spec fn background_shows(b: PaintBox) -> bool {
    b.background_alpha matches Some(a) && single::positive(a)
}

/// What is painted inside the outline of a box, before its children: its
/// background, its gradients, inner shadows, borders and text.
pub open spec fn inner_ops(b: PaintBox) -> Seq<PaintOp> {
    op_if(background_shows(b), PaintOp::Background { id: b.id }) + gradient_ops(
        b.id,
        b.gradients@,
        b.gradients@.len() as int,
    ) + shadow_ops(b.id, b.shadows@, b.shadows@.len() as int, true, b.has_outline) + border_ops(b)
        + op_if(b.text, PaintOp::Text { id: b.id })
}

/// What is painted of a box itself before its children: outer shadows, then
/// what is inside, clipped to its outline where a corner has a radius.
pub open spec fn own_ops(b: PaintBox) -> Seq<PaintOp> {
    shadow_ops(b.id, b.shadows@, b.shadows@.len() as int, false, b.has_outline) + op_if(
        rounded(b) && b.has_outline,
        PaintOp::PushClip { id: b.id },
    ) + inner_ops(b)
}

/// What is painted of a box: itself, then its children one after another, and
/// the end of its clipping. Of a box without an area only the children are painted.
pub open spec fn plan(b: PaintBox) -> Seq<PaintOp>
    decreases b, 0nat,
{
    if has_area(b) {
        own_ops(b) + children_plan(b.children@) + op_if(rounded(b), PaintOp::PopClip { id: b.id })
    } else {
        children_plan(b.children@)
    }
}

/// What is painted of several boxes, one after another.
pub open spec fn children_plan(v: Seq<PaintBox>) -> Seq<PaintOp>
    decreases v, v.len(),
{
    if v.len() == 0 {
        Seq::empty()
    } else {
        children_plan(v.drop_last()) + plan(v.last())
    }
}

fn push_if(out: &mut Vec<PaintOp>, c: bool, op: PaintOp)
    ensures
        final(out)@ == old(out)@ + op_if(c, op),
{
    if c {
        out.push(op);
    }
    assert(out@ =~= old(out)@ + op_if(c, op));
}

fn push_shadows(
    out: &mut Vec<PaintOp>,
    id: u64,
    shadows: &Vec<BoxShadow>,
    inset: bool,
    outline: bool,
)
    ensures
        final(out)@ == old(out)@ + shadow_ops(id, shadows@, shadows@.len() as int, inset, outline),
{
    let ghost before = out@;
    let mut i: usize = 0;
    assert(out@ =~= before + shadow_ops(id, shadows@, 0, inset, outline));
    while i < shadows.len()
        invariant
            i <= shadows.len(),
            out@ == before + shadow_ops(id, shadows@, i as int, inset, outline),
        decreases shadows.len() - i,
    {
        let s: BoxShadow = shadows[i];
        let ghost now = out@;
        if s.inset == inset {
            if !single::is_at_most_zero(s.alpha) {
                if s.inset {
                    push_if(out, outline, PaintOp::PushClip { id });
                    out.push(PaintOp::InsetShadow { id, index: i });
                    out.push(PaintOp::PopClip { id });
                } else {
                    out.push(PaintOp::OutsetShadow { id, index: i });
                }
            }
            assert(out@ =~= now + shadow_op(id, i as int, s, outline));
        }
        assert(out@ =~= before + shadow_ops(id, shadows@, i + 1, inset, outline));
        i = i + 1;
    }
}

fn push_gradients(out: &mut Vec<PaintOp>, id: u64, gradients: &Vec<bool>)
    ensures
        final(out)@ == old(out)@ + gradient_ops(id, gradients@, gradients@.len() as int),
{
    let ghost before = out@;
    let mut i: usize = 0;
    assert(out@ =~= before + gradient_ops(id, gradients@, 0));
    while i < gradients.len()
        invariant
            i <= gradients.len(),
            out@ == before + gradient_ops(id, gradients@, i as int),
        decreases gradients.len() - i,
    {
        push_if(out, gradients[i], PaintOp::Gradient { id, index: i });
        assert(out@ =~= before + gradient_ops(id, gradients@, i + 1));
        i = i + 1;
    }
}

/// Adds the sides of a box's border that are painted.
pub fn draw_borders(out: &mut Vec<PaintOp>, b: &PaintBox)
    ensures
        final(out)@ == old(out)@ + border_ops(*b),
{
    let ghost start = out@;
    let ghost top = op_if(edge_shows(b.top), PaintOp::Border { id: b.id, edge: Edge::Top });
    let ghost right = op_if(edge_shows(b.right), PaintOp::Border { id: b.id, edge: Edge::Right });
    let ghost bottom = op_if(edge_shows(b.bottom), PaintOp::Border { id: b.id, edge: Edge::Bottom });
    let ghost left = op_if(edge_shows(b.left), PaintOp::Border { id: b.id, edge: Edge::Left });
    push_if(out, is_edge_shown(b.top), PaintOp::Border { id: b.id, edge: Edge::Top });
    push_if(out, is_edge_shown(b.right), PaintOp::Border { id: b.id, edge: Edge::Right });
    push_if(out, is_edge_shown(b.bottom), PaintOp::Border { id: b.id, edge: Edge::Bottom });
    push_if(out, is_edge_shown(b.left), PaintOp::Border { id: b.id, edge: Edge::Left });
    proof {
        lemma_joined(start, top, right);
        lemma_joined(start, top + right, bottom);
        lemma_joined(start, top + right + bottom, left);
    }
}

proof fn lemma_joined(a: Seq<PaintOp>, b: Seq<PaintOp>, c: Seq<PaintOp>)
    ensures
        (a + b) + c == a + (b + c),
{
    assert((a + b) + c =~= a + (b + c));
}

fn push_inner(out: &mut Vec<PaintOp>, b: &PaintBox)
    ensures
        final(out)@ == old(out)@ + inner_ops(*b),
{
    let ghost start = out@;
    let ghost background = op_if(background_shows(*b), PaintOp::Background { id: b.id });
    let ghost gradients = gradient_ops(b.id, b.gradients@, b.gradients@.len() as int);
    let ghost shadows = shadow_ops(b.id, b.shadows@, b.shadows@.len() as int, true, b.has_outline);
    let ghost text = op_if(b.text, PaintOp::Text { id: b.id });
    let shows: bool = match b.background_alpha {
        Some(a) => single::is_positive(a),
        None => false,
    };
    push_if(out, shows, PaintOp::Background { id: b.id });
    push_gradients(out, b.id, &b.gradients);
    push_shadows(out, b.id, &b.shadows, true, b.has_outline);
    draw_borders(out, b);
    push_if(out, b.text, PaintOp::Text { id: b.id });
    proof {
        lemma_joined(start, background, gradients);
        lemma_joined(start, background + gradients, shadows);
        lemma_joined(start, background + gradients + shadows, border_ops(*b));
        lemma_joined(start, background + gradients + shadows + border_ops(*b), text);
    }
}

fn push_own(out: &mut Vec<PaintOp>, b: &PaintBox)
    ensures
        final(out)@ == old(out)@ + own_ops(*b),
{
    let ghost start = out@;
    let ghost shadows = shadow_ops(b.id, b.shadows@, b.shadows@.len() as int, false, b.has_outline);
    let ghost clip = op_if(rounded(*b) && b.has_outline, PaintOp::PushClip { id: b.id });
    push_shadows(out, b.id, &b.shadows, false, b.has_outline);
    push_if(out, b.radii.has_any_radius() && b.has_outline, PaintOp::PushClip { id: b.id });
    push_inner(out, b);
    proof {
        lemma_joined(start, shadows, clip);
        lemma_joined(start, shadows + clip, inner_ops(*b));
    }
}

/// Adds what is painted of a box to what is painted before it.
pub fn render_node(out: &mut Vec<PaintOp>, b: &PaintBox)
    ensures
        final(out)@ == old(out)@ + plan(*b),
    decreases b,
{
    let ghost start = out@;
    let area: bool = !single::is_at_most_zero(b.width) && !single::is_at_most_zero(b.height);
    if area {
        push_own(out, b);
    }
    let ghost before = out@;
    let mut i: usize = 0;
    assert(b.children@.take(0) =~= Seq::empty());
    assert(out@ =~= before + children_plan(b.children@.take(0)));
    while i < b.children.len()
        invariant
            i <= b.children.len(),
            out@ == before + children_plan(b.children@.take(i as int)),
        decreases b.children.len() - i,
    {
        proof {
            assert(decreases_to!(b => b.children));
            assert(decreases_to!(b.children => b.children@));
            assert(decreases_to!(b.children@ => b.children@[i as int]));
            assert(b.children@.take(i + 1).drop_last() =~= b.children@.take(i as int));
        }
        render_node(out, &b.children[i]);
        assert(out@ =~= before + children_plan(b.children@.take(i + 1)));
        i = i + 1;
    }
    assert(b.children@.take(i as int) =~= b.children@);
    if area {
        push_if(out, b.radii.has_any_radius(), PaintOp::PopClip { id: b.id });
    }
    assert(out@ =~= start + plan(*b));
}

/// How many clips are in force after painting, where `depth` were before;
/// nothing where one was ended that had not been begun.
pub open spec fn clips_after(ops: Seq<PaintOp>, depth: nat) -> Option<nat>
    decreases ops.len(),
{
    if ops.len() == 0 {
        Some(depth)
    } else {
        match clips_after(ops.drop_last(), depth) {
            Some(d) => match ops.last() {
                PaintOp::PushClip { .. } => Some(d + 1),
                PaintOp::PopClip { .. } => if d > 0 {
                    Some((d - 1) as nat)
                } else {
                    None
                },
                _ => Some(d),
            },
            None => None,
        }
    }
}

/// Every box that is painted, here and below, has an outline to clip to.
pub open spec fn outlined(b: PaintBox) -> bool
    decreases b,
{
    &&& has_area(b) ==> b.has_outline
    &&& forall|i: int| 0 <= i < b.children@.len() ==> outlined(#[trigger] b.children@[i])
}

/// Painting leaves as many clips in force as there were before.
spec fn nested(ops: Seq<PaintOp>) -> bool {
    forall|d: nat| #[trigger] clips_after(ops, d) == Some(d)
}

proof fn lemma_clips_concat(a: Seq<PaintOp>, b: Seq<PaintOp>, depth: nat)
    ensures
        clips_after(a + b, depth) == match clips_after(a, depth) {
            Some(d) => clips_after(b, d),
            None => None,
        },
    decreases b.len(),
{
    if b.len() == 0 {
        assert(a + b =~= a);
    } else {
        assert((a + b).drop_last() =~= a + b.drop_last());
        lemma_clips_concat(a, b.drop_last(), depth);
    }
}

proof fn lemma_nested_concat(a: Seq<PaintOp>, b: Seq<PaintOp>)
    requires
        nested(a),
        nested(b),
    ensures
        nested(a + b),
{
    assert forall|d: nat| #[trigger] clips_after(a + b, d) == Some(d) by {
        lemma_clips_concat(a, b, d);
    }
}

proof fn lemma_one(op: PaintOp, d: nat)
    ensures
        clips_after(seq![op], d) == match op {
            PaintOp::PushClip { .. } => Some(d + 1),
            PaintOp::PopClip { .. } => if d > 0 {
                Some((d - 1) as nat)
            } else {
                None
            },
            _ => Some(d),
        },
{
    assert(seq![op].drop_last() =~= Seq::empty());
    assert(clips_after(seq![op].drop_last(), d) == Some(d));
}

proof fn lemma_op_if(c: bool, op: PaintOp)
    requires
        !(op is PushClip),
        !(op is PopClip),
    ensures
        nested(op_if(c, op)),
{
    assert forall|d: nat| #[trigger] clips_after(op_if(c, op), d) == Some(d) by {
        if c {
            lemma_one(op, d);
        }
    }
}

proof fn lemma_shadow_nested(id: u64, index: int, s: BoxShadow)
    ensures
        nested(shadow_op(id, index, s, true)),
{
    let ops = shadow_op(id, index, s, true);
    assert forall|d: nat| #[trigger] clips_after(ops, d) == Some(d) by {
        if !single::at_most_zero(s.alpha) {
            if s.inset {
                let a = seq![PaintOp::PushClip { id }];
                let b = seq![PaintOp::InsetShadow { id, index: index as usize }];
                let c = seq![PaintOp::PopClip { id }];
                assert(ops =~= a + b + c);
                lemma_clips_concat(a + b, c, d);
                lemma_clips_concat(a, b, d);
                lemma_one(a[0], d);
                lemma_one(b[0], d + 1);
                lemma_one(c[0], d + 1);
            } else {
                lemma_one(ops[0], d);
                assert(ops =~= seq![ops[0]]);
            }
        }
    }
}

proof fn lemma_shadows_nested(id: u64, shadows: Seq<BoxShadow>, n: int, inset: bool)
    requires
        0 <= n <= shadows.len(),
    ensures
        nested(shadow_ops(id, shadows, n, inset, true)),
    decreases n,
{
    if n > 0 {
        lemma_shadows_nested(id, shadows, n - 1, inset);
        if shadows[n - 1].inset == inset {
            lemma_shadow_nested(id, n - 1, shadows[n - 1]);
            lemma_nested_concat(
                shadow_ops(id, shadows, n - 1, inset, true),
                shadow_op(id, n - 1, shadows[n - 1], true),
            );
        }
    }
}

proof fn lemma_gradients_nested(id: u64, gradients: Seq<bool>, n: int)
    requires
        0 <= n <= gradients.len(),
    ensures
        nested(gradient_ops(id, gradients, n)),
    decreases n,
{
    if n > 0 {
        let op = PaintOp::Gradient { id, index: (n - 1) as usize };
        lemma_gradients_nested(id, gradients, n - 1);
        lemma_op_if(gradients[n - 1], op);
        lemma_nested_concat(gradient_ops(id, gradients, n - 1), op_if(gradients[n - 1], op));
    }
}

proof fn lemma_inner_nested(b: PaintBox)
    requires
        b.has_outline,
    ensures
        nested(inner_ops(b)),
{
    let background = op_if(background_shows(b), PaintOp::Background { id: b.id });
    let gradients = gradient_ops(b.id, b.gradients@, b.gradients@.len() as int);
    let shadows = shadow_ops(b.id, b.shadows@, b.shadows@.len() as int, true, true);
    let top = op_if(edge_shows(b.top), PaintOp::Border { id: b.id, edge: Edge::Top });
    let right = op_if(edge_shows(b.right), PaintOp::Border { id: b.id, edge: Edge::Right });
    let bottom = op_if(edge_shows(b.bottom), PaintOp::Border { id: b.id, edge: Edge::Bottom });
    let left = op_if(edge_shows(b.left), PaintOp::Border { id: b.id, edge: Edge::Left });
    let text = op_if(b.text, PaintOp::Text { id: b.id });
    lemma_op_if(background_shows(b), PaintOp::Background { id: b.id });
    lemma_gradients_nested(b.id, b.gradients@, b.gradients@.len() as int);
    lemma_shadows_nested(b.id, b.shadows@, b.shadows@.len() as int, true);
    lemma_op_if(edge_shows(b.top), PaintOp::Border { id: b.id, edge: Edge::Top });
    lemma_op_if(edge_shows(b.right), PaintOp::Border { id: b.id, edge: Edge::Right });
    lemma_op_if(edge_shows(b.bottom), PaintOp::Border { id: b.id, edge: Edge::Bottom });
    lemma_op_if(edge_shows(b.left), PaintOp::Border { id: b.id, edge: Edge::Left });
    lemma_op_if(b.text, PaintOp::Text { id: b.id });
    lemma_nested_concat(top, right);
    lemma_nested_concat(top + right, bottom);
    lemma_nested_concat(top + right + bottom, left);
    lemma_nested_concat(background, gradients);
    lemma_nested_concat(background + gradients, shadows);
    lemma_nested_concat(background + gradients + shadows, border_ops(b));
    lemma_nested_concat(background + gradients + shadows + border_ops(b), text);
}

proof fn lemma_own_clips(b: PaintBox, depth: nat)
    requires
        b.has_outline,
    ensures
        clips_after(own_ops(b), depth) == Some(
            if rounded(b) {
                depth + 1
            } else {
                depth
            },
        ),
{
    let outer = shadow_ops(b.id, b.shadows@, b.shadows@.len() as int, false, true);
    let clip = op_if(rounded(b), PaintOp::PushClip { id: b.id });
    let d: nat = if rounded(b) {
        depth + 1
    } else {
        depth
    };
    lemma_shadows_nested(b.id, b.shadows@, b.shadows@.len() as int, false);
    lemma_inner_nested(b);
    lemma_clips_concat(outer + clip, inner_ops(b), depth);
    lemma_clips_concat(outer, clip, depth);
    assert(clips_after(outer, depth) == Some(depth));
    if rounded(b) {
        lemma_one(PaintOp::PushClip { id: b.id }, depth);
    }
    assert(clips_after(clip, depth) == Some(d));
    assert(clips_after(inner_ops(b), d) == Some(d));
}

/// Clipping is nested: painting a box ends every clip that it begins, and no
/// other, where every box that is painted has an outline to clip to.
pub proof fn lemma_clips_nest(b: PaintBox, depth: nat)
    requires
        outlined(b),
    ensures
        clips_after(plan(b), depth) == Some(depth),
    decreases b, 0nat,
{
    if has_area(b) {
        lemma_own_clips(b, depth);
        let d: nat = if rounded(b) {
            depth + 1
        } else {
            depth
        };
        lemma_children_clips(b.children@, d);
        let pop = op_if(rounded(b), PaintOp::PopClip { id: b.id });
        lemma_clips_concat(own_ops(b) + children_plan(b.children@), pop, depth);
        lemma_clips_concat(own_ops(b), children_plan(b.children@), depth);
        if rounded(b) {
            lemma_one(PaintOp::PopClip { id: b.id }, d);
        }
        assert(clips_after(pop, d) == Some(depth));
    } else {
        lemma_children_clips(b.children@, depth);
    }
}

proof fn lemma_children_clips(v: Seq<PaintBox>, depth: nat)
    requires
        forall|i: int| 0 <= i < v.len() ==> outlined(#[trigger] v[i]),
    ensures
        clips_after(children_plan(v), depth) == Some(depth),
    decreases v, v.len(),
{
    if v.len() > 0 {
        let front = v.drop_last();
        assert forall|i: int| 0 <= i < front.len() implies outlined(#[trigger] front[i]) by {
            assert(front[i] == v[i]);
        }
        lemma_children_clips(front, depth);
        assert(outlined(v[v.len() - 1]));
        lemma_clips_nest(v.last(), depth);
        lemma_clips_concat(children_plan(front), plan(v.last()), depth);
    }
}

/// Something that is painted, and not the beginning or end of a clip.
pub open spec fn paints(op: PaintOp) -> bool {
    !(op is PushClip) && !(op is PopClip)
}

/// The box that something is painted for.
pub open spec fn painted_for(op: PaintOp) -> u64 {
    match op {
        PaintOp::OutsetShadow { id, .. } => id,
        PaintOp::PushClip { id } => id,
        PaintOp::Background { id } => id,
        PaintOp::Gradient { id, .. } => id,
        PaintOp::InsetShadow { id, .. } => id,
        PaintOp::Border { id, .. } => id,
        PaintOp::Text { id } => id,
        PaintOp::PopClip { id } => id,
    }
}

/// The layer of a box that something is painted in: those with a lower number
/// lie beneath those with a higher one.
pub open spec fn layer(op: PaintOp) -> int {
    match op {
        PaintOp::OutsetShadow { .. } => 0,
        PaintOp::Background { .. } => 1,
        PaintOp::Gradient { .. } => 2,
        PaintOp::InsetShadow { .. } => 3,
        PaintOp::Border { .. } => 4,
        PaintOp::Text { .. } => 5,
        _ => -1,
    }
}

/// The place of something in its layer.
pub open spec fn place(op: PaintOp) -> int {
    match op {
        PaintOp::OutsetShadow { index, .. } => index as int,
        PaintOp::Gradient { index, .. } => index as int,
        PaintOp::InsetShadow { index, .. } => index as int,
        PaintOp::Border { edge, .. } => match edge {
            Edge::Top => 0,
            Edge::Right => 1,
            Edge::Bottom => 2,
            Edge::Left => 3,
        },
        _ => 0,
    }
}

/// What is painted comes layer by layer, and in each layer place by place.
pub open spec fn in_layers(ops: Seq<PaintOp>) -> bool {
    forall|i: int, j: int|
        0 <= i < j < ops.len() && paints(#[trigger] ops[i]) && paints(#[trigger] ops[j]) ==> layer(
            ops[i],
        ) < layer(ops[j]) || (layer(ops[i]) == layer(ops[j]) && place(ops[i]) < place(ops[j]))
}

/// What is painted lies in the layers from `lo` to `hi`.
spec fn within(ops: Seq<PaintOp>, lo: int, hi: int) -> bool {
    forall|i: int| 0 <= i < ops.len() && paints(#[trigger] ops[i]) ==> lo <= layer(ops[i]) <= hi
}

/// All is painted for one box.
spec fn all_for(ops: Seq<PaintOp>, id: u64) -> bool {
    forall|i: int| 0 <= i < ops.len() ==> painted_for(#[trigger] ops[i]) == id
}

proof fn lemma_stacked(a: Seq<PaintOp>, b: Seq<PaintOp>, lo: int, m: int, hi: int, id: u64)
    requires
        in_layers(a),
        in_layers(b),
        within(a, lo, m),
        within(b, m + 1, hi),
        lo <= m + 1 <= hi + 1,
        all_for(a, id),
        all_for(b, id),
    ensures
        in_layers(a + b),
        within(a + b, lo, hi),
        all_for(a + b, id),
{
    let s = a + b;
    let n = a.len() as int;
    assert forall|i: int| 0 <= i < s.len() implies painted_for(#[trigger] s[i]) == id && (paints(s[i])
        ==> lo <= layer(s[i]) <= hi) by {
        if i < n {
            assert(s[i] == a[i]);
        } else {
            assert(s[i] == b[i - n]);
        }
    }
    assert forall|i: int, j: int|
        0 <= i < j < s.len() && paints(#[trigger] s[i]) && paints(#[trigger] s[j]) implies layer(s[i])
        < layer(s[j]) || (layer(s[i]) == layer(s[j]) && place(s[i]) < place(s[j])) by {
        if j < n {
            assert(s[i] == a[i] && s[j] == a[j]);
        } else if i >= n {
            assert(s[i] == b[i - n] && s[j] == b[j - n]);
        } else {
            assert(s[i] == a[i] && s[j] == b[j - n]);
        }
    }
}

proof fn lemma_one_layer(c: bool, op: PaintOp)
    ensures
        in_layers(op_if(c, op)),
        within(op_if(c, op), layer(op), layer(op)),
        all_for(op_if(c, op), painted_for(op)),
{
}

proof fn lemma_in_either(a: Seq<PaintOp>, b: Seq<PaintOp>, op: PaintOp)
    ensures
        (a + b).contains(op) <==> a.contains(op) || b.contains(op),
{
    let s = a + b;
    if a.contains(op) {
        let i = a.index_of(op);
        assert(s[i] == op);
    }
    if b.contains(op) {
        let i = b.index_of(op);
        assert(s[a.len() + i] == op);
    }
    if s.contains(op) {
        let i = s.index_of(op);
        if i < a.len() {
            assert(a[i] == op);
        } else {
            assert(b[i - a.len()] == op);
        }
    }
}

proof fn lemma_in_op_if(c: bool, op: PaintOp, x: PaintOp)
    ensures
        op_if(c, op).contains(x) <==> c && x == op,
{
    if c {
        assert(seq![op][0] == op);
    }
}

proof fn lemma_shadow_layers(
    id: u64,
    shadows: Seq<BoxShadow>,
    n: int,
    inset: bool,
    outline: bool,
    op: PaintOp,
)
    requires
        0 <= n <= shadows.len() <= usize::MAX,
        paints(op),
    ensures
        ({
            let ops = shadow_ops(id, shadows, n, inset, outline);
            let l: int = if inset {
                3
            } else {
                0
            };
            &&& in_layers(ops)
            &&& within(ops, l, l)
            &&& all_for(ops, id)
            &&& forall|i: int| 0 <= i < ops.len() && paints(#[trigger] ops[i]) ==> place(ops[i]) < n
            &&& ops.contains(op) <==> match op {
                PaintOp::OutsetShadow { id: o, index } => !inset && o == id && index < n
                    && !shadows[index as int].inset && !single::at_most_zero(
                    shadows[index as int].alpha,
                ),
                PaintOp::InsetShadow { id: o, index } => inset && o == id && index < n
                    && shadows[index as int].inset && !single::at_most_zero(
                    shadows[index as int].alpha,
                ),
                _ => false,
            }
        }),
    decreases n,
{
    if n > 0 {
        lemma_shadow_layers(id, shadows, n - 1, inset, outline, op);
        let front = shadow_ops(id, shadows, n - 1, inset, outline);
        let s = shadows[n - 1];
        if s.inset == inset {
            let own = shadow_op(id, n - 1, s, outline);
            lemma_in_either(front, own, op);
            if !single::at_most_zero(s.alpha) {
                if s.inset {
                    let shadow = PaintOp::InsetShadow { id, index: (n - 1) as usize };
                    let clip = op_if(outline, PaintOp::PushClip { id });
                    let rest = seq![shadow, PaintOp::PopClip { id }];
                    lemma_in_either(clip, rest, op);
                    lemma_in_op_if(outline, PaintOp::PushClip { id }, op);
                    assert(rest[0] == shadow);
                    assert(rest.contains(op) <==> op == shadow);
                    assert forall|i: int| 0 <= i < own.len() && paints(#[trigger] own[i]) implies own[i]
                        == shadow by {
                        if i >= clip.len() {
                            assert(own[i] == rest[i - clip.len()]);
                        }
                    }
                    assert forall|i: int, j: int|
                        0 <= i < j < own.len() && paints(#[trigger] own[i]) implies !paints(
                        #[trigger] own[j],
                    ) by {
                        if i >= clip.len() {
                            assert(own[i] == rest[i - clip.len()]);
                            assert(own[j] == rest[j - clip.len()]);
                        }
                    }
                    assert(all_for(own, id));
                } else {
                    let shadow = PaintOp::OutsetShadow { id, index: (n - 1) as usize };
                    assert(own[0] == shadow);
                    assert(own.contains(op) <==> op == shadow);
                }
            }
            let all = front + own;
            assert forall|i: int| 0 <= i < all.len() implies painted_for(#[trigger] all[i]) == id by {
                if i >= front.len() {
                    assert(all[i] == own[i - front.len()]);
                }
            }
            assert forall|i: int, j: int|
                0 <= i < j < all.len() && paints(#[trigger] all[i]) && paints(
                    #[trigger] all[j],
                ) implies layer(all[i]) < layer(all[j]) || (layer(all[i]) == layer(all[j]) && place(
                all[i],
            ) < place(all[j])) by {
                if j < front.len() {
                    assert(all[i] == front[i] && all[j] == front[j]);
                } else if i >= front.len() {
                    assert(all[i] == own[i - front.len()] && all[j] == own[j - front.len()]);
                } else {
                    assert(all[i] == front[i] && all[j] == own[j - front.len()]);
                }
            }
            assert forall|i: int| 0 <= i < all.len() && paints(#[trigger] all[i]) implies place(all[i])
                < n && layer(all[i]) == (if inset {
                3int
            } else {
                0int
            }) by {
                if i < front.len() {
                    assert(all[i] == front[i]);
                } else {
                    assert(all[i] == own[i - front.len()]);
                }
            }
        }
    }
}

proof fn lemma_gradient_layers(id: u64, gradients: Seq<bool>, n: int, op: PaintOp)
    requires
        0 <= n <= gradients.len() <= usize::MAX,
    ensures
        ({
            let ops = gradient_ops(id, gradients, n);
            &&& in_layers(ops)
            &&& within(ops, 2, 2)
            &&& all_for(ops, id)
            &&& forall|i: int| 0 <= i < ops.len() ==> place(#[trigger] ops[i]) < n
            &&& ops.contains(op) <==> (op matches PaintOp::Gradient { id: o, index } && o == id
                && index < n && gradients[index as int])
        }),
    decreases n,
{
    if n > 0 {
        lemma_gradient_layers(id, gradients, n - 1, op);
        let front = gradient_ops(id, gradients, n - 1);
        let last = PaintOp::Gradient { id, index: (n - 1) as usize };
        let own = op_if(gradients[n - 1], last);
        lemma_in_either(front, own, op);
        lemma_in_op_if(gradients[n - 1], last, op);
        let all = front + own;
        assert forall|i: int| 0 <= i < all.len() implies painted_for(#[trigger] all[i]) == id
            && layer(all[i]) == 2 && place(all[i]) < n by {
            if i < front.len() {
                assert(all[i] == front[i]);
                assert(place(front[i]) < n - 1);
                assert(front.contains(front[i]));
                lemma_gradient_layers(id, gradients, n - 1, front[i]);
            } else {
                assert(all[i] == own[i - front.len()]);
            }
        }
        assert forall|i: int, j: int|
            0 <= i < j < all.len() && paints(#[trigger] all[i]) && paints(#[trigger] all[j]) implies layer(
            all[i],
        ) < layer(all[j]) || (layer(all[i]) == layer(all[j]) && place(all[i]) < place(all[j])) by {
            if j < front.len() {
                assert(all[i] == front[i] && all[j] == front[j]);
            } else {
                assert(all[i] == front[i] && all[j] == own[j - front.len()]);
                assert(place(front[i]) < n - 1);
            }
        }
    }
}

proof fn lemma_border_layers(b: PaintBox, op: PaintOp)
    ensures
        in_layers(border_ops(b)),
        within(border_ops(b), 4, 4),
        all_for(border_ops(b), b.id),
        border_ops(b).contains(op) <==> (op matches PaintOp::Border { id, edge } && id == b.id
            && edge_shows(
            match edge {
                Edge::Top => b.top,
                Edge::Right => b.right,
                Edge::Bottom => b.bottom,
                Edge::Left => b.left,
            },
        )),
{
    let top = PaintOp::Border { id: b.id, edge: Edge::Top };
    let right = PaintOp::Border { id: b.id, edge: Edge::Right };
    let bottom = PaintOp::Border { id: b.id, edge: Edge::Bottom };
    let left = PaintOp::Border { id: b.id, edge: Edge::Left };
    let t = op_if(edge_shows(b.top), top);
    let r = op_if(edge_shows(b.right), right);
    let o = op_if(edge_shows(b.bottom), bottom);
    let l = op_if(edge_shows(b.left), left);
    lemma_in_op_if(edge_shows(b.top), top, op);
    lemma_in_op_if(edge_shows(b.right), right, op);
    lemma_in_op_if(edge_shows(b.bottom), bottom, op);
    lemma_in_op_if(edge_shows(b.left), left, op);
    lemma_in_either(t, r, op);
    lemma_in_either(t + r, o, op);
    lemma_in_either(t + r + o, l, op);
}

proof fn lemma_own_layers(b: PaintBox, op: PaintOp)
    requires
        paints(op),
    ensures
        in_layers(own_ops(b)),
        all_for(own_ops(b), b.id),
        own_ops(b).contains(op) <==> painted_for(op) == b.id && match op {
            PaintOp::OutsetShadow { index, .. } => index < b.shadows@.len()
                && !b.shadows@[index as int].inset && !single::at_most_zero(
                b.shadows@[index as int].alpha,
            ),
            PaintOp::Background { .. } => b.background_alpha matches Some(a) && single::positive(a),
            PaintOp::Gradient { index, .. } => index < b.gradients@.len()
                && b.gradients@[index as int],
            PaintOp::InsetShadow { index, .. } => index < b.shadows@.len()
                && b.shadows@[index as int].inset && !single::at_most_zero(
                b.shadows@[index as int].alpha,
            ),
            PaintOp::Border { edge, .. } => edge_shows(
                match edge {
                    Edge::Top => b.top,
                    Edge::Right => b.right,
                    Edge::Bottom => b.bottom,
                    Edge::Left => b.left,
                },
            ),
            PaintOp::Text { .. } => b.text,
            _ => false,
        },
{
    let id = b.id;
    let ns = b.shadows.len();
    let ng = b.gradients.len();
    assert(b.shadows@.len() == ns && b.gradients@.len() == ng);
    let outer = shadow_ops(id, b.shadows@, b.shadows@.len() as int, false, b.has_outline);
    let clip = op_if(rounded(b) && b.has_outline, PaintOp::PushClip { id });
    let back = op_if(background_shows(b), PaintOp::Background { id });
    let grads = gradient_ops(id, b.gradients@, b.gradients@.len() as int);
    let inner = shadow_ops(id, b.shadows@, b.shadows@.len() as int, true, b.has_outline);
    let borders = border_ops(b);
    let text = op_if(b.text, PaintOp::Text { id });
    lemma_shadow_layers(id, b.shadows@, b.shadows@.len() as int, false, b.has_outline, op);
    lemma_shadow_layers(id, b.shadows@, b.shadows@.len() as int, true, b.has_outline, op);
    lemma_gradient_layers(id, b.gradients@, b.gradients@.len() as int, op);
    lemma_border_layers(b, op);
    lemma_one_layer(background_shows(b), PaintOp::Background { id });
    lemma_one_layer(b.text, PaintOp::Text { id });
    lemma_one_layer(rounded(b) && b.has_outline, PaintOp::PushClip { id });
    assert(within(clip, 1, 0));
    lemma_stacked(back, grads, 1, 1, 2, id);
    lemma_stacked(back + grads, inner, 1, 2, 3, id);
    lemma_stacked(back + grads + inner, borders, 1, 3, 4, id);
    lemma_stacked(back + grads + inner + borders, text, 1, 4, 5, id);
    lemma_stacked(outer, clip, 0, 0, 0, id);
    lemma_stacked(outer + clip, inner_ops(b), 0, 0, 5, id);
    lemma_in_op_if(background_shows(b), PaintOp::Background { id }, op);
    lemma_in_op_if(b.text, PaintOp::Text { id }, op);
    lemma_in_op_if(rounded(b) && b.has_outline, PaintOp::PushClip { id }, op);
    lemma_in_either(back, grads, op);
    lemma_in_either(back + grads, inner, op);
    lemma_in_either(back + grads + inner, borders, op);
    lemma_in_either(back + grads + inner + borders, text, op);
    lemma_in_either(outer, clip, op);
    lemma_in_either(outer + clip, inner_ops(b), op);
}

/// The border on a side is painted exactly if the border of that very side has
/// a width, a style that shows and some opacity.
pub proof fn lemma_border_painted(b: PaintBox, e: Edge)
    ensures
        own_ops(b).contains(PaintOp::Border { id: b.id, edge: e }) <==> {
            let own = match e {
                Edge::Top => b.top,
                Edge::Right => b.right,
                Edge::Bottom => b.bottom,
                Edge::Left => b.left,
            };
            !single::at_most_zero(own.width) && own.styled && single::positive(own.alpha)
        },
        border_ops(b).contains(PaintOp::Border { id: b.id, edge: e }) <==> own_ops(b).contains(
            PaintOp::Border { id: b.id, edge: e },
        ),
{
    lemma_own_layers(b, PaintOp::Border { id: b.id, edge: e });
    lemma_border_layers(b, PaintOp::Border { id: b.id, edge: e });
}

/// A shadow is painted exactly if it is not transparent: one that falls inside
/// as such, any other as one that falls outside.
pub proof fn lemma_shadow_painted(b: PaintBox, index: usize)
    requires
        index < b.shadows@.len(),
    ensures
        own_ops(b).contains(PaintOp::InsetShadow { id: b.id, index })
            <==> b.shadows@[index as int].inset && !single::at_most_zero(
            b.shadows@[index as int].alpha,
        ),
        own_ops(b).contains(PaintOp::OutsetShadow { id: b.id, index })
            <==> !b.shadows@[index as int].inset && !single::at_most_zero(
            b.shadows@[index as int].alpha,
        ),
{
    lemma_own_layers(b, PaintOp::InsetShadow { id: b.id, index });
    lemma_own_layers(b, PaintOp::OutsetShadow { id: b.id, index });
}

/// Of the background images those are painted that are gradients that can be,
/// the background color where it has some opacity, and the text where there is some.
pub proof fn lemma_content_painted(b: PaintBox, index: usize)
    ensures
        own_ops(b).contains(PaintOp::Gradient { id: b.id, index }) <==> index < b.gradients@.len()
            && b.gradients@[index as int],
        own_ops(b).contains(PaintOp::Background { id: b.id }) <==> (b.background_alpha is Some
            && single::positive(b.background_alpha->0)),
        own_ops(b).contains(PaintOp::Text { id: b.id }) <==> b.text,
{
    lemma_own_layers(b, PaintOp::Gradient { id: b.id, index });
    lemma_own_layers(b, PaintOp::Background { id: b.id });
    lemma_own_layers(b, PaintOp::Text { id: b.id });
}

/// What is painted of a box itself lies in layers: outer shadows beneath the
/// background, that beneath the gradients, those beneath the inner shadows,
/// those beneath the borders, those beneath the text. In each layer it comes in
/// order, nothing twice, and nothing is painted for another box.
pub proof fn lemma_paint_order(b: PaintBox)
    ensures
        forall|i: int, j: int|
            #![trigger own_ops(b)[i], own_ops(b)[j]]
            0 <= i < j < own_ops(b).len() && paints(own_ops(b)[i]) && paints(own_ops(b)[j]) ==> {
                let (x, y) = (own_ops(b)[i], own_ops(b)[j]);
                layer(x) < layer(y) || (layer(x) == layer(y) && place(x) < place(y))
            },
        forall|i: int| 0 <= i < own_ops(b).len() ==> painted_for(#[trigger] own_ops(b)[i]) == b.id,
{
    lemma_own_layers(b, PaintOp::Text { id: b.id });
}

/// Where a child stands in what is painted of several boxes.
spec fn child_start(v: Seq<PaintBox>, i: int) -> int {
    children_plan(v.take(i)).len() as int
}

proof fn lemma_child_place(v: Seq<PaintBox>, i: int)
    requires
        0 <= i < v.len(),
    ensures
        0 <= child_start(v, i),
        child_start(v, i) + plan(v[i]).len() == child_start(v, i + 1),
        child_start(v, i + 1) <= children_plan(v).len(),
        children_plan(v).subrange(child_start(v, i), child_start(v, i + 1)) == plan(v[i]),
    decreases v.len(),
{
    let front = v.drop_last();
    assert(v.take(i + 1).drop_last() =~= v.take(i));
    assert(children_plan(v.take(i + 1)) == children_plan(v.take(i)) + plan(v[i]));
    if i == v.len() - 1 {
        assert(v.take(i + 1) =~= v);
        assert(children_plan(v).subrange(child_start(v, i), child_start(v, i + 1)) =~= plan(v[i]));
    } else {
        lemma_child_place(front, i);
        assert(front.take(i) =~= v.take(i));
        assert(front.take(i + 1) =~= v.take(i + 1));
        assert(front[i] == v[i]);
        assert(children_plan(v).subrange(child_start(v, i), child_start(v, i + 1))
            =~= children_plan(front).subrange(child_start(front, i), child_start(front, i + 1)));
    }
}

proof fn lemma_child_starts(v: Seq<PaintBox>, i: int, j: int)
    requires
        0 <= i < j < v.len(),
    ensures
        child_start(v, i) + plan(v[i]).len() <= child_start(v, j),
    decreases j - i,
{
    lemma_child_place(v, i);
    if i + 1 < j {
        lemma_child_starts(v, i + 1, j);
    }
}

/// All of a child is painted in one go, in the order of the children, behind
/// what is painted of the box itself.
pub proof fn lemma_children_painted(b: PaintBox, i: int, j: int)
    requires
        0 <= i < j < b.children@.len(),
        !single::at_most_zero(b.width),
        !single::at_most_zero(b.height),
    ensures
        own_ops(b).is_prefix_of(plan(b)),
        exists|p: int, q: int|
            {
                &&& own_ops(b).len() <= p
                &&& p + plan(b.children@[i]).len() <= q
                &&& q + plan(b.children@[j]).len() <= plan(b).len()
                &&& #[trigger] plan(b).subrange(p, p + plan(b.children@[i]).len()) == plan(
                    b.children@[i],
                )
                &&& #[trigger] plan(b).subrange(q, q + plan(b.children@[j]).len()) == plan(
                    b.children@[j],
                )
            },
{
    let v = b.children@;
    let n = own_ops(b).len() as int;
    let all = children_plan(v);
    lemma_child_place(v, i);
    lemma_child_place(v, j);
    lemma_child_starts(v, i, j);
    let p = n + child_start(v, i);
    let q = n + child_start(v, j);
    assert(plan(b).subrange(p, p + plan(v[i]).len()) =~= all.subrange(
        child_start(v, i),
        child_start(v, i + 1),
    ));
    assert(plan(b).subrange(q, q + plan(v[j]).len()) =~= all.subrange(
        child_start(v, j),
        child_start(v, j + 1),
    ));
    assert(plan(b).take(n) =~= own_ops(b));
}

/// A box without an area shows nothing of itself: what is painted of it is what
/// is painted of its children, whatever else it has, and nothing where it has none.
pub proof fn lemma_no_area(b: PaintBox, c: PaintBox)
    requires
        single::at_most_zero(b.width) || single::at_most_zero(b.height),
        single::at_most_zero(c.width) || single::at_most_zero(c.height),
        b.children@ == c.children@,
    ensures
        plan(b) == plan(c),
        b.children@.len() == 0 ==> plan(b).len() == 0,
        b.children@.len() == 1 ==> plan(b) == plan(b.children@[0]),
{
    if b.children@.len() == 1 {
        lemma_child_place(b.children@, 0);
        assert(b.children@.take(0) =~= Seq::empty());
        assert(b.children@.take(1) =~= b.children@);
        assert(children_plan(b.children@).subrange(0, plan(b.children@[0]).len() as int)
            =~= children_plan(b.children@));
    }
}

/// A box with a round corner clips its children to its outline and ends the
/// clip behind them; a box without one adds no clip.
pub proof fn lemma_clip_around(b: PaintBox)
    requires
        !single::at_most_zero(b.width),
        !single::at_most_zero(b.height),
        b.has_outline,
        forall|i: int| 0 <= i < b.children@.len() ==> outlined(#[trigger] b.children@[i]),
    ensures
        ({
            let round = single::nonzero(b.radii.top_left.0) || single::nonzero(b.radii.top_left.1)
                || single::nonzero(b.radii.top_right.0) || single::nonzero(b.radii.top_right.1)
                || single::nonzero(b.radii.bottom_right.0) || single::nonzero(
                b.radii.bottom_right.1,
            ) || single::nonzero(b.radii.bottom_left.0) || single::nonzero(b.radii.bottom_left.1);
            let n = own_ops(b).len() as int;
            let m = n + children_plan(b.children@).len();
            let inside: nat = if round {
                1
            } else {
                0
            };
            &&& clips_after(plan(b).take(n), 0) == Some(inside)
            &&& clips_after(plan(b).take(m), 0) == Some(inside)
            &&& clips_after(plan(b), 0) == Some(0nat)
        }),
{
    let n = own_ops(b).len() as int;
    let m = n + children_plan(b.children@).len();
    assert(plan(b).take(n) =~= own_ops(b));
    assert(plan(b).take(m) =~= own_ops(b) + children_plan(b.children@));
    lemma_own_clips(b, 0);
    lemma_clips_concat(own_ops(b), children_plan(b.children@), 0);
    let d: nat = if rounded(b) {
        1
    } else {
        0
    };
    lemma_children_clips(b.children@, d);
    assert(outlined(b));
    lemma_clips_nest(b, 0);
}

/// Whether something is clipped by itself: a shadow that falls inside is.
spec fn own_clip(op: PaintOp) -> nat {
    if op is InsetShadow {
        1
    } else {
        0
    }
}

/// Painting ends every clip that it begins, and has no clip in force of its own
/// but round each shadow that falls inside.
spec fn well_clipped(ops: Seq<PaintOp>) -> bool {
    &&& nested(ops)
    &&& forall|k: int, d: nat|
        0 <= k < ops.len() && paints(ops[k]) ==> #[trigger] clips_after(ops.take(k), d) == Some(
            d + own_clip(ops[k]),
        )
}

proof fn lemma_well_clipped_concat(a: Seq<PaintOp>, b: Seq<PaintOp>)
    requires
        well_clipped(a),
        well_clipped(b),
    ensures
        well_clipped(a + b),
{
    let s = a + b;
    lemma_nested_concat(a, b);
    assert forall|k: int, d: nat| 0 <= k < s.len() && paints(s[k]) implies #[trigger] clips_after(
        s.take(k),
        d,
    ) == Some(d + own_clip(s[k])) by {
        if k < a.len() {
            assert(s.take(k) =~= a.take(k));
            assert(s[k] == a[k]);
        } else {
            let j = k - a.len();
            assert(s.take(k) =~= a + b.take(j));
            assert(s[k] == b[j]);
            lemma_clips_concat(a, b.take(j), d);
            assert(clips_after(a, d) == Some(d));
            assert(clips_after(b.take(j), d) == Some(d + own_clip(b[j])));
        }
    }
}

proof fn lemma_one_well_clipped(c: bool, op: PaintOp)
    requires
        paints(op),
        !(op is InsetShadow),
    ensures
        well_clipped(op_if(c, op)),
{
    lemma_op_if(c, op);
    let ops = op_if(c, op);
    assert forall|k: int, d: nat| 0 <= k < ops.len() && paints(ops[k]) implies #[trigger] clips_after(
        ops.take(k),
        d,
    ) == Some(d + own_clip(ops[k])) by {
        assert(ops.take(k) =~= Seq::empty());
    }
}

proof fn lemma_shadow_well_clipped(id: u64, index: int, s: BoxShadow)
    ensures
        well_clipped(shadow_op(id, index, s, true)),
{
    let ops = shadow_op(id, index, s, true);
    lemma_shadow_nested(id, index, s);
    assert forall|k: int, d: nat| 0 <= k < ops.len() && paints(ops[k]) implies #[trigger] clips_after(
        ops.take(k),
        d,
    ) == Some(d + own_clip(ops[k])) by {
        if s.inset {
            assert(ops[0] == PaintOp::PushClip { id });
            assert(ops[2] == PaintOp::PopClip { id });
            assert(k == 1);
            assert(ops.take(1) =~= seq![PaintOp::PushClip { id }]);
            lemma_one(PaintOp::PushClip { id }, d);
        } else {
            assert(ops.take(k) =~= Seq::empty());
        }
    }
}

proof fn lemma_shadows_well_clipped(id: u64, shadows: Seq<BoxShadow>, n: int, inset: bool)
    requires
        0 <= n <= shadows.len(),
    ensures
        well_clipped(shadow_ops(id, shadows, n, inset, true)),
    decreases n,
{
    if n > 0 {
        lemma_shadows_well_clipped(id, shadows, n - 1, inset);
        if shadows[n - 1].inset == inset {
            lemma_shadow_well_clipped(id, n - 1, shadows[n - 1]);
            lemma_well_clipped_concat(
                shadow_ops(id, shadows, n - 1, inset, true),
                shadow_op(id, n - 1, shadows[n - 1], true),
            );
        }
    }
}

proof fn lemma_gradients_well_clipped(id: u64, gradients: Seq<bool>, n: int)
    requires
        0 <= n <= gradients.len(),
    ensures
        well_clipped(gradient_ops(id, gradients, n)),
    decreases n,
{
    if n > 0 {
        let op = PaintOp::Gradient { id, index: (n - 1) as usize };
        lemma_gradients_well_clipped(id, gradients, n - 1);
        lemma_one_well_clipped(gradients[n - 1], op);
        lemma_well_clipped_concat(gradient_ops(id, gradients, n - 1), op_if(gradients[n - 1], op));
    }
}

proof fn lemma_inner_well_clipped(b: PaintBox)
    requires
        b.has_outline,
    ensures
        well_clipped(inner_ops(b)),
{
    let id = b.id;
    let top = op_if(edge_shows(b.top), PaintOp::Border { id, edge: Edge::Top });
    let right = op_if(edge_shows(b.right), PaintOp::Border { id, edge: Edge::Right });
    let bottom = op_if(edge_shows(b.bottom), PaintOp::Border { id, edge: Edge::Bottom });
    let left = op_if(edge_shows(b.left), PaintOp::Border { id, edge: Edge::Left });
    lemma_one_well_clipped(edge_shows(b.top), PaintOp::Border { id, edge: Edge::Top });
    lemma_one_well_clipped(edge_shows(b.right), PaintOp::Border { id, edge: Edge::Right });
    lemma_one_well_clipped(edge_shows(b.bottom), PaintOp::Border { id, edge: Edge::Bottom });
    lemma_one_well_clipped(edge_shows(b.left), PaintOp::Border { id, edge: Edge::Left });
    lemma_well_clipped_concat(top, right);
    lemma_well_clipped_concat(top + right, bottom);
    lemma_well_clipped_concat(top + right + bottom, left);
    let back = op_if(background_shows(b), PaintOp::Background { id });
    let grads = gradient_ops(id, b.gradients@, b.gradients@.len() as int);
    let inner = shadow_ops(id, b.shadows@, b.shadows@.len() as int, true, true);
    let text = op_if(b.text, PaintOp::Text { id });
    lemma_one_well_clipped(background_shows(b), PaintOp::Background { id });
    lemma_one_well_clipped(b.text, PaintOp::Text { id });
    lemma_gradients_well_clipped(id, b.gradients@, b.gradients@.len() as int);
    lemma_shadows_well_clipped(id, b.shadows@, b.shadows@.len() as int, true);
    lemma_well_clipped_concat(back, grads);
    lemma_well_clipped_concat(back + grads, inner);
    lemma_well_clipped_concat(back + grads + inner, border_ops(b));
    lemma_well_clipped_concat(back + grads + inner + border_ops(b), text);
}

/// How many clips are in force when something of a box is painted: none for its
/// outer shadows; for all else the clip to its outline where a corner is round;
/// and one more for a shadow that falls inside.
pub proof fn lemma_clipped(b: PaintBox, i: int)
    requires
        b.has_outline,
        0 <= i < own_ops(b).len(),
        paints(own_ops(b)[i]),
    ensures
        ({
            let round = has_radius(b.radii.top_left) || has_radius(b.radii.top_right) || has_radius(
                b.radii.bottom_right,
            ) || has_radius(b.radii.bottom_left);
            let op = own_ops(b)[i];
            let d: nat = if op is OutsetShadow {
                0
            } else if op is InsetShadow {
                if round {
                    2
                } else {
                    1
                }
            } else {
                if round {
                    1
                } else {
                    0
                }
            };
            clips_after(own_ops(b).take(i), 0) == Some(d)
        }),
{
    let id = b.id;
    let outer = shadow_ops(id, b.shadows@, b.shadows@.len() as int, false, true);
    let clip = op_if(rounded(b), PaintOp::PushClip { id });
    let inner = inner_ops(b);
    let n = outer.len() as int;
    let m = n + clip.len();
    let ops = own_ops(b);
    assert(ops =~= outer + clip + inner);
    let ns = b.shadows.len();
    assert(b.shadows@.len() == ns);
    lemma_shadow_layers(id, b.shadows@, b.shadows@.len() as int, false, true, PaintOp::Text { id });
    lemma_shadows_well_clipped(id, b.shadows@, b.shadows@.len() as int, false);
    lemma_inner_well_clipped(b);
    if i < n {
        assert(ops[i] == outer[i]);
        assert(layer(outer[i]) == 0);
        assert(ops.take(i) =~= outer.take(i));
    } else if i < m {
        assert(ops[i] == clip[i - n]);
    } else {
        let k = i - m;
        assert(ops[i] == inner[k]);
        lemma_inner_layers(b, k);
        assert(ops.take(i) =~= outer + clip + inner.take(k));
        assert(clips_after(outer, 0) == Some(0nat));
        lemma_clips_concat(outer, clip, 0);
        if rounded(b) {
            lemma_one(PaintOp::PushClip { id }, 0);
        }
        lemma_clips_concat(outer + clip, inner.take(k), 0);
        let d: nat = if rounded(b) {
            1
        } else {
            0
        };
        assert(clips_after(clip, 0) == Some(d));
        assert(clips_after(inner.take(k), d) == Some(d + own_clip(inner[k])));
    }
}

proof fn lemma_inner_layers(b: PaintBox, k: int)
    requires
        0 <= k < inner_ops(b).len(),
    ensures
        !(inner_ops(b)[k] is OutsetShadow),
{
    let id = b.id;
    let ns = b.shadows.len();
    let ng = b.gradients.len();
    assert(b.shadows@.len() == ns && b.gradients@.len() == ng);
    let x = inner_ops(b)[k];
    if x is OutsetShadow {
        let back = op_if(background_shows(b), PaintOp::Background { id });
        let grads = gradient_ops(id, b.gradients@, b.gradients@.len() as int);
        let inner = shadow_ops(id, b.shadows@, b.shadows@.len() as int, true, b.has_outline);
        let text = op_if(b.text, PaintOp::Text { id });
        assert(inner_ops(b).contains(x));
        lemma_in_either(back, grads, x);
        lemma_in_either(back + grads, inner, x);
        lemma_in_either(back + grads + inner, border_ops(b), x);
        lemma_in_either(back + grads + inner + border_ops(b), text, x);
        lemma_in_op_if(background_shows(b), PaintOp::Background { id }, x);
        lemma_in_op_if(b.text, PaintOp::Text { id }, x);
        lemma_shadow_layers(id, b.shadows@, b.shadows@.len() as int, true, b.has_outline, x);
        lemma_gradient_layers(id, b.gradients@, b.gradients@.len() as int, x);
        lemma_border_layers(b, x);
    }
}

/// The border on a side is the part between two corners, the two that lie on
/// that side, and has an outer and an inner point at each.
pub proof fn lemma_border_on_its_side(e: Edge, c: Corner)
    ensures
        border_shape(e).len() == 4,
        border_shape(e).no_duplicates(),
        border_shape(e).contains(BorderPoint::Outer(c)) <==> match c {
            Corner::TopLeft => e is Top || e is Left,
            Corner::TopRight => e is Top || e is Right,
            Corner::BottomRight => e is Bottom || e is Right,
            Corner::BottomLeft => e is Bottom || e is Left,
        },
        border_shape(e).contains(BorderPoint::Inner(c)) <==> border_shape(e).contains(
            BorderPoint::Outer(c),
        ),
        border_shape(e)[0] is Outer && border_shape(e)[1] is Outer,
{
    let s = border_shape(e);
    let (a, b) = edge_corners(e);
    assert(s[0] == BorderPoint::Outer(a) && s[1] == BorderPoint::Outer(b));
    assert(s[2] == BorderPoint::Inner(b) && s[3] == BorderPoint::Inner(a));
}

/// The outline of a box goes once round: it curves at exactly those corners
/// that are round, each behind the line to that corner, and comes by the corners
/// from the right of the top back to its left.
pub proof fn lemma_outline(tl: bool, tr: bool, br: bool, bl: bool, c: Corner)
    ensures
        ({
            let s = outline(tl, tr, br, bl);
            let round = match c {
                Corner::TopLeft => tl,
                Corner::TopRight => tr,
                Corner::BottomRight => br,
                Corner::BottomLeft => bl,
            };
            &&& s[0] == PathStep::MoveBehind(Corner::TopLeft)
            &&& s[1] == PathStep::LineBefore(Corner::TopRight)
            &&& s.last() == PathStep::Close
            &&& s.no_duplicates()
            &&& s.contains(PathStep::LineBefore(c))
            &&& s.contains(PathStep::CurveRound(c)) <==> round
            &&& s.index_of(PathStep::LineBefore(Corner::TopRight)) < s.index_of(
                PathStep::LineBefore(Corner::BottomRight),
            ) < s.index_of(PathStep::LineBefore(Corner::BottomLeft)) < s.index_of(
                PathStep::LineBefore(Corner::TopLeft),
            )
            &&& round ==> s.index_of(PathStep::CurveRound(c)) == s.index_of(PathStep::LineBefore(c))
                + 1
        }),
{
    let s = outline(tl, tr, br, bl);
    let a = 1int;
    let b: int = a + if tr {
        2int
    } else {
        1int
    };
    let d: int = b + if br {
        2int
    } else {
        1int
    };
    let e: int = d + if bl {
        2int
    } else {
        1int
    };
    let z: int = e + if tl {
        2int
    } else {
        1int
    };
    assert(s.len() == z + 1);
    assert(s[0] == PathStep::MoveBehind(Corner::TopLeft));
    assert(s[a] == PathStep::LineBefore(Corner::TopRight));
    assert(tr ==> s[a + 1] == PathStep::CurveRound(Corner::TopRight));
    assert(s[b] == PathStep::LineBefore(Corner::BottomRight));
    assert(br ==> s[b + 1] == PathStep::CurveRound(Corner::BottomRight));
    assert(s[d] == PathStep::LineBefore(Corner::BottomLeft));
    assert(bl ==> s[d + 1] == PathStep::CurveRound(Corner::BottomLeft));
    assert(s[e] == PathStep::LineBefore(Corner::TopLeft));
    assert(tl ==> s[e + 1] == PathStep::CurveRound(Corner::TopLeft));
    assert(s[z] == PathStep::Close);
    assert forall|i: int, j: int| 0 <= i < s.len() && 0 <= j < s.len() && i != j implies s[i]
        != s[j] by {}
    assert(s.contains(s[a]) && s.contains(s[b]) && s.contains(s[d]) && s.contains(s[e]));
    let round = match c {
        Corner::TopLeft => tl,
        Corner::TopRight => tr,
        Corner::BottomRight => br,
        Corner::BottomLeft => bl,
    };
    let at = match c {
        Corner::TopLeft => e,
        Corner::TopRight => a,
        Corner::BottomRight => b,
        Corner::BottomLeft => d,
    };
    if round {
        assert(s[at + 1] == PathStep::CurveRound(c));
        assert(s.contains(s[at + 1]));
    }
}

/// A gradient runs to the side or corner that is named, from the side or corner
/// across from it; where no side is named it keeps to the middle.
pub proof fn lemma_gradient_runs_to(d: Direction)
    ensures
        ({
            let l = line_of(d);
            let h = match d {
                Direction::Horizontal(h) => Some(h),
                Direction::Corner(h, _) => Some(h),
                Direction::Vertical(_) => None,
            };
            let v = match d {
                Direction::Vertical(v) => Some(v),
                Direction::Corner(_, v) => Some(v),
                Direction::Horizontal(_) => None,
            };
            &&& l.to.0 is End <==> h == Some(Horizontal::Right)
            &&& l.to.0 is Start <==> h == Some(Horizontal::Left)
            &&& l.to.1 is End <==> v == Some(Vertical::Bottom)
            &&& l.to.1 is Start <==> v == Some(Vertical::Top)
            &&& l.from.0 is Start <==> l.to.0 is End
            &&& l.from.0 is End <==> l.to.0 is Start
            &&& l.from.1 is Start <==> l.to.1 is End
            &&& l.from.1 is End <==> l.to.1 is Start
        }),
{
}

/// Every color of a gradient whose place can be known is a stop, once and in
/// order, and nothing else is; one that has a place of its own keeps it.
pub proof fn lemma_stops_are_colors(items: Seq<GradientItem>, n: int, total: nat)
    requires
        0 <= n <= items.len() <= usize::MAX,
    ensures
        ({
            let s = stops_of(items, n, total);
            &&& forall|i: int|
                0 <= i < s.len() ==> (#[trigger] s[i]).item < n && match items[s[i].item as int] {
                    GradientItem::Simple => !(s[i].place is Given),
                    GradientItem::Placed(known) => known && s[i].place is Given,
                    GradientItem::Hint => false,
                }
            &&& forall|i: int, j: int|
                0 <= i < j < s.len() ==> (#[trigger] s[i]).item < (#[trigger] s[j]).item
            &&& forall|k: int|
                0 <= k < n && (items[k] is Simple || items[k] == GradientItem::Placed(true)) ==> exists|
                    i: int,
                | 0 <= i < s.len() && (#[trigger] s[i]).item == #[trigger] (k as usize)
        }),
    decreases n,
{
    if n > 0 {
        lemma_stops_are_colors(items, n - 1, total);
        let front = stops_of(items, n - 1, total);
        let s = stops_of(items, n, total);
        assert forall|k: int|
            0 <= k < n && (items[k] is Simple || items[k] == GradientItem::Placed(true)) implies exists|
            i: int,
        | 0 <= i < s.len() && (#[trigger] s[i]).item == #[trigger] (k as usize) by {
            if k < n - 1 {
                let i = choose|i: int|
                    0 <= i < front.len() && (#[trigger] front[i]).item == k as usize;
                assert(s[i] == front[i]);
                assert(s[i].item == k as usize);
            } else {
                assert(s[s.len() - 1].item == k as usize);
            }
        }
    }
}

/// Colors without places are spread evenly: of `n` of them, two at least, the
/// one at place `k` stands `k` of `n - 1` parts on the way, so that the first
/// stands at the start and the last at the end. One alone stands at the start.
pub proof fn lemma_even_spread(items: Seq<GradientItem>, k: int)
    requires
        forall|i: int| 0 <= i < items.len() ==> (#[trigger] items[i]) is Simple,
        0 <= k < items.len() <= usize::MAX,
    ensures
        ({
            let s = stops_of(items, items.len() as int, color_count(items));
            &&& s.len() == items.len()
            &&& s[k].item == k
            &&& items.len() == 1 ==> s[k].place is Start
            &&& items.len() > 1 ==> (s[k].place matches StopPlace::Part { index, parts } && index == k
                && parts == items.len() - 1)
        }),
{
    lemma_simple_counts(items);
    lemma_simple_stops(items, items.len() as int);
}

proof fn lemma_simple_counts(items: Seq<GradientItem>)
    requires
        forall|i: int| 0 <= i < items.len() ==> (#[trigger] items[i]) is Simple,
    ensures
        color_count(items) == items.len(),
        placed_count(items) == items.len(),
    decreases items.len(),
{
    if items.len() > 0 {
        let front = items.drop_last();
        assert forall|i: int| 0 <= i < front.len() implies (#[trigger] front[i]) is Simple by {
            assert(front[i] == items[i]);
        }
        assert(items[items.len() - 1] is Simple);
        lemma_simple_counts(front);
    }
}

proof fn lemma_simple_stops(items: Seq<GradientItem>, n: int)
    requires
        forall|i: int| 0 <= i < items.len() ==> (#[trigger] items[i]) is Simple,
        0 <= n <= items.len() <= usize::MAX,
        color_count(items) == items.len(),
    ensures
        ({
            let s = stops_of(items, n, color_count(items));
            &&& s.len() == n
            &&& forall|k: int|
                0 <= k < n ==> (#[trigger] s[k]).item == k && if items.len() == 1 {
                    s[k].place is Start
                } else {
                    s[k].place matches StopPlace::Part { index, parts } && index == k && parts
                        == items.len() - 1
                }
        }),
    decreases n,
{
    if n > 0 {
        lemma_simple_stops(items, n - 1);
        let head = items.take(n - 1);
        assert forall|i: int| 0 <= i < head.len() implies (#[trigger] head[i]) is Simple by {
            assert(head[i] == items[i]);
        }
        lemma_simple_counts(head);
        assert(items[n - 1] is Simple);
    }
}

/// Each glyph of each cluster that begins anew is drawn once, in order, from
/// where the text of its cluster begins; clusters that go on a ligature draw none.
pub proof fn lemma_glyphs_drawn(clusters: Seq<Cluster>, n: int)
    requires
        0 <= n <= clusters.len() <= usize::MAX,
    ensures
        ({
            let s = drawn(clusters, n);
            &&& forall|i: int|
                0 <= i < s.len() ==> {
                    let g = #[trigger] s[i];
                    &&& g.cluster < n
                    &&& !clusters[g.cluster as int].continues
                    &&& g.index < clusters[g.cluster as int].glyphs
                    &&& g.start == clusters[g.cluster as int].start
                }
            &&& forall|i: int, j: int|
                0 <= i < j < s.len() ==> (#[trigger] s[i]).cluster < (#[trigger] s[j]).cluster || (
                s[i].cluster == s[j].cluster && s[i].index < s[j].index)
            &&& forall|k: int, x: int|
                0 <= k < n && !clusters[k].continues && 0 <= x < clusters[k].glyphs
                    ==> #[trigger] draws(s, k, x)
        }),
    decreases n,
{
    if n > 0 {
        lemma_glyphs_drawn(clusters, n - 1);
        let front = drawn(clusters, n - 1);
        let s = drawn(clusters, n);
        let c = clusters[n - 1];
        if !c.continues {
            let own = cluster_glyphs(n - 1, c, c.glyphs as nat);
            assert forall|i: int| 0 <= i < s.len() implies #[trigger] s[i] == if i < front.len() {
                front[i]
            } else {
                own[i - front.len()]
            } by {}
        } else {
            assert forall|i: int| 0 <= i < s.len() implies (#[trigger] s[i]).cluster
                == front[i].cluster && s[i].index == front[i].index && s[i].start == front[i].start by {}
        }
        assert forall|k: int, x: int|
            0 <= k < n && !clusters[k].continues && 0 <= x < clusters[k].glyphs
            implies #[trigger] draws(s, k, x) by {
            if k < n - 1 {
                assert(draws(front, k, x));
                let i = choose|i: int|
                    0 <= i < front.len() && (#[trigger] front[i]).cluster == k && front[i].index == x;
                assert(s[i].cluster == k && s[i].index == x);
            } else {
                let i = front.len() + x;
                assert(s[i].cluster == k && s[i].index == x);
            }
        }
    }
}

/// The glyph of place `x` of the cluster at place `k` is drawn.
pub open spec fn draws(s: Seq<DrawnGlyph>, k: int, x: int) -> bool {
    exists|i: int| 0 <= i < s.len() && (#[trigger] s[i]).cluster == k && s[i].index == x
}

/// All the text is shown: the last glyph that is drawn shows text up to the end
/// of the last cluster that draws or goes on one that did, and glyphs before it
/// are not changed by what follows them.
pub proof fn lemma_ligature_text(clusters: Seq<Cluster>, n: int)
    requires
        0 < n <= clusters.len() <= usize::MAX,
        drawn(clusters, n).len() > 0,
    ensures
        clusters[n - 1].continues || clusters[n - 1].glyphs > 0 ==> drawn(clusters, n).last().end
            == clusters[n - 1].end,
        clusters[n - 1].continues ==> drawn(clusters, n).len() == drawn(clusters, n - 1).len(),
        forall|i: int|
            0 <= i < drawn(clusters, n - 1).len() - 1 ==> #[trigger] drawn(clusters, n)[i] == drawn(
                clusters,
                n - 1,
            )[i],
{
}

} // verus!
