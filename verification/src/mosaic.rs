//! What the treemap's painter decides for each tile and label before it
//! draws: which fill a tile takes, whether it is hatched, striped, flagged
//! or ringed, and how a label is set. The drawing itself, and every length,
//! is the painter's.
use vstd::prelude::*;

verus! {

/// What kind of data a directory holds: the hue of its tile.
#[derive(Debug, Clone, Copy, PartialEq, Eq, Hash, Structural)]
pub enum Category {
    Code,
    AgentScratch,
    Toolchain,
    Synced,
    Git,
    Media,
    Documents,
    Cache,
    Other,
}

/// How a tile stands against the find text.
#[derive(Debug, Clone, Copy, PartialEq, Eq, Structural)]
pub enum Filtered {
    /// It matches: it keeps its colour.
    Shown,
    /// It does not match, but holds something that does.
    Holds,
    /// Neither it nor anything inside it matches.
    Out,
}

/// How one tile should be drawn, resolved before painting so that painting never has to look
/// anything up. `R` is the painter's rectangle, which nothing here reads.
#[derive(Debug, Clone)]
pub struct TileDeco<R> {
    /// Base-space rectangle: the view transform is applied while painting.
    pub rect: R,
    /// Nesting depth in this view; `0` is the first level.
    pub depth: u32,
    /// What kind of data it is: the hue.
    pub category: Category,
    /// In age mode, which age bucket it falls in.
    pub age_bucket: Option<usize>,
    /// Its space can be had back: hatched.
    pub reclaimable: bool,
    /// How it stands against the find text.
    pub filtered: Filtered,
    /// Part of it could not be read: flagged in its corner.
    pub unreadable: bool,
    pub marked: bool,
    /// Inside another marked directory, so it goes with its parent.
    pub covered: bool,
    pub hovered: bool,
    pub selected: bool,
}

/// One name on the mosaic. `R` is the painter's rectangle.
#[derive(Debug, Clone)]
pub struct Label<R> {
    /// The tile the label belongs to.
    pub rect: R,
    /// The band a subdivided directory reserved for its name, if it has one.
    pub header: Option<R>,
    pub text: String,
    /// The size written beside or under the name; empty for none.
    pub size_text: String,
    pub marked: bool,
    /// Drawn dimmer: it does not match the find text.
    pub dim: bool,
    pub depth: u32,
}

/// Everything the mosaic needs for one frame. `R` is the painter's rectangle and `V` its view
/// transform.
#[derive(Debug, Clone, Default)]
pub struct Mosaic<R, V> {
    pub tiles: Vec<TileDeco<R>>,
    pub labels: Vec<Label<R>>,
    pub view: V,
}

/// Depth steps a fill distinguishes; deeper clamps.
pub const DEPTHS: usize = 5;

/// Every category, in the order that [`category_index`] numbers them.
pub open spec fn all_categories() -> Seq<Category> {
    seq![
        Category::Code,
        Category::AgentScratch,
        Category::Toolchain,
        Category::Synced,
        Category::Git,
        Category::Media,
        Category::Documents,
        Category::Cache,
        Category::Other,
    ]
}

/// Every category, in the order that [`category_index`] numbers them.
pub fn categories() -> (r: [Category; 9])
    ensures
        r@ == all_categories(),
{
    let r = [
        Category::Code,
        Category::AgentScratch,
        Category::Toolchain,
        Category::Synced,
        Category::Git,
        Category::Media,
        Category::Documents,
        Category::Cache,
        Category::Other,
    ];
    assert(r@ =~= all_categories());
    r
}

/// The place of `category` in [`all_categories`]: the row of the fill table its tiles use.
pub open spec fn spec_category_index(category: Category) -> usize {
    match category {
        Category::Code => 0,
        Category::AgentScratch => 1,
        Category::Toolchain => 2,
        Category::Synced => 3,
        Category::Git => 4,
        Category::Media => 5,
        Category::Documents => 6,
        Category::Cache => 7,
        Category::Other => 8,
    }
}

/// The place of `category` among [`categories`], the last place should it be missing.
pub fn category_index(category: Category) -> (r: usize)
    ensures
        r == spec_category_index(category),
{
    let known = categories();
    let mut i: usize = 0;
    while i < known.len()
        invariant
            known@ == all_categories(),
            i <= 9,
            forall|j: int| 0 <= j < i ==> known@[j] != category,
        decreases 9 - i,
    {
        if known[i] == category {
            return i;
        }
        i = i + 1;
    }
    assert(known@[spec_category_index(category) as int] == category);
    known.len() - 1
}

/// Each category has its own row of the fill table, and that row is the category's place in
/// [`all_categories`].
pub proof fn category_rows_are_distinct(a: Category, b: Category)
    ensures
        spec_category_index(a) < all_categories().len(),
        all_categories()[spec_category_index(a) as int] == a,
        spec_category_index(a) == spec_category_index(b) ==> a == b,
{
}

/// Where in the fill tables a tile's colour comes from.
#[derive(Debug, Clone, Copy, PartialEq, Eq, Structural)]
pub enum Shade {
    /// Marked, or inside something marked: the one fill for what goes.
    Marked,
    /// Age mode: row `bucket` of the age table, column `depth`, stepped back by `filtered`.
    Age { bucket: usize, depth: usize, filtered: Filtered },
    /// Kind mode: row `index` of the category table, column `depth`, stepped back by `filtered`.
    Kind { index: usize, depth: usize, filtered: Filtered },
}

/// `a`, but at most `b`.
pub open spec fn at_most(a: int, b: int) -> int {
    if a < b {
        a
    } else {
        b
    }
}

/// The fill of `tile`, with `age_rows` rows in the age table. Marked tiles and those inside a
/// marked directory share one fill; otherwise the depth column clamps at the last of
/// [`DEPTHS`], and the age bucket at the last row.
pub open spec fn spec_shade<R>(tile: TileDeco<R>, age_rows: usize) -> Shade {
    if tile.marked || tile.covered {
        Shade::Marked
    } else {
        let depth = at_most(tile.depth as int, DEPTHS - 1) as usize;
        match tile.age_bucket {
            Some(bucket) => Shade::Age {
                bucket: at_most(bucket as int, age_rows - 1) as usize,
                depth,
                filtered: tile.filtered,
            },
            None => Shade::Kind { index: spec_category_index(tile.category), depth, filtered: tile.filtered },
        }
    }
}

/// The fill of `tile`, with `age_rows` rows in the age table.
pub fn shade<R>(tile: &TileDeco<R>, age_rows: usize) -> (r: Shade)
    requires
        !(tile.marked || tile.covered) && tile.age_bucket is Some ==> age_rows > 0,
    ensures
        r == spec_shade(*tile, age_rows),
{
    if tile.marked || tile.covered {
        return Shade::Marked;
    }
    let depth = if (tile.depth as usize) < DEPTHS - 1 {
        tile.depth as usize
    } else {
        DEPTHS - 1
    };
    match tile.age_bucket {
        Some(bucket) => Shade::Age {
            bucket: if bucket < age_rows - 1 {
                bucket
            } else {
                age_rows - 1
            },
            depth,
            filtered: tile.filtered,
        },
        None => Shade::Kind { index: category_index(tile.category), depth, filtered: tile.filtered },
    }
}

/// What is drawn for one tile besides its fill.
#[derive(Debug, Clone, Copy, PartialEq, Eq, Structural)]
pub struct TilePaint {
    pub shade: Shade,
    /// The diagonal hatch of space that can be had back.
    pub hatched: bool,
    /// The strip of its colour that a top-level directory carries.
    pub strip: bool,
    /// The warning corner of a tile part of which could not be read (drawn only where the tile
    /// is large enough).
    pub unreadable_mark: bool,
    /// The ring drawn round it.
    pub ring: Option<Ring>,
}

/// A ring round a tile, in the order rings are drawn: a later one is drawn over an earlier one,
/// so that the most important ring shows on top.
#[derive(Debug, Clone, Copy, PartialEq, Eq, Structural)]
pub enum Ring {
    /// A marked tile.
    Mark,
    /// The tile under the pointer.
    Hover,
    /// The selected tile.
    Selection,
}

/// The ring of `tile`: the selection over the hover over a mark.
pub open spec fn spec_ring<R>(tile: TileDeco<R>) -> Option<Ring> {
    if tile.selected {
        Some(Ring::Selection)
    } else if tile.hovered {
        Some(Ring::Hover)
    } else if tile.marked {
        Some(Ring::Mark)
    } else {
        None
    }
}

/// What is drawn for `tile`, with `age_rows` rows in the age table. Reclaimable space is hatched
/// unless the tile goes anyway or steps back for the find text; a top-level directory is striped
/// in its kind's colour unless in age mode or filtered out.
pub fn tile_paint<R>(tile: &TileDeco<R>, age_rows: usize) -> (r: TilePaint)
    requires
        !(tile.marked || tile.covered) && tile.age_bucket is Some ==> age_rows > 0,
    ensures
        r.shade == spec_shade(*tile, age_rows),
        r.hatched == (tile.reclaimable && !tile.marked && !tile.covered && tile.filtered
            == Filtered::Shown),
        r.strip == (tile.depth == 0 && tile.age_bucket is None && tile.filtered != Filtered::Out),
        r.unreadable_mark == tile.unreadable,
        r.ring == spec_ring(*tile),
{
    let ring = if tile.selected {
        Some(Ring::Selection)
    } else if tile.hovered {
        Some(Ring::Hover)
    } else if tile.marked {
        Some(Ring::Mark)
    } else {
        None
    };
    TilePaint {
        shade: shade(tile, age_rows),
        hatched: tile.reclaimable && !tile.marked && !tile.covered && tile.filtered
            == Filtered::Shown,
        strip: tile.depth == 0 && tile.age_bucket.is_none() && tile.filtered != Filtered::Out,
        unreadable_mark: tile.unreadable,
        ring,
    }
}

/// The indices, in increasing order, of the tiles of `rings` that carry the ring `k`.
pub open spec fn ringed(rings: Seq<Option<Ring>>, k: Ring) -> Seq<usize>
    decreases rings.len(),
{
    if rings.len() == 0 {
        seq![]
    } else if rings.last() == Some(k) {
        ringed(rings.drop_last(), k).push((rings.len() - 1) as usize)
    } else {
        ringed(rings.drop_last(), k)
    }
}

/// The order in which the rings of the tiles `rings` are drawn, after every fill: the marks,
/// then the hover, then the selection, each kind in the order of the tiles.
pub open spec fn spec_ring_order(rings: Seq<Option<Ring>>) -> Seq<usize> {
    ringed(rings, Ring::Mark) + ringed(rings, Ring::Hover) + ringed(rings, Ring::Selection)
}

fn collect_ringed(rings: &Vec<Option<Ring>>, k: Ring) -> (r: Vec<usize>)
    ensures
        r@ == ringed(rings@, k),
{
    let mut out: Vec<usize> = Vec::new();
    let mut i: usize = 0;
    while i < rings.len()
        invariant
            i <= rings@.len(),
            out@ == ringed(rings@.take(i as int), k),
        decreases rings@.len() - i,
    {
        assert(rings@.take(i + 1).drop_last() =~= rings@.take(i as int));
        assert(rings@.take(i + 1).last() == rings@[i as int]);
        match rings[i] {
            Some(r) => {
                if r == k {
                    out.push(i);
                }
            },
            None => {},
        }
        i = i + 1;
    }
    assert(rings@.take(rings@.len() as int) =~= rings@);
    out
}

/// The indices of the tiles whose rings are drawn, in the order they are drawn.
pub fn ring_order(rings: &Vec<Option<Ring>>) -> (r: Vec<usize>)
    ensures
        r@ == spec_ring_order(rings@),
{
    let mut order = collect_ringed(rings, Ring::Mark);
    let mut hover = collect_ringed(rings, Ring::Hover);
    let mut selection = collect_ringed(rings, Ring::Selection);
    order.append(&mut hover);
    order.append(&mut selection);
    order
}

proof fn lemma_ringed_holds(rings: Seq<Option<Ring>>, k: Ring, i: int)
    requires
        rings.len() <= usize::MAX,
        0 <= i < rings.len(),
        rings[i] == Some(k),
    ensures
        ringed(rings, k).contains(i as usize),
    decreases rings.len(),
{
    let before = ringed(rings.drop_last(), k);
    if i == rings.len() - 1 {
        assert(before.push(i as usize)[before.len() as int] == i as usize);
    } else {
        assert(rings.drop_last()[i] == rings[i]);
        lemma_ringed_holds(rings.drop_last(), k, i);
        let j = choose|j: int| 0 <= j < before.len() && before[j] == i as usize;
        if rings.last() == Some(k) {
            assert(before.push((rings.len() - 1) as usize)[j] == i as usize);
        }
    }
}

proof fn lemma_ringed_only(rings: Seq<Option<Ring>>, k: Ring, j: int)
    requires
        rings.len() <= usize::MAX,
        0 <= j < ringed(rings, k).len(),
    ensures
        ringed(rings, k)[j] < rings.len(),
        rings[ringed(rings, k)[j] as int] == Some(k),
    decreases rings.len(),
{
    let before = ringed(rings.drop_last(), k);
    if rings.last() == Some(k) && j == before.len() {
        assert(ringed(rings, k)[j] == (rings.len() - 1) as usize);
    } else {
        lemma_ringed_only(rings.drop_last(), k, j);
        let x = before[j];
        assert(ringed(rings, k)[j] == x);
        assert(rings.drop_last()[x as int] == rings[x as int]);
    }
}

/// Every ring is drawn, and nothing but rings is: the drawing order holds each tile with a ring,
/// and each index in it is a tile with a ring; the rings of one kind are drawn before those of
/// the next, the selection's last, on top.
pub proof fn every_ring_is_drawn_in_rank_order(rings: Seq<Option<Ring>>, i: int, j: int)
    requires
        rings.len() <= usize::MAX,
        0 <= i < rings.len(),
        0 <= j < spec_ring_order(rings).len(),
    ensures
        rings[i] is Some ==> spec_ring_order(rings).contains(i as usize),
        spec_ring_order(rings)[j] < rings.len(),
        rings[spec_ring_order(rings)[j] as int] is Some,
        j < ringed(rings, Ring::Mark).len() ==> rings[spec_ring_order(rings)[j] as int] == Some(
            Ring::Mark,
        ),
        j >= ringed(rings, Ring::Mark).len() + ringed(rings, Ring::Hover).len() ==> rings[spec_ring_order(
            rings,
        )[j] as int] == Some(Ring::Selection),
{
    let m = ringed(rings, Ring::Mark);
    let h = ringed(rings, Ring::Hover);
    let s = ringed(rings, Ring::Selection);
    let all = spec_ring_order(rings);
    if rings[i] is Some {
        let k = rings[i]->0;
        lemma_ringed_holds(rings, k, i);
        let at = choose|at: int| 0 <= at < ringed(rings, k).len() && ringed(rings, k)[at] == i as usize;
        match k {
            Ring::Mark => assert(all[at] == i as usize),
            Ring::Hover => assert(all[m.len() + at] == i as usize),
            Ring::Selection => assert(all[m.len() + h.len() + at] == i as usize),
        }
    }
    if j < m.len() {
        lemma_ringed_only(rings, Ring::Mark, j);
        assert(all[j] == m[j]);
    } else if j < m.len() + h.len() {
        lemma_ringed_only(rings, Ring::Hover, j - m.len());
        assert(all[j] == h[j - m.len()]);
    } else {
        lemma_ringed_only(rings, Ring::Selection, j - m.len() - h.len());
        assert(all[j] == s[j - m.len() - h.len()]);
    }
}

/// The colour a label's name is set in.
#[derive(Debug, Clone, Copy, PartialEq, Eq, Structural)]
pub enum LabelTone {
    /// The danger colour of what is marked.
    Marked,
    /// Dimmed: it does not match the find text.
    Dim,
    /// The first level's label colour.
    First,
    /// The label colour of deeper levels.
    Deeper,
}

/// How a label is set.
#[derive(Debug, Clone, Copy, PartialEq, Eq, Structural)]
pub struct LabelStyle {
    pub tone: LabelTone,
    /// The first level is set in bold in its band: it names a region.
    pub bold: bool,
    /// The size goes to the far end of the band, where sizes read as a column.
    pub size_at_band_end: bool,
}

/// The label colour that depth `depth` uses: 0 for the first level, 1 below it.
pub fn label_rank(depth: u32) -> (r: usize)
    ensures
        r == (if depth == 0 { 0usize } else { 1usize }),
{
    if depth == 0 {
        0
    } else {
        1
    }
}

/// How `label` is set: marked over dimmed over its level's colour; bold and with its size at
/// the band's end when it names a first-level directory in its band.
pub fn label_style<R>(label: &Label<R>) -> (r: LabelStyle)
    ensures
        r.tone == (if label.marked {
            LabelTone::Marked
        } else if label.dim {
            LabelTone::Dim
        } else if label.depth == 0 {
            LabelTone::First
        } else {
            LabelTone::Deeper
        }),
        r.bold == (label.depth == 0 && label.header is Some),
        r.size_at_band_end == (label.header is Some && label.depth == 0),
{
    let tone = if label.marked {
        LabelTone::Marked
    } else if label.dim {
        LabelTone::Dim
    } else if label_rank(label.depth) == 0 {
        LabelTone::First
    } else {
        LabelTone::Deeper
    };
    let band = label.depth == 0 && label.header.is_some();
    LabelStyle { tone, bold: band, size_at_band_end: band }
}

/// What a tile's fill is made of: a tile that goes, or lies inside one that goes, takes the marked
/// fill; any other tile keeps its own filter state, its depth up to the last step, and, in age
/// mode, its age bucket up to the last row, otherwise its own kind's row.
pub proof fn shades_keep_the_tile<R>(tile: TileDeco<R>, age_rows: usize)
    requires
        age_rows > 0,
    ensures
        (tile.marked || tile.covered) ==> spec_shade(tile, age_rows) == Shade::Marked,
        !(tile.marked || tile.covered) ==> match spec_shade(tile, age_rows) {
            Shade::Marked => false,
            Shade::Age { bucket, depth, filtered } => {
                &&& filtered == tile.filtered
                &&& tile.age_bucket is Some
                &&& (tile.age_bucket->0 < age_rows ==> bucket == tile.age_bucket->0)
                &&& (tile.age_bucket->0 >= age_rows ==> bucket == age_rows - 1)
                &&& (tile.depth < DEPTHS ==> depth == tile.depth)
                &&& (tile.depth >= DEPTHS ==> depth == DEPTHS - 1)
            },
            Shade::Kind { index, depth, filtered } => {
                &&& filtered == tile.filtered
                &&& tile.age_bucket is None
                &&& index < all_categories().len()
                &&& all_categories()[index as int] == tile.category
                &&& (tile.depth < DEPTHS ==> depth == tile.depth)
                &&& (tile.depth >= DEPTHS ==> depth == DEPTHS - 1)
            },
        },
{
    category_rows_are_distinct(tile.category, tile.category);
}

} // verus!
