use vstd::prelude::*;

use crate::quadtree::{QuadTree, QuadTreeNode, SubTree};
use crate::raster::{index_of, Raster};
use crate::util::{lemma_uniform_seq, mean_color, Rgb};

verus! {

/// How many of the four quadrants hold the point (px, py).
pub open spec fn cover_count(
    nw: QuadTreeNode,
    ne: QuadTreeNode,
    sw: QuadTreeNode,
    se: QuadTreeNode,
    px: int,
    py: int,
) -> int {
    (if nw.contains(px, py) { 1int } else { 0int }) + (if ne.contains(px, py) { 1int } else { 0int })
        + (if sw.contains(px, py) { 1int } else { 0int }) + (if se.contains(px, py) { 1int } else { 0int })
}

/// The quadrants tile the node: each point of its rectangle lies in exactly
/// one quadrant, each point outside it in none, and the areas add up.
pub open spec fn tiles(
    n: QuadTreeNode,
    nw: QuadTreeNode,
    ne: QuadTreeNode,
    sw: QuadTreeNode,
    se: QuadTreeNode,
) -> bool {
    &&& forall|px: int, py: int|
        #[trigger] cover_count(nw, ne, sw, se, px, py) == if n.contains(px, py) {
            1int
        } else {
            0int
        }
    &&& nw.width * nw.height + ne.width * ne.height + sw.width * sw.height + se.width * se.height
        == n.width * n.height
}

/// Tiling: in a well-formed tree, the one that building and pruning leave,
/// the children of every split node tile its rectangle with no gap and no
/// overlap, at every level.
pub proof fn lemma_tiling(n: QuadTreeNode)
    requires
        n.wf(),
    ensures
        match *n.subtree {
            SubTree::Leaf => true,
            SubTree::Split { nw, ne, sw, se } => {
                &&& tiles(n, nw, ne, sw, se)
                &&& nw.wf()
                &&& ne.wf()
                &&& sw.wf()
                &&& se.wf()
            },
        },
{
    match *n.subtree {
        SubTree::Leaf => {},
        SubTree::Split { nw, ne, sw, se } => {
            let w = n.width as int;
            let h = n.height as int;
            let hw = w / 2;
            let hh = h / 2;
            assert(hw * hh + (w - hw) * hh + hw * (h - hh) + (w - hw) * (h - hh) == w * h)
                by (nonlinear_arith);
        },
    }
}

/// Depth zero: a tree built with no levels to split is one leaf holding the
/// mean of the whole raster.
pub proof fn lemma_depth_zero(t: QuadTree)
    requires
        t.wf(),
        t.root.built(&t.img, 0),
    ensures
        t.root.is_leaf(),
        t.root.node_count() == 1,
        t.root.avg_pixel == mean_color(t.img.rect(0, 0, t.img.width as int, t.img.height as int)),
{
}

/// Every node's cached average matches its shape: a leaf holds the mean of
/// its pixels, a split node the mean of its children's averages.
pub open spec fn averages_consistent(n: QuadTreeNode, img: &Raster) -> bool
    decreases n,
{
    &&& n.avg_pixel == n.shape_average(img)
    &&& match *n.subtree {
        SubTree::Leaf => true,
        SubTree::Split { nw, ne, sw, se } => {
            &&& averages_consistent(nw, img)
            &&& averages_consistent(ne, img)
            &&& averages_consistent(sw, img)
            &&& averages_consistent(se, img)
        },
    }
}

/// Average consistency: right after building, every node's average agrees
/// with its shape.
pub proof fn lemma_built_averages_consistent(n: QuadTreeNode, img: &Raster, depth: int)
    requires
        n.built(img, depth),
    ensures
        averages_consistent(n, img),
    decreases n,
{
    if !(depth <= 0 || n.width / 2 == 0 || n.height / 2 == 0) {
        match *n.subtree {
            SubTree::Leaf => {},
            SubTree::Split { nw, ne, sw, se } => {
                lemma_built_averages_consistent(nw, img, depth - 1);
                lemma_built_averages_consistent(ne, img, depth - 1);
                lemma_built_averages_consistent(sw, img, depth - 1);
                lemma_built_averages_consistent(se, img, depth - 1);
            },
        }
    }
}

/// Every split node left in the tree has a variance above `tolerance`.
pub open spec fn splits_exceed(n: QuadTreeNode, img: &Raster, tolerance: int) -> bool
    decreases n,
{
    match *n.subtree {
        SubTree::Leaf => true,
        SubTree::Split { nw, ne, sw, se } => {
            &&& n.variance(img) > tolerance
            &&& splits_exceed(nw, img, tolerance)
            &&& splits_exceed(ne, img, tolerance)
            &&& splits_exceed(sw, img, tolerance)
            &&& splits_exceed(se, img, tolerance)
        },
    }
}

pub proof fn lemma_prune_leaves_splits_exceeding(
    before: QuadTreeNode,
    after: QuadTreeNode,
    img: &Raster,
    tolerance: int,
)
    requires
        QuadTreeNode::prune_result(before, after, img, tolerance),
    ensures
        splits_exceed(after, img, tolerance),
        after.same_rect(before),
        after.avg_pixel == before.avg_pixel,
    decreases before,
{
    match *after.subtree {
        SubTree::Leaf => {},
        SubTree::Split { nw: nw2, ne: ne2, sw: sw2, se: se2 } => {
            match *before.subtree {
                SubTree::Leaf => {},
                SubTree::Split { nw, ne, sw, se } => {
                    lemma_prune_leaves_splits_exceeding(nw, nw2, img, tolerance);
                    lemma_prune_leaves_splits_exceeding(ne, ne2, img, tolerance);
                    lemma_prune_leaves_splits_exceeding(sw, sw2, img, tolerance);
                    lemma_prune_leaves_splits_exceeding(se, se2, img, tolerance);
                    assert(after.region(img) == before.region(img));
                },
            }
        },
    }
}

pub proof fn lemma_prune_keeps_exceeding(
    before: QuadTreeNode,
    after: QuadTreeNode,
    img: &Raster,
    bound: int,
    tolerance: int,
)
    requires
        splits_exceed(before, img, bound),
        tolerance <= bound,
        QuadTreeNode::prune_result(before, after, img, tolerance),
    ensures
        after.node_count() == before.node_count(),
        after.same_rect(before),
    decreases before,
{
    match *before.subtree {
        SubTree::Leaf => {
            assert(after.is_leaf());
        },
        SubTree::Split { nw, ne, sw, se } => {
            match *after.subtree {
                SubTree::Leaf => {},
                SubTree::Split { nw: nw2, ne: ne2, sw: sw2, se: se2 } => {
                    lemma_prune_keeps_exceeding(nw, nw2, img, bound, tolerance);
                    lemma_prune_keeps_exceeding(ne, ne2, img, bound, tolerance);
                    lemma_prune_keeps_exceeding(sw, sw2, img, bound, tolerance);
                    lemma_prune_keeps_exceeding(se, se2, img, bound, tolerance);
                },
            }
        },
    }
}

/// Repeated pruning: pruning again with a smaller tolerance changes the number
/// of nodes not at all, so the tree has no more nodes than after the first
/// pruning alone.
pub proof fn lemma_repeated_prune(
    start: QuadTreeNode,
    first: QuadTreeNode,
    second: QuadTreeNode,
    img: &Raster,
    t1: int,
    t2: int,
)
    requires
        start.wf(),
        QuadTreeNode::prune_result(start, first, img, t1),
        QuadTreeNode::prune_result(first, second, img, t2),
        t2 < t1,
    ensures
        second.node_count() <= first.node_count(),
        second.node_count() == first.node_count(),
{
    lemma_prune_leaves_splits_exceeding(start, first, img, t1);
    lemma_prune_keeps_exceeding(first, second, img, t1, t2);
}

pub proof fn lemma_uniform_average(n: QuadTreeNode, img: &Raster, depth: int, c: Rgb)
    requires
        n.built(img, depth),
        n.width > 0,
        n.height > 0,
        forall|px: int, py: int| n.contains(px, py) ==> img.pixel(px, py) == c,
    ensures
        n.avg_pixel == c,
        forall|k: int| 0 <= k < n.region(img).len() ==> n.region(img)[k] == c,
    decreases n,
{
    let (x, y, w, h) = (n.x as int, n.y as int, n.width as int, n.height as int);
    img.lemma_rect_len(x, y, w, h);
    assert forall|k: int| 0 <= k < n.region(img).len() implies n.region(img)[k] == c by {
        img.lemma_rect_elements(x, y, w, h, k);
    }
    assert(w * h > 0) by (nonlinear_arith)
        requires
            w > 0,
            h > 0,
    ;
    lemma_uniform_seq(n.region(img), c);
    if !(depth <= 0 || n.width / 2 == 0 || n.height / 2 == 0) {
        match *n.subtree {
            SubTree::Leaf => {},
            SubTree::Split { nw, ne, sw, se } => {
                lemma_uniform_average(nw, img, depth - 1, c);
                lemma_uniform_average(ne, img, depth - 1, c);
                lemma_uniform_average(sw, img, depth - 1, c);
                lemma_uniform_average(se, img, depth - 1, c);
                let four = seq![c, c, c, c];
                assert forall|i: int| 0 <= i < four.len() implies four[i] == c by {}
                lemma_uniform_seq(four, c);
            },
        }
    }
}

/// Uniform raster: when every pixel has one color, pruning the built tree
/// with any tolerance leaves a single leaf of that color.
pub proof fn lemma_uniform_collapse(
    t: QuadTree,
    depth: int,
    c: Rgb,
    after: QuadTreeNode,
    tolerance: int,
)
    requires
        t.wf(),
        t.img.width > 0,
        t.img.height > 0,
        t.root.built(&t.img, depth),
        forall|px: int, py: int| t.img.in_bounds(px, py) ==> t.img.pixel(px, py) == c,
        tolerance >= 0,
        QuadTreeNode::prune_result(t.root, after, &t.img, tolerance),
    ensures
        after.is_leaf(),
        after.node_count() == 1,
        after.avg_pixel == c,
{
    lemma_uniform_average(t.root, &t.img, depth, c);
    lemma_uniform_seq(t.root.region(&t.img), c);
}

/// Render determinism: two rasters that both render the same tree are the
/// same raster, so rendering an unchanged tree twice gives identical output.
pub proof fn lemma_render_deterministic(t: QuadTree, r1: Raster, r2: Raster)
    requires
        t.renders(r1),
        t.renders(r2),
    ensures
        r1.width == r2.width,
        r1.height == r2.height,
        r1.pixels@ == r2.pixels@,
{
    let w = r1.width as int;
    let h = r1.height as int;
    assert forall|k: int| 0 <= k < r1.pixels@.len() implies r1.pixels@[k] == r2.pixels@[k] by {
        let x = k % w;
        let y = k / w;
        assert(w > 0) by (nonlinear_arith)
            requires
                0 <= k < w * h,
                h >= 0,
        ;
        vstd::arithmetic::div_mod::lemma_fundamental_div_mod(k, w);
        assert(0 <= x < w);
        assert(0 <= y < h) by (nonlinear_arith)
            requires
                0 <= k < w * h,
                k == w * y + x,
                0 <= x < w,
        ;
        assert(y * w == w * y) by (nonlinear_arith);
        assert(index_of(w, x, y) == k);
        assert(r1.pixel(x, y) == r2.pixel(x, y));
    }
    assert(r1.pixels@ =~= r2.pixels@);
}

} // verus!
