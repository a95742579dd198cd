use vstd::prelude::*;

use crate::raster::Raster;
use crate::util::{avg_pixels, calc_variance, dispersion, mean_color, Rgb};

verus! {

/// A rectangular region of a raster with its cached average color, either a
/// leaf or split into four quadrants.
pub struct QuadTreeNode {
    pub x: u32,
    pub y: u32,
    pub width: u32,
    pub height: u32,
    pub subtree: Box<SubTree>,
    pub avg_pixel: Rgb,
}

pub enum SubTree {
    Leaf,
    Split { nw: QuadTreeNode, ne: QuadTreeNode, sw: QuadTreeNode, se: QuadTreeNode },
}

impl SubTree {
    /// The quadrants, in the order northwest, northeast, southwest, southeast.
    pub open spec fn children(&self) -> Seq<QuadTreeNode> {
        match *self {
            SubTree::Leaf => Seq::empty(),
            SubTree::Split { nw, ne, sw, se } => seq![nw, ne, sw, se],
        }
    }

    pub fn get_children(&self) -> (r: Vec<&QuadTreeNode>)
        ensures
            r@.len() == self.children().len(),
            forall|i: int| 0 <= i < r@.len() ==> *r@[i] == self.children()[i],
    {
        match self {
            SubTree::Leaf => Vec::new(),
            SubTree::Split { nw, ne, sw, se } => vec![nw, ne, sw, se],
        }
    }
}

/// Mean of four colors, the cached average of a split node.
pub open spec fn mean_of_four(a: Rgb, b: Rgb, c: Rgb, d: Rgb) -> Rgb {
    mean_color(seq![a, b, c, d])
}

impl QuadTreeNode {
    pub open spec fn has_rect(&self, x: int, y: int, w: int, h: int) -> bool {
        self.x == x && self.y == y && self.width == w && self.height == h
    }

    pub open spec fn same_rect(&self, other: QuadTreeNode) -> bool {
        self.has_rect(other.x as int, other.y as int, other.width as int, other.height as int)
    }

    /// The node's rectangle lies inside the raster.
    pub open spec fn within(&self, img: &Raster) -> bool {
        self.x + self.width <= img.width && self.y + self.height <= img.height
    }

    pub open spec fn contains(&self, px: int, py: int) -> bool {
        self.x <= px < self.x + self.width && self.y <= py < self.y + self.height
    }

    /// The raster's pixels inside the node's rectangle.
    pub open spec fn region(&self, img: &Raster) -> Seq<Rgb> {
        img.rect(self.x as int, self.y as int, self.width as int, self.height as int)
    }

    pub open spec fn is_leaf(&self) -> bool {
        *self.subtree is Leaf
    }

    /// The four nodes split this node's rectangle at its floored half width
    /// and half height, the far quadrants taking the remainder.
    pub open spec fn quadrants(
        &self,
        nw: QuadTreeNode,
        ne: QuadTreeNode,
        sw: QuadTreeNode,
        se: QuadTreeNode,
    ) -> bool {
        let hw = self.width / 2;
        let hh = self.height / 2;
        &&& hw > 0
        &&& hh > 0
        &&& nw.has_rect(self.x as int, self.y as int, hw as int, hh as int)
        &&& ne.has_rect(self.x + hw, self.y as int, self.width - hw, hh as int)
        &&& sw.has_rect(self.x as int, self.y + hh, hw as int, self.height - hh)
        &&& se.has_rect(self.x + hw, self.y + hh, self.width - hw, self.height - hh)
    }

    /// Every split node of the tree is split into its quadrants.
    pub open spec fn wf(&self) -> bool
        decreases self,
    {
        match *self.subtree {
            SubTree::Leaf => true,
            SubTree::Split { nw, ne, sw, se } => {
                &&& self.quadrants(nw, ne, sw, se)
                &&& nw.wf()
                &&& ne.wf()
                &&& sw.wf()
                &&& se.wf()
            },
        }
    }

    /// The node is what building on `img` down to `depth` levels gives: it is
    /// split while levels remain and both halves are non-empty; a leaf holds
    /// the mean of its pixels, a split node the mean of its children's
    /// averages.
    pub open spec fn built(&self, img: &Raster, depth: int) -> bool
        decreases self,
    {
        if depth <= 0 || self.width / 2 == 0 || self.height / 2 == 0 {
            self.is_leaf() && self.avg_pixel == mean_color(self.region(img))
        } else {
            match *self.subtree {
                SubTree::Leaf => false,
                SubTree::Split { nw, ne, sw, se } => {
                    &&& self.quadrants(nw, ne, sw, se)
                    &&& nw.built(img, depth - 1)
                    &&& ne.built(img, depth - 1)
                    &&& sw.built(img, depth - 1)
                    &&& se.built(img, depth - 1)
                    &&& self.avg_pixel == mean_of_four(
                        nw.avg_pixel,
                        ne.avg_pixel,
                        sw.avg_pixel,
                        se.avg_pixel,
                    )
                },
            }
        }
    }

    /// The average a node computes from its current shape.
    pub open spec fn shape_average(&self, img: &Raster) -> Rgb {
        match *self.subtree {
            SubTree::Leaf => mean_color(self.region(img)),
            SubTree::Split { nw, ne, sw, se } => mean_of_four(
                nw.avg_pixel,
                ne.avg_pixel,
                sw.avg_pixel,
                se.avg_pixel,
            ),
        }
    }

    pub proof fn lemma_built_wf(&self, img: &Raster, depth: int)
        requires
            self.built(img, depth),
        ensures
            self.wf(),
        decreases self,
    {
        if !(depth <= 0 || self.width / 2 == 0 || self.height / 2 == 0) {
            match *self.subtree {
                SubTree::Leaf => {},
                SubTree::Split { nw, ne, sw, se } => {
                    nw.lemma_built_wf(img, depth - 1);
                    ne.lemma_built_wf(img, depth - 1);
                    sw.lemma_built_wf(img, depth - 1);
                    se.lemma_built_wf(img, depth - 1);
                },
            }
        }
    }

    /// Number of nodes in the tree.
    pub open spec fn node_count(&self) -> nat
        decreases self,
    {
        match *self.subtree {
            SubTree::Leaf => 1,
            SubTree::Split { nw, ne, sw, se } => 1 + nw.node_count() + ne.node_count()
                + sw.node_count() + se.node_count(),
        }
    }

    /// The dispersion score of the node's pixels against its cached average.
    pub open spec fn variance(&self, img: &Raster) -> int {
        dispersion(self.region(img), self.avg_pixel)
    }

    /// `after` is what pruning `before` with `tolerance` gives: a split node
    /// whose variance is at most the tolerance becomes a leaf, any other split
    /// node keeps its shape and has its children pruned, and a leaf stays as it
    /// is. Rectangles and averages never change.
    pub open spec fn prune_result(
        before: QuadTreeNode,
        after: QuadTreeNode,
        img: &Raster,
        tolerance: int,
    ) -> bool
        decreases before,
    {
        &&& after.same_rect(before)
        &&& after.avg_pixel == before.avg_pixel
        &&& match *before.subtree {
            SubTree::Leaf => after.is_leaf(),
            SubTree::Split { nw, ne, sw, se } => if before.variance(img) <= tolerance {
                after.is_leaf()
            } else {
                match *after.subtree {
                    SubTree::Leaf => false,
                    SubTree::Split { nw: nw2, ne: ne2, sw: sw2, se: se2 } => {
                        &&& Self::prune_result(nw, nw2, img, tolerance)
                        &&& Self::prune_result(ne, ne2, img, tolerance)
                        &&& Self::prune_result(sw, sw2, img, tolerance)
                        &&& Self::prune_result(se, se2, img, tolerance)
                    },
                }
            },
        }
    }

    /// Pruning keeps the tree well formed and never adds nodes.
    pub proof fn lemma_prune_result_wf(
        before: QuadTreeNode,
        after: QuadTreeNode,
        img: &Raster,
        tolerance: int,
    )
        requires
            before.wf(),
            Self::prune_result(before, after, img, tolerance),
        ensures
            after.same_rect(before),
            after.wf(),
            after.node_count() <= before.node_count(),
        decreases before,
    {
        match *after.subtree {
            SubTree::Leaf => {},
            SubTree::Split { nw: nw2, ne: ne2, sw: sw2, se: se2 } => {
                match *before.subtree {
                    SubTree::Leaf => {},
                    SubTree::Split { nw, ne, sw, se } => {
                        Self::lemma_prune_result_wf(nw, nw2, img, tolerance);
                        Self::lemma_prune_result_wf(ne, ne2, img, tolerance);
                        Self::lemma_prune_result_wf(sw, sw2, img, tolerance);
                        Self::lemma_prune_result_wf(se, se2, img, tolerance);
                    },
                }
            },
        }
    }

    pub proof fn lemma_wf_children_within(&self, img: &Raster)
        requires
            self.wf(),
            self.within(img),
        ensures
            match *self.subtree {
                SubTree::Leaf => true,
                SubTree::Split { nw, ne, sw, se } => nw.within(img) && ne.within(img) && sw.within(
                    img,
                ) && se.within(img),
            },
    {
    }

    pub proof fn lemma_split_region_nonempty(&self, img: &Raster)
        requires
            self.wf(),
            !self.is_leaf(),
        ensures
            self.region(img).len() > 0,
    {
        img.lemma_rect_len(self.x as int, self.y as int, self.width as int, self.height as int);
        assert(self.width * self.height > 0) by (nonlinear_arith)
            requires
                self.width > 0,
                self.height > 0,
        ;
    }

    /// The color a rendering of the tree shows at (px, py): the average of the
    /// leaf whose rectangle holds the point.
    pub open spec fn color_at(&self, px: int, py: int) -> Rgb
        decreases self,
    {
        match *self.subtree {
            SubTree::Leaf => self.avg_pixel,
            SubTree::Split { nw, ne, sw, se } => if nw.contains(px, py) {
                nw.color_at(px, py)
            } else if ne.contains(px, py) {
                ne.color_at(px, py)
            } else if sw.contains(px, py) {
                sw.color_at(px, py)
            } else {
                se.color_at(px, py)
            },
        }
    }

    /// `after` is `before` with the node's rectangle painted as the tree
    /// renders it.
    pub open spec fn rendered_over(&self, before: Raster, after: Raster) -> bool {
        &&& after.wf()
        &&& after.width == before.width
        &&& after.height == before.height
        &&& forall|px: int, py: int|
            #![trigger after.pixel(px, py)]
            after.in_bounds(px, py) ==> after.pixel(px, py) == if self.contains(px, py) {
                self.color_at(px, py)
            } else {
                before.pixel(px, py)
            }
    }

    /// Height of the tree: zero for a leaf.
    pub open spec fn height_of(&self) -> nat
        decreases self,
    {
        match *self.subtree {
            SubTree::Leaf => 0,
            SubTree::Split { nw, ne, sw, se } => 1 + vstd::math::max(
                vstd::math::max(nw.height_of() as int, ne.height_of() as int),
                vstd::math::max(sw.height_of() as int, se.height_of() as int),
            ) as nat,
        }
    }

    /// Builds the node for the `size` rectangle at `pos`, splitting it up to
    /// `tree_depth` levels deep.
    pub fn new(img: &Raster, pos: (u32, u32), size: (u32, u32), tree_depth: u32) -> (r: Self)
        requires
            img.wf(),
            pos.0 + size.0 <= img.width,
            pos.1 + size.1 <= img.height,
        ensures
            r.has_rect(pos.0 as int, pos.1 as int, size.0 as int, size.1 as int),
            r.built(img, tree_depth as int),
            r.wf(),
        decreases tree_depth, 1int,
    {
        let (x, y) = pos;
        let (width, height) = size;
        let mut qt = QuadTreeNode {
            x,
            y,
            width,
            height,
            subtree: Box::new(SubTree::Leaf),
            avg_pixel: Rgb { r: 0, g: 0, b: 0 },
        };
        qt.subdivide(tree_depth, img);
        proof {
            qt.lemma_built_wf(img, tree_depth as int);
        }
        qt
    }

    /// The raster's pixels inside the node's rectangle, column by column.
    fn pixels(&self, img: &Raster) -> (r: Vec<Rgb>)
        requires
            img.wf(),
            self.within(img),
        ensures
            r@ == self.region(img),
    {
        let mut r: Vec<Rgb> = Vec::new();
        let mut i: u32 = 0;
        while i < self.width
            invariant
                img.wf(),
                self.within(img),
                i <= self.width,
                r@ == img.rect(self.x as int, self.y as int, i as int, self.height as int),
            decreases self.width - i,
        {
            let mut j: u32 = 0;
            while j < self.height
                invariant
                    img.wf(),
                    self.within(img),
                    i < self.width,
                    j <= self.height,
                    r@ == img.rect(self.x as int, self.y as int, i as int, self.height as int)
                        + Seq::new(j as nat, |k: int| img.pixel(self.x + i, self.y + k)),
                decreases self.height - j,
            {
                let p = img.get_pixel(self.x + i, self.y + j);
                r.push(p);
                proof {
                    assert(r@ =~= img.rect(self.x as int, self.y as int, i as int, self.height as int)
                        + Seq::new((j + 1) as nat, |k: int| img.pixel(self.x + i, self.y + k)));
                }
                j = j + 1;
            }
            proof {
                assert(r@ =~= img.rect(self.x as int, self.y as int, i + 1, self.height as int));
            }
            i = i + 1;
        }
        r
    }

    /// Sets the cached average from the node's current shape and returns it.
    fn set_avg_pixel(&mut self, img: &Raster) -> (r: Rgb)
        requires
            img.wf(),
            old(self).within(img),
        ensures
            r == final(self).avg_pixel,
            r == old(self).shape_average(img),
            final(self).same_rect(*old(self)),
            final(self).subtree == old(self).subtree,
    {
        let avg = match &*self.subtree {
            SubTree::Leaf => avg_pixels(&self.pixels(img)),
            SubTree::Split { nw, ne, sw, se } => {
                let quadrant_avgs = vec![nw.avg_pixel, ne.avg_pixel, sw.avg_pixel, se.avg_pixel];
                proof {
                    assert(quadrant_avgs@ =~= seq![
                        nw.avg_pixel,
                        ne.avg_pixel,
                        sw.avg_pixel,
                        se.avg_pixel,
                    ]);
                }
                avg_pixels(&quadrant_avgs)
            },
        };
        self.avg_pixel = avg;
        avg
    }

    /// Splits a leaf into quadrants down to `tree_depth` levels, then sets
    /// the cached average.
    fn subdivide(&mut self, tree_depth: u32, img: &Raster)
        requires
            img.wf(),
            old(self).is_leaf(),
            old(self).within(img),
        ensures
            final(self).same_rect(*old(self)),
            final(self).built(img, tree_depth as int),
        decreases tree_depth, 0int,
    {
        if self.width / 2 == 0 || self.height / 2 == 0 {
        } else if tree_depth > 0 {
            let ctr_x = self.width / 2;
            let ctr_y = self.height / 2;
            let nw = QuadTreeNode::new(img, (self.x, self.y), (ctr_x, ctr_y), tree_depth - 1);
            let ne = QuadTreeNode::new(
                img,
                (self.x + ctr_x, self.y),
                (self.width - ctr_x, ctr_y),
                tree_depth - 1,
            );
            let sw = QuadTreeNode::new(
                img,
                (self.x, self.y + ctr_y),
                (ctr_x, self.height - ctr_y),
                tree_depth - 1,
            );
            let se = QuadTreeNode::new(
                img,
                (self.x + ctr_x, self.y + ctr_y),
                (self.width - ctr_x, self.height - ctr_y),
                tree_depth - 1,
            );
            self.subtree = Box::new(SubTree::Split { nw, ne, sw, se });
        }
        self.set_avg_pixel(img);
    }

    /// Collapses into leaves the split nodes whose variance is at most
    /// `tolerance`, from the top down; a collapsed node keeps its average.
    pub fn prune(&mut self, tolerance: u32, img: &Raster)
        requires
            img.wf(),
            old(self).wf(),
            old(self).within(img),
        ensures
            Self::prune_result(*old(self), *final(self), img, tolerance as int),
            final(self).wf(),
            final(self).node_count() <= old(self).node_count(),
        decreases *old(self),
    {
        let is_split = match &*self.subtree {
            SubTree::Leaf => false,
            SubTree::Split { .. } => true,
        };
        if is_split {
            proof {
                self.lemma_split_region_nonempty(img);
                self.lemma_wf_children_within(img);
            }
            let variance = calc_variance(&self.pixels(img), self.avg_pixel);
            if variance <= tolerance {
                self.subtree = Box::new(SubTree::Leaf);
            } else {
                let mut sub = Box::new(SubTree::Leaf);
                std::mem::swap(&mut self.subtree, &mut sub);
                match *sub {
                    SubTree::Leaf => {},
                    SubTree::Split { mut nw, mut ne, mut sw, mut se } => {
                        nw.prune(tolerance, img);
                        ne.prune(tolerance, img);
                        sw.prune(tolerance, img);
                        se.prune(tolerance, img);
                        self.subtree = Box::new(SubTree::Split { nw, ne, sw, se });
                    },
                }
            }
        }
        proof {
            Self::lemma_prune_result_wf(*old(self), *self, img, tolerance as int);
        }
    }
    /// Paints each leaf's average over its rectangle of `out_image`.
    pub fn render(&self, out_image: &mut Raster)
        requires
            self.wf(),
            old(out_image).wf(),
            self.within(old(out_image)),
        ensures
            self.rendered_over(*old(out_image), *final(out_image)),
        decreases self,
    {
        match &*self.subtree {
            SubTree::Leaf => {
                let avg_pixel = self.avg_pixel;
                let mut i: u32 = 0;
                while i < self.width
                    invariant
                        self.within(out_image),
                        self.is_leaf(),
                        i <= self.width,
                        out_image.wf(),
                        out_image.width == old(out_image).width,
                        out_image.height == old(out_image).height,
                        forall|px: int, py: int|
                            #![trigger out_image.pixel(px, py)]
                            out_image.in_bounds(px, py) ==> out_image.pixel(px, py) == if self.x
                                <= px < self.x + i && self.y <= py < self.y + self.height {
                                avg_pixel
                            } else {
                                old(out_image).pixel(px, py)
                            },
                    decreases self.width - i,
                {
                    let mut j: u32 = 0;
                    while j < self.height
                        invariant
                            self.within(out_image),
                            i < self.width,
                            j <= self.height,
                            out_image.wf(),
                            out_image.width == old(out_image).width,
                            out_image.height == old(out_image).height,
                            forall|px: int, py: int|
                                #![trigger out_image.pixel(px, py)]
                                out_image.in_bounds(px, py) ==> out_image.pixel(px, py) == if (
                                self.x <= px < self.x + i && self.y <= py < self.y + self.height)
                                    || (px == self.x + i && self.y <= py < self.y + j) {
                                    avg_pixel
                                } else {
                                    old(out_image).pixel(px, py)
                                },
                        decreases self.height - j,
                    {
                        out_image.put_pixel(self.x + i, self.y + j, avg_pixel);
                        j = j + 1;
                    }
                    i = i + 1;
                }
            },
            SubTree::Split { nw, ne, sw, se } => {
                nw.render(out_image);
                ne.render(out_image);
                sw.render(out_image);
                se.render(out_image);
            },
        }
    }
    /// Calls `func` on each child, northwest first, southeast last.
    pub fn apply(&self, func: impl Fn(&QuadTreeNode))
        requires
            forall|i: int|
                0 <= i < self.subtree.children().len() ==> func.requires(
                    (&self.subtree.children()[i],),
                ),
    {
        let children = self.get_children();
        let mut i: usize = 0;
        while i < children.len()
            invariant
                children@.len() == self.subtree.children().len(),
                forall|k: int| 0 <= k < children@.len() ==> *children@[k] == self.subtree.children()[k],
                forall|k: int|
                    0 <= k < self.subtree.children().len() ==> func.requires(
                        (&self.subtree.children()[k],),
                    ),
            decreases children@.len() - i,
        {
            func(children[i]);
            i = i + 1;
        }
    }

    /// Calls `func` on each child, northwest first, southeast last.
    pub fn apply_mut(&mut self, mut func: impl FnMut(&mut QuadTreeNode))
        requires
            forall|q: &mut QuadTreeNode| func.requires((q,)),
    {
        match &mut *self.subtree {
            SubTree::Leaf => {},
            SubTree::Split { nw, ne, sw, se } => {
                func(nw);
                func(ne);
                func(sw);
                func(se);
            },
        }
    }

    fn get_children(&self) -> (r: Vec<&QuadTreeNode>)
        ensures
            r@.len() == self.subtree.children().len(),
            forall|i: int| 0 <= i < r@.len() ==> *r@[i] == self.subtree.children()[i],
    {
        self.subtree.get_children()
    }

    /// Height of the tree below this node.
    pub fn tree_height(&self) -> (r: u32)
        requires
            self.height_of() <= u32::MAX,
        ensures
            r == self.height_of(),
        decreases self,
    {
        match &*self.subtree {
            SubTree::Leaf => 0,
            SubTree::Split { nw, ne, sw, se } => {
                let mut highest = nw.tree_height();
                let h = ne.tree_height();
                if h > highest {
                    highest = h;
                }
                let h = sw.tree_height();
                if h > highest {
                    highest = h;
                }
                let h = se.tree_height();
                if h > highest {
                    highest = h;
                }
                highest + 1
            },
        }
    }
}

/// A quadtree over a raster: the raster and the root node covering all of it.
pub struct QuadTree {
    pub img: Raster,
    pub root: QuadTreeNode,
}

impl QuadTree {
    pub open spec fn wf(&self) -> bool {
        &&& self.img.wf()
        &&& self.root.wf()
        &&& self.root.has_rect(0, 0, self.img.width as int, self.img.height as int)
    }

    /// `out` shows, at every pixel, the color of the tree's leaf there.
    pub open spec fn renders(&self, out: Raster) -> bool {
        &&& out.wf()
        &&& out.width == self.img.width
        &&& out.height == self.img.height
        &&& forall|px: int, py: int|
            #![trigger out.pixel(px, py)]
            out.in_bounds(px, py) ==> out.pixel(px, py) == self.root.color_at(px, py)
    }

    /// Builds the tree over `img`, splitting up to `tree_depth` levels deep.
    pub fn new(img: Raster, tree_depth: u32) -> (r: Self)
        requires
            img.wf(),
            img.width > 0,
            img.height > 0,
        ensures
            r.img == img,
            r.wf(),
            r.root.built(&r.img, tree_depth as int),
    {
        let width = img.width;
        let height = img.height;
        let root = QuadTreeNode::new(&img, (0, 0), (width, height), tree_depth);
        QuadTree { img, root }
    }

    /// A raster of the source's size with every leaf's rectangle filled with
    /// its average color.
    pub fn render(&self) -> (r: Raster)
        requires
            self.wf(),
        ensures
            self.renders(r),
    {
        // The buffer's length, a usize, bounds the size of the new raster.
        let _len: usize = self.img.pixels.len();
        let mut out_image = Raster::new(self.img.width, self.img.height);
        self.root.render(&mut out_image);
        out_image
    }

    /// Prunes the tree in place with `tolerance`.
    pub fn prune(&mut self, tolerance: u32)
        requires
            old(self).wf(),
        ensures
            final(self).img == old(self).img,
            final(self).wf(),
            QuadTreeNode::prune_result(old(self).root, final(self).root, &old(self).img, tolerance as int),
            final(self).root.node_count() <= old(self).root.node_count(),
    {
        self.root.prune(tolerance, &self.img);
    }
}

} // verus!
