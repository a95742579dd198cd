use quadtree_compress::quadtree::{QuadTree, QuadTreeNode, SubTree};
use quadtree_compress::raster::Raster;
use quadtree_compress::util::{avg_pixels, calc_variance, Rgb};

const RED: Rgb = Rgb { r: 255, g: 0, b: 0 };
const GREEN: Rgb = Rgb { r: 0, g: 255, b: 0 };
const BLUE: Rgb = Rgb { r: 0, g: 0, b: 255 };
const YELLOW: Rgb = Rgb { r: 255, g: 255, b: 0 };

fn raster_from_fn(width: u32, height: u32, f: impl Fn(u32, u32) -> Rgb) -> Raster {
    let mut pixels = Vec::new();
    for y in 0..height {
        for x in 0..width {
            pixels.push(f(x, y));
        }
    }
    Raster::from_pixels(width, height, pixels).unwrap()
}

/// Four 2x2 solid quadrants: red, green, blue, yellow.
fn quadrant_raster() -> Raster {
    raster_from_fn(4, 4, |x, y| match (x < 2, y < 2) {
        (true, true) => RED,
        (false, true) => GREEN,
        (true, false) => BLUE,
        (false, false) => YELLOW,
    })
}

/// A raster whose pixels all differ.
fn gradient_raster(width: u32, height: u32) -> Raster {
    raster_from_fn(width, height, |x, y| Rgb {
        r: (x * 37 % 256) as u8,
        g: (y * 53 % 256) as u8,
        b: ((x * 11 + y * 29) % 256) as u8,
    })
}

fn node_count(n: &QuadTreeNode) -> usize {
    1 + n.subtree.get_children().iter().map(|c| node_count(c)).sum::<usize>()
}

fn region_pixels(img: &Raster, n: &QuadTreeNode) -> Vec<Rgb> {
    let mut v = Vec::new();
    for x in n.x..n.x + n.width {
        for y in n.y..n.y + n.height {
            v.push(img.get_pixel(x, y));
        }
    }
    v
}

fn check_built(img: &Raster, n: &QuadTreeNode) {
    let children = n.subtree.get_children();
    if children.is_empty() {
        assert_eq!(n.avg_pixel, avg_pixels(&region_pixels(img, n)));
    } else {
        let avgs: Vec<Rgb> = children.iter().map(|c| c.avg_pixel).collect();
        assert_eq!(n.avg_pixel, avg_pixels(&avgs));
        let hw = n.width / 2;
        let hh = n.height / 2;
        let expected = [
            (n.x, n.y, hw, hh),
            (n.x + hw, n.y, n.width - hw, hh),
            (n.x, n.y + hh, hw, n.height - hh),
            (n.x + hw, n.y + hh, n.width - hw, n.height - hh),
        ];
        let mut area = 0;
        for (c, e) in children.iter().zip(expected.iter()) {
            assert_eq!((c.x, c.y, c.width, c.height), *e);
            area += c.width * c.height;
            check_built(img, c);
        }
        assert_eq!(area, n.width * n.height);
    }
}

#[test]
fn it_works() {
    assert_eq!(1, 1);
}

#[test]
fn children_get_unique_pixels() {
    let qt = QuadTree::new(quadrant_raster(), 1);
    let root_avg = qt.root.avg_pixel;
    qt.root.apply(|q| assert_ne!(q.avg_pixel, root_avg));
}

#[test]
fn quadrant_scenario() {
    let mut qt = QuadTree::new(quadrant_raster(), 1);
    let children = qt.root.subtree.get_children();
    assert_eq!(children.len(), 4);
    let colors = [RED, GREEN, BLUE, YELLOW];
    for (c, color) in children.iter().zip(colors.iter()) {
        assert!(c.subtree.get_children().is_empty());
        assert_eq!(c.avg_pixel, *color);
    }
    let root_avg = Rgb { r: 127, g: 127, b: 63 };
    assert_eq!(qt.root.avg_pixel, root_avg);

    qt.prune(0);
    assert_eq!(node_count(&qt.root), 5);

    qt.prune(255);
    assert_eq!(node_count(&qt.root), 1);
    assert_eq!(qt.root.avg_pixel, root_avg);
    let out = qt.render();
    assert_eq!((out.width, out.height), (4, 4));
    assert!(out.pixels.iter().all(|p| *p == root_avg));
}

#[test]
fn quadrant_root_variance() {
    let img = quadrant_raster();
    assert_eq!(calc_variance(&img.pixels, Rgb { r: 127, g: 127, b: 63 }), 115);
}

#[test]
fn depth_zero_is_one_leaf() {
    let img = gradient_raster(5, 3);
    let qt = QuadTree::new(img, 0);
    assert!(qt.root.subtree.get_children().is_empty());
    assert_eq!(qt.root.avg_pixel, avg_pixels(&qt.img.pixels));
    assert_eq!(qt.root.tree_height(), 0);
}

#[test]
fn built_tree_tiles_and_averages() {
    let qt = QuadTree::new(gradient_raster(7, 5), 20);
    assert_eq!((qt.root.x, qt.root.y, qt.root.width, qt.root.height), (0, 0, 7, 5));
    check_built(&qt.img, &qt.root);
    assert_eq!(qt.root.tree_height(), 3);
}

#[test]
fn odd_split_gives_remainder_to_far_quadrants() {
    let qt = QuadTree::new(gradient_raster(5, 3), 1);
    let rects: Vec<(u32, u32, u32, u32)> = qt
        .root
        .subtree
        .get_children()
        .iter()
        .map(|c| (c.x, c.y, c.width, c.height))
        .collect();
    assert_eq!(rects, vec![(0, 0, 2, 1), (2, 0, 3, 1), (0, 1, 2, 2), (2, 1, 3, 2)]);
}

#[test]
fn thin_strip_stays_leaf() {
    let qt = QuadTree::new(gradient_raster(1, 9), 20);
    assert!(qt.root.subtree.get_children().is_empty());
}

#[test]
fn second_prune_with_lower_tolerance_keeps_tree() {
    let mut qt = QuadTree::new(quadrant_raster(), 1);
    qt.prune(200);
    assert_eq!(node_count(&qt.root), 1);
    qt.prune(100);
    assert_eq!(node_count(&qt.root), 1);

    let mut qt = QuadTree::new(gradient_raster(16, 16), 20);
    qt.prune(20);
    let after_first = node_count(&qt.root);
    qt.prune(5);
    assert_eq!(node_count(&qt.root), after_first);
}

#[test]
fn uniform_raster_collapses() {
    let color = Rgb { r: 12, g: 200, b: 77 };
    let mut qt = QuadTree::new(raster_from_fn(7, 5, |_, _| color), 20);
    assert!(node_count(&qt.root) > 1);
    qt.prune(0);
    assert_eq!(node_count(&qt.root), 1);
    assert_eq!(qt.root.avg_pixel, color);
}

#[test]
fn render_twice_is_identical() {
    let qt = QuadTree::new(gradient_raster(9, 6), 20);
    let a = qt.render();
    let b = qt.render();
    assert_eq!(a.pixels, b.pixels);
    assert_eq!((a.width, a.height), (b.width, b.height));
}

#[test]
fn render_unpruned_depth_one_shows_quadrants() {
    let qt = QuadTree::new(quadrant_raster(), 1);
    let out = qt.render();
    assert_eq!(out.pixels, quadrant_raster().pixels);
}

#[test]
fn node_prune_and_render_on_subregion() {
    let img = quadrant_raster();
    let mut node = QuadTreeNode::new(&img, (0, 0), (4, 4), 3);
    node.prune(255, &img);
    assert!(matches!(*node.subtree, SubTree::Leaf));
    let mut out = Raster::new(4, 4);
    node.render(&mut out);
    assert!(out.pixels.iter().all(|p| *p == Rgb { r: 127, g: 127, b: 63 }));
}

#[test]
fn apply_mut_visits_each_child() {
    let mut qt = QuadTree::new(quadrant_raster(), 1);
    qt.root.apply_mut(|q| q.avg_pixel = Rgb { r: 1, g: 2, b: 3 });
    for c in qt.root.subtree.get_children() {
        assert_eq!(c.avg_pixel, Rgb { r: 1, g: 2, b: 3 });
    }
}
