use label_extract::annotation::{default_locale, BlockType};
use label_extract::geometry::{BoundingBox, BoundingBoxVertices, Vertex};

fn bx(left: i32, top: i32, right: i32, bottom: i32) -> BoundingBox {
    BoundingBox {
        vertices: BoundingBoxVertices {
            sw: Vertex { x: left, y: bottom },
            se: Vertex { x: right, y: bottom },
            ne: Vertex { x: right, y: top },
            nw: Vertex { x: left, y: top },
        },
    }
}

#[test]
fn extents_use_min_max_over_corner_pairs() {
    // Skewed quadrilateral: no single corner determines an extent.
    let b = BoundingBox {
        vertices: BoundingBoxVertices {
            sw: Vertex { x: 3, y: 1 },
            se: Vertex { x: 9, y: 2 },
            ne: Vertex { x: 11, y: 12 },
            nw: Vertex { x: 2, y: 10 },
        },
    };
    assert_eq!(b.left(), 2);
    assert_eq!(b.right(), 11);
    assert_eq!(b.top(), 12);
    assert_eq!(b.bottom(), 1);
    assert_eq!(b.width(), 9);
    assert_eq!(b.height(), 11);
    assert_eq!(b.area(), 99);
}

#[test]
fn merge_exact_corner_assignment() {
    let a = bx(0, 10, 10, 0);
    let b = BoundingBox {
        vertices: BoundingBoxVertices {
            sw: Vertex { x: 5, y: -5 },
            se: Vertex { x: 20, y: -5 },
            ne: Vertex { x: 20, y: 8 },
            nw: Vertex { x: 5, y: 8 },
        },
    };
    let m = a.merge(&b);
    // sw: coordinate-wise min.
    assert_eq!(m.vertices.sw, Vertex { x: 0, y: -5 });
    // se: max x, min y.
    assert_eq!(m.vertices.se, Vertex { x: 20, y: -5 });
    // ne: coordinate-wise max.
    assert_eq!(m.vertices.ne, Vertex { x: 20, y: 10 });
    // nw: min x, max y.
    assert_eq!(m.vertices.nw, Vertex { x: 0, y: 10 });
}

#[test]
fn merge_is_asymmetric_not_a_plain_union() {
    // Corners placed so that the asymmetric assignment matters: se keeps
    // the minimal y even when that shrinks the quadrilateral's south edge.
    let a = BoundingBox {
        vertices: BoundingBoxVertices {
            sw: Vertex { x: 0, y: 0 },
            se: Vertex { x: 10, y: 4 },
            ne: Vertex { x: 10, y: 10 },
            nw: Vertex { x: 0, y: 10 },
        },
    };
    let b = BoundingBox {
        vertices: BoundingBoxVertices {
            sw: Vertex { x: 1, y: 2 },
            se: Vertex { x: 9, y: 1 },
            ne: Vertex { x: 9, y: 9 },
            nw: Vertex { x: 1, y: 9 },
        },
    };
    let m = a.merge(&b);
    assert_eq!(m.vertices.se, Vertex { x: 10, y: 1 });
    assert_eq!(m.vertices.sw, Vertex { x: 0, y: 0 });
    assert_eq!(m.vertices.nw, Vertex { x: 0, y: 10 });
}

#[test]
fn merge_hull_property() {
    let a = bx(100, 50, 300, 10);
    let b = bx(50, 80, 250, 20);
    let m = a.merge(&b);
    assert!(m.left() <= a.left().min(b.left()));
    assert!(m.right() >= a.right().max(b.right()));
    let m2 = b.merge(&a);
    assert!(m2.left() <= a.left().min(b.left()));
    assert!(m2.right() >= a.right().max(b.right()));
}

#[test]
fn default_locale_is_en() {
    assert_eq!(default_locale(), "en");
}

#[test]
fn block_type_variants_compare() {
    assert_eq!(BlockType::Text, BlockType::Text);
    assert_ne!(BlockType::Table, BlockType::Barcode);
    let c = BlockType::Ruler;
    assert_eq!(c, c.clone());
}
