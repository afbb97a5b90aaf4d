//! Visual click marker in the screenshot: a red ring with a light contrast
//! edge, drawn around the click location.
//!
//! The rings are bounded by squared radii (13², 15², 20², 22²), so every
//! pixel test is an exact integer comparison.

use vstd::prelude::*;
use crate::canvas::{Canvas, pixel_at};

verus! {

/// The red of the ring.
pub open spec fn red() -> [u8; 4] {
    [235, 30, 30, 255]
}

/// The white of the contrast edges.
pub open spec fn white() -> [u8; 4] {
    [255, 255, 255, 255]
}

/// Squared distance of pixel (x, y) from (cx, cy).
pub open spec fn dist2(x: int, y: int, cx: int, cy: int) -> int {
    (x - cx) * (x - cx) + (y - cy) * (y - cy)
}

/// A pixel after one ring: `color` when its squared distance lies in
/// `[r2i, r2o]`, unchanged otherwise.
pub open spec fn ring_pixel(old: [u8; 4], d2: int, r2i: int, r2o: int, color: [u8; 4]) -> [u8; 4] {
    if r2i <= d2 && d2 <= r2o {
        color
    } else {
        old
    }
}

/// A pixel after the three rings, drawn in order: white for squared
/// distances 400..=484, red for 225..=400, white for 169..=225 (a later ring
/// wins where two meet).
pub open spec fn marker_pixel(old: [u8; 4], d2: int) -> [u8; 4] {
    ring_pixel(ring_pixel(ring_pixel(old, d2, 400, 484, white()), d2, 225, 400, red()), d2, 169, 225, white())
}

/// Law: the marker is a red ring between a white inner and a white outer
/// edge; the pixels inside the inner edge (the clicked spot itself) and
/// beyond the outer edge keep their colour.
pub proof fn law_marker_rings(p: [u8; 4], d2: int)
    ensures
        d2 < 169 ==> marker_pixel(p, d2) == p,
        169 <= d2 <= 225 ==> marker_pixel(p, d2) == white(),
        225 < d2 <= 400 ==> marker_pixel(p, d2) == red(),
        400 < d2 <= 484 ==> marker_pixel(p, d2) == white(),
        d2 > 484 ==> marker_pixel(p, d2) == p,
{
}

/// Whether the click lies so far outside the image that no ring pixel can
/// fall inside it.
pub open spec fn off_canvas(w: int, h: int, cx: int, cy: int) -> bool {
    cx < -40 || cy < -40 || cx >= w + 40 || cy >= h + 40
}

/// Squares grow with the distance from zero.
proof fn lemma_square_outside(d: int, rad: int)
    requires
        rad >= 0,
        d < -rad || d > rad,
    ensures
        d * d > rad * rad,
{
    assert(d * d > rad * rad) by (nonlinear_arith)
        requires
            rad >= 0,
            d < -rad || d > rad,
    ;
}

/// Draws one ring of squared radii `r2i..=r2o` around (cx, cy), visiting the
/// square of half-width `rad` around it.
fn draw_ring(img: &mut Canvas, cx: i64, cy: i64, r2i: i64, r2o: i64, rad: i64, color: [u8; 4])
    requires
        old(img).wf(),
        0 <= rad <= 100,
        0 <= r2i,
        r2o <= rad * rad,
        -100000 <= cx <= i32::MAX,
        -100000 <= cy <= i32::MAX,
    ensures
        final(img).wf(),
        final(img).width_of() == old(img).width_of(),
        final(img).height_of() == old(img).height_of(),
        forall|x: int, y: int|
            0 <= x < old(img).width_of() && 0 <= y < old(img).height_of() ==> #[trigger] pixel_at(
                final(img).pixels_of(),
                old(img).width_of(),
                x,
                y,
            ) == ring_pixel(
                pixel_at(old(img).pixels_of(), old(img).width_of(), x, y),
                dist2(x, y, cx as int, cy as int),
                r2i as int,
                r2o as int,
                color,
            ),
{
    let w: i64 = img.width() as i64;
    let h: i64 = img.height() as i64;
    let ghost start = img.pixels_of();
    let ghost wi = w as int;
    let ghost hi = h as int;
    let mut dy: i64 = -rad;
    proof {
        assert forall|x: int, y: int| 0 <= x < wi && 0 <= y < hi implies #[trigger] pixel_at(
            img.pixels_of(),
            wi,
            x,
            y,
        ) == (if y - cy < dy {
            ring_pixel(
                pixel_at(start, wi, x, y),
                dist2(x, y, cx as int, cy as int),
                r2i as int,
                r2o as int,
                color,
            )
        } else {
            pixel_at(start, wi, x, y)
        }) by {
            if y - cy < dy {
                lemma_square_outside(y - cy, rad as int);
                assert((x - cx) * (x - cx) >= 0) by (nonlinear_arith);
            }
        }
    }
    while dy <= rad
        invariant
            img.wf(),
            img.width_of() == wi,
            img.height_of() == hi,
            w == wi,
            h == hi,
            0 <= rad <= 100,
            0 <= r2i,
            r2o <= rad * rad,
            -100000 <= cx <= i32::MAX,
            -100000 <= cy <= i32::MAX,
            -rad <= dy <= rad + 1,
            forall|x: int, y: int|
                0 <= x < wi && 0 <= y < hi ==> #[trigger] pixel_at(img.pixels_of(), wi, x, y) == (
                if y - cy < dy {
                    ring_pixel(
                        pixel_at(start, wi, x, y),
                        dist2(x, y, cx as int, cy as int),
                        r2i as int,
                        r2o as int,
                        color,
                    )
                } else {
                    pixel_at(start, wi, x, y)
                }),
        decreases rad + 1 - dy,
    {
        let mut dx: i64 = -rad;
        proof {
            assert forall|x: int, y: int| 0 <= x < wi && 0 <= y < hi implies #[trigger] pixel_at(
                img.pixels_of(),
                wi,
                x,
                y,
            ) == (if y - cy < dy || (y - cy == dy && x - cx < dx) {
                ring_pixel(
                    pixel_at(start, wi, x, y),
                    dist2(x, y, cx as int, cy as int),
                    r2i as int,
                    r2o as int,
                    color,
                )
            } else {
                pixel_at(start, wi, x, y)
            }) by {
                if y - cy == dy && x - cx < dx {
                    lemma_square_outside(x - cx, rad as int);
                    assert((y - cy) * (y - cy) >= 0) by (nonlinear_arith);
                }
            }
        }
        while dx <= rad
            invariant
                img.wf(),
                img.width_of() == wi,
                img.height_of() == hi,
                w == wi,
                h == hi,
                0 <= rad <= 100,
                0 <= r2i,
                r2o <= rad * rad,
                -100000 <= cx <= i32::MAX,
                -100000 <= cy <= i32::MAX,
                -rad <= dy <= rad,
                -rad <= dx <= rad + 1,
                forall|x: int, y: int|
                    0 <= x < wi && 0 <= y < hi ==> #[trigger] pixel_at(img.pixels_of(), wi, x, y)
                        == (if y - cy < dy || (y - cy == dy && x - cx < dx) {
                        ring_pixel(
                            pixel_at(start, wi, x, y),
                            dist2(x, y, cx as int, cy as int),
                            r2i as int,
                            r2o as int,
                            color,
                        )
                    } else {
                        pixel_at(start, wi, x, y)
                    }),
            decreases rad + 1 - dx,
        {
            let px: i64 = cx + dx;
            let py: i64 = cy + dy;
            if px < 0 || py < 0 || px >= w || py >= h {
                proof {
                    assert forall|x: int, y: int| 0 <= x < wi && 0 <= y < hi implies #[trigger] pixel_at(
                        img.pixels_of(),
                        wi,
                        x,
                        y,
                    ) == (if y - cy < dy || (y - cy == dy && x - cx < dx + 1) {
                        ring_pixel(
                            pixel_at(start, wi, x, y),
                            dist2(x, y, cx as int, cy as int),
                            r2i as int,
                            r2o as int,
                            color,
                        )
                    } else {
                        pixel_at(start, wi, x, y)
                    }) by {}
                }
                dx = dx + 1;
                continue;
            }
            assert(0 <= dx * dx <= 10000 && 0 <= dy * dy <= 10000) by (nonlinear_arith)
                requires
                    -100 <= dx <= 100,
                    -100 <= dy <= 100,
            ;
            let d2: i64 = dx * dx + dy * dy;
            let ghost before = img.pixels_of();
            if d2 >= r2i && d2 <= r2o {
                img.put_pixel(px as u32, py as u32, color);
            }
            proof {
                assert forall|x: int, y: int| 0 <= x < wi && 0 <= y < hi implies #[trigger] pixel_at(
                    img.pixels_of(),
                    wi,
                    x,
                    y,
                ) == (if y - cy < dy || (y - cy == dy && x - cx < dx + 1) {
                    ring_pixel(
                        pixel_at(start, wi, x, y),
                        dist2(x, y, cx as int, cy as int),
                        r2i as int,
                        r2o as int,
                        color,
                    )
                } else {
                    pixel_at(start, wi, x, y)
                }) by {
                    assert(pixel_at(before, wi, x, y) == (if y - cy < dy || (y - cy == dy && x - cx
                        < dx) {
                        ring_pixel(
                            pixel_at(start, wi, x, y),
                            dist2(x, y, cx as int, cy as int),
                            r2i as int,
                            r2o as int,
                            color,
                        )
                    } else {
                        pixel_at(start, wi, x, y)
                    }));
                    if x == px && y == py {
                        assert(dist2(x, y, cx as int, cy as int) == d2);
                    }
                }
            }
            dx = dx + 1;
        }
        proof {
            assert forall|x: int, y: int| 0 <= x < wi && 0 <= y < hi implies #[trigger] pixel_at(
                img.pixels_of(),
                wi,
                x,
                y,
            ) == (if y - cy < dy + 1 {
                ring_pixel(
                    pixel_at(start, wi, x, y),
                    dist2(x, y, cx as int, cy as int),
                    r2i as int,
                    r2o as int,
                    color,
                )
            } else {
                pixel_at(start, wi, x, y)
            }) by {
                if y - cy == dy && x - cx >= dx {
                    lemma_square_outside(x - cx, rad as int);
                    assert((y - cy) * (y - cy) >= 0) by (nonlinear_arith);
                }
            }
        }
        dy = dy + 1;
    }
    proof {
        assert forall|x: int, y: int| 0 <= x < wi && 0 <= y < hi implies #[trigger] pixel_at(
            img.pixels_of(),
            wi,
            x,
            y,
        ) == ring_pixel(
            pixel_at(start, wi, x, y),
            dist2(x, y, cx as int, cy as int),
            r2i as int,
            r2o as int,
            color,
        ) by {
            if y - cy >= dy {
                lemma_square_outside(y - cy, rad as int);
                assert((x - cx) * (x - cx) >= 0) by (nonlinear_arith);
            }
        }
    }
}

/// Draws a red ring (with a light contrast edge) around (cx, cy); nothing
/// when the click lies entirely off the canvas.
pub fn draw_click_marker(img: &mut Canvas, cx: i32, cy: i32)
    requires
        old(img).wf(),
        old(img).width_of() + 40 <= i32::MAX,
        old(img).height_of() + 40 <= i32::MAX,
    ensures
        final(img).wf(),
        final(img).width_of() == old(img).width_of(),
        final(img).height_of() == old(img).height_of(),
        forall|x: int, y: int|
            0 <= x < old(img).width_of() && 0 <= y < old(img).height_of() ==> #[trigger] pixel_at(
                final(img).pixels_of(),
                old(img).width_of(),
                x,
                y,
            ) == if off_canvas(old(img).width_of(), old(img).height_of(), cx as int, cy as int) {
                pixel_at(old(img).pixels_of(), old(img).width_of(), x, y)
            } else {
                marker_pixel(
                    pixel_at(old(img).pixels_of(), old(img).width_of(), x, y),
                    dist2(x, y, cx as int, cy as int),
                )
            },
{
    let w: i32 = img.width() as i32;
    let h: i32 = img.height() as i32;
    if cx < -40 || cy < -40 || cx >= w + 40 || cy >= h + 40 {
        return;
    }
    let ghost wi = img.width_of();
    let ghost start = img.pixels_of();
    draw_ring(img, cx as i64, cy as i64, 400, 484, 22, [255, 255, 255, 255]);
    let ghost one = img.pixels_of();
    draw_ring(img, cx as i64, cy as i64, 225, 400, 20, [235, 30, 30, 255]);
    let ghost two = img.pixels_of();
    draw_ring(img, cx as i64, cy as i64, 169, 225, 15, [255, 255, 255, 255]);
    proof {
        assert forall|x: int, y: int|
            0 <= x < wi && 0 <= y < old(img).height_of() implies #[trigger] pixel_at(
            img.pixels_of(),
            wi,
            x,
            y,
        ) == marker_pixel(pixel_at(start, wi, x, y), dist2(x, y, cx as int, cy as int)) by {
            assert(pixel_at(one, wi, x, y) == ring_pixel(
                pixel_at(start, wi, x, y),
                dist2(x, y, cx as int, cy as int),
                400,
                484,
                white(),
            ));
            assert(pixel_at(two, wi, x, y) == ring_pixel(
                pixel_at(one, wi, x, y),
                dist2(x, y, cx as int, cy as int),
                225,
                400,
                red(),
            ));
        }
    }
}

} // verus!
