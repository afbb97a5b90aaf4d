use stepshot::annotate::draw_click_marker;
use stepshot::canvas::Canvas;

const BLACK: [u8; 4] = [0, 0, 0, 255];
const WHITE: [u8; 4] = [255, 255, 255, 255];
const RED: [u8; 4] = [235, 30, 30, 255];

fn black(w: u32, h: u32) -> Canvas {
    Canvas::from_pixels(w, h, vec![BLACK; (w * h) as usize]).unwrap()
}

#[test]
fn canvas_needs_width_times_height_pixels() {
    assert!(Canvas::from_pixels(2, 2, vec![BLACK; 3]).is_none());
    assert!(Canvas::from_pixels(0, 5, vec![]).is_some());
    let mut c = black(2, 2);
    c.put_pixel(1, 0, RED);
    assert_eq!(c.get_pixel(1, 0), RED);
    assert_eq!(c.get_pixel(0, 1), BLACK);
    assert_eq!(c.into_pixels(), vec![BLACK, RED, BLACK, BLACK]);
}

#[test]
fn marker_rings_by_distance() {
    let mut c = black(100, 100);
    draw_click_marker(&mut c, 50, 50);
    assert_eq!(c.get_pixel(50, 50), BLACK); // centre stays visible
    assert_eq!(c.get_pixel(62, 50), BLACK); // d² = 144, inside the inner ring
    assert_eq!(c.get_pixel(63, 50), WHITE); // d² = 169, inner white edge
    assert_eq!(c.get_pixel(65, 50), WHITE); // d² = 225: red, then white on top
    assert_eq!(c.get_pixel(67, 50), RED); // d² = 289
    assert_eq!(c.get_pixel(70, 50), RED); // d² = 400: white, then red on top
    assert_eq!(c.get_pixel(71, 50), WHITE); // d² = 441, outer white edge
    assert_eq!(c.get_pixel(72, 50), WHITE); // d² = 484
    assert_eq!(c.get_pixel(73, 50), BLACK); // d² = 529, outside
    assert_eq!(c.get_pixel(62, 62), RED); // d² = 144 + 144 = 288
}

#[test]
fn marker_is_clipped_at_the_edges() {
    let mut c = black(30, 30);
    draw_click_marker(&mut c, -10, -10);
    assert_eq!(c.get_pixel(0, 0), WHITE); // d² = 200
    assert_eq!(c.get_pixel(5, 0), RED); // d² = 325
    assert_eq!(c.get_pixel(29, 29), BLACK);
}

#[test]
fn marker_far_off_canvas_draws_nothing() {
    for (x, y) in [(-41, 10), (10, -41), (70, 10), (10, 70)] {
        let mut c = black(30, 30);
        draw_click_marker(&mut c, x, y);
        assert!(c.into_pixels().iter().all(|p| *p == BLACK));
    }
    // Just inside the margin: the outer ring reaches the canvas.
    let mut c = black(30, 30);
    draw_click_marker(&mut c, -21, 0);
    assert_eq!(c.get_pixel(0, 0), WHITE); // d² = 441
}
