use ruwabar::canvas::Canvas;

const C: u32 = 0xffab_cdef;

fn colored(canvas: &Canvas, color: u32) -> Vec<(u32, u32)> {
    let mut found = Vec::new();
    for x in 0..canvas.width() {
        for y in 0..canvas.height() {
            if canvas.get_pixel(x, y) == Some(color) {
                found.push((x, y));
            }
        }
    }
    found
}

#[test]
fn fill_rect_colors_inside_and_leaves_outside() {
    let mut canvas = Canvas::new(8, 6, 0);
    canvas.fill_rect(2, 1, 3, 4, C);
    for x in 0..8 {
        for y in 0..6 {
            let inside = (2..5).contains(&x) && (1..5).contains(&y);
            assert_eq!(canvas.get_pixel(x, y), Some(if inside { C } else { 0 }));
        }
    }
}

#[test]
fn fill_rect_is_clipped_to_the_window() {
    let mut canvas = Canvas::new(4, 4, 0);
    canvas.fill_rect(2, 3, 100, 100, C);
    assert_eq!(colored(&canvas, C), vec![(2, 3), (3, 3)]);
    let mut canvas = Canvas::new(4, 4, 0);
    canvas.fill_rect(1, 1, u32::MAX, u32::MAX, C);
    assert_eq!(colored(&canvas, C).len(), 9);
    let mut canvas = Canvas::new(4, 4, 0);
    canvas.fill_rect(4, 0, 3, 3, C);
    canvas.fill_rect(u32::MAX, u32::MAX, u32::MAX, u32::MAX, C);
    assert_eq!(colored(&canvas, C), vec![]);
}

#[test]
fn fill_rect_of_no_area_colors_nothing() {
    let mut canvas = Canvas::new(4, 4, 0);
    canvas.fill_rect(1, 1, 0, 3, C);
    canvas.fill_rect(1, 1, 3, 0, C);
    assert_eq!(colored(&canvas, C), vec![]);
}

#[test]
fn fill_colors_every_pixel() {
    let mut canvas = Canvas::new(5, 3, 0);
    canvas.fill(C);
    assert_eq!(canvas.pixels(), &vec![C; 15]);
}

#[test]
fn draw_rect_colors_the_border_only() {
    let mut canvas = Canvas::new(6, 5, 0);
    canvas.draw_rect(1, 1, 4, 3, C);
    assert_eq!(
        colored(&canvas, C),
        vec![(1, 1), (1, 2), (1, 3), (2, 1), (2, 3), (3, 1), (3, 3), (4, 1), (4, 2), (4, 3)]
    );
}

#[test]
fn draw_rect_of_one_row_or_no_area() {
    let mut canvas = Canvas::new(6, 5, 0);
    canvas.draw_rect(1, 2, 3, 1, C);
    assert_eq!(colored(&canvas, C), vec![(1, 2), (2, 2), (3, 2)]);
    let mut canvas = Canvas::new(6, 5, 0);
    canvas.draw_rect(0, 0, 0, 3, C);
    canvas.draw_rect(2, 2, 3, 0, C);
    canvas.draw_rect(2, 2, 0, 0, C);
    assert_eq!(colored(&canvas, C), vec![]);
}

#[test]
fn draw_line_leaves_the_end_point_out() {
    let mut canvas = Canvas::new(8, 2, 0);
    canvas.draw_line(0, 0, 4, 0, C);
    assert_eq!(canvas.get_pixel(0, 0), Some(C));
    assert_eq!(canvas.get_pixel(1, 0), Some(C));
    assert_eq!(canvas.get_pixel(2, 0), Some(C));
    assert_eq!(canvas.get_pixel(3, 0), Some(C));
    assert_eq!(canvas.get_pixel(4, 0), Some(0));
    assert_eq!(colored(&canvas, C).len(), 4);
}

#[test]
fn draw_line_walks_in_every_direction() {
    let mut canvas = Canvas::new(8, 8, 0);
    canvas.draw_line(0, 0, 3, 2, C);
    assert_eq!(colored(&canvas, C), vec![(0, 0), (1, 1), (2, 1)]);
    let mut canvas = Canvas::new(8, 8, 0);
    canvas.draw_line(5, 1, 1, 4, C);
    assert_eq!(colored(&canvas, C), vec![(2, 3), (3, 3), (4, 2), (5, 1)]);
    let mut canvas = Canvas::new(8, 8, 0);
    canvas.draw_line(2, 0, 2, 3, C);
    assert_eq!(colored(&canvas, C), vec![(2, 0), (2, 1), (2, 2)]);
    let mut canvas = Canvas::new(8, 8, 0);
    canvas.draw_line(1, 6, 3, 0, C);
    assert_eq!(colored(&canvas, C), vec![(1, 5), (1, 6), (2, 2), (2, 3), (2, 4), (3, 1)]);
    let mut canvas = Canvas::new(8, 8, 0);
    canvas.draw_line(4, 2, 0, 2, C);
    assert_eq!(colored(&canvas, C), vec![(1, 2), (2, 2), (3, 2), (4, 2)]);
}

#[test]
fn draw_line_between_equal_ends_colors_nothing() {
    let mut canvas = Canvas::new(4, 4, 0);
    canvas.draw_line(2, 2, 2, 2, C);
    assert_eq!(colored(&canvas, C), vec![]);
}

#[test]
fn draw_line_is_clipped_to_the_window() {
    let mut canvas = Canvas::new(3, 3, 0);
    canvas.draw_line(0, 1, 10, 1, C);
    assert_eq!(colored(&canvas, C), vec![(0, 1), (1, 1), (2, 1)]);
}

#[test]
fn fill_oval_paints_a_solid_disk() {
    let mut canvas = Canvas::new(8, 8, 0);
    canvas.fill_oval(1, 1, 5, 5, C);
    assert_eq!(
        colored(&canvas, C),
        vec![
            (1, 3),
            (2, 2),
            (2, 3),
            (2, 4),
            (3, 1),
            (3, 2),
            (3, 3),
            (3, 4),
            (3, 5),
            (4, 2),
            (4, 3),
            (4, 4),
            (5, 3)
        ]
    );
}

#[test]
fn fill_oval_paints_an_ellipse() {
    let mut canvas = Canvas::new(8, 6, 0);
    canvas.fill_oval(0, 0, 7, 5, C);
    assert_eq!(
        colored(&canvas, C),
        vec![
            (0, 2),
            (1, 1),
            (1, 2),
            (1, 3),
            (2, 1),
            (2, 2),
            (2, 3),
            (3, 0),
            (3, 1),
            (3, 2),
            (3, 3),
            (3, 4),
            (4, 1),
            (4, 2),
            (4, 3),
            (5, 1),
            (5, 2),
            (5, 3),
            (6, 2)
        ]
    );
}

#[test]
fn fill_oval_disk_is_symmetric_under_half_turn() {
    for r in 0..9u32 {
        let mut canvas = Canvas::new(24, 24, 0);
        let (cx, cy) = (3 + r, 2 + r);
        canvas.fill_oval(3, 2, 2 * r + 1, 2 * r + 1, C);
        let disk = colored(&canvas, C);
        assert!(!disk.is_empty());
        for (x, y) in &disk {
            assert!(disk.contains(&(2 * cx - x, 2 * cy - y)));
        }
    }
}

#[test]
fn fill_oval_disk_holds_what_is_within_the_radius() {
    for r in 1..8i64 {
        let mut canvas = Canvas::new(20, 20, 0);
        let (cx, cy) = (9i64, 8i64);
        let side = (2 * r + 1) as u32;
        canvas.fill_oval((cx - r) as u32, (cy - r) as u32, side, side, C);
        for x in 0..20i64 {
            for y in 0..20i64 {
                let within = (x - cx) * (x - cx) + (y - cy) * (y - cy) <= r * r;
                let expected = if within { C } else { 0 };
                assert_eq!(canvas.get_pixel(x as u32, y as u32), Some(expected));
            }
        }
    }
}

#[test]
fn fill_oval_of_even_size_leans_to_the_top_left() {
    let mut canvas = Canvas::new(6, 6, 0);
    canvas.fill_oval(0, 0, 4, 4, C);
    assert_eq!(
        colored(&canvas, C),
        vec![(0, 2), (1, 1), (1, 2), (1, 3), (2, 0), (2, 1), (2, 2), (2, 3), (3, 1), (3, 2), (3, 3)]
    );
}

#[test]
fn fill_oval_is_clipped_to_the_window() {
    let mut canvas = Canvas::new(3, 3, 0);
    canvas.fill_oval(1, 1, 5, 5, C);
    assert_eq!(colored(&canvas, C), vec![(2, 2)]);
    let mut canvas = Canvas::new(3, 3, 0);
    canvas.fill_oval(u32::MAX, u32::MAX, 5, 5, C);
    canvas.fill_oval(0, 0, 0, 0, C);
    assert_eq!(colored(&canvas, C), vec![]);
}

#[test]
fn draw_oval_paints_only_exact_boundary_points() {
    let mut canvas = Canvas::new(8, 8, 0);
    canvas.draw_oval(0, 0, 7, 7, C);
    assert_eq!(colored(&canvas, C), vec![(0, 3), (3, 0), (3, 6), (6, 3)]);
    let mut canvas = Canvas::new(12, 12, 0);
    canvas.draw_oval(0, 0, 11, 11, C);
    assert_eq!(
        colored(&canvas, C),
        vec![
            (0, 5),
            (1, 2),
            (1, 8),
            (2, 1),
            (2, 9),
            (5, 0),
            (5, 10),
            (8, 1),
            (8, 9),
            (9, 2),
            (9, 8),
            (10, 5)
        ]
    );
}

#[test]
fn fill_rounded_rect_with_radius_zero_is_fill_rect() {
    let mut rounded = Canvas::new(12, 10, 0);
    let mut plain = Canvas::new(12, 10, 0);
    rounded.fill_rounded_rect(1, 2, 9, 6, 0, C);
    plain.fill_rect(1, 2, 9, 6, C);
    assert_eq!(rounded.pixels(), plain.pixels());
    assert_eq!(colored(&rounded, C).len(), 54);
}

fn rows(canvas: &Canvas, color: u32) -> Vec<String> {
    (0..canvas.height())
        .map(|y| {
            (0..canvas.width())
                .map(|x| if canvas.get_pixel(x, y) == Some(color) { '#' } else { '.' })
                .collect()
        })
        .collect()
}

#[test]
fn fill_rounded_rect_rounds_the_corners() {
    let mut canvas = Canvas::new(12, 10, 0);
    canvas.fill_rounded_rect(1, 1, 10, 8, 3, C);
    assert_eq!(
        rows(&canvas, C),
        vec![
            "............",
            "....#####...",
            "..#########.",
            "..#########.",
            ".##########.",
            ".##########.",
            ".##########.",
            "..#########.",
            "..#########.",
            "............",
        ]
    );
}

#[test]
fn fill_rounded_rect_clamps_the_radius() {
    let mut canvas = Canvas::new(10, 7, 0);
    canvas.fill_rounded_rect(0, 0, 9, 6, 100, C);
    assert_eq!(
        rows(&canvas, C),
        vec![
            "...####...",
            ".########.",
            ".########.",
            "#########.",
            ".########.",
            ".########.",
            "..........",
        ]
    );
    let mut clamped = Canvas::new(10, 7, 0);
    clamped.fill_rounded_rect(0, 0, 9, 6, 3, C);
    assert_eq!(canvas.pixels(), clamped.pixels());
}

#[test]
fn fill_rounded_rect_too_thin_for_a_radius_is_a_rect() {
    let mut rounded = Canvas::new(8, 4, 0);
    let mut plain = Canvas::new(8, 4, 0);
    rounded.fill_rounded_rect(1, 1, 6, 1, 5, C);
    plain.fill_rect(1, 1, 6, 1, C);
    assert_eq!(rounded.pixels(), plain.pixels());
}

#[test]
fn draw_rounded_rect_draws_inset_edges_and_corner_markers() {
    let mut canvas = Canvas::new(12, 9, 0);
    canvas.draw_rounded_rect(1, 1, 10, 7, 2, 2, C);
    assert_eq!(
        rows(&canvas, C),
        vec![
            "............",
            "...######...",
            "..#......#..",
            ".#........#.",
            ".#........#.",
            ".#........#.",
            "..#......#..",
            "...######...",
            "............",
        ]
    );
}

#[test]
fn draw_rounded_rect_clips_what_falls_left_of_the_window() {
    let mut canvas = Canvas::new(4, 4, 0);
    canvas.draw_rounded_rect(0, 0, 0, 0, 0, 0, C);
    assert_eq!(colored(&canvas, C), vec![(0, 0)]);
}
