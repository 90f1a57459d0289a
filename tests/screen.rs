use simple_3d::{begin_frame, Depth, Pixel, Screen};

fn depth(z: f32) -> Depth {
    Depth::from_bits(z.to_bits())
}

fn stored(screen: &Screen, x: usize, y: usize) -> f32 {
    let (w, _) = screen.size();
    f32::from_bits(screen.depth()[x + y * w as usize].to_bits())
}

#[test]
fn screen_test_rasterize_point() {
    let mut screen = Screen::new(10, 10);

    let pixel = Pixel(255, 0, 0, 255);
    screen.put_pixel((5, 5), depth(0.5), pixel);
    assert_eq!(screen.buffer()[5 + 5 * 10], pixel);

    screen.put_pixel((5, 5), depth(0.6), Pixel(0, 255, 128, 255));
    assert_eq!(screen.buffer()[5 + 5 * 10], pixel);

    let pixel = Pixel(64, 255, 0, 255);
    screen.put_pixel((5, 5), depth(0.4), pixel);
    assert_eq!(screen.buffer()[5 + 5 * 10], pixel);

    let second_pixel = Pixel(64, 255, 0, 255);
    screen.put_pixel((4, 6), depth(0.3), second_pixel);
    assert_eq!(screen.buffer()[5 + 5 * 10], pixel);
    assert_eq!(screen.buffer()[4 + 6 * 10], second_pixel);
}

#[test]
fn rasterizing_test_rasterize_point() {
    let mut screen = Screen::new(10, 10);

    let pixel = Pixel(255, 0, 0, 255);
    screen.put_pixel((5, 5), depth(0.5), pixel);
    assert_eq!(screen.buffer()[5 + 5 * 10], pixel);

    screen.put_pixel((5, 5), depth(0.6), Pixel(0, 255, 128, 255));
    assert_eq!(screen.buffer()[5 + 5 * 10], pixel);

    let pixel = Pixel(64, 255, 0, 255);
    screen.put_pixel((5, 5), depth(0.4), pixel);
    assert_eq!(screen.buffer()[5 + 5 * 10], pixel);

    let second_pixel = Pixel(64, 255, 0, 255);
    screen.put_pixel((4, 6), depth(0.3), second_pixel);
    assert_eq!(screen.buffer()[5 + 5 * 10], pixel);
    assert_eq!(screen.buffer()[4 + 6 * 10], second_pixel);
}

#[test]
fn new_screen_is_white_and_infinitely_deep() {
    let screen = Screen::new(4, 3);
    assert_eq!(screen.size(), (4, 3));
    assert_eq!(screen.buffer().len(), 12);
    assert_eq!(screen.depth().len(), 12);
    assert!(screen.buffer().iter().all(|p| *p == Pixel(255, 255, 255, 255)));
    assert!(screen.depth().iter().all(|d| f32::from_bits(d.to_bits()) == f32::INFINITY));
}

#[test]
fn empty_screen_has_empty_buffers() {
    let mut screen = Screen::new(0, 5);
    screen.put_pixel((0, 0), depth(1.0), Pixel(1, 2, 3, 4));
    assert_eq!(screen.buffer().len(), 0);
    assert_eq!(screen.depth().len(), 0);
}

#[test]
fn depth_never_exceeds_smallest_finite_write() {
    let mut screen = Screen::new(3, 2);
    let writes: [((u32, u32), f32); 8] = [
        ((1, 1), 4.0),
        ((1, 1), 2.5),
        ((1, 1), 3.0),
        ((0, 0), -1.0),
        ((1, 1), f32::INFINITY),
        ((2, 0), f32::NAN),
        ((0, 0), 7.0),
        ((3, 0), 0.1),
    ];
    for (i, (pos, z)) in writes.iter().enumerate() {
        screen.put_pixel(*pos, depth(*z), Pixel(i as u8, 0, 0, 255));
    }
    assert_eq!(screen.buffer().len(), 6);
    assert_eq!(stored(&screen, 1, 1), 2.5);
    assert_eq!(stored(&screen, 0, 0), -1.0);
    assert_eq!(stored(&screen, 2, 0), f32::INFINITY);
    assert_eq!(screen.buffer()[1 + 3], Pixel(1, 0, 0, 255));
    assert_eq!(screen.buffer()[0], Pixel(3, 0, 0, 255));
}

#[test]
fn clearing_twice_equals_clearing_once() {
    let mut once = Screen::new(2, 2);
    once.put_pixel((1, 0), depth(0.5), Pixel(0, 0, 255, 255));
    let mut twice = Screen::new(2, 2);
    twice.put_pixel((1, 0), depth(0.5), Pixel(0, 0, 255, 255));

    once.clear_buffer();
    twice.clear_buffer();
    twice.clear_buffer();
    assert_eq!(once.buffer(), twice.buffer());
    assert_eq!(stored(&once, 1, 0), 0.5);

    once.clear_depth();
    twice.clear_depth();
    twice.clear_depth();
    assert_eq!(once.depth(), twice.depth());
    assert_eq!(stored(&twice, 1, 0), f32::INFINITY);
}

#[test]
fn writes_past_the_edges_are_ignored() {
    let mut screen = Screen::new(3, 2);
    screen.put_pixel((3, 0), depth(0.5), Pixel(1, 1, 1, 1));
    screen.put_pixel((0, 2), depth(0.5), Pixel(1, 1, 1, 1));
    assert!(screen.buffer().iter().all(|p| *p == Pixel(255, 255, 255, 255)));
    assert!(screen.depth().iter().all(|d| f32::from_bits(d.to_bits()) == f32::INFINITY));
}

#[test]
fn infinite_depth_is_ignored() {
    let mut screen = Screen::new(2, 2);
    screen.put_pixel((1, 1), depth(f32::INFINITY), Pixel(9, 9, 9, 9));
    screen.put_pixel((0, 1), depth(f32::NEG_INFINITY), Pixel(9, 9, 9, 9));
    assert!(screen.buffer().iter().all(|p| *p == Pixel(255, 255, 255, 255)));
}

#[test]
fn equal_depth_keeps_the_first_write() {
    let mut screen = Screen::new(2, 2);
    screen.put_pixel((0, 1), depth(0.25), Pixel(1, 0, 0, 255));
    screen.put_pixel((0, 1), depth(0.25), Pixel(0, 1, 0, 255));
    assert_eq!(screen.buffer()[2], Pixel(1, 0, 0, 255));
    screen.put_pixel((1, 1), depth(0.0), Pixel(1, 0, 0, 255));
    screen.put_pixel((1, 1), depth(-0.0), Pixel(0, 1, 0, 255));
    assert_eq!(screen.buffer()[3], Pixel(1, 0, 0, 255));
}

#[test]
fn single_pixel_triangle_writes() {
    // The fragments that the triangle (1,1,1), (2,1,1), (1,2,1) covers.
    let mut screen = Screen::new(3, 3);
    let red = Pixel(255, 0, 0, 255);
    for pos in [(1, 1), (2, 1), (1, 2)] {
        screen.put_pixel(pos, depth(1.0), red);
    }
    for y in 0..3usize {
        for x in 0..3usize {
            let covered = matches!((x, y), (1, 1) | (2, 1) | (1, 2));
            if covered {
                assert_eq!(screen.buffer()[x + 3 * y], red);
                assert_eq!(stored(&screen, x, y), 1.0);
            } else {
                assert_eq!(screen.buffer()[x + 3 * y], Pixel(255, 255, 255, 255));
                assert_eq!(stored(&screen, x, y), f32::INFINITY);
            }
        }
    }
}

#[test]
fn nearer_triangle_occludes_farther_one() {
    let blue = Pixel(0, 0, 255, 255);
    let green = Pixel(0, 255, 0, 255);
    let all = [(0, 0), (1, 0), (0, 1), (1, 1)];

    let mut screen = Screen::new(2, 2);
    for pos in all {
        screen.put_pixel(pos, depth(5.0), blue);
    }
    for pos in all {
        screen.put_pixel(pos, depth(2.0), green);
    }
    assert!(screen.buffer().iter().all(|p| *p == green));
    assert!(screen.depth().iter().all(|d| f32::from_bits(d.to_bits()) == 2.0));

    let mut reversed = Screen::new(2, 2);
    for pos in all {
        reversed.put_pixel(pos, depth(2.0), green);
    }
    for pos in all {
        reversed.put_pixel(pos, depth(5.0), blue);
    }
    assert!(reversed.buffer().iter().all(|p| *p == green));
}

#[test]
fn begin_frame_resets_both_buffers() {
    let mut screen = Screen::new(2, 1);
    screen.put_pixel((0, 0), depth(0.5), Pixel(0, 0, 0, 255));
    begin_frame(&mut screen);
    assert_eq!(screen.buffer(), &[Pixel(255, 255, 255, 255); 2][..]);
    assert_eq!(stored(&screen, 0, 0), f32::INFINITY);
}
