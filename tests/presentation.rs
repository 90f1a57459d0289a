use simple_3d::{get_display_size, CliInterface, Key, Pixel, WasmInterface};

#[test]
fn glyph_bands() {
    assert_eq!(CliInterface::glyph_index(&Pixel(0, 0, 0, 255)), 0);
    assert_eq!(CliInterface::glyph_index(&Pixel(25, 25, 26, 255)), 0);
    assert_eq!(CliInterface::glyph_index(&Pixel(26, 25, 26, 255)), 1);
    assert_eq!(CliInterface::glyph_index(&Pixel(255, 0, 0, 255)), 3);
    assert_eq!(CliInterface::glyph_index(&Pixel(229, 229, 229, 0)), 8);
    assert_eq!(CliInterface::glyph_index(&Pixel(230, 230, 229, 0)), 9);
    assert_eq!(CliInterface::glyph_index(&Pixel(255, 255, 255, 255)), 9);
}

#[test]
fn pixel_text_is_colour_then_glyph() {
    assert_eq!(CliInterface::map_pixel(&Pixel(255, 0, 0, 255)), "\x1b[38;2;255;0;0m*");
    assert_eq!(CliInterface::map_pixel(&Pixel(7, 42, 100, 0)), "\x1b[38;2;7;42;100m%");
    assert_eq!(CliInterface::map_pixel(&Pixel(255, 255, 255, 255)), "\x1b[38;2;255;255;255m ");
}

#[test]
fn frame_text_concatenates_pixels() {
    let text = CliInterface::frame(&[Pixel(0, 0, 0, 255), Pixel(255, 255, 255, 255)]);
    assert_eq!(text, "\x1b[38;2;0;0;0m@\x1b[38;2;255;255;255m ");
    assert_eq!(CliInterface::frame(&[]), "");
}

#[test]
fn terminal_keys() {
    assert_eq!(CliInterface::key_for(b'j'), Some(Key::ArrowDown));
    assert_eq!(CliInterface::key_for(b'k'), Some(Key::ArrowUp));
    assert_eq!(CliInterface::key_for(b'h'), Some(Key::ArrowLeft));
    assert_eq!(CliInterface::key_for(b'l'), Some(Key::ArrowRight));
    assert_eq!(CliInterface::key_for(b'x'), None);
    assert!(CliInterface::is_exit_key(b'q'));
    assert!(!CliInterface::is_exit_key(b'Q'));
}

#[test]
fn terminal_timers_fire_on_multiples() {
    let intervals = [50u64, 16, 400];
    let (now, due) = CliInterface::tick(0, &intervals);
    assert_eq!(now, 16);
    assert_eq!(due, vec![1]);
    let (now, due) = CliInterface::tick(384, &intervals);
    assert_eq!(now, 400);
    assert_eq!(due, vec![0, 1, 2]);
    let (_, due) = CliInterface::tick(100, &[]);
    assert!(due.is_empty());
}

#[test]
fn browser_keys() {
    assert_eq!(WasmInterface::key_for("ArrowUp"), Some(Key::ArrowUp));
    assert_eq!(WasmInterface::key_for("ArrowDown"), Some(Key::ArrowDown));
    assert_eq!(WasmInterface::key_for("ArrowLeft"), Some(Key::ArrowLeft));
    assert_eq!(WasmInterface::key_for("ArrowRight"), Some(Key::ArrowRight));
    assert_eq!(WasmInterface::key_for("arrowup"), None);
    assert_eq!(WasmInterface::key_for(""), None);
}

#[test]
fn canvas_bytes_are_rgba() {
    let data = WasmInterface::image_data(&[Pixel(1, 2, 3, 4), Pixel(5, 6, 7, 8)]);
    assert_eq!(data, vec![1, 2, 3, 4, 5, 6, 7, 8]);
    assert!(WasmInterface::image_data(&[]).is_empty());
}

#[test]
fn display_size_is_never_empty() {
    assert_eq!(get_display_size(800, 600), (800, 600));
    assert_eq!(get_display_size(0, 600), (1, 600));
    assert_eq!(get_display_size(0, 0), (1, 1));
}
