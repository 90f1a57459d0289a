use simple_3d::{load_image, AssetError, Image, Pixel, Texture, Textures};

fn quad() -> Image {
    Image::load(
        2,
        2,
        &[
            Pixel(255, 0, 0, 255),
            Pixel(0, 255, 0, 255),
            Pixel(0, 0, 255, 255),
            Pixel(255, 255, 255, 255),
        ],
    )
}

#[test]
fn image_get_reads_row_major() {
    let image = quad();
    assert_eq!(image.width(), 2);
    assert_eq!(image.height(), 2);
    assert_eq!(image.get(1, 0), Pixel(0, 255, 0, 255));
    assert_eq!(image.get(0, 1), Pixel(0, 0, 255, 255));
}

#[test]
fn texture_sizes_and_samples() {
    let blank = Texture::Blank;
    assert_eq!((blank.width(), blank.height()), (1, 1));
    assert_eq!(blank.get(0, 0), Pixel(255, 255, 255, 255));
    let solid = Texture::Solid(1, 2, 3, 4);
    assert_eq!((solid.width(), solid.height()), (1, 1));
    assert_eq!(solid.get(0, 0), Pixel(1, 2, 3, 4));
    let image = Texture::Image { image: quad() };
    assert_eq!((image.width(), image.height()), (2, 2));
    assert_eq!(image.get(1, 1), Pixel(255, 255, 255, 255));
}

#[test]
fn uv_sampling_hits_the_corners() {
    let texture = Texture::Image { image: quad() };
    assert_eq!(texture.texel(0, 0), Pixel(255, 0, 0, 255));
    assert_eq!(texture.texel(1, 0), Pixel(0, 255, 0, 255));
    assert_eq!(texture.texel(0, 1), Pixel(0, 0, 255, 255));
    assert_eq!(texture.texel(1, 1), Pixel(255, 255, 255, 255));
    assert_eq!(texture.texel(5, 0), Pixel(0, 255, 0, 255));
    assert_eq!(texture.texel(7, 9), Pixel(255, 255, 255, 255));
    assert_eq!(Texture::Solid(9, 8, 7, 6).texel(3, 3), Pixel(9, 8, 7, 6));
}

#[test]
fn store_lookups() {
    let mut textures = Textures::new(vec![("cube".to_string(), quad())]);
    assert!(matches!(textures.get("none"), Texture::Blank));
    assert!(matches!(textures.get("solid_red"), Texture::Solid(255, 0, 0, 255)));
    assert!(matches!(textures.get("missing"), Texture::Blank));
    match textures.get("cube") {
        Texture::Image { image } => assert_eq!(image.get(0, 1), Pixel(0, 0, 255, 255)),
        _ => panic!("the image is stored"),
    }
    textures.add("cube", Texture::Solid(1, 1, 1, 1));
    assert!(matches!(textures.get("cube"), Texture::Solid(1, 1, 1, 1)));
    textures.add("other", Texture::Solid(2, 2, 2, 2));
    assert!(matches!(textures.get("other"), Texture::Solid(2, 2, 2, 2)));
    assert!(matches!(textures.get("cube"), Texture::Solid(1, 1, 1, 1)));
}

#[test]
fn store_keeps_built_in_names_over_images() {
    let textures = Textures::new(vec![("none".to_string(), quad())]);
    assert!(matches!(textures.get("none"), Texture::Blank));
}

#[test]
fn rgba_bytes_become_pixels() {
    let image = Image::from_rgba8(2, 1, &[1, 2, 3, 4, 5, 6, 7, 8, 9]);
    assert_eq!(image.get(0, 0), Pixel(1, 2, 3, 4));
    assert_eq!(image.get(1, 0), Pixel(5, 6, 7, 8));
}

#[test]
fn png_bytes_decode() {
    let raw = vec![255u8, 0, 0, 255, 0, 255, 0, 128, 0, 0, 255, 255, 10, 20, 30, 40];
    let buffer = image::RgbaImage::from_raw(2, 2, raw).unwrap();
    let mut bytes: Vec<u8> = Vec::new();
    image::DynamicImage::ImageRgba8(buffer)
        .write_to(&mut std::io::Cursor::new(&mut bytes), image::ImageFormat::Png)
        .unwrap();
    let decoded = load_image(&bytes).unwrap();
    assert_eq!((decoded.width(), decoded.height()), (2, 2));
    assert_eq!(decoded.get(0, 0), Pixel(255, 0, 0, 255));
    assert_eq!(decoded.get(1, 0), Pixel(0, 255, 0, 128));
    assert_eq!(decoded.get(0, 1), Pixel(0, 0, 255, 255));
    assert_eq!(decoded.get(1, 1), Pixel(10, 20, 30, 40));
}

#[test]
fn garbage_bytes_do_not_decode() {
    assert!(matches!(load_image(b"not a picture"), Err(AssetError::MalformedImage)));
    assert!(matches!(load_image(&[]), Err(AssetError::MalformedImage)));
}
