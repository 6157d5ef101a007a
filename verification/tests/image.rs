use robohash::error::Error;
use robohash::image::append_to_image;
use robohash::image::build_robo_hash_image;
use robohash::image::encode_file;
use robohash::image::to_base_64;
use robohash::image::try_open_image;
use robohash::image::Canvas;
use robohash::ImageSize;
use robohash::RoboHash;
use robohash::RoboHashBuilder;

fn png(width: u32, height: u32, pixel: [u8; 4]) -> Vec<u8> {
    let picture = image::RgbaImage::from_pixel(width, height, image::Rgba(pixel));
    let mut file: Vec<u8> = Vec::new();
    picture
        .write_to(
            &mut std::io::Cursor::new(&mut file),
            image::ImageOutputFormat::Png,
        )
        .unwrap();
    file
}

/// A small picture that stands for the asset at `path`.
fn asset(path: &str) -> Vec<u8> {
    let shade = (path.len() % 200) as u8 + 50;
    png(16, 16, [shade, 255 - shade, shade / 2, 255])
}

fn repeated(pixel: [u8; 4], count: usize) -> Vec<u8> {
    pixel.iter().copied().cycle().take(4 * count).collect()
}

fn decoded(text: &str) -> image::RgbaImage {
    let file = base64::decode(text).unwrap();
    assert_eq!(&file[..8], &[0x89, b'P', b'N', b'G', 0x0d, 0x0a, 0x1a, 0x0a]);
    image::load_from_memory(&file).unwrap().into_rgba8()
}

#[test]
fn build_robo_hash_image_returns_built_image_of_parts() {
    // arrange
    let robo_parts = vec![
        asset("./sets/set4/000#00body/003#body3.png"),
        asset("./sets/set4/001#01fur/006#fur6.png"),
        asset("./sets/set4/002#02eyes/008#eyes8.png"),
        asset("./sets/set4/003#03mouth/007#mouth7.png"),
        asset("./sets/set4/004#04accessories/003#accessory3.png"),
    ];
    // act
    let robo_hash = build_robo_hash_image(&robo_parts, &None, 512, 512);
    // assert
    assert!(robo_hash.is_ok())
}

#[test]
fn a_blank_canvas_is_transparent_black() {
    let canvas = Canvas::blank(3, 2).unwrap();
    assert_eq!(canvas.width(), 3);
    assert_eq!(canvas.height(), 2);
    assert_eq!(*canvas.pixels(), vec![0u8; 24]);
    let empty = Canvas::blank(0, 7).unwrap();
    assert_eq!(empty.pixels().len(), 0);
}

#[test]
fn a_canvas_that_cannot_be_held_is_refused() {
    assert!(Canvas::blank(u32::MAX, u32::MAX).is_none());
    let built = build_robo_hash_image(&vec![], &None, u32::MAX, u32::MAX);
    assert!(matches!(built, Err(Error::ImageProcessingError(_))));
}

#[test]
fn no_layers_give_a_blank_image() {
    let image = build_robo_hash_image(&vec![], &None, 4, 3).unwrap();
    assert_eq!(image.width(), 4);
    assert_eq!(image.height(), 3);
    assert_eq!(*image.pixels(), vec![0u8; 48]);
}

#[test]
fn a_file_is_opened_as_its_pixels() {
    let opened = try_open_image(&png(3, 2, [10, 20, 30, 40])).unwrap();
    assert_eq!(opened.width(), 3);
    assert_eq!(opened.height(), 2);
    assert_eq!(*opened.pixels(), repeated([10, 20, 30, 40], 6));
}

#[test]
fn a_file_that_is_no_image_is_not_opened() {
    assert!(matches!(
        try_open_image(&b"this is no image".to_vec()),
        Err(Error::ImageOpenFailed(_))
    ));
    assert!(matches!(
        try_open_image(&vec![]),
        Err(Error::ImageOpenFailed(_))
    ));
    let mut cut = png(8, 8, [1, 2, 3, 255]);
    cut.truncate(20);
    assert!(matches!(
        try_open_image(&cut),
        Err(Error::ImageOpenFailed(_))
    ));
}

#[test]
fn a_layer_of_the_size_of_the_image_is_laid_on_as_it_is() {
    let layers = vec![png(4, 4, [200, 100, 50, 255])];
    let image = build_robo_hash_image(&layers, &None, 4, 4).unwrap();
    assert_eq!(*image.pixels(), repeated([200, 100, 50, 255], 16));
}

#[test]
fn a_layer_covers_those_before_it() {
    let red = png(2, 2, [255, 0, 0, 255]);
    let blue = png(2, 2, [0, 0, 255, 255]);
    let image = build_robo_hash_image(&vec![red.clone(), blue.clone()], &None, 2, 2).unwrap();
    assert_eq!(*image.pixels(), repeated([0, 0, 255, 255], 4));
    let image = build_robo_hash_image(&vec![blue, red], &None, 2, 2).unwrap();
    assert_eq!(*image.pixels(), repeated([255, 0, 0, 255], 4));
}

#[test]
fn one_image_is_laid_over_another_at_the_top_left() {
    let mut below = try_open_image(&png(2, 2, [255, 0, 0, 255])).unwrap();
    let above = try_open_image(&png(1, 1, [0, 0, 255, 255])).unwrap();
    below.lay_over(&above);
    assert_eq!(below.width(), 2);
    assert_eq!(below.height(), 2);
    assert_eq!(
        *below.pixels(),
        vec![0, 0, 255, 255, 255, 0, 0, 255, 255, 0, 0, 255, 255, 0, 0, 255]
    );
    let mut small = try_open_image(&png(1, 1, [1, 2, 3, 255])).unwrap();
    let large = try_open_image(&png(3, 3, [9, 9, 9, 255])).unwrap();
    small.lay_over(&large);
    assert_eq!(*small.pixels(), vec![9, 9, 9, 255]);
}

#[test]
fn a_transparent_layer_lets_the_one_below_show() {
    let red = png(2, 2, [255, 0, 0, 255]);
    let clear = png(2, 2, [0, 255, 0, 0]);
    let image = build_robo_hash_image(&vec![red, clear], &None, 2, 2).unwrap();
    assert_eq!(*image.pixels(), repeated([255, 0, 0, 255], 4));
}

#[test]
fn the_background_lies_below_the_parts() {
    let red = png(2, 2, [255, 0, 0, 255]);
    let blue = png(2, 2, [0, 0, 255, 255]);
    let clear = png(2, 2, [0, 0, 0, 0]);
    let image = build_robo_hash_image(&vec![blue], &Some(red.clone()), 2, 2).unwrap();
    assert_eq!(*image.pixels(), repeated([0, 0, 255, 255], 4));
    let image = build_robo_hash_image(&vec![clear], &Some(red.clone()), 2, 2).unwrap();
    assert_eq!(*image.pixels(), repeated([255, 0, 0, 255], 4));
    let image = build_robo_hash_image(&vec![], &Some(red), 2, 2).unwrap();
    assert_eq!(*image.pixels(), repeated([255, 0, 0, 255], 4));
}

#[test]
fn a_layer_is_brought_to_the_size_of_the_image() {
    let small = vec![png(2, 2, [9, 8, 7, 255])];
    let image = build_robo_hash_image(&small, &None, 6, 5).unwrap();
    assert_eq!(image.width(), 6);
    assert_eq!(image.height(), 5);
    assert_eq!(*image.pixels(), repeated([9, 8, 7, 255], 30));
    let large = vec![png(9, 7, [9, 8, 7, 255])];
    let image = build_robo_hash_image(&large, &None, 3, 2).unwrap();
    assert_eq!(*image.pixels(), repeated([9, 8, 7, 255], 6));
}

#[test]
fn the_first_file_that_is_no_image_ends_the_build() {
    let good = png(2, 2, [1, 2, 3, 255]);
    let bad = b"no image".to_vec();
    let built = build_robo_hash_image(&vec![good.clone(), bad.clone(), good.clone()], &None, 2, 2);
    assert!(matches!(built, Err(Error::ImageOpenFailed(_))));
    let built = build_robo_hash_image(&vec![good], &Some(bad), 2, 2);
    assert!(matches!(built, Err(Error::ImageOpenFailed(_))));
}

#[test]
fn appending_a_file_that_is_no_image_leaves_the_image() {
    let mut canvas = build_robo_hash_image(&vec![png(2, 2, [1, 2, 3, 255])], &None, 2, 2).unwrap();
    let done = append_to_image(&mut canvas, &b"no image".to_vec(), 2, 2);
    assert!(matches!(done, Err(Error::ImageOpenFailed(_))));
    assert_eq!(*canvas.pixels(), repeated([1, 2, 3, 255], 4));
    let done = append_to_image(&mut canvas, &png(1, 1, [7, 7, 7, 255]), 2, 2);
    assert_eq!(done, Ok(()));
    assert_eq!(*canvas.pixels(), repeated([7, 7, 7, 255], 4));
}

#[test]
fn a_layer_that_cannot_be_resized_in_memory_is_refused() {
    let mut canvas = Canvas::blank(2, 2).unwrap();
    let done = append_to_image(&mut canvas, &png(1, 1, [7, 7, 7, 255]), u32::MAX, u32::MAX);
    assert!(matches!(done, Err(Error::ImageProcessingError(_))));
    assert_eq!(*canvas.pixels(), vec![0u8; 16]);
}

#[test]
fn an_image_is_written_as_the_base64_of_its_png_file() {
    let image = build_robo_hash_image(&vec![png(3, 2, [10, 20, 30, 255])], &None, 3, 2).unwrap();
    let text = to_base_64(&image).unwrap();
    assert!(!text.is_empty());
    assert_eq!(text, base64::encode(png(3, 2, [10, 20, 30, 255])));
    let read = decoded(&text);
    assert_eq!(read.dimensions(), (3, 2));
    assert_eq!(read.into_raw(), repeated([10, 20, 30, 255], 6));
}

#[test]
fn bytes_are_written_as_padded_base64() {
    let written = |text: &str| encode_file(&text.as_bytes().to_vec());
    assert_eq!(written(""), Ok(String::from("")));
    assert_eq!(written("f"), Ok(String::from("Zg==")));
    assert_eq!(written("fo"), Ok(String::from("Zm8=")));
    assert_eq!(written("foo"), Ok(String::from("Zm9v")));
    assert_eq!(written("foob"), Ok(String::from("Zm9vYg==")));
    assert_eq!(written("fooba"), Ok(String::from("Zm9vYmE=")));
    assert_eq!(written("foobar"), Ok(String::from("Zm9vYmFy")));
    assert_eq!(
        encode_file(&vec![0xfb, 0xff, 0xbf, 0x00, 0x10, 0x83]),
        Ok(String::from("+/+/ABCD"))
    );
}

#[test]
fn a_written_image_begins_with_the_png_signature() {
    let image = Canvas::blank(1, 1).unwrap();
    let text = to_base_64(&image).unwrap();
    assert!(!text.is_empty());
    assert_eq!(text.len() % 4, 0);
    let file = base64::decode(&text).unwrap();
    assert_eq!(&file[..8], &[137, 80, 78, 71, 13, 10, 26, 10]);
}

#[test]
fn a_layer_is_not_resampled_from_the_limit_on() {
    let mut canvas = Canvas::blank(2, 2).unwrap();
    let layer = png(1, 1, [7, 7, 7, 255]);
    let done = append_to_image(&mut canvas, &layer, 8_388_608, 1);
    assert!(matches!(done, Err(Error::ImageProcessingError(_))));
    let done = append_to_image(&mut canvas, &layer, 1, 8_388_608);
    assert!(matches!(done, Err(Error::ImageProcessingError(_))));
    assert_eq!(*canvas.pixels(), vec![0u8; 16]);
    let built = build_robo_hash_image(&vec![layer], &None, 8_388_608, 1);
    assert!(matches!(built, Err(Error::ImageProcessingError(_))));
}

#[test]
fn a_layer_is_resampled_just_below_the_limit() {
    let mut canvas = Canvas::blank(1, 1).unwrap();
    let done = append_to_image(&mut canvas, &png(3, 1, [7, 7, 7, 255]), 8_388_607, 1);
    assert_eq!(done, Ok(()));
    assert_eq!(*canvas.pixels(), vec![7, 7, 7, 255]);
}

#[test]
fn an_image_without_pixels_cannot_be_written() {
    let image = Canvas::blank(0, 0).unwrap();
    assert!(matches!(
        to_base_64(&image),
        Err(Error::ImageProcessingError(_))
    ));
}

#[test]
fn an_avatar_is_assembled_as_a_png_of_the_size_asked_for() {
    let robo_hash = RoboHashBuilder::new("initial_string")
        .with_size(512, 512)
        .build()
        .unwrap();
    let layers = vec![
        asset("./sets/set4/000#00body/003#body3.png"),
        asset("./sets/set4/001#01fur/006#fur6.png"),
        asset("./sets/set4/002#02eyes/008#eyes8.png"),
    ];
    let text = robo_hash.assemble_base64(&layers, &None).unwrap();
    assert!(!text.is_empty());
    assert_eq!(decoded(&text).dimensions(), (512, 512));
}

#[test]
fn an_avatar_of_the_default_size_has_1024_by_1024_pixels() {
    let robo_hash = RoboHashBuilder::new("initial_string").build().unwrap();
    let layers = vec![png(1024, 1024, [5, 6, 7, 255])];
    let text = robo_hash.assemble_base64(&layers, &None).unwrap();
    assert!(!text.is_empty());
    assert_eq!(decoded(&text).dimensions(), (1024, 1024));
}

#[test]
fn assembling_twice_gives_the_same_text() {
    let robo_hash = RoboHashBuilder::new("robot").with_size(8, 8).build().unwrap();
    let layers = vec![png(8, 8, [1, 2, 3, 255]), png(8, 8, [9, 9, 9, 128])];
    let background = Some(png(8, 8, [0, 0, 0, 255]));
    let first = robo_hash.assemble_base64(&layers, &background).unwrap();
    let second = robo_hash.assemble_base64(&layers, &background).unwrap();
    assert_eq!(first, second);
}

#[test]
fn assembling_fails_where_a_layer_is_no_image() {
    let robo_hash = RoboHashBuilder::new("robot").with_size(8, 8).build().unwrap();
    let layers = vec![png(8, 8, [1, 2, 3, 255]), b"no image".to_vec()];
    assert!(matches!(
        robo_hash.assemble_base64(&layers, &None),
        Err(Error::ImageOpenFailed(_))
    ));
    // the error of building comes before that of the encoder
    let robo_hash = RoboHashBuilder::new("robot").with_size(0, 0).build().unwrap();
    assert!(matches!(
        robo_hash.assemble_base64(&layers, &None),
        Err(Error::ImageOpenFailed(_))
    ));
}

#[test]
fn a_plan_can_be_shown() {
    let robo_hash = RoboHash::from_parts(
        ImageSize::default(),
        vec![1, 2],
        String::from("set1"),
        String::from("root"),
    );
    let shown = format!("{:?}", robo_hash);
    assert!(shown.contains("RoboHash"));
    assert!(shown.contains("set1"));
}

#[test]
fn assembling_fails_where_the_image_has_no_pixels() {
    let robo_hash = RoboHashBuilder::new("robot").with_size(0, 8).build().unwrap();
    assert!(matches!(
        robo_hash.assemble_base64(&vec![], &None),
        Err(Error::ImageProcessingError(_))
    ));
}

#[test]
fn a_plan_without_data_assembles_nothing_whatever_the_layers() {
    let robo_hash = RoboHash::from_parts(
        ImageSize::default(),
        vec![],
        String::from("set1"),
        String::from("root"),
    );
    let layers = vec![png(2, 2, [1, 2, 3, 255])];
    assert_eq!(
        robo_hash.assemble_base64(&layers, &None),
        Err(Error::RoboHashMissingRequiredData)
    );
}
