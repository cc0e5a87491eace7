use picture_triage::image_codec::RgbaBitmap;
use picture_triage::image_path::ImagePath;
use picture_triage::texture_handler::absorb_pending;
use picture_triage::texture_handler::plan_chunks;
use picture_triage::texture_handler::prepare_pending;
use picture_triage::texture_handler::target_dims;
use picture_triage::texture_handler::PendingImage;
use picture_triage::texture_handler::TextureCache;

fn ip(s: &str) -> ImagePath {
    ImagePath::from_bytes(s.as_bytes().to_vec())
}

fn png_bytes(width: u32, height: u32) -> Vec<u8> {
    let img = image::DynamicImage::ImageRgba8(image::RgbaImage::new(width, height));
    let mut bytes: Vec<u8> = Vec::new();
    img.write_to(&mut std::io::Cursor::new(&mut bytes), image::ImageFormat::Png)
        .expect("encoding a fresh image cannot fail");
    bytes
}

#[test]
fn target_dims_scale_the_longer_edge_to_the_maximum() {
    assert_eq!((200, 100), target_dims(1000, 500));
    assert_eq!((100, 200), target_dims(500, 1000));
    assert_eq!((200, 200), target_dims(64, 64));
    assert_eq!((200, 66), target_dims(600, 200));
}

#[test]
fn target_dims_never_collapse_to_zero() {
    assert_eq!((200, 1), target_dims(100000, 1));
    assert_eq!((1, 200), target_dims(1, 100000));
    assert_eq!((1, 1), target_dims(0, 17));
    assert_eq!((1, 1), target_dims(17, 0));
}

#[test]
fn chunks_split_evenly_with_the_last_taking_the_remainder() {
    let paths = vec![ip("a"), ip("b"), ip("c"), ip("d"), ip("e")];
    let chunks = plan_chunks(paths, 2);

    assert_eq!(2, chunks.len());
    assert_eq!(vec![ip("a"), ip("b"), ip("c")], chunks[0]);
    assert_eq!(vec![ip("d"), ip("e")], chunks[1]);
}

#[test]
fn chunks_never_outnumber_the_workers() {
    let paths = vec![ip("a"), ip("b"), ip("c"), ip("d"), ip("e"), ip("f"), ip("g")];
    let chunks = plan_chunks(paths, 3);

    assert_eq!(3, chunks.len());
    assert_eq!(7, chunks.iter().map(|c| c.len()).sum::<usize>());
}

#[test]
fn few_paths_give_few_chunks() {
    let paths = vec![ip("a"), ip("b")];
    let chunks = plan_chunks(paths, 8);

    assert_eq!(2, chunks.len());
    assert_eq!(vec![ip("a")], chunks[0]);
    assert_eq!(vec![ip("b")], chunks[1]);
}

#[test]
fn no_paths_give_no_chunks() {
    let chunks = plan_chunks(Vec::new(), 2);
    assert_eq!(0, chunks.len());
}

#[test]
fn cache_returns_what_was_inserted() {
    let mut cache: TextureCache<u64> = TextureCache::new();
    assert_eq!(0, cache.len());
    assert!(cache.get(&ip("a.png")).is_none());

    cache.insert(ip("a.png"), 7);
    cache.insert(ip("b.png"), 8);

    assert_eq!(2, cache.len());
    assert_eq!(Some(&7), cache.get(&ip("a.png")));
    assert_eq!(Some(&8), cache.get(&ip("b.png")));
    assert!(cache.get(&ip("c.png")).is_none());
}

#[test]
fn cache_overwrites_without_growing() {
    let mut cache: TextureCache<u64> = TextureCache::new();
    cache.insert(ip("a.png"), 7);
    cache.insert(ip("a.png"), 9);

    assert_eq!(1, cache.len());
    assert_eq!(Some(&9), cache.get(&ip("a.png")));
}

fn pending(path: &str, width: u32) -> PendingImage {
    PendingImage {
        path: ip(path),
        name: ip(path).file_name(),
        pixels: RgbaBitmap { width, height: 1, rgba: vec![0; (width as usize) * 4] },
    }
}

#[test]
fn draining_files_every_entry_without_losing_one() {
    let mut cache: TextureCache<RgbaBitmap> = TextureCache::new();
    absorb_pending(&mut cache, vec![pending("a.png", 2), pending("b.png", 3)]);

    assert_eq!(2, cache.len());
    assert_eq!(2, cache.get(&ip("a.png")).expect("filed").width);
    assert_eq!(3, cache.get(&ip("b.png")).expect("filed").width);

    absorb_pending(&mut cache, vec![pending("a.png", 9)]);
    assert_eq!(2, cache.len());
    assert_eq!(9, cache.get(&ip("a.png")).expect("filed").width);
}

#[test]
fn prepare_pending_downsamples_a_decodable_picture() {
    let bytes = png_bytes(10, 5);
    let pending = prepare_pending(&ip("pics/tiny.png"), &bytes)
        .expect("a fresh png must decode");

    assert_eq!(ip("pics/tiny.png"), pending.path);
    assert_eq!(b"tiny.png".to_vec(), pending.name);
    assert_eq!(200, pending.pixels.width);
    assert_eq!(100, pending.pixels.height);
    assert_eq!(200 * 100 * 4, pending.pixels.rgba.len());
}

#[test]
fn prepare_pending_keeps_small_enough_pictures_recognizable() {
    let bytes = png_bytes(400, 400);
    let pending = prepare_pending(&ip("big.png"), &bytes).expect("a fresh png must decode");

    assert_eq!(200, pending.pixels.width);
    assert_eq!(200, pending.pixels.height);
    assert_eq!(200 * 200 * 4, pending.pixels.rgba.len());
}

#[test]
fn prepare_pending_skips_undecodable_bytes() {
    let garbage = vec![0u8, 1, 2, 3, 4, 5, 6, 7];
    assert!(prepare_pending(&ip("pics/broken.png"), &garbage).is_none());
}

#[test]
fn prepare_pending_skips_paths_without_a_file_name() {
    let bytes = png_bytes(4, 4);
    assert!(prepare_pending(&ip("pics/"), &bytes).is_none());
}
