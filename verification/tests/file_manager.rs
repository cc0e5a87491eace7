use picture_triage::file_manager::commit_state;
use picture_triage::file_manager::extension_str_for;
use picture_triage::file_manager::is_image_path;
use picture_triage::image_path::ImagePath;
use picture_triage::picture_list::PictureList;

fn ip(s: &str) -> ImagePath {
    ImagePath::from_bytes(s.as_bytes().to_vec())
}

#[test]
fn extension_is_lowercased() {
    assert_eq!(b"jpg".to_vec(), extension_str_for(&ip("DIR/Photo.JPG")));
    assert_eq!(b"png".to_vec(), extension_str_for(&ip("shot.PnG")));
}

#[test]
fn extension_is_the_last_dot_suffix_of_the_file_name() {
    assert_eq!(b"gz".to_vec(), extension_str_for(&ip("backup.tar.gz")));
    assert_eq!(b"txt".to_vec(), extension_str_for(&ip("a.b/c.txt")));
}

#[test]
fn missing_extension_is_empty() {
    assert_eq!(Vec::<u8>::new(), extension_str_for(&ip("README")));
    assert_eq!(Vec::<u8>::new(), extension_str_for(&ip(".gitignore")));
    assert_eq!(Vec::<u8>::new(), extension_str_for(&ip("dir.d/noext")));
    assert_eq!(Vec::<u8>::new(), extension_str_for(&ip("")));
}

#[test]
fn allow_listed_extensions_are_images() {
    assert!(is_image_path(&ip("a.jpg")));
    assert!(is_image_path(&ip("b.JPEG")));
    assert!(is_image_path(&ip("c/d.png")));
    assert!(is_image_path(&ip("e.gif")));
    assert!(is_image_path(&ip("f.Bmp")));
    assert!(is_image_path(&ip("g.webp")));
    assert!(is_image_path(&ip("h.svg")));
}

#[test]
fn other_extensions_are_not_images() {
    assert!(!is_image_path(&ip("notes.txt")));
    assert!(!is_image_path(&ip("archive.tar.gz")));
    assert!(!is_image_path(&ip("noextension")));
    assert!(!is_image_path(&ip(".png")));
    assert!(!is_image_path(&ip("trailing/")));
}

#[test]
fn commit_plans_one_move_per_decided_picture() {
    let mut save = PictureList::default();
    save.add(ip("photos/sunset.jpg"));
    let mut delete = PictureList::default();
    delete.add(ip("photos/blurry.png"));

    let plan = commit_state(&ip("/photos"), &save, &delete);

    assert_eq!(ip("/photos/save/"), plan.save_dir);
    assert_eq!(ip("/photos/delete/"), plan.delete_dir);
    assert_eq!(2, plan.moves.len());
    assert_eq!(ip("photos/sunset.jpg"), plan.moves[0].from);
    assert_eq!(ip("/photos/save/sunset.jpg"), plan.moves[0].to);
    assert_eq!(ip("photos/blurry.png"), plan.moves[1].from);
    assert_eq!(ip("/photos/delete/blurry.png"), plan.moves[1].to);
}

#[test]
fn commit_skips_paths_without_a_file_name() {
    let mut save = PictureList::default();
    save.add(ip("somedir/"));
    let mut delete = PictureList::default();
    delete.add(ip("gone.gif"));

    let plan = commit_state(&ip("/root"), &save, &delete);

    assert_eq!(1, plan.moves.len());
    assert_eq!(ip("gone.gif"), plan.moves[0].from);
    assert_eq!(ip("/root/delete/gone.gif"), plan.moves[0].to);
}

#[test]
fn commit_of_empty_buckets_plans_nothing() {
    let plan = commit_state(&ip("/root"), &PictureList::default(), &PictureList::default());
    assert_eq!(0, plan.moves.len());
}
