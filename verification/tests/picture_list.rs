use picture_triage::image_path::ImagePath;
use picture_triage::picture_list::PictureList;

fn ip(s: &str) -> ImagePath {
    ImagePath::from_bytes(s.as_bytes().to_vec())
}

#[test]
fn default_initializes_to_empty_list() {
    let pl = PictureList::default();
    assert_eq!(0, pl.size());
}

#[test]
fn size_increments_when_adding_item() {
    let path = ip("GREEN/FN");
    let mut pl = PictureList::default();
    let size = pl.size();

    pl.add(path);

    assert_eq!(size + 1, pl.size());
}

#[test]
fn gets_first_item() {
    let path = ip("GREEN/FN");
    let mut pl = PictureList::default();
    pl.add(path.clone());

    let next = pl.next();

    assert_eq!(path, next);
}

#[test]
fn next_decreases_size() {
    let path = ip("GREEN/FN");
    let mut pl = PictureList::default();
    pl.add(path.clone());
    let size = pl.size();

    pl.next();

    assert_eq!(size - 1, pl.size());
}

#[test]
fn size_moves_when_moving_item() {
    let path = ip("GREEN/FN");
    let mut pl1 = PictureList::default();
    let mut pl2 = PictureList::default();
    pl1.add(path.clone());
    pl1.add(path.clone());
    pl2.add(path.clone());
    pl2.add(path.clone());
    let size1 = pl1.size();
    let size2 = pl2.size();

    pl1.transfer_from(&mut pl2);

    assert_eq!(size1 + 1, pl1.size());
    assert_eq!(size2 - 1, pl2.size());
}

#[test]
fn add_inserts_at_the_front() {
    let mut pl = PictureList::default();
    pl.add(ip("first"));
    pl.add(ip("second"));

    assert_eq!(ip("second"), *pl.peek());
    assert_eq!(ip("second"), pl.next());
    assert_eq!(ip("first"), pl.next());
    assert_eq!(0, pl.size());
}

#[test]
fn transfer_moves_the_front_path_unchanged() {
    let mut src = PictureList::default();
    let mut dst = PictureList::default();
    src.add(ip("old/pic.bmp"));
    src.add(ip("new/pic.gif"));
    dst.add(ip("kept.png"));

    dst.transfer_from(&mut src);

    assert_eq!(ip("new/pic.gif"), *dst.peek());
    assert_eq!(ip("old/pic.bmp"), *src.peek());
    assert_eq!(2, dst.size());
    assert_eq!(1, src.size());
}

#[test]
fn path_iterator_walks_front_to_back() {
    let mut pl = PictureList::default();
    pl.add(ip("c"));
    pl.add(ip("b"));
    pl.add(ip("a"));

    let paths = pl.path_iterator();

    assert_eq!(3, paths.len());
    assert_eq!(ip("a"), paths[0]);
    assert_eq!(ip("b"), paths[1]);
    assert_eq!(ip("c"), paths[2]);
    assert_eq!(3, pl.size());
}

#[test]
fn new_takes_an_existing_collection() {
    let mut backing = std::collections::VecDeque::new();
    backing.push_back(ip("one.jpg"));
    backing.push_back(ip("two.jpg"));

    let mut pl = PictureList::new(backing);

    assert_eq!(2, pl.size());
    assert_eq!(ip("one.jpg"), pl.next());
}
