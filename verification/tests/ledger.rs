use picture_triage::image_path::ImagePath;
use picture_triage::picture_handler::PictureHandler;
use picture_triage::picture_list::PictureList;

fn ip(s: &str) -> ImagePath {
    ImagePath::from_bytes(s.as_bytes().to_vec())
}

fn discovered(paths: &[&str]) -> PictureList {
    let mut pl = PictureList::default();
    for s in paths.iter().rev() {
        pl.add(ip(s));
    }
    pl
}

#[test]
fn delete_save_revert_scenario() {
    let mut handler = PictureHandler::default();
    handler.init(discovered(&["a.jpg", "b.png", "c.gif"]));
    assert_eq!(3, handler.images_left());

    handler.delete();
    assert_eq!(2, handler.images_left());
    assert_eq!(0, handler.saved_images());
    assert_eq!(1, handler.deleted_images());
    assert_eq!(ip("b.png"), *handler.get_next());
    assert_eq!(vec![ip("b.png"), ip("c.gif")], handler.unprocessed_paths());
    assert_eq!(vec![ip("a.jpg")], handler.deleted_paths());

    handler.save();
    assert_eq!(1, handler.images_left());
    assert_eq!(1, handler.saved_images());
    assert_eq!(1, handler.deleted_images());
    assert_eq!(ip("c.gif"), *handler.get_next());
    assert_eq!(vec![ip("b.png")], handler.saved_paths());
    assert_eq!(vec![ip("a.jpg")], handler.deleted_paths());

    handler.revert_last_action();
    assert_eq!(2, handler.images_left());
    assert_eq!(0, handler.saved_images());
    assert_eq!(1, handler.deleted_images());
    assert_eq!(vec![ip("b.png"), ip("c.gif")], handler.unprocessed_paths());
    assert_eq!(Vec::<ImagePath>::new(), handler.saved_paths());
    assert_eq!(vec![ip("a.jpg")], handler.deleted_paths());
}

#[test]
fn save_then_revert_restores_unprocessed() {
    let mut handler = PictureHandler::default();
    handler.init(discovered(&["x/p.jpg", "x/q.jpg"]));
    let before = handler.unprocessed_paths();

    handler.save();
    handler.revert_last_action();

    assert_eq!(before, handler.unprocessed_paths());
    assert_eq!(0, handler.saved_images());
    assert_eq!(0, handler.deleted_images());
}

#[test]
fn delete_then_revert_restores_unprocessed() {
    let mut handler = PictureHandler::default();
    handler.init(discovered(&["x/p.jpg", "x/q.jpg"]));
    let before = handler.unprocessed_paths();

    handler.delete();
    handler.revert_last_action();

    assert_eq!(before, handler.unprocessed_paths());
    assert_eq!(0, handler.saved_images());
    assert_eq!(0, handler.deleted_images());
}

#[test]
fn revert_with_empty_history_is_a_noop() {
    let mut handler = PictureHandler::default();
    handler.init(discovered(&["only.png"]));

    handler.revert_last_action();

    assert_eq!(1, handler.images_left());
    assert_eq!(0, handler.saved_images());
    assert_eq!(0, handler.deleted_images());
    assert_eq!(ip("only.png"), *handler.get_next());
}

#[test]
fn empty_discovery_is_done_immediately() {
    let mut handler = PictureHandler::default();
    handler.init(PictureList::default());

    assert_eq!(0, handler.images_left());
    assert!(handler.is_done());
}

#[test]
fn bucket_sizes_always_partition_the_discovered_count() {
    let mut handler = PictureHandler::default();
    handler.init(discovered(&["1.jpg", "2.jpg", "3.jpg", "4.jpg"]));

    handler.delete();
    handler.save();
    handler.revert_last_action();
    handler.save();
    handler.delete();

    let total = handler.images_left() + handler.saved_images() + handler.deleted_images();
    assert_eq!(4, total);
    assert_eq!(1, handler.saved_images());
    assert_eq!(2, handler.deleted_images());
}

#[test]
fn commit_plans_saved_and_deleted_moves() {
    let mut handler = PictureHandler::default();
    handler.init(discovered(&["pics/keep.jpg", "pics/trash.png"]));
    handler.save();
    handler.delete();

    let plan = handler.commit(&ip("/pics"));

    assert_eq!(ip("/pics/save/"), plan.save_dir);
    assert_eq!(ip("/pics/delete/"), plan.delete_dir);
    assert_eq!(2, plan.moves.len());
    assert_eq!(ip("pics/keep.jpg"), plan.moves[0].from);
    assert_eq!(ip("/pics/save/keep.jpg"), plan.moves[0].to);
    assert_eq!(ip("pics/trash.png"), plan.moves[1].from);
    assert_eq!(ip("/pics/delete/trash.png"), plan.moves[1].to);
}
