use lumabatch::plan::{
    failed_paths, filter_new, is_image, report_path, to_item, to_items, ConvertItem, PlanError,
};

#[test]
fn accepts_the_three_extensions() {
    assert!(is_image(b"a/b.jpg"));
    assert!(is_image(b"photo.jpeg"));
    assert!(is_image(b"/deep/tree/c.png"));
}

#[test]
fn rejects_other_extensions() {
    assert!(!is_image(b"a/b.JPG"));
    assert!(!is_image(b"a/b.txt"));
    assert!(!is_image(b"a/b.jpg.bak"));
    assert!(!is_image(b"archive.webp"));
}

#[test]
fn rejects_paths_without_an_extension() {
    assert!(!is_image(b"noext"));
    assert!(!is_image(b"dir/noext"));
    assert!(!is_image(b".png"));
    assert!(!is_image(b"dir/.png"));
    assert!(!is_image(b"a.jpg/inner"));
    assert!(!is_image(b""));
}

#[test]
fn maps_input_to_mirrored_output() {
    let item = to_item(b"/in/sub/pic.jpg", b"/in", b"/out", b"avif").unwrap();
    assert_eq!(item.input, b"/in/sub/pic.jpg".to_vec());
    assert_eq!(item.output, b"/out/sub/pic.avif".to_vec());
}

#[test]
fn maps_with_trailing_slash_roots() {
    let item = to_item(b"/in/pic.jpeg", b"/in/", b"/out/", b"webp").unwrap();
    assert_eq!(item.output, b"/out/pic.webp".to_vec());
}

#[test]
fn appends_extension_when_none_exists() {
    let item = to_item(b"/in/file", b"/in", b"/out", b"avif").unwrap();
    assert_eq!(item.output, b"/out/file.avif".to_vec());
}

#[test]
fn rejects_input_outside_the_root() {
    assert!(matches!(
        to_item(b"/other/pic.jpg", b"/in", b"/out", b"avif"),
        Err(PlanError::NotUnderRoot)
    ));
    // A shared byte prefix is not enough: the cut must fall on a component.
    assert!(matches!(
        to_item(b"/inx/pic.jpg", b"/in", b"/out", b"avif"),
        Err(PlanError::NotUnderRoot)
    ));
}

#[test]
fn plans_only_accepted_images_under_the_root() {
    let paths = vec![
        b"/in/a.jpg".to_vec(),
        b"/in/notes.txt".to_vec(),
        b"/elsewhere/c.png".to_vec(),
        b"/in/sub/d.png".to_vec(),
    ];
    let items = to_items(&paths, b"/in", b"/out", b"avif");
    assert_eq!(items.len(), 2);
    assert_eq!(items[0].output, b"/out/a.avif".to_vec());
    assert_eq!(items[1].output, b"/out/sub/d.avif".to_vec());
}

#[test]
fn keeps_only_items_without_existing_output() {
    let items = vec![
        ConvertItem::new(b"/in/a.jpg".to_vec(), b"/out/a.avif".to_vec()),
        ConvertItem::new(b"/in/b.jpg".to_vec(), b"/out/b.avif".to_vec()),
        ConvertItem::new(b"/in/c.jpg".to_vec(), b"/out/c.avif".to_vec()),
    ];
    let fresh = filter_new(items, &[true, false, true]);
    assert_eq!(fresh.len(), 1);
    assert_eq!(fresh[0].input, b"/in/b.jpg".to_vec());
}

#[test]
fn report_tag_is_relative_only_under_the_root() {
    assert_eq!(report_path(b"/in/sub/pic.jpg", b"/in"), b"sub/pic.jpg".to_vec());
    assert_eq!(report_path(b"/in/pic.jpg", b"/in/"), b"pic.jpg".to_vec());
    assert_eq!(report_path(b"/elsewhere/pic.jpg", b"/in"), b"/elsewhere/pic.jpg".to_vec());
    assert_eq!(report_path(b"/inx/pic.jpg", b"/in"), b"/inx/pic.jpg".to_vec());
}

#[test]
fn failure_report_names_exactly_the_failed_items_in_order() {
    let items = vec![
        ConvertItem::new(b"/in/a.jpg".to_vec(), b"/out/a.avif".to_vec()),
        ConvertItem::new(b"/in/b.jpg".to_vec(), b"/out/b.avif".to_vec()),
        ConvertItem::new(b"/in/sub/c.jpg".to_vec(), b"/out/sub/c.avif".to_vec()),
    ];
    let report = failed_paths(&items, &[false, true, true], b"/in");
    assert_eq!(report, vec![b"b.jpg".to_vec(), b"sub/c.jpg".to_vec()]);
    let none = failed_paths(&items, &[false, false, false], b"/in");
    assert_eq!(none.len(), 0);
}

#[test]
fn rerun_with_all_outputs_present_schedules_nothing() {
    let paths = vec![b"/in/a.jpg".to_vec(), b"/in/b.png".to_vec()];
    let items = to_items(&paths, b"/in", b"/out", b"avif");
    assert_eq!(items.len(), 2);
    // After a completed run every output exists, so a rerun plans nothing.
    let exists = vec![true; items.len()];
    let fresh = filter_new(items, &exists);
    assert_eq!(fresh.len(), 0);
}
