use view_rs::path::PathSortable;
use view_rs::viewer::{first_openable, filter_images, position_of, has_image_name, DirEntry, DropKind, ImageViewer, LoadError};

fn entry(name: &str, is_file: bool) -> DirEntry {
    DirEntry { path: format!("/pics/{}", name), name: name.to_string(), is_file }
}

fn names(v: &ImageViewer) -> Vec<String> {
    v.files().iter().map(|x: &PathSortable| x.0.clone()).collect()
}

fn shown(v: &ImageViewer) -> String {
    v.files()[v.index()].0.clone()
}

fn sequential() -> ImageViewer {
    let mut v = ImageViewer::default();
    v.set_randomize(false);
    v
}

fn sample_listing() -> Vec<DirEntry> {
    vec![
        entry("b.jpg", true),
        entry("a.png", true),
        entry(".hidden.png", true),
        entry("notes.txt", true),
        entry("c.PNG", true),
    ]
}

#[test]
fn load_keeps_images_in_natural_order() {
    let mut v = sequential();
    assert!(v.load_entries(&sample_listing()).is_ok());
    assert_eq!(names(&v), vec!["/pics/a.png", "/pics/b.jpg", "/pics/c.PNG"]);
    assert_eq!(v.index(), 0);
    assert_eq!(v.current_src(), Some("file:///pics/a.png".to_string()));
    assert_eq!(v.image_size(), [0, 0]);
}

#[test]
fn load_skips_directories_and_odd_names() {
    let listing = vec![
        entry("dir.png", false),
        entry("noext", true),
        entry(".png", true),
        entry("x.JPEG", true),
        entry("y.tar.gif", true),
        entry("z.pngx", true),
        entry("w.Webp", true),
        entry("v.avif", true),
        entry("u.bmp", true),
    ];
    let r = filter_images(&listing);
    let got: Vec<String> = r.iter().map(|x| x.0.clone()).collect();
    assert_eq!(got, vec!["/pics/x.JPEG", "/pics/y.tar.gif", "/pics/w.Webp", "/pics/v.avif", "/pics/u.bmp"]);
}

#[test]
fn image_name_check() {
    assert!(has_image_name("a.png"));
    assert!(has_image_name("A.JpG"));
    assert!(!has_image_name("a.txt"));
    assert!(!has_image_name("png"));
    assert!(!has_image_name(".png"));
    assert!(!has_image_name("a.png."));
    assert!(has_image_name("..png"));
}

#[test]
fn load_without_images_fails_and_keeps_state() {
    let mut v = sequential();
    v.load_entries(&sample_listing()).unwrap();
    v.next();
    let before = names(&v);
    let r = v.load_entries(&vec![entry("notes.txt", true), entry(".x.png", true)]);
    assert!(matches!(r, Err(LoadError::EmptyDirectory)));
    assert_eq!(names(&v), before);
    assert_eq!(v.index(), 1);
    assert_eq!(v.current_src(), Some("file:///pics/b.jpg".to_string()));
}

#[test]
fn load_of_empty_listing_fails() {
    let mut v = ImageViewer::default();
    let r = v.load_entries(&Vec::new());
    assert!(matches!(r, Err(LoadError::EmptyDirectory)));
    assert!(v.files().is_empty());
    assert_eq!(v.current_src(), None);
}

#[test]
fn error_messages() {
    assert_eq!(LoadError::EmptyDirectory.message(), "No image files found in directory");
    assert_eq!(LoadError::DirectoryUnreadable("denied".to_string()).message(), "denied");
}

#[test]
fn next_then_prev_round_trip() {
    let mut v = sequential();
    v.load_entries(&sample_listing()).unwrap();
    for start in 0..3 {
        while v.index() != start {
            v.next();
        }
        v.next();
        v.prev();
        assert_eq!(v.index(), start);
        v.prev();
        v.next();
        assert_eq!(v.index(), start);
    }
}

#[test]
fn next_cycles_and_wraps() {
    let mut v = sequential();
    v.load_entries(&sample_listing()).unwrap();
    let mut seen = vec![shown(&v)];
    for _ in 0..2 {
        v.next();
        seen.push(shown(&v));
    }
    assert_eq!(seen, vec!["/pics/a.png", "/pics/b.jpg", "/pics/c.PNG"]);
    v.next();
    assert_eq!(v.index(), 0);
    v.prev();
    assert_eq!(v.index(), 2);
    assert_eq!(v.current_src(), Some("file:///pics/c.PNG".to_string()));
}

#[test]
fn next_and_prev_on_empty_do_nothing() {
    let mut v = ImageViewer::default();
    v.next();
    v.prev();
    assert_eq!(v.index(), 0);
    assert_eq!(v.current_src(), None);
}

#[test]
fn toggle_keeps_shown_path() {
    let listing: Vec<DirEntry> = (0..30).map(|i| entry(&format!("img{}.png", i), true)).collect();
    let mut v = sequential();
    v.load_entries(&listing).unwrap();
    for _ in 0..7 {
        v.next();
    }
    assert_eq!(shown(&v), "/pics/img7.png");
    v.set_randomize(true);
    assert!(v.randomize());
    assert_eq!(shown(&v), "/pics/img7.png");
    assert_eq!(v.current_src(), Some("file:///pics/img7.png".to_string()));
    let mut sorted = names(&v);
    sorted.sort();
    let mut expected: Vec<String> = (0..30).map(|i| format!("/pics/img{}.png", i)).collect();
    expected.sort();
    assert_eq!(sorted, expected);
    v.next();
    let anchor = shown(&v);
    v.set_randomize(false);
    assert!(!v.randomize());
    assert_eq!(shown(&v), anchor);
    let in_order: Vec<String> = (0..30).map(|i| format!("/pics/img{}.png", i)).collect();
    assert_eq!(names(&v), in_order);
}

#[test]
fn toggle_on_empty_changes_mode_only() {
    let mut v = ImageViewer::default();
    assert!(v.randomize());
    v.set_randomize(false);
    assert!(!v.randomize());
    assert!(v.files().is_empty());
    assert_eq!(v.current_src(), None);
}

#[test]
fn shuffled_load_keeps_every_image() {
    let mut v = ImageViewer::default();
    v.load_entries(&sample_listing()).unwrap();
    let mut got = names(&v);
    got.sort();
    assert_eq!(got, vec!["/pics/a.png", "/pics/b.jpg", "/pics/c.PNG"]);
    assert_eq!(v.current_src(), Some(format!("file://{}", shown(&v))));
}

#[test]
fn single_file_ignores_extension() {
    let mut v = sequential();
    v.load_entries(&sample_listing()).unwrap();
    v.next();
    v.load_single_file("/tmp/notes.txt".to_string());
    assert_eq!(names(&v), vec!["/tmp/notes.txt"]);
    assert_eq!(v.index(), 0);
    assert_eq!(v.current_src(), Some("file:///tmp/notes.txt".to_string()));
}

#[test]
fn drop_opens_first_directory_or_file() {
    assert_eq!(first_openable(&vec![DropKind::Other, DropKind::File, DropKind::Directory]), Some(2));
    assert_eq!(first_openable(&vec![DropKind::File, DropKind::Directory]), Some(1));
    assert_eq!(first_openable(&vec![DropKind::Other, DropKind::File, DropKind::File]), Some(1));
    assert_eq!(first_openable(&vec![DropKind::Directory, DropKind::File]), Some(0));
    assert_eq!(first_openable(&vec![DropKind::Other]), None);
    assert_eq!(first_openable(&Vec::new()), None);
}

#[test]
fn anchor_is_found_by_equality() {
    let files = vec![PathSortable("c".to_string()), PathSortable("a".to_string()), PathSortable("a".to_string())];
    assert_eq!(position_of(&files, &PathSortable("a".to_string())), 1);
    assert_eq!(position_of(&files, &PathSortable("c".to_string())), 0);
}
