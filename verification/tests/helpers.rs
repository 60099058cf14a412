use dayshift::helpers::{get_wallpapers, is_image_file, matches_criteria};

fn names(list: &[&str]) -> Vec<String> {
    list.iter().map(|s| String::from(*s)).collect()
}

#[test]
fn listing_filter() {
    // The spec's listing example: only the numbered image files stay,
    // in ascending numeric order.
    let r = get_wallpapers(names(&["1.png", "02.jpg", "10.jpeg", "note.txt", "cover.png", "a.jpg"]));
    assert_eq!(r, names(&["1.png", "02.jpg", "10.jpeg"]));
}

#[test]
fn listing_leading_zeros() {
    // 007 carries the number 7.
    let r = get_wallpapers(names(&["10.png", "007.png", "1.png", "0.png"]));
    assert_eq!(r, names(&["0.png", "1.png", "007.png", "10.png"]));
}

#[test]
fn listing_tie_broken_lexicographically() {
    // Equal numbers: the full file name decides.
    let r = get_wallpapers(names(&["2.png", "2.jpg", "1.png"]));
    assert_eq!(r, names(&["1.png", "2.jpg", "2.png"]));
}

#[test]
fn listing_excludes_non_numeric_and_uppercase() {
    let r = get_wallpapers(names(&["a1.png", "1a.png", "3.PNG", "4.Png", "-1.png", " 2.png", "5.png"]));
    assert_eq!(r, names(&["5.png"]));
}

#[test]
fn listing_excludes_out_of_range_numbers() {
    // A number that does not fit an unsigned 32-bit integer is not a
    // wallpaper name.
    let r = get_wallpapers(names(&["4294967295.png", "4294967296.png"]));
    assert_eq!(r, names(&["4294967295.png"]));
}

#[test]
fn listing_empty() {
    let r = get_wallpapers(Vec::new());
    assert!(r.is_empty());
}

#[test]
fn criteria() {
    assert!(matches_criteria("0.png"));
    assert!(matches_criteria("42.jpeg"));
    assert!(matches_criteria("007.jpg"));
    assert!(!matches_criteria("cover.png"));
    assert!(!matches_criteria("1.txt"));
    assert!(!matches_criteria("1"));
    assert!(!matches_criteria(".png"));
    assert!(!matches_criteria("1.png.txt"));
    assert!(!matches_criteria("+1.png"));
    assert!(!matches_criteria("1 .png"));
}

#[test]
fn image_file_names() {
    assert!(is_image_file("/theme/3.png"));
    assert!(is_image_file("photo.jpeg"));
    assert!(is_image_file("a/b/c.jpg"));
    assert!(!is_image_file("/theme/notes.txt"));
    assert!(!is_image_file("/theme/3.PNG"));
    assert!(!is_image_file("/theme/png"));
    assert!(!is_image_file("/theme/.png"));
    assert!(!is_image_file("archive.png/file"));
}
