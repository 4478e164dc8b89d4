use image_viewer::folder::{filter_supported, folder_listing, position_of, sort_paths};

fn strings(items: &[&str]) -> Vec<String> {
    items.iter().map(|s| s.to_string()).collect()
}

#[test]
fn filter_keeps_only_images_in_order() {
    let files = strings(&["b.png", "notes.txt", "a.jpg", "c.gif", "script.sh"]);
    let kept = filter_supported(&files);
    assert_eq!(kept, strings(&["b.png", "a.jpg", "c.gif"]));
}

#[test]
fn sort_orders_lexicographically() {
    let v = strings(&["c.gif", "a.jpg", "b.png"]);
    let sorted = sort_paths(v);
    assert_eq!(sorted, strings(&["a.jpg", "b.png", "c.gif"]));
}

#[test]
fn sort_keeps_duplicates() {
    let v = strings(&["b", "a", "b", "a"]);
    let sorted = sort_paths(v);
    assert_eq!(sorted, strings(&["a", "a", "b", "b"]));
}

#[test]
fn listing_filters_then_sorts() {
    let files = strings(&["z/9.png", "z/1.jpg", "z/notes.txt", "z/5.gif"]);
    let listing = folder_listing(&files);
    assert_eq!(listing, strings(&["z/1.jpg", "z/5.gif", "z/9.png"]));
}

#[test]
fn listing_of_no_images_is_empty() {
    let files = strings(&["a.txt", "b.rs"]);
    let listing = folder_listing(&files);
    assert!(listing.is_empty());
}

#[test]
fn position_finds_first_match() {
    let v = strings(&["a", "b", "c", "b"]);
    assert_eq!(position_of(&v, "b"), Some(1));
    assert_eq!(position_of(&v, "a"), Some(0));
    assert_eq!(position_of(&v, "d"), None);
}
