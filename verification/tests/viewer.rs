use image_viewer::viewer::{ImageCommand, ImageResult, ImageViewer};

fn strings(items: &[&str]) -> Vec<String> {
    items.iter().map(|s| s.to_string()).collect()
}

fn command_paths(cmds: &[ImageCommand]) -> Vec<String> {
    cmds.iter()
        .map(|c| match c {
            ImageCommand::Load(p) => p.clone(),
        })
        .collect()
}

#[test]
fn fresh_viewer_is_empty() {
    let v = ImageViewer::new();
    assert!(v.current_folder_images.is_empty());
    assert_eq!(v.current_image_index, 0);
    assert!(v.current_image_path.is_none());
    assert!(v.error_msg.is_none());
    assert!(!v.is_loading());
}

#[test]
fn opening_a_file_loads_it_and_its_neighbours() {
    let mut v = ImageViewer::new();
    let entries = strings(&["c.gif", "a.jpg", "notes.txt", "b.png"]);
    let (cmds, evicted) = v.load_path("a.jpg".to_string(), false, &entries);
    assert_eq!(v.current_folder_images, strings(&["a.jpg", "b.png", "c.gif"]));
    assert_eq!(v.current_image_index, 0);
    assert_eq!(v.current_image_path.as_deref(), Some("a.jpg"));
    // The file itself, then the previous neighbour (wrapping) and the next.
    assert_eq!(command_paths(&cmds), strings(&["a.jpg", "c.gif", "b.png"]));
    assert!(evicted.is_empty());
    assert!(v.is_loading());
    assert!(v.reset_view_on_load);
}

#[test]
fn opening_a_folder_shows_its_first_image() {
    let mut v = ImageViewer::new();
    let entries = strings(&["d/2.png", "d/1.jpg", "d/skip.txt"]);
    let (cmds, _evicted) = v.load_path("d".to_string(), true, &entries);
    assert_eq!(v.current_folder_images, strings(&["d/1.jpg", "d/2.png"]));
    assert_eq!(v.current_image_index, 0);
    assert_eq!(v.current_image_path.as_deref(), Some("d/1.jpg"));
    assert_eq!(command_paths(&cmds), strings(&["d/1.jpg", "d/2.png"]));
    assert!(v.error_msg.is_none());
}

#[test]
fn opening_an_empty_folder_leaves_a_message() {
    let mut v = ImageViewer::new();
    let entries = strings(&["readme.md"]);
    let (cmds, evicted) = v.load_path("d".to_string(), true, &entries);
    assert!(cmds.is_empty());
    assert!(evicted.is_empty());
    assert!(v.current_folder_images.is_empty());
    assert!(v.current_image_path.is_none());
    assert_eq!(v.error_msg.as_deref(), Some("No images found in the folder."));
}

#[test]
fn opening_a_file_outside_its_listing_shows_it_alone() {
    let mut v = ImageViewer::new();
    let entries = strings(&["other.txt"]);
    let (cmds, _evicted) = v.load_path("solo.png".to_string(), false, &entries);
    assert_eq!(v.current_folder_images, strings(&["solo.png"]));
    assert_eq!(v.current_image_index, 0);
    assert_eq!(v.current_image_path.as_deref(), Some("solo.png"));
    assert_eq!(command_paths(&cmds), strings(&["solo.png"]));
}

#[test]
fn a_load_is_requested_only_once() {
    let mut v = ImageViewer::new();
    let first = v.request_load("x.png".to_string());
    assert!(matches!(first, Some(ImageCommand::Load(p)) if p == "x.png"));
    let second = v.request_load("x.png".to_string());
    assert!(second.is_none());
}

#[test]
fn a_cached_image_is_not_requested() {
    let mut v = ImageViewer::new();
    let _ = v.handle_result(ImageResult::Success("x.png".to_string(), 8, 8));
    assert_eq!(v.texture_cache, strings(&["x.png"]));
    assert!(v.request_load("x.png".to_string()).is_none());
}

#[test]
fn success_on_the_current_image_resets_the_view_once() {
    let mut v = ImageViewer::new();
    let entries = strings(&["a.jpg", "b.png", "c.gif"]);
    let _ = v.load_path("a.jpg".to_string(), false, &entries);
    assert!(v.is_loading());
    let reset = v.handle_result(ImageResult::Success("a.jpg".to_string(), 800, 600));
    assert!(reset);
    assert!(!v.is_loading());
    assert_eq!(v.last_loaded_path.as_deref(), Some("a.jpg"));
    assert_eq!(v.image_size, Some((800, 600)));
    assert_eq!(v.texture_cache, strings(&["a.jpg"]));
    // The flag is spent: a second arrival does not reset again.
    let again = v.handle_result(ImageResult::Success("a.jpg".to_string(), 800, 600));
    assert!(!again);
}

#[test]
fn success_on_another_image_only_fills_the_cache() {
    let mut v = ImageViewer::new();
    let entries = strings(&["a.jpg", "b.png", "c.gif"]);
    let _ = v.load_path("a.jpg".to_string(), false, &entries);
    let reset = v.handle_result(ImageResult::Success("b.png".to_string(), 4, 4));
    assert!(!reset);
    assert!(v.last_loaded_path.is_none());
    assert!(v.image_size.is_none());
    assert_eq!(v.texture_cache, strings(&["b.png"]));
}

#[test]
fn an_error_on_the_current_image_is_shown() {
    let mut v = ImageViewer::new();
    let entries = strings(&["a.jpg"]);
    let _ = v.load_path("a.jpg".to_string(), false, &entries);
    let reset = v.handle_result(ImageResult::Error(
        "a.jpg".to_string(),
        "Load error: bad header".to_string(),
    ));
    assert!(!reset);
    assert_eq!(v.error_msg.as_deref(), Some("Load error: bad header"));
    assert!(!v.is_loading());
}

#[test]
fn an_error_on_another_image_is_silent() {
    let mut v = ImageViewer::new();
    let entries = strings(&["a.jpg", "b.png"]);
    let _ = v.load_path("a.jpg".to_string(), false, &entries);
    let _ = v.handle_result(ImageResult::Error("b.png".to_string(), "boom".to_string()));
    assert!(v.error_msg.is_none());
}

#[test]
fn navigation_wraps_both_ways() {
    let mut v = ImageViewer::new();
    v.current_folder_images = strings(&["a", "b", "c"]);
    v.current_image_index = 2;
    let _ = v.next_image();
    assert_eq!(v.current_image_index, 0);
    assert_eq!(v.current_image_path.as_deref(), Some("a"));
    assert!(!v.reset_view_on_load);
    let _ = v.prev_image();
    assert_eq!(v.current_image_index, 2);
    assert_eq!(v.current_image_path.as_deref(), Some("c"));
}

#[test]
fn navigation_on_an_empty_folder_does_nothing() {
    let mut v = ImageViewer::new();
    let (cmds, evicted) = v.next_image();
    assert!(cmds.is_empty());
    assert!(evicted.is_empty());
    assert!(v.current_image_path.is_none());
    let (cmds, evicted) = v.prev_image();
    assert!(cmds.is_empty());
    assert!(evicted.is_empty());
}

#[test]
fn preloading_trims_the_cache_to_the_neighbourhood() {
    let mut v = ImageViewer::new();
    v.current_folder_images = strings(&["a", "b", "c", "d", "e"]);
    v.current_image_index = 0;
    v.current_image_path = Some("a".to_string());
    v.texture_cache = strings(&["a", "b", "c", "d", "e"]);
    let (cmds, evicted) = v.update_preloads();
    // Previous is "e", next is "b": both already cached, nothing requested.
    assert!(cmds.is_empty());
    assert_eq!(v.texture_cache, strings(&["a", "b", "e"]));
    assert_eq!(evicted, strings(&["c", "d"]));
}

#[test]
fn opening_a_file_in_the_middle_takes_its_place() {
    let mut v = ImageViewer::new();
    let entries = strings(&["a.jpg", "b.png", "c.gif"]);
    let (cmds, _evicted) = v.load_path("b.png".to_string(), false, &entries);
    assert_eq!(v.current_image_index, 1);
    assert_eq!(v.current_image_path.as_deref(), Some("b.png"));
    // The file itself, then its previous and next neighbour.
    assert_eq!(command_paths(&cmds), strings(&["b.png", "a.jpg", "c.gif"]));
}

#[test]
fn a_two_image_folder_asks_for_the_neighbour_once() {
    let mut v = ImageViewer::new();
    v.current_folder_images = strings(&["a", "b"]);
    v.current_image_index = 0;
    v.current_image_path = Some("a".to_string());
    // "b" is both the previous and the next image; one request covers it.
    let (cmds, _evicted) = v.update_preloads();
    assert_eq!(command_paths(&cmds), strings(&["b"]));
}

#[test]
fn a_single_image_folder_asks_for_nothing_more() {
    let mut v = ImageViewer::new();
    let entries = strings(&["solo.png"]);
    let (cmds, _evicted) = v.load_path("solo.png".to_string(), false, &entries);
    assert_eq!(command_paths(&cmds), strings(&["solo.png"]));
}

#[test]
fn preloading_requests_missing_neighbours() {
    let mut v = ImageViewer::new();
    v.current_folder_images = strings(&["a", "b", "c"]);
    v.current_image_index = 1;
    v.current_image_path = Some("b".to_string());
    let (cmds, evicted) = v.update_preloads();
    assert_eq!(command_paths(&cmds), strings(&["a", "c"]));
    assert_eq!(v.loading_paths, strings(&["a", "c"]));
    assert!(evicted.is_empty());
}
