use image_viewer::thumbs::{
    truncate_display_name, ThumbnailCommand, ThumbnailList, ThumbnailResult,
};

fn strings(items: &[&str]) -> Vec<String> {
    items.iter().map(|s| s.to_string()).collect()
}

fn command_path(cmd: &ThumbnailCommand) -> (String, u32) {
    match cmd {
        ThumbnailCommand::Load(p, m) => (p.clone(), *m),
    }
}

#[test]
fn fresh_strip_is_folded_and_empty() {
    let t = ThumbnailList::new();
    assert!(!t.is_expanded);
    assert!(t.thumbnails.is_empty());
    assert!(t.loading_path.is_none());
}

#[test]
fn toggling_folds_and_unfolds() {
    let mut t = ThumbnailList::new();
    t.toggle_expanded();
    assert!(t.is_expanded);
    t.toggle_expanded();
    assert!(!t.is_expanded);
}

#[test]
fn the_nearest_missing_thumbnail_is_asked_first() {
    let mut t = ThumbnailList::new();
    let folder = strings(&["a", "b", "c", "d", "e"]);
    let cmd = t.try_load_next(&folder, 2);
    let (p, m) = command_path(&cmd.expect("a load should be asked"));
    assert_eq!(p, "c");
    assert_eq!(m, 128);
    assert_eq!(t.loading_path.as_deref(), Some("c"));
}

#[test]
fn a_tie_in_distance_goes_to_the_earlier_place() {
    let mut t = ThumbnailList::new();
    t.thumbnails = strings(&["c"]);
    let folder = strings(&["a", "b", "c", "d", "e"]);
    // "b" and "d" both lie at distance 1 from place 2; "b" comes first.
    let cmd = t.try_load_next(&folder, 2);
    let (p, _) = command_path(&cmd.unwrap());
    assert_eq!(p, "b");
}

#[test]
fn no_load_is_asked_while_one_runs() {
    let mut t = ThumbnailList::new();
    let folder = strings(&["a", "b"]);
    let first = t.try_load_next(&folder, 0);
    assert!(first.is_some());
    let second = t.try_load_next(&folder, 0);
    assert!(second.is_none());
}

#[test]
fn nothing_is_asked_when_all_thumbnails_exist() {
    let mut t = ThumbnailList::new();
    t.thumbnails = strings(&["a", "b"]);
    let folder = strings(&["a", "b"]);
    assert!(t.try_load_next(&folder, 0).is_none());
    assert!(t.loading_path.is_none());
}

#[test]
fn results_fill_the_strip_and_ask_for_the_next() {
    let mut t = ThumbnailList::new();
    let folder = strings(&["a", "b", "c"]);
    let first = t.try_load_next(&folder, 0);
    assert_eq!(command_path(&first.unwrap()).0, "a");
    let results = vec![ThumbnailResult::Success("a".to_string())];
    let next = t.process_results(&results, &folder, 0);
    assert_eq!(t.thumbnails, strings(&["a"]));
    assert_eq!(command_path(&next.unwrap()).0, "b");
    assert_eq!(t.loading_path.as_deref(), Some("b"));
}

#[test]
fn a_failed_thumbnail_is_recorded_and_not_retried() {
    let mut t = ThumbnailList::new();
    let folder = strings(&["a", "b"]);
    let _ = t.try_load_next(&folder, 0);
    let results = vec![ThumbnailResult::Error("a".to_string(), "bad data".to_string())];
    let next = t.process_results(&results, &folder, 0);
    // The failed path holds a placeholder key, so "b" is asked, not "a".
    assert_eq!(t.thumbnails, strings(&["a"]));
    assert_eq!(command_path(&next.unwrap()).0, "b");
}

#[test]
fn no_results_change_nothing() {
    let mut t = ThumbnailList::new();
    let folder = strings(&["a"]);
    let _ = t.try_load_next(&folder, 0);
    let loading_before = t.loading_path.clone();
    let cmd = t.process_results(&Vec::new(), &folder, 0);
    assert!(cmd.is_none());
    assert_eq!(t.loading_path, loading_before);
}

#[test]
fn far_thumbnails_are_evicted_when_too_many_pile_up() {
    let mut t = ThumbnailList::new();
    let folder: Vec<String> = (0..250).map(|i| format!("img{:03}", i)).collect();
    t.thumbnails = folder.clone();
    let current = 125;
    let (_cmd, evicted) = t.update_folder(&folder, current);
    assert_eq!(t.thumbnails.len(), 100);
    assert_eq!(evicted.len(), 150);
    let dist = |name: &String| -> i64 {
        let pos = folder.iter().position(|p| p == name).unwrap() as i64;
        (pos - current as i64).abs()
    };
    let kept_max = t.thumbnails.iter().map(&dist).max().unwrap();
    let evicted_min = evicted.iter().map(&dist).min().unwrap();
    assert!(kept_max <= evicted_min);
}

#[test]
fn few_thumbnails_are_left_alone() {
    let mut t = ThumbnailList::new();
    let folder = strings(&["a", "b", "c"]);
    t.thumbnails = strings(&["a", "b", "c"]);
    let (cmd, evicted) = t.update_folder(&folder, 0);
    assert!(evicted.is_empty());
    assert_eq!(t.thumbnails, strings(&["a", "b", "c"]));
    assert!(cmd.is_none());
}

#[test]
fn an_empty_folder_changes_nothing() {
    let mut t = ThumbnailList::new();
    t.thumbnails = strings(&["stale"]);
    let (cmd, evicted) = t.update_folder(&Vec::new(), 0);
    assert!(cmd.is_none());
    assert!(evicted.is_empty());
    assert_eq!(t.thumbnails, strings(&["stale"]));
}

#[test]
fn short_names_are_shown_whole() {
    assert_eq!(truncate_display_name("pic.png"), "pic.png");
    assert_eq!(truncate_display_name("exactly12ch."), "exactly12ch.");
}

#[test]
fn long_names_are_shortened_with_an_ellipsis() {
    assert_eq!(truncate_display_name("averylongfilename.png"), "averylongfi\u{2026}");
    assert_eq!(truncate_display_name("thirteen_chr."), "thirteen_ch\u{2026}");
}
