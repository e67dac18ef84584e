use signal::plugins::usable_token;
use signal::scanner::{
    empty_scan_message, find_folder_art, folder_art_candidates, genre_to_write, sort_event,
    FsEventKind, ImportOutcome, PathState, ScanReport,
};

#[test]
fn scan_report_tallies() {
    let mut r = ScanReport::default();
    r.add_walk_errors(2);
    r.count(ImportOutcome::Added);
    r.count(ImportOutcome::Added);
    r.count(ImportOutcome::Skipped);
    r.count(ImportOutcome::Failed);
    assert_eq!(r.added, 2);
    assert_eq!(r.skipped, 1);
    assert_eq!(r.errors, 3);
    assert_eq!(r.updated, 0);
    assert_eq!(r.removed, 0);
}

#[test]
fn empty_scan_messages() {
    assert_eq!(empty_scan_message("/m", 0), "no audio files found in /m");
    let m = empty_scan_message("/m", 3);
    assert!(m.starts_with("no audio files found in /m (3 unreadable entries"));
    assert!(m.contains("permissions problem"));
}

#[test]
fn events_sort_into_changed_and_removed() {
    let paths = vec![
        ("/m/a.flac".to_owned(), PathState::File),
        ("/m/old.flac".to_owned(), PathState::Missing),
        ("/m/dir".to_owned(), PathState::Elsewise),
    ];
    let mut changed = Vec::new();
    let mut removed = Vec::new();
    sort_event(FsEventKind::Modify, &paths, &mut changed, &mut removed);
    assert_eq!(changed, vec!["/m/a.flac"]);
    assert_eq!(removed, vec!["/m/old.flac"]);

    sort_event(FsEventKind::Remove, &paths, &mut changed, &mut removed);
    assert_eq!(changed, vec!["/m/a.flac"]);
    assert_eq!(removed, vec!["/m/old.flac", "/m/a.flac", "/m/old.flac", "/m/dir"]);

    sort_event(FsEventKind::Other, &paths, &mut changed, &mut removed);
    assert_eq!(changed.len(), 1);
    assert_eq!(removed.len(), 4);
}

#[test]
fn artwork_candidates_sit_next_to_the_track() {
    let c = folder_art_candidates("/music/album/01.flac").unwrap();
    assert_eq!(c.len(), 8);
    assert_eq!(c[0], "/music/album/cover.jpg");
    assert_eq!(c[7], "/music/album/front.png");
    let c = folder_art_candidates("01.flac").unwrap();
    assert_eq!(c[0], "cover.jpg");
    assert!(folder_art_candidates("/").is_none());
}

#[test]
fn first_existing_artwork_wins() {
    let c = folder_art_candidates("/m/a/t.flac").unwrap();
    let mut present = vec![false; 8];
    assert_eq!(find_folder_art(&c, &present), None);
    present[4] = true;
    present[6] = true;
    assert_eq!(find_folder_art(&c, &present), Some("/m/a/folder.jpeg".to_owned()));
}

#[test]
fn blank_genres_clear_the_field() {
    assert_eq!(genre_to_write(&Some("Jazz".to_owned())), Some("Jazz".to_owned()));
    assert_eq!(genre_to_write(&Some("  ".to_owned())), None);
    assert_eq!(genre_to_write(&None), None);
}

#[test]
fn blank_tokens_disable_scrobbling() {
    assert_eq!(usable_token(Some("abc".to_owned())), Some("abc".to_owned()));
    assert_eq!(usable_token(Some(" \t".to_owned())), None);
    assert_eq!(usable_token(None), None);
}
