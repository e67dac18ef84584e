use signal::db::{
    album_fuse, bucket_counts, lossless_pct, low_bitrate_detail, parse_id_list,
    split_comma_list, staging_positions, streaks, streaks_on, to_u32, to_u64, to_u8, AlbumFuse,
};

#[test]
fn integer_conversions_fall_back_to_zero() {
    assert_eq!(to_u32(7), 7);
    assert_eq!(to_u32(-1), 0);
    assert_eq!(to_u32(4_294_967_295), u32::MAX);
    assert_eq!(to_u32(4_294_967_296), 0);
    assert_eq!(to_u64(i64::MAX), i64::MAX as u64);
    assert_eq!(to_u64(-5), 0);
    assert_eq!(to_u8(255), 255);
    assert_eq!(to_u8(256), 0);
    assert_eq!(to_u8(-1), 0);
}

#[test]
fn lossless_share() {
    assert_eq!(lossless_pct(0, 0), 0);
    assert_eq!(lossless_pct(1, 3), 33);
    assert_eq!(lossless_pct(3, 3), 100);
    assert_eq!(lossless_pct(u32::MAX, 1), 0);
}

#[test]
fn hourly_buckets() {
    let rows = vec![(0, 5), (23, 2), (24, 9), (-1, 9), (3, -4), (0, 6)];
    let b = bucket_counts(&rows, 24);
    assert_eq!(b.len(), 24);
    assert_eq!(b[0], 6);
    assert_eq!(b[23], 2);
    assert_eq!(b[3], 0);
    assert_eq!(b[1], 0);
}

#[test]
fn streak_runs() {
    // days 10, 11, 12, then 20, 21
    let days = vec![10, 11, 12, 20, 21];
    assert_eq!(streaks_on(&days, 21), (2, 3));
    assert_eq!(streaks_on(&days, 22), (2, 3));
    assert_eq!(streaks_on(&days, 23), (0, 3));
    assert_eq!(streaks_on(&[].to_vec(), 5), (0, 0));
    assert_eq!(streaks_on(&vec![i32::MAX], i32::MAX), (1, 1));
}

#[test]
fn streaks_skip_unparsable_days() {
    let days = vec![
        "2024-01-01".to_owned(),
        "not a date".to_owned(),
        "2024-01-02".to_owned(),
        "2024-01-03".to_owned(),
        "2024-01-05".to_owned(),
    ];
    let (current, best) = streaks(&days);
    assert_eq!(best, 3);
    assert!(current == 0 || current == 1);
    assert_eq!(streaks(&vec![]), (0, 0));
    assert_eq!(streaks(&vec!["2024-02-30".to_owned()]).1, 0);
}

#[test]
fn duplicate_id_lists() {
    assert_eq!(parse_id_list("3,17,42"), vec![3, 17, 42]);
    assert_eq!(parse_id_list("3,,x,-4"), vec![3, -4]);
    assert!(parse_id_list("").is_empty());
    assert_eq!(parse_id_list(" 5"), Vec::<i64>::new());
}

#[test]
fn low_bitrate_details() {
    assert_eq!(low_bitrate_detail("MP3", 128), "MP3 @ 128 kbps");
    assert_eq!(low_bitrate_detail("AAC", -1), "AAC @ -1 kbps");
}

#[test]
fn edited_genres() {
    assert_eq!(split_comma_list("Rock, Jazz ,, Trip Hop"), vec!["Rock", "Jazz", "Trip Hop"]);
    assert!(split_comma_list("").is_empty());
    assert_eq!(split_comma_list("Rock/Pop"), vec!["Rock/Pop"]);
}

#[test]
fn reorder_positions_are_negative_and_distinct() {
    let p = staging_positions(4);
    assert_eq!(p, vec![-1, -2, -3, -4]);
    let settled: Vec<i64> = p.iter().map(|x| -x - 1).collect();
    assert_eq!(settled, vec![0, 1, 2, 3]);
}

#[test]
fn fusing_albums_keeps_existing_artwork() {
    assert_eq!(album_fuse(Some("a.jpg".to_owned()), None), None);
    assert_eq!(
        album_fuse(Some("a.jpg".to_owned()), Some((9, None))),
        Some(AlbumFuse {
            keep_id: 9,
            adopt_artwork: Some("a.jpg".to_owned())
        })
    );
    assert_eq!(
        album_fuse(Some("a.jpg".to_owned()), Some((9, Some("b.jpg".to_owned())))),
        Some(AlbumFuse {
            keep_id: 9,
            adopt_artwork: None
        })
    );
}

#[test]
fn directory_prefixes() {
    assert_eq!(signal::db::dir_prefix("/music//"), "/music/");
    assert_eq!(signal::db::dir_prefix("/music"), "/music/");
    assert_eq!(signal::db::dir_prefix(""), "/");
}
