use signal::tags::{
    codec_name, container_name, is_audio_file, normalize_album, parse_disc_keyword,
    path_extension, resolve_tags, split_genres, AudioFormat, RawTags,
};

#[test]
fn album_disc_suffix_normalization() {
    assert_eq!(
        normalize_album("Random Access Memories (1)"),
        ("Random Access Memories".to_owned(), Some(1))
    );
    assert_eq!(
        normalize_album("Random Access Memories (2)"),
        ("Random Access Memories".to_owned(), Some(2))
    );
    assert_eq!(
        normalize_album("Aventine [Disc 2]"),
        ("Aventine".to_owned(), Some(2))
    );
    assert_eq!(
        normalize_album("Live in Paris CD1"),
        ("Live in Paris".to_owned(), Some(1))
    );
    assert_eq!(
        normalize_album("The Wall - Disc 2"),
        ("The Wall".to_owned(), Some(2))
    );
    // real names must survive untouched
    assert_eq!(normalize_album("Volumen 4"), ("Volumen 4".to_owned(), None));
    assert_eq!(normalize_album("Vol III"), ("Vol III".to_owned(), None));
    assert_eq!(
        normalize_album("Bocanada (1999)"),
        ("Bocanada (1999)".to_owned(), None)
    );
    assert_eq!(normalize_album("4"), ("4".to_owned(), None));
}

#[test]
fn audio_extension_filter() {
    assert!(is_audio_file("/a/b.FLAC"));
    assert!(is_audio_file("/a/b.opus"));
    assert!(!is_audio_file("/a/cover.jpg"));
    assert!(!is_audio_file("/a/noext"));
}

#[test]
fn hidden_files_and_dot_dirs_have_no_extension() {
    assert!(!is_audio_file("/a/.flac"));
    assert!(!is_audio_file("/a/b.flac/.."));
    assert!(is_audio_file("/a/b.flac/."));
    assert!(is_audio_file("/a/b.mp3/"));
    assert!(is_audio_file("song.M4A"));
    assert_eq!(path_extension("/a/b.tar.gz"), Some("gz".to_owned()));
    assert_eq!(path_extension("/a/b."), Some(String::new()));
    assert_eq!(path_extension("/"), None);
    assert_eq!(path_extension(""), None);
}

#[test]
fn disc_keywords() {
    assert_eq!(parse_disc_keyword("disc 2"), Some(2));
    assert_eq!(parse_disc_keyword("CD1"), Some(1));
    assert_eq!(parse_disc_keyword("Disk #3"), Some(3));
    assert_eq!(parse_disc_keyword("cd. - 20"), Some(20));
    assert_eq!(parse_disc_keyword("disc 21"), None);
    assert_eq!(parse_disc_keyword("disc 0"), None);
    assert_eq!(parse_disc_keyword("discs 2"), None);
    assert_eq!(parse_disc_keyword("vol 2"), None);
    assert_eq!(parse_disc_keyword("cd"), None);
}

#[test]
fn album_edge_cases() {
    assert_eq!(normalize_album("  Kid A  "), ("Kid A".to_owned(), None));
    assert_eq!(normalize_album("Album (Disc 3)"), ("Album".to_owned(), Some(3)));
    assert_eq!(normalize_album("Album [ 2 ]"), ("Album".to_owned(), Some(2)));
    assert_eq!(normalize_album("Album (21)"), ("Album (21)".to_owned(), None));
    // the keyword needs a separator before it and something before that
    assert_eq!(normalize_album("AlbumCD1"), ("AlbumCD1".to_owned(), None));
    assert_eq!(normalize_album("CD1"), ("CD1".to_owned(), None));
    assert_eq!(normalize_album("- CD1"), ("- CD1".to_owned(), None));
    assert_eq!(
        normalize_album("Greatest Hits \u{2013} Disc 1"),
        ("Greatest Hits".to_owned(), Some(1))
    );
    assert_eq!(normalize_album(""), (String::new(), None));
}

#[test]
fn genre_lists_split_and_trim() {
    assert_eq!(
        split_genres("Rock; Pop/Indie , ,Jazz"),
        vec!["Rock", "Pop", "Indie", "Jazz"]
    );
    assert!(split_genres("").is_empty());
    assert!(split_genres(" ; / ,").is_empty());
    assert_eq!(split_genres("  Trip Hop  "), vec!["Trip Hop"]);
}

#[test]
fn codec_and_container_names() {
    assert_eq!(codec_name(AudioFormat::Flac), "FLAC");
    assert_eq!(codec_name(AudioFormat::Mpeg), "MP3");
    assert_eq!(codec_name(AudioFormat::Mp4), "AAC");
    assert_eq!(codec_name(AudioFormat::Aac), "AAC");
    assert_eq!(codec_name(AudioFormat::Wav), "PCM (WAV)");
    assert_eq!(codec_name(AudioFormat::Other), "Unknown");
    assert_eq!(container_name("/m/a.flac", AudioFormat::Flac), "FLAC");
    assert_eq!(container_name("/m/a.opus", AudioFormat::Opus), "Ogg");
    assert_eq!(container_name("/m/a.aac", AudioFormat::Aac), "AAC");
    assert_eq!(container_name("/m/a.wv", AudioFormat::Other), "WV");
    assert_eq!(container_name("/m/noext", AudioFormat::Other), "Unknown");
}

fn no_tags() -> RawTags {
    RawTags {
        title: None,
        artist: None,
        album_artist: None,
        album: None,
        genre: None,
        track_no: None,
        disc_no: None,
    }
}

#[test]
fn untagged_file_falls_back_to_names() {
    let t = resolve_tags(no_tags(), Some("01 Intro".to_owned()));
    assert_eq!(t.title, "01 Intro");
    assert_eq!(t.artist, "Unknown Artist");
    assert_eq!(t.album_artist, "Unknown Artist");
    assert_eq!(t.album, None);
    assert_eq!(t.disc_no, None);
    assert!(t.genres.is_empty());
    assert_eq!(resolve_tags(no_tags(), None).title, "unknown");
}

#[test]
fn tagged_file_resolves_album_and_disc() {
    let raw = RawTags {
        title: Some("Puente".to_owned()),
        artist: Some("Cerati".to_owned()),
        album_artist: Some("  Soda Stereo ".to_owned()),
        album: Some("Canción Animal (Disc 2)".to_owned()),
        genre: Some("Rock; Pop".to_owned()),
        track_no: Some(3),
        disc_no: None,
    };
    let t = resolve_tags(raw.clone(), Some("x".to_owned()));
    assert_eq!(t.title, "Puente");
    assert_eq!(t.artist, "Cerati");
    assert_eq!(t.album_artist, "Soda Stereo");
    assert_eq!(t.album.as_deref(), Some("Canción Animal"));
    assert_eq!(t.disc_no, Some(2));
    assert_eq!(t.track_no, Some(3));
    assert_eq!(t.genres, vec!["Rock", "Pop"]);

    let own_disc = RawTags { disc_no: Some(1), album_artist: Some("   ".to_owned()), ..raw };
    let t = resolve_tags(own_disc, None);
    assert_eq!(t.disc_no, Some(1));
    assert_eq!(t.album_artist, "Cerati");
}
