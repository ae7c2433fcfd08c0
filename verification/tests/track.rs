use vast_player::{TagReading, TrackInfo};

#[test]
fn title_tag_wins_over_file_name() {
    let t = TrackInfo::from_parts(
        "/music/song.flac",
        Some("song".to_string()),
        Some(TagReading {
            title: Some("Real Title".to_string()),
            artists: Some(vec!["A".to_string(), "B".to_string()]),
        }),
        Some(128),
    );
    assert_eq!(t.title, "Real Title");
    assert_eq!(t.artists, vec!["A", "B"]);
    assert_eq!(t.path, "/music/song.flac");
    assert_eq!(t.tempo, Some(128));
}

#[test]
fn empty_title_tag_falls_back_to_stem() {
    let t = TrackInfo::from_parts(
        "/music/song.flac",
        Some("song".to_string()),
        Some(TagReading { title: Some(String::new()), artists: None }),
        None,
    );
    assert_eq!(t.title, "song");
    assert!(t.artists.is_empty());
}

#[test]
fn unreadable_tags_and_no_stem() {
    let t = TrackInfo::from_parts("/", None, None, None);
    assert_eq!(t.title, "[no title]");
    assert!(t.artists.is_empty());
}

#[test]
fn from_path_takes_the_file_stem() {
    let t = TrackInfo::from_path("/music/album/03 - tune.ogg", None, Some(90));
    assert_eq!(t.title, "03 - tune");
    assert_eq!(t.tempo, Some(90));
    let t = TrackInfo::from_path("/music/x.mp3", Some(TagReading::default()), None);
    assert_eq!(t.title, "x");
}

#[test]
fn audio_extensions_ignore_case() {
    for ext in ["mp3", "MP3", "Flac", "wav", "ogg", "OGA", "m4a", "mp4"] {
        assert!(TrackInfo::is_audio_extension(ext), "{ext}");
    }
    for ext in ["txt", "lrc", "mp", "mp33", ""] {
        assert!(!TrackInfo::is_audio_extension(ext), "{ext}");
    }
}

#[test]
fn audio_files_are_files_with_audio_extensions() {
    assert!(TrackInfo::is_audio_file("/m/a.MP3", true));
    assert!(!TrackInfo::is_audio_file("/m/a.mp3", false));
    assert!(!TrackInfo::is_audio_file("/m/a.lrc", true));
    assert!(!TrackInfo::is_audio_file("/m/mp3", true));
}

#[test]
fn artists_label_joins_or_says_none() {
    let mut t = TrackInfo::default();
    assert_eq!(t.artists_label(), "[no artist tags]");
    t.artists = vec!["Solo".to_string()];
    assert_eq!(t.artists_label(), "Solo");
    t.artists = vec!["A".to_string(), "B".to_string(), "C".to_string()];
    assert_eq!(t.artists_label(), "A, B, C");
}

#[test]
fn display_is_the_title() {
    let t = TrackInfo::from_parts("/x.mp3", Some("x".to_string()), None, None);
    assert_eq!(t.to_display_string(), "x");
}

#[test]
fn clone_copies_every_field() {
    let t = TrackInfo::from_parts(
        "/p.wav",
        None,
        Some(TagReading { title: Some("T".to_string()), artists: Some(vec!["X".to_string()]) }),
        Some(7),
    );
    assert_eq!(t.clone(), t);
}

#[test]
fn audio_file_extension_is_after_the_last_dot() {
    assert!(TrackInfo::is_audio_file("/m/live.v2.FLAC", true));
    assert!(TrackInfo::is_audio_file("relative name.m4a", true));
    assert!(!TrackInfo::is_audio_file("/m/song.mp3.txt", true));
    assert!(!TrackInfo::is_audio_file("/m/.mp3", true));
}

#[test]
fn untagged_file_is_titled_by_its_stem() {
    let t = TrackInfo::from_path("/m/song..mp3", None, None);
    assert_eq!(t.title, "song.");
    let t = TrackInfo::from_path("/m/.hidden", None, None);
    assert_eq!(t.title, ".hidden");
    let t = TrackInfo::from_path("/m/..", None, None);
    assert_eq!(t.title, "[no title]");
}

#[test]
fn audio_file_names_with_odd_dots() {
    assert!(TrackInfo::is_audio_file("/m/song..mp3", true));
    assert!(!TrackInfo::is_audio_file("/m/noext", true));
    assert!(!TrackInfo::is_audio_file("/m/a.", true));
}

#[test]
fn colons_in_file_names_are_ordinary() {
    let t = TrackInfo::from_path("/music/Artist: Song.mp3", None, None);
    assert_eq!(t.title, "Artist: Song");
    assert!(TrackInfo::is_audio_file("/music/Artist: Song.mp3", true));
    let t = TrackInfo::from_path("/music/album/..", None, None);
    assert_eq!(t.title, "[no title]");
}
