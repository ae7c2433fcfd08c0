use std::time::Duration;
use vast_player::{lrc_path_for, parse_timestamp, Lyrics};

fn at(secs: f64) -> u128 {
    Duration::from_secs_f64(secs).as_nanos()
}

#[test]
fn parses_basic_lrc() {
    let sample = "[00:00.00]Intro\n[00:12.34]First line\n[00:15.10]Second line\n";
    let lyrics = Lyrics::parse(sample);
    assert_eq!(lyrics.lines.len(), 3);
    assert_eq!(lyrics.current_line(at(13.0)), Some("First line"));
    assert_eq!(lyrics.current_line(at(0.0)), Some("Intro"));
    assert_eq!(lyrics.current_line(at(20.0)), Some("Second line"));
}

#[test]
fn skips_metadata_tags() {
    let sample = "[ar:Some Artist]\n[00:01.00]Hello\n";
    let lyrics = Lyrics::parse(sample);
    assert_eq!(lyrics.lines.len(), 1);
    assert_eq!(lyrics.lines[0].text, "Hello");
}

#[test]
fn parses_timestamp_forms() {
    assert_eq!(parse_timestamp("00:12.34"), Some(12_340_000_000));
    assert_eq!(parse_timestamp("01:05"), Some(65_000_000_000));
    assert_eq!(parse_timestamp(" 2 : 03.5 "), Some(123_500_000_000));
    assert_eq!(parse_timestamp("0:07."), Some(7_000_000_000));
    assert_eq!(parse_timestamp("0:.25"), Some(250_000_000));
    assert_eq!(parse_timestamp("0:00.1234567891"), Some(123_456_789));
    assert_eq!(parse_timestamp("10:00.000000001"), Some(600_000_000_001));
}

#[test]
fn rejects_non_timestamps() {
    assert_eq!(parse_timestamp("ar:Some Artist"), None);
    assert_eq!(parse_timestamp("00-12"), None);
    assert_eq!(parse_timestamp(":12"), None);
    assert_eq!(parse_timestamp("00:"), None);
    assert_eq!(parse_timestamp("00:."), None);
    assert_eq!(parse_timestamp("00:1.2.3"), None);
    assert_eq!(parse_timestamp("00:12:34"), None);
    assert_eq!(parse_timestamp("x1:00"), None);
    assert_eq!(parse_timestamp("99999999999999999999999999999999:00"), None);
}

#[test]
fn one_entry_per_timestamp_tag() {
    let lyrics = Lyrics::parse("[00:12.00][00:45.00]Chorus\n[00:30.00]Verse\n");
    let times: Vec<u128> = lyrics.lines.iter().map(|l| l.time_nanos).collect();
    let texts: Vec<&str> = lyrics.lines.iter().map(|l| l.text.as_str()).collect();
    assert_eq!(times, vec![12_000_000_000, 30_000_000_000, 45_000_000_000]);
    assert_eq!(texts, vec!["Chorus", "Verse", "Chorus"]);
}

#[test]
fn equal_times_keep_file_order() {
    let lyrics = Lyrics::parse("[00:05.00]B first\n[00:01.00]A\n[00:05.00]B second\n");
    let texts: Vec<&str> = lyrics.lines.iter().map(|l| l.text.as_str()).collect();
    assert_eq!(texts, vec!["A", "B first", "B second"]);
    assert_eq!(lyrics.current_line(at(6.0)), Some("B second"));
}

#[test]
fn trims_lines_and_text_and_skips_blank_lines() {
    let lyrics = Lyrics::parse("\r\n   \n  [00:02.00]   spaced out  \r\n\n[00:03.00]\n");
    assert_eq!(lyrics.lines.len(), 2);
    assert_eq!(lyrics.lines[0].text, "spaced out");
    assert_eq!(lyrics.lines[1].text, "");
}

#[test]
fn unclosed_tag_is_text() {
    let lyrics = Lyrics::parse("[00:01.00][oops\n");
    assert_eq!(lyrics.lines.len(), 1);
    assert_eq!(lyrics.lines[0].text, "[oops");
}

#[test]
fn lines_without_tags_give_nothing() {
    let lyrics = Lyrics::parse("just words\nmore words");
    assert!(lyrics.lines.is_empty());
    assert_eq!(lyrics.current_line(at(100.0)), None);
}

#[test]
fn no_line_before_the_first_time() {
    let lyrics = Lyrics::parse("[00:10.00]Late start\n");
    assert_eq!(lyrics.current_line(at(9.99)), None);
    assert_eq!(lyrics.current_line(at(10.0)), Some("Late start"));
}

#[test]
fn current_line_moves_forward_with_time() {
    let lyrics = Lyrics::parse("[00:01.00]one\n[00:02.00]two\n[00:03.00]three\n");
    let mut last = 0usize;
    for tenths in 0..50u64 {
        let t = u128::from(tenths) * 100_000_000;
        let idx = match lyrics.current_line(t) {
            Some("one") => 1,
            Some("two") => 2,
            Some("three") => 3,
            _ => 0,
        };
        assert!(idx >= last);
        last = idx;
    }
    assert_eq!(last, 3);
}

#[test]
fn lrc_file_sits_beside_the_audio_file() {
    assert_eq!(lrc_path_for("/music/song.mp3"), "/music/song.lrc");
    assert_eq!(lrc_path_for("song.v2.flac"), "song.v2.lrc");
    assert_eq!(lrc_path_for("/music/noext"), "/music/noext.lrc");
    assert_eq!(lrc_path_for("/music/.hidden"), "/music/.hidden.lrc");
}

#[test]
fn lrc_path_keeps_colons() {
    assert_eq!(lrc_path_for("/music/Artist: Song.mp3"), "/music/Artist: Song.lrc");
}
