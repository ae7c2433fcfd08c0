use vast_player::{Queue, QueueError, TagReading, TrackInfo};

fn track(title: &str, path: &str) -> TrackInfo {
    TrackInfo::from_parts(
        path,
        None,
        Some(TagReading { title: Some(title.to_string()), artists: None }),
        None,
    )
}

fn three() -> Queue<&'static str> {
    let mut q: Queue<&'static str> = Queue::default();
    q.insert_tracks(vec![track("One", "/m/1.mp3"), track("Two", "/m/2.mp3"), track("Three", "/m/3.mp3")]);
    q
}

#[test]
fn default_queue_is_empty() {
    let q: Queue<u8> = Queue::default();
    assert!(q.track_order().is_empty());
    assert!(q.tracks().is_empty());
    assert!(q.player().is_none());
    assert_eq!(q.current_index(), None);
    assert!(q.currently_playing().is_none());
}

#[test]
fn insert_keeps_order_and_indexes_by_id() {
    let q = three();
    assert_eq!(q.track_order().len(), 3);
    let titles: Vec<String> = q
        .track_order()
        .iter()
        .map(|id| q.tracks()[&id.value()].title.clone())
        .collect();
    assert_eq!(titles, vec!["One", "Two", "Three"]);
}

#[test]
fn same_track_gets_same_id() {
    let mut q: Queue<u8> = Queue::default();
    q.insert_tracks(vec![track("Same", "/m/s.mp3"), track("Same", "/m/s.mp3")]);
    assert_eq!(q.track_order().len(), 2);
    assert_eq!(q.track_order()[0], q.track_order()[1]);
    assert_eq!(q.tracks().len(), 1);
}

#[test]
fn play_at_out_of_bounds_is_refused() {
    let mut q = three();
    q.playing_started(1, "player-1");
    let err = q.play_at(3).err();
    assert_eq!(err, Some(QueueError::IndexOutOfBounds));
    assert_eq!(q.player(), &Some("player-1"));
    assert_eq!(q.current_index(), Some(1));
}

#[test]
fn play_at_hands_out_track_and_previous_player() {
    let mut q = three();
    q.playing_started(0, "player-0");
    let req = q.play_at(2).ok().unwrap();
    assert_eq!(req.index, 2);
    assert_eq!(req.track.title, "Three");
    assert_eq!(req.previous, Some("player-0"));
    assert!(q.player().is_none());
    assert_eq!(q.current_index(), Some(0));
    q.playing_started(req.index, "player-2");
    assert_eq!(q.current_index(), Some(2));
    assert_eq!(q.player(), &Some("player-2"));
    assert_eq!(q.currently_playing_info().unwrap().title, "Three");
}

#[test]
fn play_at_clamped_goes_to_last() {
    let mut q = three();
    let req = q.play_at_clamped(10).ok().unwrap();
    assert_eq!(req.index, 2);
    let req = q.play_at_clamped(1).ok().unwrap();
    assert_eq!(req.index, 1);
    let mut empty: Queue<u8> = Queue::default();
    assert_eq!(empty.play_at_clamped(0).err(), Some(QueueError::IndexOutOfBounds));
}

#[test]
fn play_next_walks_the_queue_then_stops() {
    let mut q = three();
    assert_eq!(q.play_next(), Some(0));
    q.playing_started(0, "p0");
    assert_eq!(q.play_next(), Some(1));
    q.playing_started(1, "p1");
    assert_eq!(q.play_next(), Some(2));
    q.playing_started(2, "p2");
    assert_eq!(q.play_next(), None);
    assert!(q.player().is_none());
    assert_eq!(q.current_index(), None);
}

#[test]
fn play_previous_steps_back_but_not_past_the_start() {
    let mut q = three();
    assert_eq!(q.play_previous(), None);
    q.playing_started(0, "p0");
    assert_eq!(q.play_previous(), None);
    q.playing_started(2, "p2");
    assert_eq!(q.play_previous(), Some(1));
}

#[test]
fn clear_tracks_keeps_player_and_index() {
    let mut q = three();
    q.playing_started(1, "p1");
    q.clear_tracks();
    assert!(q.track_order().is_empty());
    assert!(q.tracks().is_empty());
    assert_eq!(q.player(), &Some("p1"));
    assert_eq!(q.current_index(), Some(1));
    assert!(q.currently_playing().is_none());
    assert!(q.currently_playing_info().is_none());
    assert_eq!(q.play_next(), None);
}

#[test]
fn display_lists_tracks_and_marks_current() {
    let mut q = three();
    q.playing_started(1, "p1");
    let text = q.to_display_string();
    let lines: Vec<&str> = text.lines().collect();
    assert_eq!(lines.len(), 4);
    assert_eq!(lines[0], "Queue (3 tracks):");
    for (i, id) in q.track_order().iter().enumerate() {
        let hash = format!("{:016x}", id.value());
        let title = &q.tracks()[&id.value()].title;
        let label = if i == 1 { " [PLAYING]" } else { "" };
        assert_eq!(lines[i + 1], format!("  {}. {} ({}){}", i + 1, title, &hash[..7], label));
    }
    assert!(text.ends_with('\n'));
}

#[test]
fn display_of_empty_queue() {
    let q: Queue<u8> = Queue::default();
    assert_eq!(q.to_display_string(), "Queue (0 tracks):\n");
}

#[test]
fn catalog_never_outgrows_the_order() {
    let mut q = three();
    q.insert_tracks(vec![track("One", "/m/1.mp3")]);
    assert_eq!(q.track_order().len(), 4);
    assert!(q.tracks().len() <= q.track_order().len());
    for key in q.tracks().keys() {
        assert!(q.track_order().iter().any(|id| id.value() == *key));
    }
}
