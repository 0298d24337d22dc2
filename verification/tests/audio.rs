use fm::audio::{format_clock, Command, Player};

#[test]
fn formats_minutes_and_seconds() {
    assert_eq!(format_clock(Some(0)), "0:00");
    assert_eq!(format_clock(Some(9_000_000_000)), "0:09");
    assert_eq!(format_clock(Some(68_060_000_000)), "1:08");
    assert_eq!(format_clock(Some(3_723_000_000_000)), "62:03");
}

#[test]
fn an_unknown_duration_is_not_reported_as_zero() {
    // Until the pipeline prerolls there is no duration, and claiming 0:00
    // would read as an empty file rather than as "still working it out".
    assert_eq!(format_clock(None), "--:--");
}

#[test]
fn truncates_rather_than_rounds() {
    // 9.9 s is still 0:09 — a clock that reads 0:10 before the tenth
    // second has elapsed looks broken next to a progress bar.
    assert_eq!(format_clock(Some(9_900_000_000)), "0:09");
}

fn player(in_playing_state: bool, position: Option<u64>, duration: Option<u64>) -> Player {
    let mut player = Player::new("file:///a.mp3", true).unwrap();
    player.in_playing_state = in_playing_state;
    player.position = position;
    player.duration = duration;
    player
}

#[test]
fn a_player_starts_paused_and_knows_nothing_yet() {
    let player = Player::new("file:///a.mp3", true).unwrap();
    assert_eq!(player.uri(), "file:///a.mp3");
    assert!(!player.is_playing());
    assert_eq!(player.position(), None);
    assert_eq!(player.duration(), None);
    assert_eq!(Player::new("file:///a.mp3", false), None);
}

#[test]
fn play_rewinds_a_player_that_reached_the_end() {
    assert_eq!(
        player(true, Some(9), Some(9)).play(),
        vec![Command::Seek(0), Command::Play]
    );
    assert_eq!(player(false, Some(8), Some(9)).play(), vec![Command::Play]);
    assert_eq!(player(false, None, Some(9)).play(), vec![Command::Play]);
}

#[test]
fn play_always_means_play() {
    for position in [None, Some(0), Some(5), Some(9), Some(10)] {
        for state in [true, false] {
            let mut player = player(state, position, Some(9));
            for command in player.play() {
                player.obey(command);
            }
            assert!(player.is_playing());
        }
    }
}

#[test]
fn a_finished_player_is_rewound_and_paused() {
    let mut player = player(true, Some(9), Some(9));
    assert!(!player.is_playing());
    assert_eq!(player.rewind_if_finished(false), vec![]);
    for command in player.rewind_if_finished(true) {
        player.obey(command);
    }
    assert!(!player.is_playing());
    assert_eq!(player.position(), Some(0));
    assert_eq!(player.play(), vec![Command::Play]);
}

#[test]
fn seeking_and_pausing_say_so() {
    let mut player = player(true, Some(1), Some(9));
    assert_eq!(player.seek(4), Command::Seek(4));
    player.obey(player.seek(4));
    assert_eq!(player.position(), Some(4));
    assert!(player.is_playing());
    assert_eq!(player.pause(), Command::Pause);
    player.obey(player.pause());
    assert!(!player.is_playing());
}

#[test]
fn the_longest_clock_is_in_minutes() {
    assert_eq!(format_clock(Some(u64::MAX)), "307445734:33");
    assert_eq!(format_clock(Some(59_999_999_999)), "0:59");
    assert_eq!(format_clock(Some(60_000_000_000)), "1:00");
}
