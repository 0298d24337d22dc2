//! What a small audio player is told and what it shows. The sound itself is made
//! elsewhere, by a pipeline that does what it is commanded.

use crate::text;
use crate::text::decimal_text;
use vstd::prelude::*;

verus! {

/// What the pipeline is commanded to do.
#[derive(Debug, Clone, Copy, PartialEq, Eq, Structural)]
pub enum Command {
    Play,
    Pause,

    /// Jump to this many nanoseconds from the start, at once.
    Seek(u64),
}

/// One file, playing or paused: what its pipeline answers when it is asked.
#[derive(Debug, Clone, PartialEq, Eq)]
pub struct Player {
    /// The file this player was built for.
    pub uri: String,

    /// Whether the pipeline is in its playing state. One that reached the end of
    /// the file still is.
    pub in_playing_state: bool,

    /// Nanoseconds played so far, once the pipeline can answer.
    pub position: Option<u64>,

    /// Total nanoseconds, once prerolling has finished. Unknown until then.
    pub duration: Option<u64>,
}

/// Whether a position is at the end of a file or beyond it, as far as that is
/// known.
pub open spec fn at_the_end(position: Option<u64>, duration: Option<u64>) -> bool {
    match (position, duration) {
        (Some(position), Some(total)) => position >= total,
        _ => false,
    }
}

impl Player {
    /// A player for `uri` that is prerolled and paused, as far as the pipeline
    /// could be built.
    pub fn new(uri: &str, prerolled: bool) -> (player: Option<Player>)
        ensures
            match player {
                Some(player) => {
                    &&& prerolled
                    &&& player.uri@ == uri@
                    &&& !player.in_playing_state
                    &&& player.position is None
                    &&& player.duration is None
                },
                None => !prerolled,
            },
    {
        if prerolled {
            Some(
                Player {
                    uri: uri.to_owned(),
                    in_playing_state: false,
                    position: None,
                    duration: None,
                },
            )
        } else {
            None
        }
    }

    /// The file this player was built for.
    pub fn uri(&self) -> (uri: &str)
        ensures
            uri@ == self.uri@,
    {
        self.uri.as_str()
    }

    /// What makes the player play. A pipeline that reached the end sits in its
    /// playing state at its final position, where asking it to play again changes
    /// nothing. It is rewound first, so play always means play.
    pub fn play(&self) -> (commands: Vec<Command>)
        ensures
            commands@ == (if at_the_end(self.position, self.duration) {
                seq![Command::Seek(0), Command::Play]
            } else {
                seq![Command::Play]
            }),
    {
        let mut commands: Vec<Command> = Vec::new();
        if let (Some(position), Some(total)) = (self.position, self.duration) {
            if position >= total {
                commands.push(Command::Seek(0));
            }
        }
        commands.push(Command::Play);
        assert(commands@ =~= if at_the_end(self.position, self.duration) {
            seq![Command::Seek(0), Command::Play]
        } else {
            seq![Command::Play]
        });
        commands
    }

    /// What returns the pipeline to the start, paused, once it said that the file
    /// has finished; nothing before that. Otherwise the transport row would keep
    /// showing a pause button over something silent.
    pub fn rewind_if_finished(&self, finished: bool) -> (commands: Vec<Command>)
        ensures
            commands@ == (if finished {
                seq![Command::Pause, Command::Seek(0)]
            } else {
                Seq::<Command>::empty()
            }),
    {
        let mut commands: Vec<Command> = Vec::new();
        if finished {
            commands.push(Command::Pause);
            commands.push(Command::Seek(0));
        }
        assert(commands@ =~= if finished {
            seq![Command::Pause, Command::Seek(0)]
        } else {
            Seq::<Command>::empty()
        });
        commands
    }

    /// What makes the player pause.
    pub fn pause(&self) -> (command: Command)
        ensures
            command == Command::Pause,
    {
        Command::Pause
    }

    /// Whether sound is actually coming out. A pipeline parked at the end of the
    /// file is still in its playing state, but nothing is playing, and reporting
    /// that as playing makes a toggle send `pause` to something already silent.
    pub fn is_playing(&self) -> (out: bool)
        ensures
            out == (self.in_playing_state && !at_the_end(self.position, self.duration)),
    {
        if !self.in_playing_state {
            return false;
        }
        match (self.position, self.duration) {
            (Some(position), Some(total)) => position < total,
            _ => true,
        }
    }

    /// Nanoseconds played so far, once the pipeline can answer.
    pub fn position(&self) -> (position: Option<u64>)
        ensures
            position == self.position,
    {
        self.position
    }

    /// Total nanoseconds, once prerolling has finished. Unknown until then.
    pub fn duration(&self) -> (duration: Option<u64>)
        ensures
            duration == self.duration,
    {
        self.duration
    }

    /// What makes the player jump to `nanos`.
    pub fn seek(&self, nanos: u64) -> (command: Command)
        ensures
            command == Command::Seek(nanos),
    {
        Command::Seek(nanos)
    }

    /// The player after its pipeline did as it was commanded.
    pub open spec fn obeyed(self, command: Command) -> Player {
        match command {
            Command::Play => Player { in_playing_state: true, ..self },
            Command::Pause => Player { in_playing_state: false, ..self },
            Command::Seek(nanos) => Player { position: Some(nanos), ..self },
        }
    }

    /// Takes that the pipeline did as it was commanded.
    pub fn obey(&mut self, command: Command)
        ensures
            *final(self) == old(self).obeyed(command),
    {
        match command {
            Command::Play => {
                self.in_playing_state = true;
            },
            Command::Pause => {
                self.in_playing_state = false;
            },
            Command::Seek(nanos) => {
                self.position = Some(nanos);
            },
        }
    }

    /// The player after its pipeline did all that it was commanded.
    pub open spec fn after(self, commands: Seq<Command>) -> Player
        decreases commands.len(),
    {
        if commands.len() == 0 {
            self
        } else {
            self.after(commands.drop_last()).obeyed(commands.last())
        }
    }
}

/// Play always means play: whatever state it was in, sound is coming out of the
/// player once it did what `play` commands, unless there is nothing to hear in the
/// file.
pub proof fn law_play_means_play(player: Player, commands: Seq<Command>)
    requires
        player.duration != Some(0u64),
        commands == if at_the_end(player.position, player.duration) {
            seq![Command::Seek(0), Command::Play]
        } else {
            seq![Command::Play]
        },
    ensures
        ({
            let after = player.after(commands);
            after.in_playing_state && !at_the_end(after.position, after.duration)
        }),
{
    reveal_with_fuel(Player::after, 3);
    if at_the_end(player.position, player.duration) {
        assert(commands.drop_last() =~= seq![Command::Seek(0)]);
        assert(commands.drop_last().drop_last() =~= Seq::<Command>::empty());
    } else {
        assert(commands.drop_last() =~= Seq::<Command>::empty());
    }
}

/// Once a file has finished and the player was rewound, it is silent, at the
/// start, and the next toggle plays it again.
pub proof fn law_a_finished_player_is_ready_to_play_again(player: Player)
    ensures
        ({
            let after = player.after(seq![Command::Pause, Command::Seek(0)]);
            !after.in_playing_state && after.position == Some(0u64)
        }),
{
    reveal_with_fuel(Player::after, 3);
    let commands = seq![Command::Pause, Command::Seek(0)];
    assert(commands.drop_last() =~= seq![Command::Pause]);
    assert(commands.drop_last().drop_last() =~= Seq::<Command>::empty());
}

/// A number with two digits, as far as it has no more.
pub open spec fn two_digits(n: nat) -> Seq<char> {
    seq![text::digit(n / 10), text::digit(n % 10)]
}

/// Nanoseconds as `m:ss`, or `--:--` where they are not known.
pub open spec fn clock(nanos: Option<u64>) -> Seq<char> {
    match nanos {
        None => "--:--"@,
        Some(nanos) => {
            let total = nanos as nat / 1_000_000_000;
            text::decimal(total / 60) + ":"@ + two_digits(total % 60)
        },
    }
}

/// Formats nanoseconds as `m:ss`, the way a transport row reads it. An unknown
/// duration shows as `--:--` rather than a confident zero.
pub fn format_clock(nanos: Option<u64>) -> (shown: String)
    ensures
        shown@ == clock(nanos),
{
    match nanos {
        None => "--:--".to_owned(),
        Some(nanos) => {
            let total: u64 = nanos / 1_000_000_000;
            let seconds: u64 = total % 60;
            let mut shown: String = decimal_text(total / 60);
            shown.append(":");
            let ghost before = shown@;
            shown.push((48 + (seconds / 10) as u8) as char);
            shown.push((48 + (seconds % 10) as u8) as char);
            assert(shown@ =~= before + two_digits(seconds as nat));
            shown
        },
    }
}

/// A clock counts whole seconds: it does not show the next one before it has
/// elapsed.
pub proof fn law_a_clock_truncates(nanos: u64, later: u64)
    requires
        nanos / 1_000_000_000 == later / 1_000_000_000,
    ensures
        clock(Some(nanos)) == clock(Some(later)),
{
}

/// A file is at its end exactly if both the position and the duration are known and
/// the position has reached the duration.
pub proof fn law_the_end_is_reached_at_the_duration(position: u64, duration: u64)
    ensures
        at_the_end(Some(position), Some(duration)) <==> position >= duration,
        !at_the_end(None, Some(duration)),
        !at_the_end(Some(position), None),
        !at_the_end(None, None),
{
}

/// Playing and pausing leave the position where it is, seeking leaves a player
/// playing or paused as it was, and none of them changes the file.
pub proof fn law_each_command_does_one_thing(player: Player, nanos: u64)
    ensures
        player.obeyed(Command::Play).in_playing_state,
        player.obeyed(Command::Play).position == player.position,
        !player.obeyed(Command::Pause).in_playing_state,
        player.obeyed(Command::Pause).position == player.position,
        player.obeyed(Command::Seek(nanos)).position == Some(nanos),
        player.obeyed(Command::Seek(nanos)).in_playing_state == player.in_playing_state,
        forall|command: Command|
            (#[trigger] player.obeyed(command)).uri == player.uri && player.obeyed(command).duration
                == player.duration,
        player.after(seq![Command::Pause]) == player.obeyed(Command::Pause),
        player.after(seq![Command::Seek(nanos), Command::Play]) == player.obeyed(
            Command::Seek(nanos),
        ).obeyed(Command::Play),
{
    reveal_with_fuel(Player::after, 3);
    let one = seq![Command::Pause];
    assert(one.drop_last() =~= Seq::<Command>::empty());
    let two = seq![Command::Seek(nanos), Command::Play];
    assert(two.drop_last() =~= seq![Command::Seek(nanos)]);
    assert(two.drop_last().drop_last() =~= Seq::<Command>::empty());
}

/// A clock shows whole minutes, and behind them the seconds with two digits; what is
/// not known is shown as such.
pub proof fn law_a_clock_shows_minutes_and_seconds(
    minutes: nat,
    tens: nat,
    ones: nat,
    rest: nat,
    nanos: u64,
)
    requires
        tens < 6,
        ones < 10,
        rest < 1_000_000_000,
        nanos == (minutes * 60 + tens * 10 + ones) * 1_000_000_000 + rest,
    ensures
        clock(Some(nanos)) == text::decimal(minutes) + seq![
            ':',
            (48 + tens) as char,
            (48 + ones) as char,
        ],
        clock(None) == "--:--"@,
{
    reveal_strlit(":");
    let total = nanos as nat / 1_000_000_000;
    assert(total == minutes * 60 + tens * 10 + ones);
    assert(total / 60 == minutes);
    assert(total % 60 == tens * 10 + ones);
    assert((total % 60) / 10 == tens);
    assert((total % 60) % 10 == ones);
    assert(clock(Some(nanos)) =~= text::decimal(minutes) + seq![
        ':',
        (48 + tens) as char,
        (48 + ones) as char,
    ]);
}

/// A player that was told to play and did so is playing, unless there is nothing to hear.
/// It starts over only from the end.
pub proof fn law_a_player_plays_when_told(player: Player, commands: Vec<Command>, playing: bool)
    requires
        call_ensures(Player::play, (&player,), commands),
        call_ensures(Player::is_playing, (&player,), playing),
    ensures
        player.duration != Some(0u64) ==> player.after(commands@).in_playing_state,
        commands@.last() == Command::Play,
        player.position is None || player.duration is None || player.position->0
            < player.duration->0 ==> commands@.len() == 1,
        player.position is Some && player.duration is Some && player.position->0
            >= player.duration->0 ==> commands@.len() == 2 && commands@[0] == Command::Seek(0),
        !player.in_playing_state ==> !playing,
        player.in_playing_state && (player.position is None || player.duration is None) ==> playing,
        player.in_playing_state && player.position is Some && player.duration is Some ==> (playing
            <==> player.position->0 < player.duration->0),
{
    if player.duration != Some(0u64) {
        law_play_means_play(player, commands@);
    }
}

/// A new player is there once it is prerolled, for the file it was asked for, silent, and
/// knows of no position and no duration.
pub proof fn law_a_new_player_is_silent(
    uri: &str,
    prerolled: bool,
    player: Option<Player>,
    playing: bool,
    of: &str,
    position: Option<u64>,
    duration: Option<u64>,
)
    requires
        call_ensures(Player::new, (uri, prerolled), player),
        player is Some ==> {
            &&& call_ensures(Player::is_playing, (&player->0,), playing)
            &&& call_ensures(Player::uri, (&player->0,), of)
            &&& call_ensures(Player::position, (&player->0,), position)
            &&& call_ensures(Player::duration, (&player->0,), duration)
        },
    ensures
        player is Some <==> prerolled,
        prerolled ==> !playing && of@ == uri@ && position is None && duration is None,
{
}

/// Pausing silences a player and seeking puts it where it was told, and its position and
/// duration are read back as they are. It is rewound and paused only once it has finished.
pub proof fn law_a_player_does_as_told(
    player: Player,
    nanos: u64,
    paused: Command,
    sought: Command,
    position: Option<u64>,
    duration: Option<u64>,
    finished: bool,
    rewound: Vec<Command>,
)
    requires
        call_ensures(Player::pause, (&player,), paused),
        call_ensures(Player::seek, (&player, nanos), sought),
        call_ensures(Player::position, (&player,), position),
        call_ensures(Player::duration, (&player,), duration),
        call_ensures(Player::rewind_if_finished, (&player, finished), rewound),
    ensures
        !player.obeyed(paused).in_playing_state,
        player.obeyed(paused).position == player.position,
        player.obeyed(sought).position == Some(nanos),
        player.obeyed(sought).in_playing_state == player.in_playing_state,
        position == player.position,
        duration == player.duration,
        !finished ==> rewound@.len() == 0,
        finished ==> !player.after(rewound@).in_playing_state && player.after(rewound@).position
            == Some(0u64),
{
    law_a_finished_player_is_ready_to_play_again(player);
}

} // verus!
