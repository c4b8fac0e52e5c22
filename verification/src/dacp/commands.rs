//! DACP remote-control commands and their request paths
//! (`/ctrl-int/1/<command>`).
use vstd::prelude::*;
use crate::text::str_eq;

verus! {

/// A DACP remote-control command.
#[derive(Debug, Clone, Copy, PartialEq, Eq, Structural)]
pub enum DacpCommand {
    /// Start playback
    Play,
    /// Pause playback
    Pause,
    /// Toggle between play and pause
    PlayPause,
    /// Resume playback
    PlayResume,
    /// Resume playback (second form, same request)
    PlayResume2,
    /// Stop playback
    Stop,
    /// Skip to the next item
    NextItem,
    /// Go back to the previous item
    PrevItem,
    /// Start fast-forwarding
    BeginFastForward,
    /// Start rewinding
    BeginRewind,
    /// Raise the volume
    VolumeUp,
    /// Lower the volume
    VolumeDown,
    /// Toggle mute
    MuteToggle,
    /// Shuffle the songs
    ShuffleSongs,
}

/// The prefix of every command path.
pub const PATH_PREFIX: &'static str = "/ctrl-int/1/";

impl DacpCommand {
    /// The command's name in its path.
    pub open spec fn spec_name(self) -> Seq<char> {
        match self {
            DacpCommand::Play => "play"@,
            DacpCommand::Pause => "pause"@,
            DacpCommand::PlayPause => "playpause"@,
            DacpCommand::PlayResume => "playresume"@,
            DacpCommand::PlayResume2 => "playresume"@,
            DacpCommand::Stop => "stop"@,
            DacpCommand::NextItem => "nextitem"@,
            DacpCommand::PrevItem => "previtem"@,
            DacpCommand::BeginFastForward => "beginff"@,
            DacpCommand::BeginRewind => "beginrew"@,
            DacpCommand::VolumeUp => "volumeup"@,
            DacpCommand::VolumeDown => "volumedown"@,
            DacpCommand::MuteToggle => "mutetoggle"@,
            DacpCommand::ShuffleSongs => "shuffle_songs"@,
        }
    }

    /// The command's request path.
    pub open spec fn spec_path(self) -> Seq<char> {
        PATH_PREFIX@ + self.spec_name()
    }

    /// The command a name in a path stands for (the first form where two
    /// forms share it).
    pub open spec fn spec_from_name(name: Seq<char>) -> Option<DacpCommand> {
        if name == "play"@ {
            Some(DacpCommand::Play)
        } else if name == "pause"@ {
            Some(DacpCommand::Pause)
        } else if name == "playpause"@ {
            Some(DacpCommand::PlayPause)
        } else if name == "playresume"@ {
            Some(DacpCommand::PlayResume)
        } else if name == "stop"@ {
            Some(DacpCommand::Stop)
        } else if name == "nextitem"@ {
            Some(DacpCommand::NextItem)
        } else if name == "previtem"@ {
            Some(DacpCommand::PrevItem)
        } else if name == "beginff"@ {
            Some(DacpCommand::BeginFastForward)
        } else if name == "beginrew"@ {
            Some(DacpCommand::BeginRewind)
        } else if name == "volumeup"@ {
            Some(DacpCommand::VolumeUp)
        } else if name == "volumedown"@ {
            Some(DacpCommand::VolumeDown)
        } else if name == "mutetoggle"@ {
            Some(DacpCommand::MuteToggle)
        } else if name == "shuffle_songs"@ {
            Some(DacpCommand::ShuffleSongs)
        } else {
            None
        }
    }

    /// The command a request path names: the prefix, then a known name.
    pub open spec fn spec_from_path(path: Seq<char>) -> Option<DacpCommand> {
        if path.len() >= PATH_PREFIX@.len() && path.subrange(0, PATH_PREFIX@.len() as int)
            == PATH_PREFIX@ {
            DacpCommand::spec_from_name(path.subrange(PATH_PREFIX@.len() as int, path.len() as int))
        } else {
            None
        }
    }

    /// The command's request path.
    pub fn path(self) -> (r: &'static str)
        ensures
            r@ == self.spec_path(),
    {
        let r = match self {
            DacpCommand::Play => "/ctrl-int/1/play",
            DacpCommand::Pause => "/ctrl-int/1/pause",
            DacpCommand::PlayPause => "/ctrl-int/1/playpause",
            DacpCommand::PlayResume => "/ctrl-int/1/playresume",
            DacpCommand::PlayResume2 => "/ctrl-int/1/playresume",
            DacpCommand::Stop => "/ctrl-int/1/stop",
            DacpCommand::NextItem => "/ctrl-int/1/nextitem",
            DacpCommand::PrevItem => "/ctrl-int/1/previtem",
            DacpCommand::BeginFastForward => "/ctrl-int/1/beginff",
            DacpCommand::BeginRewind => "/ctrl-int/1/beginrew",
            DacpCommand::VolumeUp => "/ctrl-int/1/volumeup",
            DacpCommand::VolumeDown => "/ctrl-int/1/volumedown",
            DacpCommand::MuteToggle => "/ctrl-int/1/mutetoggle",
            DacpCommand::ShuffleSongs => "/ctrl-int/1/shuffle_songs",
        };
        proof {
            reveal_strlit("/ctrl-int/1/");
            reveal_strlit("play");
            reveal_strlit("pause");
            reveal_strlit("playpause");
            reveal_strlit("playresume");
            reveal_strlit("stop");
            reveal_strlit("nextitem");
            reveal_strlit("previtem");
            reveal_strlit("beginff");
            reveal_strlit("beginrew");
            reveal_strlit("volumeup");
            reveal_strlit("volumedown");
            reveal_strlit("mutetoggle");
            reveal_strlit("shuffle_songs");
            reveal_strlit("/ctrl-int/1/play");
            reveal_strlit("/ctrl-int/1/pause");
            reveal_strlit("/ctrl-int/1/playpause");
            reveal_strlit("/ctrl-int/1/playresume");
            reveal_strlit("/ctrl-int/1/stop");
            reveal_strlit("/ctrl-int/1/nextitem");
            reveal_strlit("/ctrl-int/1/previtem");
            reveal_strlit("/ctrl-int/1/beginff");
            reveal_strlit("/ctrl-int/1/beginrew");
            reveal_strlit("/ctrl-int/1/volumeup");
            reveal_strlit("/ctrl-int/1/volumedown");
            reveal_strlit("/ctrl-int/1/mutetoggle");
            reveal_strlit("/ctrl-int/1/shuffle_songs");
            assert(r@ =~= self.spec_path());
        }
        r
    }

    /// The command a request path names, if any.
    pub fn from_path(path: &str) -> (r: Option<DacpCommand>)
        ensures
            r == DacpCommand::spec_from_path(path@),
    {
        let n = path.unicode_len();
        let p = PATH_PREFIX.unicode_len();
        if n < p || !str_eq(path.substring_char(0, p), PATH_PREFIX) {
            return None;
        }
        let name = path.substring_char(p, n);
        if str_eq(name, "play") {
            Some(DacpCommand::Play)
        } else if str_eq(name, "pause") {
            Some(DacpCommand::Pause)
        } else if str_eq(name, "playpause") {
            Some(DacpCommand::PlayPause)
        } else if str_eq(name, "playresume") {
            Some(DacpCommand::PlayResume)
        } else if str_eq(name, "stop") {
            Some(DacpCommand::Stop)
        } else if str_eq(name, "nextitem") {
            Some(DacpCommand::NextItem)
        } else if str_eq(name, "previtem") {
            Some(DacpCommand::PrevItem)
        } else if str_eq(name, "beginff") {
            Some(DacpCommand::BeginFastForward)
        } else if str_eq(name, "beginrew") {
            Some(DacpCommand::BeginRewind)
        } else if str_eq(name, "volumeup") {
            Some(DacpCommand::VolumeUp)
        } else if str_eq(name, "volumedown") {
            Some(DacpCommand::VolumeDown)
        } else if str_eq(name, "mutetoggle") {
            Some(DacpCommand::MuteToggle)
        } else if str_eq(name, "shuffle_songs") {
            Some(DacpCommand::ShuffleSongs)
        } else {
            None
        }
    }

    /// A human-readable description of the command.
    pub fn description(self) -> (r: &'static str)
        ensures
            r@.len() > 0,
    {
        let r = match self {
            DacpCommand::Play => "Start playback",
            DacpCommand::Pause => "Pause playback",
            DacpCommand::PlayPause => "Toggle play/pause",
            DacpCommand::PlayResume => "Resume playback",
            DacpCommand::PlayResume2 => "Resume playback",
            DacpCommand::Stop => "Stop playback",
            DacpCommand::NextItem => "Next track",
            DacpCommand::PrevItem => "Previous track",
            DacpCommand::BeginFastForward => "Begin fast forward",
            DacpCommand::BeginRewind => "Begin rewind",
            DacpCommand::VolumeUp => "Volume up",
            DacpCommand::VolumeDown => "Volume down",
            DacpCommand::MuteToggle => "Toggle mute",
            DacpCommand::ShuffleSongs => "Shuffle songs",
        };
        proof {
            reveal_strlit("Start playback");
            reveal_strlit("Pause playback");
            reveal_strlit("Toggle play/pause");
            reveal_strlit("Resume playback");
            reveal_strlit("Stop playback");
            reveal_strlit("Next track");
            reveal_strlit("Previous track");
            reveal_strlit("Begin fast forward");
            reveal_strlit("Begin rewind");
            reveal_strlit("Volume up");
            reveal_strlit("Volume down");
            reveal_strlit("Toggle mute");
            reveal_strlit("Shuffle songs");
        }
        r
    }
}

/// Every command's path names that command again; the second resume form
/// shares its path with the first and reads back as the first.
pub proof fn lemma_path_roundtrip(c: DacpCommand)
    ensures
        c != DacpCommand::PlayResume2 ==> DacpCommand::spec_from_path(c.spec_path()) == Some(c),
        c == DacpCommand::PlayResume2 ==> DacpCommand::spec_from_path(c.spec_path()) == Some(
            DacpCommand::PlayResume,
        ),
{
    reveal_strlit("/ctrl-int/1/");
    reveal_strlit("play");
    reveal_strlit("pause");
    reveal_strlit("playpause");
    reveal_strlit("playresume");
    reveal_strlit("stop");
    reveal_strlit("nextitem");
    reveal_strlit("previtem");
    reveal_strlit("beginff");
    reveal_strlit("beginrew");
    reveal_strlit("volumeup");
    reveal_strlit("volumedown");
    reveal_strlit("mutetoggle");
    reveal_strlit("shuffle_songs");
    let p = c.spec_path();
    assert(p.subrange(0, PATH_PREFIX@.len() as int) =~= PATH_PREFIX@);
    assert(p.subrange(PATH_PREFIX@.len() as int, p.len() as int) =~= c.spec_name());
    let names = seq![
        DacpCommand::Play,
        DacpCommand::Pause,
        DacpCommand::PlayPause,
        DacpCommand::PlayResume,
        DacpCommand::Stop,
        DacpCommand::NextItem,
        DacpCommand::PrevItem,
        DacpCommand::BeginFastForward,
        DacpCommand::BeginRewind,
        DacpCommand::VolumeUp,
        DacpCommand::VolumeDown,
        DacpCommand::MuteToggle,
        DacpCommand::ShuffleSongs,
    ];
    assert forall|i: int, j: int|
        0 <= i < 13 && 0 <= j < 13 && i != j implies #[trigger] names[i].spec_name()
        != #[trigger] names[j].spec_name() by {
        if names[i].spec_name().len() == names[j].spec_name().len() {
            assert(names[i].spec_name()[0] != names[j].spec_name()[0]);
        }
    }
    assert(names[0].spec_name() == "play"@);
    assert(names[1].spec_name() == "pause"@);
    assert(names[2].spec_name() == "playpause"@);
    assert(names[3].spec_name() == "playresume"@);
    assert(names[4].spec_name() == "stop"@);
    assert(names[5].spec_name() == "nextitem"@);
    assert(names[6].spec_name() == "previtem"@);
    assert(names[7].spec_name() == "beginff"@);
    assert(names[8].spec_name() == "beginrew"@);
    assert(names[9].spec_name() == "volumeup"@);
    assert(names[10].spec_name() == "volumedown"@);
    assert(names[11].spec_name() == "mutetoggle"@);
    assert(names[12].spec_name() == "shuffle_songs"@);
}

} // verus!
