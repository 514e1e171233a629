use vstd::prelude::*;

verus! {

/// What the music player has to do to reach the wanted state.
#[derive(Clone, Copy, PartialEq, Eq, Debug, Structural)]
pub enum BgmCommand {
    /// start the looped music at the volume
    Play,
    /// stop the music
    Stop,
    /// the music plays already: only follow the volume
    SetVolume,
    /// the music is silent and stays so
    Keep,
}

/// Whether the music is playing.
#[derive(Clone, Copy, PartialEq, Eq, Debug, Structural)]
pub struct BgmState {
    pub playing: bool,
}

/// The command that takes the music from playing or not to the wanted state.
pub open spec fn bgm_command_of(playing_now: bool, wanted: bool) -> BgmCommand {
    if !playing_now && wanted {
        BgmCommand::Play
    } else if playing_now && !wanted {
        BgmCommand::Stop
    } else if playing_now && wanted {
        BgmCommand::SetVolume
    } else {
        BgmCommand::Keep
    }
}

impl BgmState {
    /// Silence.
    pub fn new() -> (s: Self)
        ensures
            !s.playing,
    {
        BgmState { playing: false }
    }

    /// Declares whether the music should play: starts or stops it when the
    /// state changes, follows the volume while it plays.
    pub fn set_bgm(&mut self, playing: bool) -> (c: BgmCommand)
        ensures
            c == bgm_command_of(old(self).playing, playing),
            final(self).playing == playing,
    {
        let c = if !self.playing && playing {
            BgmCommand::Play
        } else if self.playing && !playing {
            BgmCommand::Stop
        } else if self.playing && playing {
            BgmCommand::SetVolume
        } else {
            BgmCommand::Keep
        };
        self.playing = playing;
        c
    }
}

/// Declaring the same state twice in a row asks for nothing new the second
/// time: the music is started or stopped at most once.
pub proof fn lemma_bgm_idempotent(playing_now: bool, wanted: bool)
    ensures
        bgm_command_of(wanted, wanted) == (if wanted { BgmCommand::SetVolume } else { BgmCommand::Keep }),
        bgm_command_of(playing_now, wanted) == BgmCommand::Play ==> !playing_now && wanted,
{
}

} // verus!
