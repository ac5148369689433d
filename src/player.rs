use crate::timer::{Timer, TimerView};
use vstd::prelude::*;

verus! {

/// What the output device is told to do, in order.
#[derive(PartialEq, Eq, Structural, Debug, Clone, Copy)]
pub enum DeviceCommand {
    /// Drop every queued source.
    ClearQueue,
    /// Queue the loaded source, skipped forward to the given offset.
    Enqueue(u64),
    Play,
    Pause,
    /// Set the volume, in percent.
    SetVolume(u8),
}

/// Why a playback request was refused.
#[derive(PartialEq, Eq, Structural, Debug, Clone, Copy)]
pub enum PlaybackError {
    NothingLoaded,
}

impl PlaybackError {
    /// A message for the user.
    pub fn message(&self) -> (r: String)
        ensures
            r@ == "nothing is loaded"@,
    {
        "nothing is loaded".to_owned()
    }
}

/// The abstract state of a [`PlaybackController`].
pub struct ControllerView {
    pub timer: TimerView,
    pub loaded: bool,
    pub playing: bool,
    pub total: Option<u64>,
}

impl ControllerView {
    /// The timer runs exactly while the device plays, and only a loaded
    /// source plays.
    pub open spec fn wf(self) -> bool {
        &&& self.timer.is_running() == self.playing
        &&& self.playing ==> self.loaded
    }

    /// The command that puts the device back in the state it had.
    pub open spec fn resume_command(self) -> DeviceCommand {
        if self.playing {
            DeviceCommand::Play
        } else {
            DeviceCommand::Pause
        }
    }
}

/// Decides what the output device must do for each playback request, and
/// keeps the playback timer in step with it. The device itself reports no
/// position, so the timer is the only record of where playback stands.
pub struct PlaybackController {
    timer: Timer,
    loaded: bool,
    playing: bool,
    total: Option<u64>,
}

impl View for PlaybackController {
    type V = ControllerView;

    closed spec fn view(&self) -> ControllerView {
        ControllerView {
            timer: self.timer@,
            loaded: self.loaded,
            playing: self.playing,
            total: self.total,
        }
    }
}

impl PlaybackController {
    /// A controller with nothing loaded.
    pub fn new() -> (r: PlaybackController)
        ensures
            r@.wf(),
            r@ == (ControllerView {
                timer: TimerView { elapsed: 0, since: None },
                loaded: false,
                playing: false,
                total: None,
            }),
    {
        PlaybackController { timer: Timer::new(), loaded: false, playing: false, total: None }
    }

    /// Takes a freshly decoded source, of `total` milliseconds where that is
    /// known: the old queue goes, the new source is queued paused at its
    /// start, and the timer is cleared.
    pub fn replace_file(&mut self, total: Option<u64>) -> (r: Vec<DeviceCommand>)
        requires
            old(self)@.wf(),
        ensures
            final(self)@.wf(),
            final(self)@ == (ControllerView {
                timer: old(self)@.timer.cleared(),
                loaded: true,
                playing: false,
                total,
            }),
            r@ == seq![DeviceCommand::Pause, DeviceCommand::ClearQueue, DeviceCommand::Enqueue(0)],
    {
        self.timer.clear();
        self.loaded = true;
        self.playing = false;
        self.total = total;
        vec![DeviceCommand::Pause, DeviceCommand::ClearQueue, DeviceCommand::Enqueue(0)]
    }

    /// Closes the source: the queue goes and the timer is cleared.
    pub fn clear(&mut self) -> (r: Vec<DeviceCommand>)
        requires
            old(self)@.wf(),
        ensures
            final(self)@.wf(),
            final(self)@ == (ControllerView {
                timer: old(self)@.timer.cleared(),
                loaded: false,
                playing: false,
                total: None,
            }),
            r@ == seq![DeviceCommand::Pause, DeviceCommand::ClearQueue],
    {
        self.timer.clear();
        self.loaded = false;
        self.playing = false;
        self.total = None;
        vec![DeviceCommand::Pause, DeviceCommand::ClearQueue]
    }

    /// Where playback stands, in milliseconds from the start.
    pub fn get_progress(&self) -> (r: u64)
        ensures
            exists|now: u64| r == self@.timer.reading(now),
    {
        self.timer.read()
    }

    /// Seeks to `target`: the queue is replaced by the source skipped forward
    /// to `target`, the timer is set to `target`, and the device plays or
    /// pauses as before. With nothing loaded, nothing happens.
    pub fn set_progress(&mut self, target: u64) -> (r: Vec<DeviceCommand>)
        requires
            old(self)@.wf(),
        ensures
            final(self)@.wf(),
            !old(self)@.loaded ==> final(self)@ == old(self)@ && r@ == Seq::<
                DeviceCommand,
            >::empty(),
            old(self)@.loaded ==> {
                &&& exists|now: u64|
                    final(self)@ == (ControllerView {
                        timer: #[trigger] old(self)@.timer.overwritten(target, now),
                        ..old(self)@
                    })
                &&& r@ == seq![
                    DeviceCommand::ClearQueue,
                    DeviceCommand::Enqueue(target),
                    old(self)@.resume_command(),
                ]
            },
    {
        if !self.loaded {
            return Vec::new();
        }
        self.timer.overwrite(target);
        let resume = if self.playing {
            DeviceCommand::Play
        } else {
            DeviceCommand::Pause
        };
        vec![DeviceCommand::ClearQueue, DeviceCommand::Enqueue(target), resume]
    }

    /// Starts playback and the timer together.
    pub fn resume(&mut self) -> (r: Result<Vec<DeviceCommand>, PlaybackError>)
        requires
            old(self)@.wf(),
        ensures
            final(self)@.wf(),
            !old(self)@.loaded ==> final(self)@ == old(self)@ && r == Err::<
                Vec<DeviceCommand>,
                PlaybackError,
            >(PlaybackError::NothingLoaded),
            old(self)@.loaded ==> {
                &&& exists|now: u64|
                    final(self)@ == (ControllerView {
                        timer: #[trigger] old(self)@.timer.started(now),
                        playing: true,
                        ..old(self)@
                    })
                &&& r is Ok
                &&& r->Ok_0@ == seq![DeviceCommand::Play]
            },
    {
        if !self.loaded {
            return Err(PlaybackError::NothingLoaded);
        }
        self.timer.start();
        self.playing = true;
        Ok(vec![DeviceCommand::Play])
    }

    /// Pauses playback and the timer together.
    pub fn pause(&mut self) -> (r: Vec<DeviceCommand>)
        requires
            old(self)@.wf(),
        ensures
            final(self)@.wf(),
            exists|now: u64|
                final(self)@ == (ControllerView {
                    timer: #[trigger] old(self)@.timer.paused(now),
                    playing: false,
                    ..old(self)@
                }),
            r@ == seq![DeviceCommand::Pause],
    {
        self.timer.pause();
        self.playing = false;
        vec![DeviceCommand::Pause]
    }

    /// Whether nothing is loaded.
    pub fn is_empty(&self) -> (r: bool)
        ensures
            r == !self@.loaded,
    {
        !self.loaded
    }

    pub fn is_paused(&self) -> (r: bool)
        ensures
            r == !self@.playing,
    {
        !self.playing
    }

    /// Sets the volume to `percent`, at most 100.
    pub fn set_volume(&self, percent: u8) -> (r: DeviceCommand)
        ensures
            r == DeviceCommand::SetVolume(if percent > 100 { 100 } else { percent }),
    {
        DeviceCommand::SetVolume(if percent > 100 { 100 } else { percent })
    }

    /// Goes back to the start of the source, playing or paused as before.
    /// With nothing loaded, nothing happens.
    pub fn reset(&mut self) -> (r: Vec<DeviceCommand>)
        requires
            old(self)@.wf(),
        ensures
            final(self)@.wf(),
            !old(self)@.loaded ==> final(self)@ == old(self)@ && r@ == Seq::<
                DeviceCommand,
            >::empty(),
            old(self)@.loaded ==> {
                &&& exists|now: u64|
                    final(self)@ == (ControllerView {
                        timer: #[trigger] old(self)@.timer.overwritten(0, now),
                        ..old(self)@
                    })
                &&& r@ == seq![
                    DeviceCommand::ClearQueue,
                    DeviceCommand::Enqueue(0),
                    old(self)@.resume_command(),
                ]
            },
    {
        self.set_progress(0)
    }

    /// The length of the loaded source, where it is known.
    pub fn total_duration(&self) -> (r: Option<u64>)
        ensures
            r == self@.total,
    {
        self.total
    }
}

} // verus!
