//! The run loop: what is asked of the outside next, and what its answer leads
//! to.
//!
//! Every pass takes faults first, then what the editor, the keys and the menu
//! asked for, then saves, and only then looks whether anything new arrived. The
//! order matters more than it looks: a source that has gone silent delivers no
//! samples at all, so anything gated behind samples would never be seen, and the
//! command that most needs to get through is the one that moves a layer off such
//! a source.

use vstd::prelude::*;
use vstd::string::*;

use crate::hotkeys::{label_text, Hotkeys};
use crate::text::{decimal, joined, push_decimal, push_joined, same, texts};
use crate::tray::TrayEvent;

verus! {

/// How often the display and the editor are refreshed, in micro-seconds.
pub const FRAME: u64 = 16_000;

/// How long an idle pass rests, in milliseconds.
pub const REST: u64 = 2;

/// How the loop ended. It only ends on purpose, from the menu.
#[derive(Copy, Clone, Debug, PartialEq, Eq, Structural)]
pub enum Exit {
    Stopped,
    Restarting,
}

/// What the editor asked for. What comes with it stays outside.
pub enum Command {
    /// Replace the whole show.
    Config,
    /// Change the master brightness.
    Brightness,
    /// Look what there is to listen to, and retry what would not open.
    ListSources,
    SelectPreset(usize),
    RenamePreset(usize, String),
    /// Answered where the client is served.
    RequestState,
}

/// What became of the layers that would not open.
pub enum Retry {
    /// None of them opened now.
    Unchanged,
    /// Some opened, and the wall was rebuilt around them.
    Rebuilt,
    /// Some opened, and the wall could not be rebuilt.
    Rejected(String),
}

/// What the outside answers.
pub enum Event {
    /// The failures there were, as pairs of a layer's id and the reason.
    Faults(Vec<(String, String)>),
    /// The next command from the editor, if there is one.
    Command(Option<Command>),
    /// Whether the show was put on the wall, and whether the stack changed shape.
    Applied(Result<bool, String>),
    /// The edit was stored; whether that filled an empty slot.
    Stored(bool),
    Rescanned(Retry),
    /// Whether there is a show to be put on the wall.
    Chosen(bool),
    /// The next slot struck, if there is one.
    Key(Option<usize>),
    /// What the menu asked for, oldest first.
    Menu(Vec<TrayEvent>),
    /// Whether anything was written, and what is wrong with the file.
    Saved { wrote: bool, error: Option<String> },
    /// Whether something new arrived, whether anything moves by itself, and how
    /// long ago the display was refreshed.
    Polled { fresh: bool, animating: bool, elapsed: u64 },
    /// Whether the frame was taken.
    Sent(Result<bool, String>),
    /// How long ago the display was refreshed.
    Elapsed(u64),
    /// What was asked is done.
    Done,
}

/// What is shown of a pass.
pub enum Shown {
    /// The display, and whether it is the first.
    Picture(bool),
    /// One line for the log.
    Line(String),
    Nothing,
}

/// What is asked of the outside.
pub enum Action {
    TakeFaults,
    /// Tell the editor how the layers are.
    AnnounceLayers,
    NextCommand,
    /// Put the show the editor sent on the wall.
    ApplyEdit,
    /// Store the show the editor sent in the live slot.
    StoreEdit,
    /// Keep the advertised state in step with the edit, with the list of presets
    /// where it changed, and push it where the editor could not have known.
    PublishEdit { listing: bool, announce: bool },
    SetBrightness,
    Rescan,
    AnnounceSources,
    /// Make a slot live.
    LoadPreset { slot: usize, blank_if_empty: bool },
    /// Put the show of the slot on the wall.
    ApplyPreset,
    AnnounceShow,
    /// Rename a slot and tell the editor.
    Rename(usize, String),
    NextKey,
    DrainMenu,
    SavePresets,
    Poll,
    Rest,
    /// Render and send a frame, moving what moves by itself to the present first.
    Render { seek: bool },
    ReadClock,
    Draw { publish: bool, shown: Shown },
    Exit(Exit),
    Fail(String),
}

/// Where a pass has got to.
#[derive(Copy, Clone, Debug, PartialEq, Eq, Structural)]
pub enum Phase {
    Faults,
    TellFaults,
    Commands,
    Editing,
    Storing { reshaped: bool },
    Publishing { listing: bool, announce: bool },
    Dimming,
    Rescanning,
    TellSources,
    Choosing(usize),
    Switching(usize),
    TellShow,
    Renaming(usize),
    Keys,
    KeyChoosing(usize),
    KeySwitching(usize),
    KeyTellShow,
    Menu,
    Saving,
    Polling,
    Resting,
    Rendering { seek: bool },
    Timing,
    Drawing,
    Ended(Exit),
    Failed,
}

/// The run loop.
pub struct RunLoop {
    phase: Phase,
    status: String,
    /// The last status written to the log, so that a fault that persists for an
    /// hour is one line.
    logged: String,
    /// The name a slot is being given, or what failed.
    note: String,
    dropped: u64,
    first: bool,
    console: bool,
    server: bool,
}

/// What there is to know of the run loop.
pub ghost struct Running {
    pub phase: Phase,
    pub status: Seq<char>,
    pub logged: Seq<char>,
    pub note: Seq<char>,
    /// Frames the strip was not ready for.
    pub dropped: nat,
    pub first: bool,
    /// Whether the display is drawn; a log is kept otherwise.
    pub console: bool,
    /// Whether there is an editor to talk to.
    pub server: bool,
}

impl View for RunLoop {
    type V = Running;

    closed spec fn view(&self) -> Running {
        Running {
            phase: self.phase,
            status: self.status@,
            logged: self.logged@,
            note: self.note@,
            dropped: self.dropped as nat,
            first: self.first,
            console: self.console,
            server: self.server,
        }
    }
}

/// The failures, one after the other.
pub open spec fn fault_texts(faults: Seq<(String, String)>) -> Seq<Seq<char>> {
    Seq::new(faults.len(), |i: int| faults[i].0@ + ": "@ + faults[i].1@)
}

/// What is said of a show that was refused.
pub open spec fn config_rejected(why: Seq<char>) -> Seq<char> {
    "config rejected: "@ + why
}

/// What is said of a preset that was refused.
pub open spec fn preset_rejected(slot: usize, why: Seq<char>) -> Seq<char> {
    "preset "@ + decimal((slot + 1) as nat) + " rejected: "@ + why
}

/// What is said of a key whose slot is empty.
pub open spec fn slot_empty(slot: usize) -> Seq<char> {
    label_text(slot as nat) + " is empty"@
}

impl Running {
    /// The same in another phase.
    pub open spec fn to(self, phase: Phase) -> Running {
        Running { phase, ..self }
    }

    /// The same in another phase with something to say.
    pub open spec fn saying(self, phase: Phase, status: Seq<char>) -> Running {
        Running { phase, status, ..self }
    }

    /// Where a pass goes on after the faults: commands come from the editor, and
    /// only where there is one.
    pub open spec fn past_faults(self) -> Phase {
        if self.server {
            Phase::Commands
        } else {
            Phase::Keys
        }
    }

    /// Whether a pass with nothing new has nothing to draw either. What moves by
    /// itself has something to draw without anything arriving, at the rate of
    /// the display.
    pub open spec fn idle(fresh: bool, animating: bool, elapsed: u64) -> bool {
        !fresh && !(animating && elapsed >= FRAME)
    }

    /// What a command leads to.
    pub open spec fn commanded(self, command: Command) -> Running {
        match command {
            Command::Config => self.to(Phase::Editing),
            Command::Brightness => self.to(Phase::Dimming),
            Command::ListSources => self.to(Phase::Rescanning),
            Command::SelectPreset(slot) => self.to(Phase::Choosing(slot)),
            Command::RenamePreset(slot, name) => Running {
                phase: Phase::Renaming(slot),
                note: name@,
                ..self
            },
            Command::RequestState => self,
        }
    }

    /// What a finished request leads to.
    pub open spec fn done(self) -> Running {
        match self.phase {
            Phase::TellFaults | Phase::Publishing { .. } | Phase::Dimming | Phase::TellSources
            | Phase::TellShow | Phase::Renaming(_) => self.to(Phase::Commands),
            Phase::KeyTellShow => self.to(Phase::Keys),
            Phase::Resting => self.to(Phase::Faults),
            Phase::Drawing => Running {
                phase: Phase::Faults,
                first: self.first && !self.console,
                logged: if self.console {
                    self.logged
                } else {
                    self.status
                },
                ..self
            },
            _ => self,
        }
    }

    /// The loop after an event. An event that answers nothing that was asked
    /// changes nothing.
    pub open spec fn after(self, event: Event) -> Running {
        match (self.phase, event) {
            (Phase::Faults, Event::Faults(faults)) => if faults@.len() == 0 {
                self.to(self.past_faults())
            } else {
                self.saying(
                    if self.server {
                        Phase::TellFaults
                    } else {
                        Phase::Keys
                    },
                    joined(fault_texts(faults@), "  "@),
                )
            },
            (Phase::Commands, Event::Command(command)) => match command {
                Some(command) => self.commanded(command),
                None => self.to(Phase::Keys),
            },
            (Phase::Editing, Event::Applied(outcome)) => match outcome {
                Ok(reshaped) => self.to(Phase::Storing { reshaped }),
                Err(e) => self.saying(Phase::Commands, config_rejected(e@)),
            },
            (Phase::Storing { reshaped }, Event::Stored(filled)) => self.saying(
                Phase::Publishing { listing: filled, announce: reshaped || filled },
                Seq::empty(),
            ),
            (Phase::Rescanning, Event::Rescanned(retry)) => match retry {
                Retry::Unchanged => self.to(Phase::TellSources),
                Retry::Rebuilt => self.saying(Phase::TellSources, Seq::empty()),
                Retry::Rejected(e) => self.saying(Phase::TellSources, config_rejected(e@)),
            },
            (Phase::Choosing(slot), Event::Chosen(show)) => if show {
                self.to(Phase::Switching(slot))
            } else {
                self.to(Phase::Commands)
            },
            (Phase::Switching(slot), Event::Applied(outcome)) => match outcome {
                Ok(_) => self.saying(Phase::TellShow, Seq::empty()),
                Err(e) => self.saying(Phase::Commands, preset_rejected(slot, e@)),
            },
            (Phase::Keys, Event::Key(key)) => match key {
                Some(slot) => self.to(Phase::KeyChoosing(slot)),
                None => self.to(Phase::Menu),
            },
            (Phase::KeyChoosing(slot), Event::Chosen(show)) => if show {
                self.to(Phase::KeySwitching(slot))
            } else {
                self.saying(Phase::Keys, slot_empty(slot))
            },
            (Phase::KeySwitching(slot), Event::Applied(outcome)) => match outcome {
                Ok(_) => self.saying(
                    if self.server {
                        Phase::KeyTellShow
                    } else {
                        Phase::Keys
                    },
                    Seq::empty(),
                ),
                Err(e) => self.saying(Phase::Keys, preset_rejected(slot, e@)),
            },
            (Phase::Menu, Event::Menu(events)) => if events@.len() == 0 {
                self.to(Phase::Saving)
            } else {
                self.to(
                    Phase::Ended(
                        match events@.last() {
                            TrayEvent::Stop => Exit::Stopped,
                            TrayEvent::Restart => Exit::Restarting,
                        },
                    ),
                )
            },
            (Phase::Saving, Event::Saved { wrote, error }) => match error {
                Some(e) => if wrote {
                    self.saying(Phase::Polling, e@)
                } else {
                    self.to(Phase::Polling)
                },
                None => self.to(Phase::Polling),
            },
            (Phase::Polling, Event::Polled { fresh, animating, elapsed }) => if Self::idle(
                fresh,
                animating,
                elapsed,
            ) {
                self.to(Phase::Resting)
            } else {
                self.to(Phase::Rendering { seek: animating })
            },
            (Phase::Rendering { .. }, Event::Sent(outcome)) => match outcome {
                Ok(taken) => Running {
                    phase: Phase::Timing,
                    dropped: if taken || self.dropped >= u64::MAX {
                        self.dropped
                    } else {
                        self.dropped + 1
                    },
                    ..self
                },
                Err(e) => Running { phase: Phase::Failed, note: e@, ..self },
            },
            (Phase::Timing, Event::Elapsed(elapsed)) => if elapsed >= FRAME {
                self.to(Phase::Drawing)
            } else {
                self.to(Phase::Faults)
            },
            (_, Event::Done) => self.done(),
            _ => self,
        }
    }

    /// Whether what is shown of a pass is what is to be shown: the display, or
    /// one line for the log when the status is another than the last one there.
    pub open spec fn shows(self, shown: Shown) -> bool {
        if self.console {
            shown matches Shown::Picture(first) && first == self.first
        } else if self.status == self.logged {
            shown is Nothing
        } else {
            shown matches Shown::Line(line) && line@ == if self.status.len() == 0 {
                "recovered"@
            } else {
                self.status
            }
        }
    }

    /// Whether an action is what the loop calls for.
    pub open spec fn asks(self, action: Action) -> bool {
        match self.phase {
            Phase::Faults => action is TakeFaults,
            Phase::TellFaults => action is AnnounceLayers,
            Phase::Commands => action is NextCommand,
            Phase::Editing => action is ApplyEdit,
            Phase::Storing { .. } => action is StoreEdit,
            Phase::Publishing { listing, announce } => action matches Action::PublishEdit {
                listing: l,
                announce: a,
            } && l == listing && a == announce,
            Phase::Dimming => action is SetBrightness,
            Phase::Rescanning => action is Rescan,
            Phase::TellSources => action is AnnounceSources,
            Phase::Choosing(slot) => action matches Action::LoadPreset {
                slot: s,
                blank_if_empty,
            } && s == slot && blank_if_empty,
            Phase::KeyChoosing(slot) => action matches Action::LoadPreset {
                slot: s,
                blank_if_empty,
            } && s == slot && !blank_if_empty,
            Phase::Switching(_) | Phase::KeySwitching(_) => action is ApplyPreset,
            Phase::TellShow | Phase::KeyTellShow => action is AnnounceShow,
            Phase::Renaming(slot) => action matches Action::Rename(s, name) && s == slot && name@
                == self.note,
            Phase::Keys => action is NextKey,
            Phase::Menu => action is DrainMenu,
            Phase::Saving => action is SavePresets,
            Phase::Polling => action is Poll,
            Phase::Resting => action is Rest,
            Phase::Rendering { seek } => action matches Action::Render { seek: s } && s == seek,
            Phase::Timing => action is ReadClock,
            Phase::Drawing => action matches Action::Draw { publish, shown } && publish
                == self.server && self.shows(shown),
            Phase::Ended(exit) => action matches Action::Exit(e) && e == exit,
            Phase::Failed => action matches Action::Fail(why) && why@ == self.note,
        }
    }
}

fn fault_status(faults: &[(String, String)]) -> (out: String)
    ensures
        out@ == joined(fault_texts(faults@), "  "@),
{
    let mut parts: Vec<String> = Vec::new();
    let mut i: usize = 0;
    while i < faults.len()
        invariant
            i <= faults@.len(),
            parts@.len() == i,
            forall|k: int|
                0 <= k < i ==> (#[trigger] parts@[k])@ == fault_texts(faults@)[k],
        decreases faults@.len() - i,
    {
        let mut part = String::new();
        part.append(faults[i].0.as_str());
        part.append(": ");
        part.append(faults[i].1.as_str());
        assert(part@ =~= fault_texts(faults@)[i as int]);
        parts.push(part);
        i += 1;
    }
    assert(texts(parts@) =~= fault_texts(faults@));
    let mut out = String::new();
    push_joined(&mut out, parts.as_slice(), "  ");
    assert(out@ =~= joined(fault_texts(faults@), "  "@));
    out
}

fn reject_config(why: &str) -> (out: String)
    ensures
        out@ == config_rejected(why@),
{
    let mut out = String::new();
    out.append("config rejected: ");
    out.append(why);
    assert(out@ =~= config_rejected(why@));
    out
}

fn reject_preset(slot: usize, why: &str) -> (out: String)
    ensures
        out@ == preset_rejected(slot, why@),
{
    let mut out = String::new();
    out.append("preset ");
    push_decimal(&mut out, slot as u128 + 1);
    out.append(" rejected: ");
    out.append(why);
    assert(out@ =~= preset_rejected(slot, why@));
    out
}

fn name_empty(slot: usize) -> (out: String)
    ensures
        out@ == slot_empty(slot),
{
    let mut out = Hotkeys::label(slot);
    out.append(" is empty");
    assert(out@ =~= slot_empty(slot));
    out
}

impl RunLoop {
    /// A loop about to start its first pass.
    pub fn new(console: bool, server: bool) -> (run: Self)
        ensures
            run@ == (Running {
                phase: Phase::Faults,
                status: Seq::empty(),
                logged: Seq::empty(),
                note: Seq::empty(),
                dropped: 0,
                first: true,
                console,
                server,
            }),
    {
        RunLoop {
            phase: Phase::Faults,
            status: String::new(),
            logged: String::new(),
            note: String::new(),
            dropped: 0,
            first: true,
            console,
            server,
        }
    }

    /// What there is to say at the moment.
    pub fn status(&self) -> (out: &str)
        ensures
            out@ == self@.status,
    {
        self.status.as_str()
    }

    /// Frames the strip was not ready for.
    pub fn dropped(&self) -> (n: u64)
        ensures
            n == self@.dropped,
    {
        self.dropped
    }

    fn shown(&self) -> (shown: Shown)
        ensures
            self@.shows(shown),
    {
        if self.console {
            Shown::Picture(self.first)
        } else if same(self.status.as_str(), self.logged.as_str()) {
            Shown::Nothing
        } else if self.status.as_str().is_empty() {
            Shown::Line("recovered".to_owned())
        } else {
            Shown::Line(self.status.clone())
        }
    }

    /// What is asked of the outside next.
    pub fn action(&self) -> (action: Action)
        ensures
            self@.asks(action),
    {
        match self.phase {
            Phase::Faults => Action::TakeFaults,
            Phase::TellFaults => Action::AnnounceLayers,
            Phase::Commands => Action::NextCommand,
            Phase::Editing => Action::ApplyEdit,
            Phase::Storing { .. } => Action::StoreEdit,
            Phase::Publishing { listing, announce } => Action::PublishEdit { listing, announce },
            Phase::Dimming => Action::SetBrightness,
            Phase::Rescanning => Action::Rescan,
            Phase::TellSources => Action::AnnounceSources,
            Phase::Choosing(slot) => Action::LoadPreset { slot, blank_if_empty: true },
            Phase::KeyChoosing(slot) => Action::LoadPreset { slot, blank_if_empty: false },
            Phase::Switching(_) => Action::ApplyPreset,
            Phase::KeySwitching(_) => Action::ApplyPreset,
            Phase::TellShow => Action::AnnounceShow,
            Phase::KeyTellShow => Action::AnnounceShow,
            Phase::Renaming(slot) => Action::Rename(slot, self.note.clone()),
            Phase::Keys => Action::NextKey,
            Phase::Menu => Action::DrainMenu,
            Phase::Saving => Action::SavePresets,
            Phase::Polling => Action::Poll,
            Phase::Resting => Action::Rest,
            Phase::Rendering { seek } => Action::Render { seek },
            Phase::Timing => Action::ReadClock,
            Phase::Drawing => Action::Draw { publish: self.server, shown: self.shown() },
            Phase::Ended(exit) => Action::Exit(exit),
            Phase::Failed => Action::Fail(self.note.clone()),
        }
    }

    fn command(&mut self, command: Command)
        ensures
            final(self)@ == old(self)@.commanded(command),
    {
        match command {
            Command::Config => {
                self.phase = Phase::Editing;
            },
            Command::Brightness => {
                self.phase = Phase::Dimming;
            },
            Command::ListSources => {
                self.phase = Phase::Rescanning;
            },
            Command::SelectPreset(slot) => {
                self.phase = Phase::Choosing(slot);
            },
            Command::RenamePreset(slot, name) => {
                self.phase = Phase::Renaming(slot);
                self.note = name;
            },
            Command::RequestState => {},
        }
    }

    fn finish(&mut self)
        ensures
            final(self)@ == old(self)@.done(),
    {
        match self.phase {
            Phase::TellFaults => {
                self.phase = Phase::Commands;
            },
            Phase::Publishing { .. } => {
                self.phase = Phase::Commands;
            },
            Phase::Dimming => {
                self.phase = Phase::Commands;
            },
            Phase::TellSources => {
                self.phase = Phase::Commands;
            },
            Phase::TellShow => {
                self.phase = Phase::Commands;
            },
            Phase::Renaming(_) => {
                self.phase = Phase::Commands;
            },
            Phase::KeyTellShow => {
                self.phase = Phase::Keys;
            },
            Phase::Resting => {
                self.phase = Phase::Faults;
            },
            Phase::Drawing => {
                self.phase = Phase::Faults;
                if self.console {
                    self.first = false;
                } else {
                    self.logged = self.status.clone();
                }
            },
            _ => {},
        }
    }

    fn say(&mut self, phase: Phase, status: String)
        ensures
            final(self)@ == old(self)@.saying(phase, status@),
    {
        self.phase = phase;
        self.status = status;
    }

    /// The outside answered.
    pub fn handle(&mut self, event: Event)
        ensures
            final(self)@ == old(self)@.after(event),
    {
        let server = self.server;
        match (self.phase, event) {
            (Phase::Faults, Event::Faults(faults)) => {
                if faults.len() == 0 {
                    self.phase = if server {
                        Phase::Commands
                    } else {
                        Phase::Keys
                    };
                } else {
                    let status = fault_status(faults.as_slice());
                    let phase = if server {
                        Phase::TellFaults
                    } else {
                        Phase::Keys
                    };
                    self.say(phase, status);
                }
            },
            (Phase::Commands, Event::Command(command)) => match command {
                Some(command) => {
                    self.command(command);
                },
                None => {
                    self.phase = Phase::Keys;
                },
            },
            (Phase::Editing, Event::Applied(outcome)) => match outcome {
                Ok(reshaped) => {
                    self.phase = Phase::Storing { reshaped };
                },
                Err(e) => {
                    self.say(Phase::Commands, reject_config(e.as_str()));
                },
            },
            (Phase::Storing { reshaped }, Event::Stored(filled)) => {
                self.say(
                    Phase::Publishing { listing: filled, announce: reshaped || filled },
                    String::new(),
                );
            },
            (Phase::Rescanning, Event::Rescanned(retry)) => match retry {
                Retry::Unchanged => {
                    self.phase = Phase::TellSources;
                },
                Retry::Rebuilt => {
                    self.say(Phase::TellSources, String::new());
                },
                Retry::Rejected(e) => {
                    self.say(Phase::TellSources, reject_config(e.as_str()));
                },
            },
            (Phase::Choosing(slot), Event::Chosen(show)) => {
                self.phase = if show {
                    Phase::Switching(slot)
                } else {
                    Phase::Commands
                };
            },
            (Phase::Switching(slot), Event::Applied(outcome)) => match outcome {
                Ok(_) => {
                    self.say(Phase::TellShow, String::new());
                },
                Err(e) => {
                    self.say(Phase::Commands, reject_preset(slot, e.as_str()));
                },
            },
            (Phase::Keys, Event::Key(key)) => {
                self.phase = match key {
                    Some(slot) => Phase::KeyChoosing(slot),
                    None => Phase::Menu,
                };
            },
            (Phase::KeyChoosing(slot), Event::Chosen(show)) => {
                if show {
                    self.phase = Phase::KeySwitching(slot);
                } else {
                    self.say(Phase::Keys, name_empty(slot));
                }
            },
            (Phase::KeySwitching(slot), Event::Applied(outcome)) => match outcome {
                Ok(_) => {
                    let phase = if server {
                        Phase::KeyTellShow
                    } else {
                        Phase::Keys
                    };
                    self.say(phase, String::new());
                },
                Err(e) => {
                    self.say(Phase::Keys, reject_preset(slot, e.as_str()));
                },
            },
            (Phase::Menu, Event::Menu(events)) => {
                let n: usize = events.len();
                self.phase = if n == 0 {
                    Phase::Saving
                } else {
                    match events[n - 1] {
                        TrayEvent::Stop => Phase::Ended(Exit::Stopped),
                        TrayEvent::Restart => Phase::Ended(Exit::Restarting),
                    }
                };
            },
            (Phase::Saving, Event::Saved { wrote, error }) => {
                self.phase = Phase::Polling;
                match error {
                    Some(e) => {
                        if wrote {
                            self.status = e;
                        }
                    },
                    None => {},
                }
            },
            (Phase::Polling, Event::Polled { fresh, animating, elapsed }) => {
                self.phase = if !fresh && !(animating && elapsed >= FRAME) {
                    Phase::Resting
                } else {
                    Phase::Rendering { seek: animating }
                };
            },
            (Phase::Rendering { .. }, Event::Sent(outcome)) => match outcome {
                Ok(taken) => {
                    self.phase = Phase::Timing;
                    if !taken && self.dropped < u64::MAX {
                        self.dropped += 1;
                    }
                },
                Err(e) => {
                    self.phase = Phase::Failed;
                    self.note = e;
                },
            },
            (Phase::Timing, Event::Elapsed(elapsed)) => {
                self.phase = if elapsed >= FRAME {
                    Phase::Drawing
                } else {
                    Phase::Faults
                };
            },
            (_, Event::Done) => {
                self.finish();
            },
            _ => {},
        }
    }
}

/// A silent source cannot shut the editor out: an idle pass comes back round to
/// the commands without anything having arrived.
pub proof fn law_an_idle_pass_still_takes_commands(
    run: Running,
    animating: bool,
    elapsed: u64,
    none: Vec<(String, String)>,
)
    requires
        run.phase == Phase::Polling,
        run.server,
        Running::idle(false, animating, elapsed),
        none@.len() == 0,
    ensures
        run.after(Event::Polled { fresh: false, animating, elapsed }).after(Event::Done).after(
            Event::Faults(none),
        ) == run.to(Phase::Commands),
{
}

/// The menu gets through on every pass: there is no way to the rendering that
/// does not pass a menu that asked for nothing, and of several things it asked
/// for the last one wins.
pub proof fn law_every_pass_asks_the_menu(run: Running, event: Event)
    ensures
        run.after(event).phase is Rendering && !(run.phase is Rendering) ==> run.phase
            == Phase::Polling,
        run.after(event).phase == Phase::Polling && run.phase != Phase::Polling ==> run.phase
            == Phase::Saving,
        run.after(event).phase == Phase::Saving && run.phase != Phase::Saving ==> {
            &&& run.phase == Phase::Menu
            &&& event matches Event::Menu(events)
            &&& events@.len() == 0
        },
        run.phase == Phase::Menu && event is Menu && event->Menu_0@.len() > 0 ==> run.after(
            event,
        ).phase == Phase::Ended(
            if event->Menu_0@.last() == TrayEvent::Stop {
                Exit::Stopped
            } else {
                Exit::Restarting
            },
        ),
{
}

/// The phases in which keys are taken.
pub open spec fn taking_keys(phase: Phase) -> bool {
    phase == Phase::Keys || phase is KeyChoosing || phase is KeySwitching || phase
        == Phase::KeyTellShow
}

/// Commands are drained before anything is read, whether or not anything
/// arrives: where there is an editor, a pass gets to the keys only once the
/// editor had nothing more to say, and from the keys to the menu only once no
/// key was left.
pub proof fn law_commands_are_drained_first(run: Running, event: Event)
    requires
        run.server,
    ensures
        taking_keys(run.after(event).phase) && !taking_keys(run.phase) ==> {
            &&& run.phase == Phase::Commands
            &&& event matches Event::Command(None)
        },
        run.after(event).phase == Phase::Menu && run.phase != Phase::Menu ==> {
            &&& run.phase == Phase::Keys
            &&& event matches Event::Key(None)
        },
{
}

/// An edit that was refused leaves everything but the status as it was, and the
/// next command is taken.
pub proof fn law_a_refused_edit_changes_nothing(run: Running, why: String)
    requires
        run.phase == Phase::Commands,
    ensures
        run.after(Event::Command(Some(Command::Config))).after(Event::Applied(Err(why)))
            == run.saying(Phase::Commands, config_rejected(why@)),
{
}

/// An edit is echoed back to the editor only where it could not have known what
/// came of it: the stack changed shape, or an empty slot was filled.
pub proof fn law_edits_are_not_echoed(run: Running, reshaped: bool, filled: bool)
    requires
        run.phase == Phase::Commands,
    ensures
        run.after(Event::Command(Some(Command::Config))).after(
            Event::Applied(Ok(reshaped)),
        ).after(Event::Stored(filled)).phase == (Phase::Publishing {
            listing: filled,
            announce: reshaped || filled,
        }),
{
}

/// A key whose slot is empty leaves the wall alone and says so.
pub proof fn law_an_empty_slot_is_said_out_loud(run: Running, slot: usize)
    requires
        run.phase == Phase::Keys,
    ensures
        run.after(Event::Key(Some(slot))).after(Event::Chosen(false)) == run.saying(
            Phase::Keys,
            slot_empty(slot),
        ),
{
}

/// What moves by itself is drawn at the rate of the display though nothing
/// arrives, and no faster.
pub proof fn law_a_silent_show_keeps_moving(run: Running, elapsed: u64)
    requires
        run.phase == Phase::Polling,
    ensures
        run.after(Event::Polled { fresh: false, animating: true, elapsed }).phase == if elapsed
            >= FRAME {
            Phase::Rendering { seek: true }
        } else {
            Phase::Resting
        },
{
}

/// The log gets one line per change of the status, however long a fault lasts.
pub proof fn law_a_lasting_fault_is_one_line(run: Running, shown: Shown)
    requires
        run.phase == Phase::Drawing,
        !run.console,
        run.after(Event::Done).shows(shown),
    ensures
        shown is Nothing,
{
}

/// Whatever arrives is rendered, at once and every time, and what moves by itself
/// is moved to the present with it. Where nothing arrived and nothing moves, the
/// loop rests.
pub proof fn law_what_arrives_is_rendered(run: Running, animating: bool, elapsed: u64)
    requires
        run.phase == Phase::Polling,
    ensures
        run.after(Event::Polled { fresh: true, animating, elapsed }) == run.to(
            Phase::Rendering { seek: animating },
        ),
        run.after(Event::Polled { fresh: false, animating: false, elapsed }) == run.to(
            Phase::Resting,
        ),
{
}

/// A frame the strip was not ready for is counted and dropped, one it took is
/// not, and neither stops the loop. A link that fails does, and is quoted.
pub proof fn law_a_frame_not_taken_is_counted(run: Running, why: String)
    requires
        run.phase is Rendering,
    ensures
        run.after(Event::Sent(Ok(true))) == run.to(Phase::Timing),
        run.dropped < u64::MAX ==> run.after(Event::Sent(Ok(false))) == (Running {
            phase: Phase::Timing,
            dropped: run.dropped + 1,
            ..run
        }),
        run.after(Event::Sent(Err(why))).phase == Phase::Failed,
        run.after(Event::Sent(Err(why))).note == why@,
        forall|action: Action| #[trigger]
            run.after(Event::Sent(Err(why))).asks(action) ==> action is Fail
                && action->Fail_0@ == why@,
{
}

/// The display is refreshed once a frame's time has passed since it last was, and
/// a pass that comes sooner goes round without it.
pub proof fn law_the_display_keeps_its_rate(run: Running, elapsed: u64)
    requires
        run.phase == Phase::Timing,
    ensures
        elapsed >= FRAME ==> run.after(Event::Elapsed(elapsed)) == run.to(Phase::Drawing),
        elapsed < FRAME ==> run.after(Event::Elapsed(elapsed)) == run.to(Phase::Faults),
{
}

/// A command is carried out as it was given, and the next one is taken when it is
/// done.
pub proof fn law_a_command_is_carried_out(run: Running, slot: usize, name: String, action: Action)
    requires
        run.phase == Phase::Commands,
    ensures
        run.after(Event::Command(Some(Command::Config))).asks(action) ==> action is ApplyEdit,
        run.after(Event::Command(Some(Command::Brightness))).asks(action)
            ==> action is SetBrightness,
        run.after(Event::Command(Some(Command::ListSources))).asks(action) ==> action is Rescan,
        run.after(Event::Command(Some(Command::SelectPreset(slot)))).asks(action)
            ==> (action matches Action::LoadPreset { slot: s, blank_if_empty } && s == slot
            && blank_if_empty),
        run.after(Event::Command(Some(Command::RenamePreset(slot, name)))).asks(action)
            ==> (action matches Action::Rename(s, n) && s == slot && n@ == name@),
        run.after(Event::Command(Some(Command::RequestState))) == run,
        run.after(Event::Command(Some(Command::Brightness))).after(Event::Done) == run,
        run.after(Event::Command(Some(Command::RenamePreset(slot, name)))).after(
            Event::Done,
        ).phase == Phase::Commands,
{
}

/// A preset that was chosen goes on the wall and is announced, which clears the
/// status; one that is refused says which and why, and leaves the rest; and one
/// with nothing to show leaves everything.
pub proof fn law_a_chosen_preset_goes_on_the_wall(
    run: Running,
    slot: usize,
    reshaped: bool,
    why: String,
)
    requires
        run.phase == Phase::Commands,
    ensures
        ({
            let choosing = run.after(Event::Command(Some(Command::SelectPreset(slot))));
            let switching = choosing.after(Event::Chosen(true));
            &&& choosing.after(Event::Chosen(false)) == run
            &&& forall|action: Action| #[trigger] switching.asks(action) ==> action is ApplyPreset
            &&& switching.after(Event::Applied(Ok(reshaped))) == run.saying(
                Phase::TellShow,
                Seq::empty(),
            )
            &&& switching.after(Event::Applied(Ok(reshaped))).after(Event::Done) == run.saying(
                Phase::Commands,
                Seq::empty(),
            )
            &&& switching.after(Event::Applied(Err(why))) == run.saying(
                Phase::Commands,
                "preset "@ + decimal((slot + 1) as nat) + " rejected: "@ + why@,
            )
        }),
{
}

/// A key that was struck puts its slot on the wall and never a blank one, and
/// tells the editor where there is one. The next key is taken after it.
pub proof fn law_a_struck_key_goes_on_the_wall(
    run: Running,
    slot: usize,
    reshaped: bool,
    why: String,
    action: Action,
)
    requires
        run.phase == Phase::Keys,
    ensures
        ({
            let choosing = run.after(Event::Key(Some(slot)));
            let switching = choosing.after(Event::Chosen(true));
            let done = switching.after(Event::Applied(Ok(reshaped)));
            &&& choosing.asks(action) ==> (action matches Action::LoadPreset {
                slot: s,
                blank_if_empty,
            } && s == slot && !blank_if_empty)
            &&& switching.asks(action) ==> action is ApplyPreset
            &&& run.server ==> done.asks(action) ==> action is AnnounceShow
            &&& run.server ==> done.after(Event::Done) == run.saying(Phase::Keys, Seq::empty())
            &&& !run.server ==> done == run.saying(Phase::Keys, Seq::empty())
            &&& switching.after(Event::Applied(Err(why))) == run.saying(
                Phase::Keys,
                "preset "@ + decimal((slot + 1) as nat) + " rejected: "@ + why@,
            )
        }),
{
}

/// Faults are said, one after the other, and the editor is told where there is
/// one. A pass without any goes on with the status as it is.
pub proof fn law_faults_are_said(run: Running, faults: Vec<(String, String)>, action: Action)
    requires
        run.phase == Phase::Faults,
    ensures
        faults@.len() == 0 ==> run.after(Event::Faults(faults)).status == run.status,
        faults@.len() == 1 ==> run.after(Event::Faults(faults)).status == faults@[0].0@ + ": "@
            + faults@[0].1@,
        faults@.len() > 0 && run.server ==> run.after(Event::Faults(faults)).asks(action)
            ==> action is AnnounceLayers,
{
    if faults@.len() == 1 {
        assert(fault_texts(faults@)[0] == faults@[0].0@ + ": "@ + faults@[0].1@);
    }
}

/// A write that failed is said; nothing else about saving is.
pub proof fn law_a_failed_write_is_said(run: Running, wrote: bool, why: String)
    requires
        run.phase == Phase::Saving,
    ensures
        run.after(Event::Saved { wrote: true, error: Some(why) }) == run.saying(
            Phase::Polling,
            why@,
        ),
        run.after(Event::Saved { wrote: false, error: Some(why) }) == run.to(Phase::Polling),
        run.after(Event::Saved { wrote, error: None }) == run.to(Phase::Polling),
{
}

/// A rescan that brought a layer back clears the status, one that changed nothing
/// leaves it, and either way the editor is told what there is.
pub proof fn law_a_rescan_is_answered(run: Running, why: String, action: Action)
    requires
        run.phase == Phase::Rescanning,
    ensures
        run.after(Event::Rescanned(Retry::Unchanged)) == run.to(Phase::TellSources),
        run.after(Event::Rescanned(Retry::Rebuilt)) == run.saying(
            Phase::TellSources,
            Seq::empty(),
        ),
        run.after(Event::Rescanned(Retry::Rejected(why))) == run.saying(
            Phase::TellSources,
            "config rejected: "@ + why@,
        ),
        run.to(Phase::TellSources).asks(action) ==> action is AnnounceSources,
        run.to(Phase::TellSources).after(Event::Done) == run.to(Phase::Commands),
{
}

} // verus!
