//! The notification-area icon: its menu, its tooltip, and what they ask for.
//!
//! Opening the editor never reaches the engine. Stopping and restarting do:
//! they are taken by the run loop beside the hotkeys, so that shutting down goes
//! through the same orderly path as everything else.

use vstd::prelude::*;
use vstd::string::*;

use crate::text::chars_of;

verus! {

/// What the menu asked the engine to do.
#[derive(Copy, Clone, Debug, PartialEq, Eq, Structural)]
pub enum TrayEvent {
    /// Shut the engine down. The wall goes dark and the icon goes away.
    Stop,
    /// Shut down and come back, as a new process with the same arguments.
    Restart,
}

/// The menu entry that opens the editor.
pub const ID_OPEN: u32 = 1;

/// The menu entry that restarts the engine.
pub const ID_RESTART: u32 = 2;

/// The menu entry that stops the engine.
pub const ID_STOP: u32 = 3;

/// The right mouse button was let go over the icon.
pub const RIGHT_BUTTON_UP: u32 = 0x0205;

/// The icon was double-clicked.
pub const LEFT_DOUBLE_CLICK: u32 = 0x0203;

/// A live icon.
pub struct Tray {
    events: Vec<TrayEvent>,
    /// The window that receives the icon's messages, as a number. Zero is none.
    window: isize,
}

/// What there is to know of an icon.
pub ghost struct Icon {
    /// What the menu asked for and has not been taken, oldest first.
    pub events: Seq<TrayEvent>,
    pub window: isize,
}

impl View for Tray {
    type V = Icon;

    closed spec fn view(&self) -> Icon {
        Icon { events: self.events@, window: self.window }
    }
}

/// The window of an icon that was put up, what stopped it, or an error on a
/// system without a notification area.
pub fn spawn(outcome: Option<Result<isize, String>>) -> (window: Result<isize, String>)
    ensures
        match outcome {
            Some(Ok(w)) => window matches Ok(x) && x == w,
            Some(Err(e)) => window matches Err(f) && f == e,
            None => window matches Err(f) && f@
                == "the tray icon needs Windows; run the engine in a terminal instead"@,
        },
{
    match outcome {
        Some(window) => window,
        None => Err("the tray icon needs Windows; run the engine in a terminal instead".to_owned()),
    }
}

/// Whether there is a window to take down.
pub fn close(window: isize) -> (tell: bool)
    ensures
        tell == (window != 0),
{
    window != 0
}

impl Tray {
    /// Take over an icon that was put up.
    pub fn start(outcome: Option<Result<isize, String>>) -> (tray: Result<Self, String>)
        ensures
            match outcome {
                Some(Ok(w)) => tray matches Ok(t) && t@ == (Icon {
                    events: Seq::empty(),
                    window: w,
                }),
                Some(Err(e)) => tray matches Err(f) && f == e,
                None => tray matches Err(f) && f@
                    == "the tray icon needs Windows; run the engine in a terminal instead"@,
            },
    {
        match spawn(outcome) {
            Ok(window) => Ok(Tray { events: Vec::new(), window }),
            Err(e) => Err(e),
        }
    }

    /// The menu asked for something.
    pub fn send(&mut self, event: TrayEvent)
        ensures
            final(self)@ == (Icon { events: old(self)@.events.push(event), ..old(self)@ }),
    {
        self.events.push(event);
    }

    /// Menu commands since the last drain, oldest first.
    pub fn drain(&mut self) -> (events: Vec<TrayEvent>)
        ensures
            events@ == old(self)@.events,
            final(self)@ == (Icon { events: Seq::empty(), ..old(self)@ }),
    {
        let mut events: Vec<TrayEvent> = Vec::new();
        let mut i: usize = 0;
        while i < self.events.len()
            invariant
                i <= self.events@.len(),
                self@ == old(self)@,
                events@ == self.events@.take(i as int),
            decreases self.events@.len() - i,
        {
            events.push(self.events[i]);
            i += 1;
            assert(events@ =~= self.events@.take(i as int));
        }
        self.events.clear();
        assert(events@ =~= old(self)@.events);
        events
    }

    /// The window to be told to take the icon down, if there is one.
    ///
    /// An icon whose process has gone is not removed until something makes the
    /// tray repaint, so a restart without this leaves a dead icon beside the
    /// live one.
    pub fn remove(&self) -> (window: Option<isize>)
        ensures
            window == if self@.window != 0 {
                Some(self@.window)
            } else {
                None
            },
    {
        if close(self.window) {
            Some(self.window)
        } else {
            None
        }
    }
}

/// What a gesture on the icon asks for.
#[derive(Copy, Clone, Debug, PartialEq, Eq, Structural)]
pub enum Gesture {
    ShowMenu,
    OpenEditor,
    Nothing,
}

/// What a message from the icon asks for. The mouse event is in the low word.
pub fn gesture(message: u32) -> (asked: Gesture)
    ensures
        asked == if message % 0x1_0000 == RIGHT_BUTTON_UP {
            Gesture::ShowMenu
        } else if message % 0x1_0000 == LEFT_DOUBLE_CLICK {
            Gesture::OpenEditor
        } else {
            Gesture::Nothing
        },
{
    let event: u32 = message % 0x1_0000;
    if event == RIGHT_BUTTON_UP {
        Gesture::ShowMenu
    } else if event == LEFT_DOUBLE_CLICK {
        Gesture::OpenEditor
    } else {
        Gesture::Nothing
    }
}

/// What a menu entry does.
#[derive(Copy, Clone, Debug, PartialEq, Eq, Structural)]
pub enum Choice {
    OpenEditor,
    Tell(TrayEvent),
    Nothing,
}

/// What the menu entry that was chosen does. Zero is what a dismissed menu
/// hands back.
pub fn chosen(id: u32) -> (choice: Choice)
    ensures
        choice == if id == ID_OPEN {
            Choice::OpenEditor
        } else if id == ID_RESTART {
            Choice::Tell(TrayEvent::Restart)
        } else if id == ID_STOP {
            Choice::Tell(TrayEvent::Stop)
        } else {
            Choice::Nothing
        },
{
    if id == ID_OPEN {
        Choice::OpenEditor
    } else if id == ID_RESTART {
        Choice::Tell(TrayEvent::Restart)
    } else if id == ID_STOP {
        Choice::Tell(TrayEvent::Stop)
    } else {
        Choice::Nothing
    }
}

/// The address the menu opens, or `None` when the editor never came up, which
/// an empty address says.
pub fn editor_url(url: &str) -> (address: Option<String>)
    ensures
        match address {
            Some(a) => url@.len() > 0 && a@ == url@,
            None => url@.len() == 0,
        },
{
    if url.is_empty() {
        None
    } else {
        Some(url.to_owned())
    }
}

/// How the entry that opens the editor reads.
pub open spec fn open_label(url: Seq<char>) -> Seq<char> {
    if url.len() > 0 {
        "Open editor"@
    } else {
        "Editor unavailable — see the log"@
    }
}

/// The entry that opens the editor: whether it is greyed, and how it reads.
/// Greyed rather than absent when there is no editor to open, because an entry
/// that is missing is one nobody notices.
pub fn open_entry(url: &str) -> (entry: (bool, &'static str))
    ensures
        entry.0 == (url@.len() == 0),
        entry.1@ == open_label(url@),
{
    match editor_url(url) {
        Some(_) => (false, "Open editor"),
        None => (true, "Editor unavailable — see the log"),
    }
}

/// A character in UTF-16: itself, or a pair of surrogates.
pub open spec fn utf16_units(c: char) -> Seq<u16> {
    let n = c as int;
    if n < 0x1_0000 {
        seq![n as u16]
    } else {
        seq![
            (0xD800 + (n - 0x1_0000) / 0x400) as u16,
            (0xDC00 + (n - 0x1_0000) % 0x400) as u16,
        ]
    }
}

/// A text in UTF-16.
pub open spec fn utf16(s: Seq<char>) -> Seq<u16>
    decreases s.len(),
{
    if s.len() == 0 {
        Seq::empty()
    } else {
        utf16(s.drop_last()) + utf16_units(s.last())
    }
}

fn push_units(out: &mut Vec<u16>, c: char)
    ensures
        final(out)@ == old(out)@ + utf16_units(c),
{
    let n: u32 = c as u32;
    if n < 0x1_0000 {
        out.push(n as u16);
    } else {
        let rest: u32 = n - 0x1_0000;
        out.push((0xD800 + rest / 0x400) as u16);
        out.push((0xDC00 + rest % 0x400) as u16);
    }
    assert(out@ =~= old(out)@ + utf16_units(c));
}

/// A text in UTF-16 with a null behind it, as the system wants it.
pub fn wide(s: &str) -> (out: Vec<u16>)
    ensures
        out@ == utf16(s@).push(0),
{
    let chars = chars_of(s);
    let mut out: Vec<u16> = Vec::new();
    let mut i: usize = 0;
    while i < chars.len()
        invariant
            i <= chars@.len(),
            chars@ == s@,
            out@ == utf16(chars@.take(i as int)),
        decreases chars@.len() - i,
    {
        push_units(&mut out, chars[i]);
        assert(chars@.take(i + 1).drop_last() =~= chars@.take(i as int));
        i += 1;
    }
    assert(chars@.take(i as int) =~= s@);
    out.push(0);
    out
}

/// How the icon's tooltip reads: what the engine is driving.
pub open spec fn tip_text(driving: Seq<char>) -> Seq<char> {
    "DJLED — "@ + driving
}

/// The icon's tooltip, cut to the room there is for it. Cut rather than
/// refused: the tooltip is the least important thing about a working icon.
pub fn tooltip(driving: &str, room: usize) -> (tip: Vec<u16>)
    ensures
        tip@ == {
            let whole = utf16(tip_text(driving@)).push(0);
            if whole.len() <= room {
                whole
            } else {
                whole.take(room as int)
            }
        },
{
    let mut text = String::new();
    text.append("DJLED — ");
    text.append(driving);
    assert(text@ =~= tip_text(driving@));
    let whole = wide(text.as_str());
    if whole.len() <= room {
        whole
    } else {
        let mut tip: Vec<u16> = Vec::new();
        tip.extend_from_slice(vstd::slice::slice_subrange(whole.as_slice(), 0, room));
        assert(tip@ =~= whole@.take(room as int));
        tip
    }
}

/// A character can be read back from its UTF-16: it is its own unit, or a pair of
/// surrogates that hold what it is past the first sixty-five thousand. A text is
/// its characters one after the other.
pub proof fn law_utf16_reads_back(c: char, a: Seq<char>)
    ensures
        c as int <= 0xFFFF ==> utf16_units(c).len() == 1 && utf16_units(c)[0] == c as int,
        c as int > 0xFFFF ==> {
            &&& utf16_units(c).len() == 2
            &&& 0xD800 <= utf16_units(c)[0] < 0xDC00
            &&& 0xDC00 <= utf16_units(c)[1] < 0xE000
            &&& c as int == 0x1_0000 + 0x400 * (utf16_units(c)[0] - 0xD800) + (utf16_units(c)[1]
                - 0xDC00)
        },
        utf16(a.push(c)) == utf16(a) + utf16_units(c),
{
    assert(a.push(c).drop_last() =~= a);
}

} // verus!
