//! The connection to a wish process: the context object every operation
//! works on, and the fixed setup that starting a connection performs.
//!
//! Starting a session builds the context — counter at zero, event loop
//! running — and enqueues the setup script on the outbound channel: the
//! close-button wiring that makes the window manager report `exit`, the
//! tear-off menu override, the two interpreter-side helper procedures that
//! normalize font and scale notifications into the line shapes the
//! classifier expects, and the encoding directive. Spawning the process and
//! pumping its pipes is the embedding's part.

use vstd::prelude::*;

use crate::channel::CommandChannel;
use crate::event::EventLoop;
use crate::ids::IdAllocator;
use crate::toplevel::TkTopLevel;

verus! {

/// Reports an error in interacting with the Tk program.
#[derive(Debug)]
pub struct TkError {
    message: String,
}

impl TkError {
    /// The error's text.
    pub closed spec fn message_view(&self) -> Seq<char> {
        self.message@
    }

    pub fn new(message: String) -> (r: TkError)
        ensures
            r.message_view() == message@,
    {
        TkError { message }
    }

    pub fn message(&self) -> (r: &str)
        ensures
            r@ == self.message_view(),
    {
        self.message.as_str()
    }
}

/// The five setup commands sent to a fresh interpreter, in order.
pub open spec fn setup_script() -> Seq<Seq<char>> {
    seq![
        "wm protocol . WM_DELETE_WINDOW { puts stdout {exit} ; flush stdout } "@,
        "option add *tearOff 0"@,
        "proc font_choice {w font args} {
            set res {font }
            append res [font actual $font]
                puts $res
                flush stdout
        }"@,
        "proc scale_value {w value args} {
            puts cb1f-$w-$value
                flush stdout
        }"@,
        "chan configure stdin -encoding utf-8"@,
    ]
}

/// One live connection to a wish process: program name, trace flag, the
/// identifier counter, the outbound command channel, and the event loop.
pub struct WishSession {
    /// The name of the interpreter program the embedding runs.
    pub program: String,
    /// Whether wish traffic is echoed for debugging.
    pub trace: bool,
    /// The shared counter behind widget identifiers and variable names.
    pub ids: IdAllocator,
    /// The outbound command channel to the interpreter.
    pub chan: CommandChannel,
    /// The event loop's state machine.
    pub events: EventLoop,
}

/// A session as `start_with` or `trace_with` hands it out: nothing sent but
/// the setup script, nothing delivered yet, no identifier drawn, the event
/// loop running.
pub open spec fn session_ready(s: WishSession, program: Seq<char>, trace: bool) -> bool {
    &&& s.chan.wf()
    &&& s.chan.sent() == setup_script()
    &&& s.chan.queued() == setup_script()
    &&& s.ids.inv()
    &&& s.ids.counter() == 0
    &&& s.ids.issued() == Set::<Seq<char>>::empty()
    &&& s.events@ is Running
    &&& s.program@ == program
    &&& s.trace == trace
}

impl WishSession {
    /// Whether wish traffic is echoed for debugging.
    pub fn tracing(&self) -> (r: bool)
        ensures
            r == self.trace,
    {
        self.trace
    }

    /// Sends a message (tcl command) to wish: enqueues it on the outbound
    /// channel, after everything sent before. Use with caution: the message
    /// must be valid tcl.
    pub fn tell_wish(&mut self, msg: &str)
        requires
            old(self).chan.wf(),
        ensures
            final(self).chan.wf(),
            final(self).chan.sent() == old(self).chan.sent() + seq![msg@],
            final(self).chan.delivered() == old(self).chan.delivered(),
            final(self).ids == old(self).ids,
            final(self).events == old(self).events,
            final(self).program == old(self).program,
            final(self).trace == old(self).trace,
    {
        self.chan.send(msg);
    }

    /// The root window of this session.
    pub fn root(&self) -> (r: TkTopLevel)
        ensures
            r.id@ == "."@,
    {
        TkTopLevel { id: String::from_str(".") }
    }
}

fn connect(wish: &str, trace: bool) -> (r: WishSession)
    ensures
        session_ready(r, wish@, trace),
{
    let mut chan = CommandChannel::new();
    chan.send("wm protocol . WM_DELETE_WINDOW { puts stdout {exit} ; flush stdout } ");
    chan.send("option add *tearOff 0");
    chan.send(
        "proc font_choice {w font args} {
            set res {font }
            append res [font actual $font]
                puts $res
                flush stdout
        }",
    );
    chan.send(
        "proc scale_value {w value args} {
            puts cb1f-$w-$value
                flush stdout
        }",
    );
    chan.send("chan configure stdin -encoding utf-8");
    proof {
        assert(chan.sent() =~= setup_script());
        assert(chan.queued() =~= chan.sent());
    }
    WishSession {
        program: wish.to_owned(),
        trace,
        ids: IdAllocator::new(),
        chan,
        events: EventLoop::new(),
    }
}

/// Creates a connection with the "wish" program.
pub fn start_wish() -> (r: Result<WishSession, TkError>)
    ensures
        r matches Ok(s) && session_ready(s, "wish"@, false),
{
    start_with("wish")
}

/// Creates a connection with the given wish/tclkit program. The session
/// holds the program's name for the embedding to spawn; a failure to spawn
/// is the embedding's to report.
pub fn start_with(wish: &str) -> (r: Result<WishSession, TkError>)
    ensures
        r matches Ok(s) && session_ready(s, wish@, false),
{
    Ok(connect(wish, false))
}

/// Creates a connection with the given wish/tclkit program with debugging
/// output enabled (wish interactions are reported to stdout).
pub fn trace_with(wish: &str) -> (r: Result<WishSession, TkError>)
    ensures
        r matches Ok(s) && session_ready(s, wish@, true),
{
    Ok(connect(wish, true))
}

} // verus!
