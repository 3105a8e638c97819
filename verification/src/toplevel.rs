//! Toplevel widgets: top-level and popup windows.

use vstd::prelude::*;

use crate::channel::CommandChannel;
use crate::registry::CallbackStore;

verus! {

/// Refers to a top-level widget (window).
#[derive(Clone, Debug)]
pub struct TkTopLevel {
    pub id: String,
}

/// The registry key under which a top-level binding for `event` is stored:
/// `toplevel-<event>`.
pub open spec fn toplevel_event_key(event: Seq<char>) -> Seq<char> {
    "toplevel-"@ + event
}

/// The Tk command that `bind` sends: it makes the interpreter report the
/// event as a `clicked-toplevel-<event>` notification line.
pub open spec fn bind_command(id: Seq<char>, event: Seq<char>) -> Seq<char> {
    "bind "@ + id + " "@ + event + " { puts clicked-toplevel-"@ + event + " ; flush stdout }"@
}

/// The Tk command that `title` sends.
pub open spec fn title_command(id: Seq<char>, title: Seq<char>) -> Seq<char> {
    "wm title "@ + id + " {"@ + title + "}\n"@
}

impl TkTopLevel {
    /// Binds `command` to `event` on this window: the command is registered
    /// in the no-argument store under the key `toplevel-<event>`, and the
    /// interpreter is told to report the event under that key.
    pub fn bind<F>(
        &self,
        event: &str,
        command: F,
        callbacks: &mut CallbackStore<F>,
        chan: &mut CommandChannel,
    )
        requires
            old(callbacks).wf(),
            old(chan).wf(),
        ensures
            final(callbacks).wf(),
            final(chan).wf(),
            final(callbacks)@ == old(callbacks)@.insert(toplevel_event_key(event@), command),
            final(chan).sent() == old(chan).sent() + seq![bind_command(self.id@, event@)],
            final(chan).delivered() == old(chan).delivered(),
    {
        let mut event_name = String::from_str("toplevel-");
        event_name.append(event);
        let mut msg = String::from_str("bind ");
        msg.append(self.id.as_str());
        msg.append(" ");
        msg.append(event);
        msg.append(" { puts clicked-toplevel-");
        msg.append(event);
        msg.append(" ; flush stdout }");
        callbacks.insert(event_name.as_str(), command);
        chan.send(msg.as_str());
        proof {
            assert(msg@ =~= bind_command(self.id@, event@));
            assert(final(chan).sent() =~= old(chan).sent() + seq![bind_command(
                self.id@,
                event@,
            )]);
        }
    }

    /// Sets the title text on a top-level window.
    pub fn title(&self, title: &str, chan: &mut CommandChannel)
        requires
            old(chan).wf(),
        ensures
            final(chan).wf(),
            final(chan).sent() == old(chan).sent() + seq![title_command(self.id@, title@)],
            final(chan).delivered() == old(chan).delivered(),
    {
        let mut msg = String::from_str("wm title ");
        msg.append(self.id.as_str());
        msg.append(" {");
        msg.append(title);
        msg.append("}\n");
        chan.send(msg.as_str());
        proof {
            assert(msg@ =~= title_command(self.id@, title@));
            assert(final(chan).sent() =~= old(chan).sent() + seq![title_command(
                self.id@,
                title@,
            )]);
        }
    }
}

} // verus!
