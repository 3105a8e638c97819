//! A verified core for driving a Tcl/Tk `wish` interpreter over text pipes.
//!
//! The crate models the pieces of such a binding that carry real logic:
//! the outbound command channel and its first-in-first-out delivery order,
//! the allocator of unique widget identifiers and variable names, the
//! registry of callbacks keyed by widget identity, the classifier that turns
//! a notification line from the interpreter into a typed payload, and the
//! event-loop state machine that decides when the child process is killed.
//!
//! Process spawning, pipe reads and writes, and the thread that drains the
//! command channel are left to the embedding program; everything here is
//! plain data and decisions, stated in contracts and proved.

pub mod channel;
pub mod event;
pub mod ids;
pub mod registry;
pub mod text;
pub mod toplevel;
pub mod wish;

pub use channel::CommandChannel;
pub use event::EventLoop;
pub use event::LoopState;
pub use event::Notification;
pub use event::TkEvent;
pub use event::classify_line;
pub use ids::IdAllocator;
pub use registry::CallbackStore;
pub use registry::eval_callback0;
pub use registry::eval_callback1;
pub use text::split_items;
pub use text::splittable;
pub use text::trimmed;
pub use toplevel::TkTopLevel;
pub use wish::TkError;
pub use wish::WishSession;
pub use wish::start_wish;
pub use wish::start_with;
pub use wish::trace_with;
