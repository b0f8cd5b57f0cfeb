//! The Slack provider.
//!
//! # Why this one is not a page spec
//!
//! Other toolkits here are *flat*: one action reads the whole account, one cursor says where it
//! got to, and the provider is a declaration. Slack is *scoped*.
//! `SLACK_FETCH_CONVERSATION_HISTORY` reads one channel and requires its id, so a sync has to walk
//! the conversation list and page each channel in turn, remembering a position per channel. No
//! single action reads a workspace.
//!
//! It is scoped twice over. A channel's history carries only the top of each conversation; the
//! replies under a message are a second read, against a second action, with a cursor of their own.
//! Ingesting the question and not the answer is the failure mode a Slack memory has to avoid, so a
//! walk detours into a message's thread before it reads the next page of history.
//!
//! # How that fits a pipeline built for one cursor
//!
//! The run loop never looks inside a cursor: it stores the string a page reports and hands it back
//! on the next call. So the three-level walk fits without changing the pipeline at all: the cursor
//! carries `"<index>|<history>|<thread>|<thread cursor>"`, and each call returns exactly one page
//! of one channel or one thread.
//!
//! # What lives beside the cursor, and why it is not in it
//!
//! The channel roster, the queue of threads owed by the channel being read, the per-channel
//! high-water marks and the user directory are kept under this provider's own key in the host's
//! state store, not encoded in the cursor: a cursor is a position, and a roster of two hundred
//! channels is not one. The key differs from that of the run loop, which writes back at the end of
//! a run what it loaded at its start.
//!
//! # Reading a channel twice is cheaper than reading it from the start
//!
//! A completed walk clears the cursor, so the next run begins again at the first channel. Each
//! channel therefore records the newest message the walk has finished reading, and later runs ask
//! Slack only for what is newer.
//!
//! The mark advances when a channel is **exhausted**, never when a page of it is read: a walk
//! stopped half way through a channel by the item limit must resume where it stopped, and a mark
//! moved early would step over everything below it. A channel is not exhausted until the threads
//! it owes are drained, so a reply is never stranded above the mark.
//!
//! # A page never reports the position it was given
//!
//! The run loop stops only on a limit or on the end of the walk, so a page that reported the
//! position it was given would be asked for again for ever. Every page therefore moves the cursor
//! or ends the walk, whatever Slack answers. A cursor that Slack hands back unmoved is not
//! followed: replies end there, and a channel whose history cannot be followed is left with its
//! mark where it was. A thread is not read twice in a row.
//!
//! # What this deliberately does not read
//!
//! Direct messages and group DMs. The conversation list asks for `public_channel,private_channel`
//! only.

pub mod cursor;
pub mod laws;
pub mod read;
pub mod state;
pub mod walk;
