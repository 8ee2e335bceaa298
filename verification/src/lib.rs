//! A command-line music player's logic: finding songs by name, the play
//! queue and what each typed command does to it, playlists, and the framed
//! listings it prints. The program around it reads input, plays sound and
//! touches files; everything it decides comes from here.
use vstd::prelude::*;

pub mod actions;
pub mod behaviour;
pub mod commands;
pub mod frame;
pub mod laws;
pub mod playlist;
pub mod search;
pub mod session;
pub mod text;

verus! {

} // verus!
