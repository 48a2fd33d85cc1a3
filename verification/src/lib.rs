//! Stock gVim instances and summon them on demand: the decisions of the
//! collector daemon and of its clients, as verified functions.

pub mod text;
pub mod lister;
pub mod namer;
pub mod gvim;
pub mod collector;
pub mod summoner;
pub mod spell;
pub mod sender;
pub mod cli;
