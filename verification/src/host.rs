//! What the workspace decides: what goes on screen, what a key means, what a plugin may do, and
//! what happens next.

pub mod alike;
pub mod answering;
pub mod bidding;
pub mod calls;
pub mod carding;
pub mod cards;
pub mod chat;
pub mod choosing;
pub mod colours;
pub mod commands;
pub mod company;
pub mod composer;
pub mod copying;
pub mod desk;
pub mod errands;
pub mod finding;
pub mod framing;
pub mod history;
pub mod inputs;
pub mod kept;
pub mod keyboard;
pub mod keys;
pub mod laws;
pub mod lining;
pub mod looking;
pub mod models;
pub mod options;
pub mod peers;
pub mod places;
pub mod prompts;
pub mod pulse;
pub mod questions;
pub mod rank;
pub mod reading;
pub mod replaying;
pub mod rounds;
pub mod screen;
pub mod search;
pub mod standing;
pub mod startup;
pub mod status;
pub mod streaming;
pub mod swarm;
pub mod toolcards;
pub mod transcript;
pub mod turning;
pub mod view;
pub mod walking;
pub mod welcome;
pub mod working;
pub mod workspace;
