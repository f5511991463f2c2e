//! TimeWise: screen-time tracking for a household.
//!
//! Workers record which window has the focus, buffer the finished sessions and
//! upload them to one or more masters. A master merges the sessions of all
//! devices of a child, keeps goals and points, and answers the dashboard.
//!
//! Every rule of the two roles lives here and is verified; sockets, files, the
//! database engine and the desktop shell stay in the application around it.
use vstd::prelude::*;

pub mod answer_laws;
pub mod calendar;
pub mod catalog;
pub mod categorize;
pub mod config;
pub mod idle;
pub mod ids;
pub mod master_laws;
pub mod master_server;
pub mod model;
pub mod notify;
pub mod pairing;
pub mod points_engine;
pub mod seqs;
pub mod shell;
pub mod store;
pub mod sync;
pub mod text;
pub mod timeutil;
pub mod tracker;
pub mod worker_laws;
pub mod worker_runtime;
