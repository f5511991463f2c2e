//! The configuration of one OS account.
use crate::ids::{fresh_id, random_uuid};
use crate::seqs::{opt_view, views};
use vstd::prelude::*;

verus! {

pub const DEFAULT_PORT: u16 = 47820;

pub const DEFAULT_SYNC_INTERVAL_S: u64 = 60;

pub const DEFAULT_HEARTBEAT_INTERVAL_S: u64 = 30;

pub const DEFAULT_BREAK_PROMPT_AFTER_MIN: u64 = 40;

pub const DEFAULT_IDLE_THRESHOLD_S: u64 = 300;

/// The file that holds the configuration.
pub const CONFIG_FILE: &'static str = "config.json";

/// The file that holds a worker's buffer.
pub const BUFFER_DB_FILE: &'static str = "buffer.db";

/// The file that holds a master's tables.
pub const MASTER_DB_FILE: &'static str = "timewise.db";

#[derive(Debug, Clone, Copy, PartialEq, Eq, Structural)]
pub enum Role {
    Master,
    Worker,
}

/// A master that a worker is paired with.
#[derive(Debug)]
pub struct MasterRegistration {
    pub base_url: String,
    pub token: String,
}

pub struct RegistrationView {
    pub base_url: Seq<char>,
    pub token: Seq<char>,
}

impl View for MasterRegistration {
    type V = RegistrationView;

    open spec fn view(&self) -> RegistrationView {
        RegistrationView { base_url: self.base_url@, token: self.token@ }
    }
}

impl Clone for MasterRegistration {
    fn clone(&self) -> (res: Self)
        ensures
            res == *self,
    {
        MasterRegistration { base_url: self.base_url.clone(), token: self.token.clone() }
    }
}

#[derive(Debug)]
pub struct Config {
    /// `None` until the role was chosen on the first run.
    pub role: Option<Role>,
    /// Chosen on the first run; identifies this account from then on.
    pub worker_id: String,
    pub masters: Vec<MasterRegistration>,
    pub sync_interval_s: u64,
    pub heartbeat_interval_s: u64,
    pub break_prompt_after_min: u64,
    /// The port of the master's API.
    pub port: u16,
    /// Tracking pauses after so many seconds without input.
    pub idle_threshold_s: u64,
    /// Whether a master tracks its own account as well.
    pub track_self: bool,
    /// The token of the worker that tracks the master's own account.
    pub self_token: Option<String>,
}

pub struct ConfigView {
    pub role: Option<Role>,
    pub worker_id: Seq<char>,
    pub masters: Seq<RegistrationView>,
    pub sync_interval_s: u64,
    pub heartbeat_interval_s: u64,
    pub break_prompt_after_min: u64,
    pub port: u16,
    pub idle_threshold_s: u64,
    pub track_self: bool,
    pub self_token: Option<Seq<char>>,
}

impl View for Config {
    type V = ConfigView;

    open spec fn view(&self) -> ConfigView {
        ConfigView {
            role: self.role,
            worker_id: self.worker_id@,
            masters: views(self.masters@),
            sync_interval_s: self.sync_interval_s,
            heartbeat_interval_s: self.heartbeat_interval_s,
            break_prompt_after_min: self.break_prompt_after_min,
            port: self.port,
            idle_threshold_s: self.idle_threshold_s,
            track_self: self.track_self,
            self_token: opt_view(self.self_token),
        }
    }
}

/// The configuration of an account with this id before anything was chosen.
pub open spec fn first_run(worker_id: Seq<char>) -> ConfigView {
    ConfigView {
        role: None,
        worker_id,
        masters: Seq::empty(),
        sync_interval_s: DEFAULT_SYNC_INTERVAL_S,
        heartbeat_interval_s: DEFAULT_HEARTBEAT_INTERVAL_S,
        break_prompt_after_min: DEFAULT_BREAK_PROMPT_AFTER_MIN,
        port: DEFAULT_PORT,
        idle_threshold_s: DEFAULT_IDLE_THRESHOLD_S,
        track_self: false,
        self_token: None,
    }
}

impl Config {
    /// The configuration of a first run, under a new id.
    pub fn new_first_run() -> (cfg: Self)
        ensures
            cfg@ == first_run(cfg@.worker_id),
            random_uuid(cfg@.worker_id),
    {
        Config::first_run_as(fresh_id())
    }

    /// The configuration of a first run, under the id given.
    pub fn first_run_as(worker_id: String) -> (cfg: Self)
        ensures
            cfg@ == first_run(worker_id@),
    {
        let cfg = Config {
            role: None,
            worker_id,
            masters: Vec::new(),
            sync_interval_s: DEFAULT_SYNC_INTERVAL_S,
            heartbeat_interval_s: DEFAULT_HEARTBEAT_INTERVAL_S,
            break_prompt_after_min: DEFAULT_BREAK_PROMPT_AFTER_MIN,
            port: DEFAULT_PORT,
            idle_threshold_s: DEFAULT_IDLE_THRESHOLD_S,
            track_self: false,
            self_token: None,
        };
        assert(cfg@.masters =~= Seq::<RegistrationView>::empty());
        cfg
    }
}

/// Before anything is chosen an account has no role and no masters, does not
/// track a master's own account, and runs by the default times and port.
pub proof fn first_run_has_chosen_nothing(worker_id: Seq<char>)
    ensures
        ({
            let cfg = first_run(worker_id);
            &&& cfg.worker_id == worker_id
            &&& cfg.role is None && cfg.masters.len() == 0 && !cfg.track_self && cfg.self_token is None
            &&& cfg.sync_interval_s == 60 && cfg.heartbeat_interval_s == 30
                && cfg.break_prompt_after_min == 40 && cfg.idle_threshold_s == 300 && cfg.port
                == 47820
        }),
{
}

/// A first run comes with the defaults, under the id given or under a new one.
pub proof fn first_runs_begin_with_defaults(worker_id: String, given: Config, new: Config)
    requires
        call_ensures(Config::first_run_as, (worker_id,), given),
        call_ensures(Config::new_first_run, (), new),
    ensures
        given@.worker_id == worker_id@,
        given@.role is None && given@.masters.len() == 0 && !given@.track_self,
        given@.sync_interval_s == 60 && given@.heartbeat_interval_s == 30
            && given@.break_prompt_after_min == 40 && given@.idle_threshold_s == 300 && given@.port
            == 47820 && given@.self_token is None,
        new@ == (ConfigView { worker_id: new@.worker_id, ..given@ }),
        random_uuid(new@.worker_id),
{
    first_run_has_chosen_nothing(worker_id@);
}

} // verus!
