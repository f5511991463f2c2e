//! Decisions of the desktop shell: roles, pairing, and the worker with which
//! a master tracks its own account.
use crate::config::{Config, ConfigView, MasterRegistration, RegistrationView, Role};
use crate::ids::{fresh_id, random_uuid};
use crate::model::{RegisterRequest, RegisterView};
use crate::pairing::{master_url, url_of};
use crate::seqs::{lemma_views_push, opt_view};
use crate::text::{clone_opt, decimal, text_eq, trim, trimmed};
use vstd::prelude::*;
use vstd::string::*;

verus! {

// ---- Roles ----
pub open spec fn role_name(role: Role) -> Seq<char> {
    match role {
        Role::Master => "master"@,
        Role::Worker => "worker"@,
    }
}

pub open spec fn role_named(text: Seq<char>) -> Option<Role> {
    if text == "master"@ {
        Some(Role::Master)
    } else if text == "worker"@ {
        Some(Role::Worker)
    } else {
        None
    }
}

/// Every role is found again under its own name.
pub proof fn role_names_round_trip(role: Role)
    ensures
        role_named(role_name(role)) == Some(role),
{
    reveal_strlit("master");
    reveal_strlit("worker");
    assert("master"@[0] == 'm');
    assert("worker"@[0] == 'w');
}

impl Role {
    pub fn as_str(self) -> (res: &'static str)
        ensures
            res@ == role_name(self),
    {
        match self {
            Role::Master => "master",
            Role::Worker => "worker",
        }
    }

    pub fn named(text: &str) -> (res: Option<Role>)
        ensures
            res == role_named(text@),
    {
        if text_eq(text, "master") {
            Some(Role::Master)
        } else if text_eq(text, "worker") {
            Some(Role::Worker)
        } else {
            None
        }
    }
}

/// Chooses the role of the account. A text that names none changes nothing
/// and is told back.
pub fn choose_role(cfg: &mut Config, text: &str) -> (res: Result<Role, String>)
    ensures
        match role_named(text@) {
            Some(role) => res == Ok::<Role, String>(role) && final(cfg)@ == (ConfigView {
                role: Some(role),
                ..old(cfg)@
            }),
            None => (res matches Err(e) && e@ == "invalid role: "@ + text@) && *final(cfg) == *old(
                cfg,
            ),
        },
{
    match Role::named(text) {
        Some(role) => {
            cfg.role = Some(role);
            Ok(role)
        },
        None => Err("invalid role: ".to_owned().concat(text)),
    }
}

// ---- State for the user interface ----
/// What the user interface shows of the configuration.
#[derive(Debug)]
pub struct UiState {
    pub role: Option<String>,
    pub port: u16,
    pub worker_id: String,
    pub masters: Vec<MasterRegistration>,
    pub track_self: bool,
    pub idle_threshold_s: u64,
}

fn clone_masters(masters: &Vec<MasterRegistration>) -> (res: Vec<MasterRegistration>)
    ensures
        res@ == masters@,
{
    let mut out: Vec<MasterRegistration> = Vec::new();
    let mut i: usize = 0;
    while i < masters.len()
        invariant
            i <= masters.len(),
            out@ == masters@.take(i as int),
        decreases masters.len() - i,
    {
        out.push(masters[i].clone());
        i += 1;
    }
    assert(out@ =~= masters@);
    out
}

pub fn ui_state(cfg: &Config) -> (res: UiState)
    ensures
        opt_view(res.role) == match cfg.role {
            Some(r) => Some(role_name(r)),
            None => None,
        },
        res.port == cfg.port,
        res.worker_id@ == cfg.worker_id@,
        res.masters@ == cfg.masters@,
        res.track_self == cfg.track_self,
        res.idle_threshold_s == cfg.idle_threshold_s,
{
    let role = match cfg.role {
        Some(r) => Some(r.as_str().to_owned()),
        None => None,
    };
    UiState {
        role,
        port: cfg.port,
        worker_id: cfg.worker_id.clone(),
        masters: clone_masters(&cfg.masters),
        track_self: cfg.track_self,
        idle_threshold_s: cfg.idle_threshold_s,
    }
}

// ---- Names of machine and account ----
/// The name of the machine: from the environment if that says one, or else
/// what the system command answers.
pub open spec fn host_name_of(
    hostname: Option<Seq<char>>,
    computername: Option<Seq<char>>,
    command: Option<Seq<char>>,
) -> Seq<char> {
    let from_env = match hostname {
        Some(h) => Some(h),
        None => computername,
    };
    match from_env {
        Some(h) if h.len() > 0 => h,
        _ => match command {
            Some(c) if trimmed(c).len() > 0 => trimmed(c),
            _ => "unknown"@,
        },
    }
}

fn is_blank(s: &str) -> (blank: bool)
    ensures
        blank == (s@.len() == 0),
{
    s.unicode_len() == 0
}

/// `hostname` and `computername` are the variables of these names, `command`
/// is the output of the system command, each as far as it is there.
pub fn host_name(
    hostname: Option<String>,
    computername: Option<String>,
    command: Option<String>,
) -> (res: String)
    ensures
        res@ == host_name_of(opt_view(hostname), opt_view(computername), opt_view(command)),
{
    let from_env = match hostname {
        Some(h) => Some(h),
        None => computername,
    };
    if let Some(h) = from_env {
        if !is_blank(h.as_str()) {
            return h;
        }
    }
    if let Some(c) = command {
        let name = trim(c.as_str());
        if !is_blank(name) {
            return name.to_owned();
        }
    }
    "unknown".to_owned()
}

/// The name of the OS account, from the variables `USER` and `USERNAME`.
pub fn account_name(user: Option<String>, username: Option<String>) -> (res: String)
    ensures
        res@ == match (opt_view(user), opt_view(username)) {
            (Some(u), _) => u,
            (None, Some(u)) => u,
            (None, None) => "unknown"@,
        },
{
    match user {
        Some(u) => u,
        None => match username {
            Some(u) => u,
            None => "unknown".to_owned(),
        },
    }
}

/// The machine and account that a request tells of.
pub struct Host {
    pub hostname: String,
    pub os: String,
    pub os_user: String,
}

fn request_of(worker_id: String, host: Host, token: String) -> (req: RegisterRequest)
    ensures
        req@ == (RegisterView {
            worker_id: worker_id@,
            hostname: host.hostname@,
            os: host.os@,
            os_user: host.os_user@,
            token: token@,
        }),
{
    RegisterRequest {
        worker_id,
        hostname: host.hostname,
        os: host.os,
        os_user: host.os_user,
        token,
    }
}

// ---- Pairing ----
pub open spec fn paired(cfg: ConfigView, base_url: Seq<char>) -> bool {
    exists|i: int| 0 <= i < cfg.masters.len() && (#[trigger] cfg.masters[i]).base_url == base_url
}

/// Whether the account is paired with a master.
pub fn is_paired(cfg: &Config, base_url: &str) -> (yes: bool)
    ensures
        yes == paired(cfg@, base_url@),
{
    let mut i: usize = 0;
    while i < cfg.masters.len()
        invariant
            i <= cfg.masters.len(),
            forall|j: int| 0 <= j < i ==> (#[trigger] cfg@.masters[j]).base_url != base_url@,
        decreases cfg.masters.len() - i,
    {
        if text_eq(cfg.masters[i].base_url.as_str(), base_url) {
            assert(cfg@.masters[i as int].base_url == base_url@);
            return true;
        }
        i += 1;
    }
    false
}

/// Begins to pair with a master: the request to register with, under a new
/// token, or `None` if the account is paired with it already.
pub fn begin_pairing(cfg: &Config, base_url: &str, host: Host) -> (res: Option<RegisterRequest>)
    ensures
        res is None <==> paired(cfg@, base_url@),
        res matches Some(req) ==> req@.worker_id == cfg@.worker_id && req@.hostname
            == host.hostname@ && req@.os == host.os@ && req@.os_user == host.os_user@
            && random_uuid(req@.token),
{
    if is_paired(cfg, base_url) {
        None
    } else {
        Some(request_of(cfg.worker_id.clone(), host, fresh_id()))
    }
}

/// Remembers a master that has answered the registration.
pub fn complete_pairing(cfg: &mut Config, base_url: String, token: String)
    ensures
        final(cfg)@ == (ConfigView {
            masters: old(cfg)@.masters.push(
                RegistrationView { base_url: base_url@, token: token@ },
            ),
            ..old(cfg)@
        }),
{
    let m = MasterRegistration { base_url, token };
    proof {
        lemma_views_push(cfg.masters@, m);
    }
    cfg.masters.push(m);
}

/// A master that was remembered counts as paired.
pub proof fn pairing_is_remembered(cfg: ConfigView, r: RegistrationView, other: Seq<char>)
    ensures
        ({
            let after = ConfigView { masters: cfg.masters.push(r), ..cfg };
            paired(after, r.base_url) && (paired(cfg, other) ==> paired(after, other))
        }),
{
    let after = ConfigView { masters: cfg.masters.push(r), ..cfg };
    assert(after.masters[cfg.masters.len() as int] == r);
    if paired(cfg, other) {
        let i = choose|i: int|
            0 <= i < cfg.masters.len() && (#[trigger] cfg.masters[i]).base_url == other;
        assert(after.masters[i].base_url == other);
    }
}

// ---- Tracking of the master's own account ----
pub open spec fn self_id(worker_id: Seq<char>) -> Seq<char> {
    worker_id + "-self"@
}

/// The configuration of the worker that tracks a master's own account: its
/// only master is the one on this machine.
pub open spec fn self_config(cfg: ConfigView, token: Seq<char>) -> ConfigView {
    ConfigView {
        worker_id: self_id(cfg.worker_id),
        masters: seq![RegistrationView { base_url: master_url("127.0.0.1"@, cfg.port), token }],
        ..cfg
    }
}

/// How a master's own account is tracked.
pub struct SelfPlan {
    /// The registration with this master.
    pub request: RegisterRequest,
    /// The configuration of the worker.
    pub worker: Config,
    /// The master's configuration, if the token has to be remembered in it.
    pub to_save: Option<Config>,
}

fn clone_config(cfg: &Config) -> (res: Config)
    ensures
        res@ == cfg@,
{
    Config {
        role: cfg.role,
        worker_id: cfg.worker_id.clone(),
        masters: clone_masters(&cfg.masters),
        sync_interval_s: cfg.sync_interval_s,
        heartbeat_interval_s: cfg.heartbeat_interval_s,
        break_prompt_after_min: cfg.break_prompt_after_min,
        port: cfg.port,
        idle_threshold_s: cfg.idle_threshold_s,
        track_self: cfg.track_self,
        self_token: clone_opt(&cfg.self_token),
    }
}

/// Plans the tracking of a master's own account. `fresh` becomes its token
/// unless there is one.
pub fn plan_self_worker_with(cfg: &Config, host: Host, fresh: String) -> (plan: SelfPlan)
    ensures
        ({
            let token = match cfg@.self_token {
                Some(t) => t,
                None => fresh@,
            };
            &&& plan.request@ == (RegisterView {
                worker_id: self_id(cfg@.worker_id),
                hostname: host.hostname@,
                os: host.os@,
                os_user: host.os_user@,
                token,
            })
            &&& plan.worker@ == self_config(cfg@, token)
            &&& plan.to_save is Some <==> cfg.self_token is None
            &&& plan.to_save matches Some(c) ==> c@ == (ConfigView {
                self_token: Some(token),
                ..cfg@
            })
        }),
{
    let known = clone_opt(&cfg.self_token);
    let is_new = known.is_none();
    let token = match known {
        Some(t) => t,
        None => fresh,
    };
    let to_save = if is_new {
        let mut c = clone_config(cfg);
        c.self_token = Some(token.clone());
        Some(c)
    } else {
        None
    };
    let worker_id = cfg.worker_id.clone().concat("-self");
    let mut worker = clone_config(cfg);
    let mut masters: Vec<MasterRegistration> = Vec::new();
    masters.push(
        MasterRegistration { base_url: url_of("127.0.0.1", cfg.port), token: token.clone() },
    );
    worker.worker_id = worker_id.clone();
    worker.masters = masters;
    assert(worker@.masters =~= self_config(cfg@, token@).masters);
    let request = request_of(worker_id, host, token);
    SelfPlan { request, worker, to_save }
}

/// Plans the tracking of a master's own account, under a new token if there
/// is none.
pub fn plan_self_worker(cfg: &Config, host: Host) -> (plan: SelfPlan)
    ensures
        plan.worker@ == self_config(cfg@, plan.request@.token),
        plan.request@.worker_id == self_id(cfg@.worker_id),
        plan.request@.hostname == host.hostname@ && plan.request@.os == host.os@
            && plan.request@.os_user == host.os_user@,
        cfg@.self_token matches Some(t) ==> plan.request@.token == t && plan.to_save is None,
        cfg@.self_token is None ==> random_uuid(plan.request@.token) && (plan.to_save matches Some(
            c,
        ) && c@ == (ConfigView { self_token: Some(plan.request@.token), ..cfg@ })),
{
    plan_self_worker_with(cfg, host, fresh_id())
}

/// Switches the tracking of the master's own account on or off.
pub fn choose_track_self(cfg: &mut Config, enabled: bool)
    ensures
        final(cfg)@ == (ConfigView { track_self: enabled, ..old(cfg)@ }),
{
    cfg.track_self = enabled;
}

/// The worker that tracks a master's own account is not the account itself,
/// and different accounts have different ones.
pub proof fn self_worker_is_another_worker(a: Seq<char>, b: Seq<char>)
    ensures
        self_id(a) != a,
        self_id(a) == self_id(b) ==> a == b,
{
    reveal_strlit("-self");
    assert(self_id(a).len() == a.len() + 5);
    if self_id(a) == self_id(b) {
        assert(self_id(b).len() == b.len() + 5);
        assert(a =~= self_id(a).take(a.len() as int));
        assert(b =~= self_id(b).take(b.len() as int));
    }
}

/// A text names a role exactly if it is the name of one.
pub proof fn only_role_names_name_roles(text: Seq<char>)
    ensures
        role_named(text) == Some(Role::Master) <==> text == "master"@,
        role_named(text) == Some(Role::Worker) <==> text == "worker"@,
{
    role_names_round_trip(Role::Master);
    role_names_round_trip(Role::Worker);
}

/// The name of the machine comes from the first variable that is set, unless
/// it is empty; then from the command, without white space around it; and it
/// is `unknown` if that says nothing either.
pub proof fn machine_name_comes_from_the_environment(
    hostname: Option<Seq<char>>,
    computername: Option<Seq<char>>,
    command: Option<Seq<char>>,
)
    ensures
        ({
            let name = host_name_of(hostname, computername, command);
            let set = if hostname is Some {
                hostname
            } else {
                computername
            };
            let unset = set is None || set->0.len() == 0;
            &&& !unset ==> Some(name) == set
            &&& unset && command is Some && trimmed(command->0).len() > 0 ==> name == trimmed(
                command->0,
            )
            &&& unset && (command is None || trimmed(command->0).len() == 0) ==> name
                == "unknown"@
        }),
{
}

/// The worker of a master's own account has an id of its own and this machine
/// as its only master; all else is as in the master's configuration.
pub proof fn self_worker_reports_to_this_machine(cfg: ConfigView, token: Seq<char>)
    ensures
        ({
            let own = self_config(cfg, token);
            &&& own.worker_id == cfg.worker_id + "-self"@
            &&& own.masters.len() == 1
            &&& own.masters[0].token == token
            &&& own.masters[0].base_url == "http://"@ + "127.0.0.1"@ + ":"@ + decimal(
                cfg.port as nat,
            )
            &&& own == (ConfigView { worker_id: own.worker_id, masters: own.masters, ..cfg })
        }),
{
}

/// An account is paired with a master exactly if it has a registration for the
/// master's address.
pub proof fn pairing_goes_by_the_address(cfg: ConfigView, base_url: Seq<char>)
    ensures
        paired(cfg, base_url) <==> cfg.masters.map_values(
            |r: RegistrationView| r.base_url,
        ).contains(base_url),
{
    let urls = cfg.masters.map_values(|r: RegistrationView| r.base_url);
    if paired(cfg, base_url) {
        let i = choose|i: int|
            0 <= i < cfg.masters.len() && (#[trigger] cfg.masters[i]).base_url == base_url;
        assert(urls[i] == base_url);
    }
    if urls.contains(base_url) {
        let i = choose|i: int| 0 <= i < urls.len() && urls[i] == base_url;
        assert(cfg.masters[i].base_url == base_url);
    }
}

// ---- What calls do ----
/// A role is chosen by its name; another text is told back and changes
/// nothing.
pub proof fn role_is_chosen_by_its_name(cfg: &mut Config, text: &str, res: Result<Role, String>)
    requires
        call_ensures(choose_role, (cfg, text), res),
    ensures
        text@ == "master"@ ==> res == Ok::<Role, String>(Role::Master) && final(cfg)@.role == Some(
            Role::Master,
        ),
        text@ == "worker"@ ==> res == Ok::<Role, String>(Role::Worker) && final(cfg)@.role == Some(
            Role::Worker,
        ),
        text@ != "master"@ && text@ != "worker"@ ==> (res matches Err(e) && e@ == "invalid role: "@
            + text@) && final(cfg)@ == old(cfg)@,
        final(cfg)@ == (ConfigView { role: final(cfg)@.role, ..old(cfg)@ }),
{
    only_role_names_name_roles(text@);
}

/// A master that was remembered is paired from then on, under its token; all
/// other registrations stay.
pub proof fn completed_pairing_is_remembered(
    cfg: &mut Config,
    base_url: String,
    token: String,
    after: Config,
    url: &str,
    before: bool,
    now: bool,
)
    requires
        call_ensures(complete_pairing, (cfg, base_url, token), ()),
        after == *final(cfg),
        call_ensures(is_paired, (old(cfg), url), before),
        call_ensures(is_paired, (&after, url), now),
    ensures
        now <==> before || url@ == base_url@,
        final(cfg)@.masters == old(cfg)@.masters.push(
            RegistrationView { base_url: base_url@, token: token@ },
        ),
        final(cfg)@ == (ConfigView { masters: final(cfg)@.masters, ..old(cfg)@ }),
{
    let r = RegistrationView { base_url: base_url@, token: token@ };
    pairing_is_remembered(old(cfg)@, r, url@);
    if now && url@ != base_url@ {
        let i = choose|i: int|
            0 <= i < final(cfg)@.masters.len() && (#[trigger] final(cfg)@.masters[i]).base_url
                == url@;
        assert(i < old(cfg)@.masters.len());
        assert(old(cfg)@.masters[i].base_url == url@);
    }
}

/// A request to register tells the account and the machine, under a new token;
/// there is none for a master that the account is paired with.
pub proof fn pairing_begins_with_a_request(
    cfg: Config,
    base_url: &str,
    host: Host,
    res: Option<RegisterRequest>,
    paired_already: bool,
)
    requires
        call_ensures(is_paired, (&cfg, base_url), paired_already),
        call_ensures(begin_pairing, (&cfg, base_url, host), res),
    ensures
        res is None <==> paired_already,
        res matches Some(r) ==> r@.worker_id == cfg@.worker_id && r@.hostname == host.hostname@
            && r@.os == host.os@ && r@.os_user == host.os_user@ && random_uuid(r@.token),
{
}

/// The worker of a master's own account registers under the account's id with
/// an ending of its own, with the token that is known or else the new one,
/// which is then to be remembered.
pub proof fn self_worker_registers_with_its_token(
    cfg: Config,
    host: Host,
    fresh: String,
    plan: SelfPlan,
)
    requires
        call_ensures(plan_self_worker_with, (&cfg, host, fresh), plan),
    ensures
        plan.request@.worker_id == cfg@.worker_id + "-self"@,
        plan.request@.hostname == host.hostname@ && plan.request@.os == host.os@
            && plan.request@.os_user == host.os_user@,
        plan.request@.token == match cfg@.self_token {
            Some(t) => t,
            None => fresh@,
        },
        plan.worker@.worker_id == plan.request@.worker_id,
        plan.worker@.masters.len() == 1,
        plan.worker@.masters[0].token == plan.request@.token,
        plan.worker@.masters[0].base_url == "http://"@ + "127.0.0.1"@ + ":"@ + decimal(
            cfg.port as nat,
        ),
        plan.worker@.sync_interval_s == cfg@.sync_interval_s && plan.worker@.idle_threshold_s
            == cfg@.idle_threshold_s && plan.worker@.break_prompt_after_min
            == cfg@.break_prompt_after_min && plan.worker@.heartbeat_interval_s
            == cfg@.heartbeat_interval_s,
        plan.to_save is Some <==> cfg@.self_token is None,
        plan.to_save matches Some(c) ==> c@ == (ConfigView {
            self_token: Some(plan.request@.token),
            ..cfg@
        }),
{
    self_worker_reports_to_this_machine(cfg@, plan.request@.token);
}

/// The user interface is shown the configuration as it is.
pub proof fn interface_shows_the_configuration(cfg: Config, res: UiState)
    requires
        call_ensures(ui_state, (&cfg,), res),
    ensures
        res.role is None <==> cfg.role is None,
        cfg.role == Some(Role::Master) ==> (res.role matches Some(r) && r@ == "master"@),
        cfg.role == Some(Role::Worker) ==> (res.role matches Some(r) && r@ == "worker"@),
        res.port == cfg.port && res.worker_id@ == cfg.worker_id@ && res.masters@ == cfg.masters@
            && res.track_self == cfg.track_self && res.idle_threshold_s == cfg.idle_threshold_s,
{
}

/// Machine and account are named after what the environment says.
pub proof fn environment_names_machine_and_account(
    hostname: Option<String>,
    computername: Option<String>,
    command: Option<String>,
    machine: String,
    user: Option<String>,
    username: Option<String>,
    account: String,
)
    requires
        call_ensures(host_name, (hostname, computername, command), machine),
        call_ensures(account_name, (user, username), account),
    ensures
        hostname matches Some(h) ==> (h@.len() > 0 ==> machine@ == h@),
        hostname is None ==> (computername matches Some(h) ==> (h@.len() > 0 ==> machine@ == h@)),
        hostname is None && computername is None && command is None ==> machine@ == "unknown"@,
        user matches Some(u) ==> account@ == u@,
        user is None ==> (username matches Some(u) ==> account@ == u@),
        user is None && username is None ==> account@ == "unknown"@,
{
    machine_name_comes_from_the_environment(
        opt_view(hostname),
        opt_view(computername),
        opt_view(command),
    );
}

/// A role bears its name and is read back from it; the switch changes nothing
/// else.
pub proof fn roles_are_read_back(
    role: Role,
    name: &'static str,
    text: &str,
    read: Option<Role>,
    cfg: &mut Config,
    enabled: bool,
)
    requires
        call_ensures(Role::as_str, (role,), name),
        call_ensures(Role::named, (text,), read),
        call_ensures(choose_track_self, (cfg, enabled), ()),
    ensures
        role == Role::Master ==> name@ == "master"@,
        role == Role::Worker ==> name@ == "worker"@,
        read == Some(role) <==> text@ == name@,
        final(cfg)@.track_self == enabled,
        final(cfg)@ == (ConfigView { track_self: enabled, ..old(cfg)@ }),
{
    only_role_names_name_roles(text@);
}

/// The worker for a master's own account keeps its token once it has one, and
/// a new token is remembered.
pub proof fn self_worker_keeps_its_token(cfg: Config, host: Host, plan: SelfPlan)
    requires
        call_ensures(plan_self_worker, (&cfg, host), plan),
    ensures
        plan.request@.worker_id == cfg@.worker_id + "-self"@,
        plan.worker@.worker_id == cfg@.worker_id + "-self"@,
        plan.request@.hostname == host.hostname@ && plan.request@.os == host.os@
            && plan.request@.os_user == host.os_user@,
        plan.worker@.masters.len() == 1,
        plan.worker@.masters[0].token == plan.request@.token,
        plan.worker@.masters[0].base_url == "http://"@ + "127.0.0.1"@ + ":"@ + decimal(
            cfg.port as nat,
        ),
        cfg@.self_token matches Some(t) ==> plan.request@.token == t && plan.to_save is None,
        cfg@.self_token is None ==> (plan.to_save matches Some(c) && c@.self_token == Some(
            plan.request@.token,
        ) && c@.worker_id == cfg@.worker_id && c@.masters == cfg@.masters),
{
}

} // verus!
