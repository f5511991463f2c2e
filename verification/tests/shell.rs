use timewise::config::{
    Config, MasterRegistration, Role, DEFAULT_BREAK_PROMPT_AFTER_MIN, DEFAULT_HEARTBEAT_INTERVAL_S,
    DEFAULT_IDLE_THRESHOLD_S, DEFAULT_PORT, DEFAULT_SYNC_INTERVAL_S,
};
use timewise::shell::{
    account_name, begin_pairing, choose_role, choose_track_self, complete_pairing, host_name,
    is_paired, plan_self_worker, plan_self_worker_with, ui_state, Host,
};

fn host() -> Host {
    Host { hostname: "pc".into(), os: "linux".into(), os_user: "ada".into() }
}

#[test]
fn first_run_defaults() {
    let cfg = Config::new_first_run();
    assert_eq!(cfg.role, None);
    assert_eq!(uuid::Uuid::parse_str(&cfg.worker_id).unwrap().get_version_num(), 4);
    assert_ne!(cfg.worker_id, Config::new_first_run().worker_id);
    assert!(cfg.masters.is_empty());
    assert_eq!((cfg.sync_interval_s, DEFAULT_SYNC_INTERVAL_S), (60, 60));
    assert_eq!((cfg.heartbeat_interval_s, DEFAULT_HEARTBEAT_INTERVAL_S), (30, 30));
    assert_eq!((cfg.break_prompt_after_min, DEFAULT_BREAK_PROMPT_AFTER_MIN), (40, 40));
    assert_eq!((cfg.port, DEFAULT_PORT), (47820, 47820));
    assert_eq!((cfg.idle_threshold_s, DEFAULT_IDLE_THRESHOLD_S), (300, 300));
    assert!(!cfg.track_self && cfg.self_token.is_none());
}

#[test]
fn roles_by_name() {
    let mut cfg = Config::first_run_as("me".into());
    assert_eq!(choose_role(&mut cfg, "king"), Err("invalid role: king".to_string()));
    assert_eq!(cfg.role, None);
    assert_eq!(choose_role(&mut cfg, "master"), Ok(Role::Master));
    assert_eq!(cfg.role, Some(Role::Master));
    assert_eq!(choose_role(&mut cfg, "worker"), Ok(Role::Worker));
    for role in [Role::Master, Role::Worker] {
        assert_eq!(Role::named(role.as_str()), Some(role));
    }
    assert_eq!(Role::named("Master"), None);
    assert_eq!(ui_state(&cfg).role.as_deref(), Some("worker"));
}

#[test]
fn state_for_the_user_interface() {
    let mut cfg = Config::first_run_as("me".into());
    complete_pairing(&mut cfg, "http://a:1".into(), "t".into());
    choose_track_self(&mut cfg, true);
    let ui = ui_state(&cfg);
    assert_eq!(ui.role, None);
    assert_eq!((ui.port, ui.worker_id.as_str()), (47820, "me"));
    assert_eq!((ui.track_self, ui.idle_threshold_s), (true, 300));
    assert_eq!(ui.masters[0].base_url, "http://a:1");
    assert_eq!(ui.masters[0].token, "t");
}

#[test]
fn a_master_is_paired_once() {
    let mut cfg = Config::first_run_as("me".into());
    let req = begin_pairing(&cfg, "http://a:1", host()).unwrap();
    assert_eq!(req.worker_id, "me");
    assert_eq!((req.hostname.as_str(), req.os.as_str(), req.os_user.as_str()), ("pc", "linux", "ada"));
    assert_eq!(uuid::Uuid::parse_str(&req.token).unwrap().get_version_num(), 4);
    complete_pairing(&mut cfg, "http://a:1".into(), req.token);
    assert!(is_paired(&cfg, "http://a:1"));
    assert!(begin_pairing(&cfg, "http://a:1", host()).is_none());
    assert!(!is_paired(&cfg, "http://a:1/"));
    assert!(begin_pairing(&cfg, "http://b:1", host()).is_some());
}

#[test]
fn the_own_account_of_a_master() {
    let mut cfg = Config::first_run_as("me".into());
    cfg.masters.push(MasterRegistration { base_url: "http://x".into(), token: "y".into() });
    let plan = plan_self_worker_with(&cfg, host(), "fresh".into());
    assert_eq!(plan.request.worker_id, "me-self");
    assert_eq!(plan.request.token, "fresh");
    assert_eq!(plan.worker.worker_id, "me-self");
    assert_eq!(plan.worker.masters.len(), 1);
    assert_eq!(plan.worker.masters[0].base_url, "http://127.0.0.1:47820");
    assert_eq!(plan.worker.masters[0].token, "fresh");
    let saved = plan.to_save.unwrap();
    assert_eq!(saved.self_token.as_deref(), Some("fresh"));
    assert_eq!((saved.worker_id.as_str(), saved.masters.len()), ("me", 1));
    // Once saved, the token stays.
    let again = plan_self_worker_with(&saved, host(), "other".into());
    assert_eq!(again.request.token, "fresh");
    assert!(again.to_save.is_none());
    let random = plan_self_worker(&cfg, host());
    assert_eq!(random.request.hostname, "pc");
    assert_eq!(random.request.os, "linux");
    assert_eq!(random.request.os_user, "ada");
    assert_eq!(uuid::Uuid::parse_str(&random.request.token).unwrap().get_version_num(), 4);
}

#[test]
fn names_of_machine_and_account() {
    let s = |t: &str| Some(t.to_string());
    assert_eq!(host_name(s("a"), s("b"), s("c")), "a");
    assert_eq!(host_name(None, s("b"), s("c")), "b");
    assert_eq!(host_name(s(""), s("b"), s(" c\n")), "c");
    assert_eq!(host_name(None, None, s(" \n")), "unknown");
    assert_eq!(host_name(None, None, None), "unknown");
    assert_eq!(account_name(s("u"), s("v")), "u");
    assert_eq!(account_name(s(""), s("v")), "");
    assert_eq!(account_name(None, s("v")), "v");
    assert_eq!(account_name(None, None), "unknown");
}
