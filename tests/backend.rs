use reinschrift::backend::{begin_probe, finish_probe, probe_request, BackendConfig, Preferences, ProbeStatus, StoreHandle};
use reinschrift::reconcile::SortMode;

fn remote() -> BackendConfig {
    BackendConfig::Remote {
        url: "https://dav.example.org".to_string(),
        path: "todo.txt".to_string(),
        username: "me".to_string(),
        password: "SECRET-REDACTED".to_string(),
    }
}

#[test]
fn switching_backend_makes_a_newer_handle() {
    let h = StoreHandle::new(BackendConfig::Local { path: "/tmp/todo.txt".to_string() });
    assert_eq!(h.generation, 0);
    let h2 = h.switch_to(remote());
    assert_eq!(h2.generation, 1);
    assert!(h2.is_current(1));
    assert!(!h2.is_current(0));
    assert!(matches!(h2.config, BackendConfig::Remote { .. }));
}

#[test]
fn only_remote_stores_are_probed() {
    assert!(probe_request(&BackendConfig::Local { path: "x".to_string() }).is_none());
    let p = probe_request(&remote()).unwrap();
    assert_eq!(p.url, "https://dav.example.org");
    assert_eq!(p.path, "todo.txt");
    assert_eq!(p.username, "me");
}

#[test]
fn probe_outcomes_apply_only_while_checking() {
    let mut st = ProbeStatus::Idle;
    finish_probe(&mut st, Ok(()));
    assert!(matches!(st, ProbeStatus::Idle));
    assert!(begin_probe(&mut st));
    assert!(!begin_probe(&mut st));
    finish_probe(&mut st, Err("unreachable".to_string()));
    assert!(matches!(&st, ProbeStatus::Failed(m) if m == "unreachable"));
    assert!(begin_probe(&mut st));
    finish_probe(&mut st, Ok(()));
    assert!(matches!(st, ProbeStatus::Succeeded));
}

#[test]
fn preferences_open_a_view_without_search() {
    let prefs = Preferences {
        sort: SortMode::Context,
        show_done: true,
        due_only: false,
        backend: remote(),
        voice_enabled: true,
        voice_language: "de".to_string(),
    };
    let v = prefs.view_state();
    assert_eq!(v.sort, SortMode::Context);
    assert!(v.show_done);
    assert!(!v.due_only);
    assert_eq!(v.search, "");
}
