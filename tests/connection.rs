use ssh_server::auth::authenticate_password;
use ssh_server::channel::{Binding, ChannelKind, EnvVar, Phase, Terminal};
use ssh_server::config::AuthConfig;
use ssh_server::connection::{AuthMethod, AuthReply, Connection};
use ssh_server::error::ChannelError;

fn all_methods() -> AuthConfig {
    AuthConfig { password_auth: true, pubkey_auth: true, keyboard_interactive: false }
}

fn logged_in() -> Connection {
    let mut c = Connection::new(all_methods(), true, true);
    let user = "demo".to_string();
    assert_eq!(c.authenticate(AuthMethod::Password, &user, Some(true)), AuthReply::Accept);
    c
}

fn terminal(cols: u32, rows: u32) -> Terminal {
    Terminal { term: "xterm".to_string(), cols, rows, pix_width: 0, pix_height: 0, modes: vec![(53, 1), (128, 38400)] }
}

#[test]
fn open_requires_authentication() {
    let mut c = Connection::new(all_methods(), true, true);
    assert_eq!(c.open_channel(0, ChannelKind::Session), Err(ChannelError::Unauthenticated));
    let user = "demo".to_string();
    let pass = "demo123".to_string();
    let verdict = authenticate_password(&user, &pass);
    assert!(verdict);
    assert_eq!(c.authenticate(AuthMethod::Password, &user, Some(verdict)), AuthReply::Accept);
    assert!(c.is_authenticated());
    assert_eq!(c.open_channel(0, ChannelKind::Session), Ok(()));
}

#[test]
fn reverse_forward_twice_then_again_after_unregister() {
    let mut c = logged_in();
    let addr = "127.0.0.1".to_string();
    assert_eq!(c.register_forward(&addr, 9000), Ok(true));
    assert_eq!(c.register_forward(&addr, 9000), Err(ChannelError::AlreadyBound));
    assert_eq!(c.unregister_forward(&addr, 9000), Ok(()));
    assert_eq!(c.register_forward(&addr, 9000), Ok(true));
}

#[test]
fn reverse_forward_other_port_is_independent() {
    let mut c = logged_in();
    let addr = "127.0.0.1".to_string();
    assert_eq!(c.register_forward(&addr, 9000), Ok(true));
    assert_eq!(c.register_forward(&addr, 9001), Ok(true));
    assert_eq!(c.unregister_forward(&addr, 9002), Err(ChannelError::NotFound));
}

#[test]
fn reverse_forward_disabled_is_refused_without_error() {
    let mut c = Connection::new(all_methods(), false, true);
    let addr = "127.0.0.1".to_string();
    assert_eq!(c.register_forward(&addr, 9000), Err(ChannelError::Unauthenticated));
    c.authenticate(AuthMethod::Password, &"demo".to_string(), Some(true));
    assert_eq!(c.register_forward(&addr, 9000), Ok(false));
    assert_eq!(c.unregister_forward(&addr, 9000), Err(ChannelError::NotFound));
}

#[test]
fn window_change_needs_a_terminal() {
    let mut c = logged_in();
    // a shell bound without a terminal
    c.open_channel(1, ChannelKind::Session).unwrap();
    c.plan_shell(1, &"/bin/sh".to_string()).unwrap();
    c.bind(1, Binding::Process { pid: 500 }).unwrap();
    assert_eq!(c.window_change(1, 120, 40, 0, 0), Err(ChannelError::InvalidStateForRequest));
    // the same request on a shell that negotiated a terminal first
    c.open_channel(2, ChannelKind::Session).unwrap();
    assert_eq!(c.request_pty(2, terminal(80, 24)), Ok(()));
    let plan = c.plan_shell(2, &"/bin/sh".to_string()).unwrap();
    assert_eq!(plan.terminal.as_ref().unwrap().cols, 80);
    c.bind(2, Binding::Process { pid: 501 }).unwrap();
    assert_eq!(c.window_change(2, 120, 40, 0, 0), Ok(Some(501)));
    let ch = c.channel(2).unwrap();
    let t = ch.terminal.as_ref().unwrap();
    assert_eq!((t.cols, t.rows), (120, 40));
    assert_eq!(t.term, "xterm");
    assert_eq!(t.modes, vec![(53, 1), (128, 38400)]);
    let env: Vec<(String, String)> = ch.env.iter().map(|e| (e.name.clone(), e.value.clone())).collect();
    assert_eq!(
        env,
        vec![
            ("TERM".to_string(), "xterm".to_string()),
            ("COLUMNS".to_string(), "80".to_string()),
            ("LINES".to_string(), "24".to_string()),
            ("COLUMNS".to_string(), "120".to_string()),
            ("LINES".to_string(), "40".to_string()),
        ]
    );
}

#[test]
fn terminal_requests_after_binding_are_refused() {
    let mut c = logged_in();
    c.open_channel(3, ChannelKind::Session).unwrap();
    c.bind(3, Binding::Process { pid: 7 }).unwrap();
    assert_eq!(c.request_pty(3, terminal(80, 24)), Err(ChannelError::InvalidStateForRequest));
    let var = EnvVar { name: "LANG".to_string(), value: "C".to_string() };
    assert_eq!(c.request_env(3, var), Err(ChannelError::InvalidStateForRequest));
    assert_eq!(c.bind(3, Binding::Process { pid: 8 }), Err(ChannelError::InvalidStateForRequest));
}

#[test]
fn crashed_process_closes_channel() {
    let mut c = logged_in();
    c.open_channel(4, ChannelKind::Session).unwrap();
    c.bind(4, Binding::Process { pid: 900 }).unwrap();
    assert_eq!(c.channel(4).unwrap().phase, Phase::Bound);
    assert_eq!(c.route_data(4), Ok(Binding::Process { pid: 900 }));
    // the process exits without any close from the client
    assert_eq!(c.begin_close(4), Ok(Some(900)));
    assert_eq!(c.channel(4).unwrap().phase, Phase::Closing);
    assert_eq!(c.route_data(4), Err(ChannelError::IoError));
    let closed = c.finish_close(4).unwrap();
    assert_eq!(closed.binding, Some(Binding::Process { pid: 900 }));
    assert_eq!(c.route_data(4), Err(ChannelError::ChannelNotFound));
    assert!(c.channel(4).is_err());
}

#[test]
fn data_before_binding_has_no_resource() {
    let mut c = logged_in();
    c.open_channel(5, ChannelKind::Session).unwrap();
    assert_eq!(c.route_data(5), Err(ChannelError::NoBoundResource));
    assert_eq!(c.route_data(6), Err(ChannelError::ChannelNotFound));
}

#[test]
fn duplicate_channel_is_refused() {
    let mut c = logged_in();
    assert_eq!(c.open_channel(9, ChannelKind::DirectTcpip), Ok(()));
    assert_eq!(c.open_channel(9, ChannelKind::Session), Err(ChannelError::DuplicateChannel));
    assert_eq!(c.channel(9).unwrap().kind, ChannelKind::DirectTcpip);
}

#[test]
fn finish_requires_closing() {
    let mut c = logged_in();
    c.open_channel(10, ChannelKind::Session).unwrap();
    assert!(matches!(c.finish_close(10), Err(ChannelError::InvalidStateForRequest)));
    assert_eq!(c.begin_close(10), Ok(None));
    assert!(c.finish_close(10).is_ok());
    assert!(matches!(c.finish_close(10), Err(ChannelError::ChannelNotFound)));
    // ids are not reused while the connection is open
    assert_eq!(c.open_channel(10, ChannelKind::Session), Err(ChannelError::DuplicateChannel));
    assert_eq!(c.open_channel(11, ChannelKind::Session), Ok(()));
}

#[test]
fn sockets_bind_only_tcpip_channels() {
    let mut c = logged_in();
    c.open_channel(11, ChannelKind::Session).unwrap();
    c.open_channel(12, ChannelKind::DirectTcpip).unwrap();
    c.open_channel(13, ChannelKind::ForwardedTcpip).unwrap();
    assert_eq!(c.bind(11, Binding::Socket), Err(ChannelError::InvalidStateForRequest));
    assert_eq!(c.bind(12, Binding::Process { pid: 3 }), Err(ChannelError::InvalidStateForRequest));
    assert_eq!(c.bind(12, Binding::Socket), Ok(()));
    assert_eq!(c.bind(13, Binding::Socket), Ok(()));
    assert_eq!(c.route_data(12), Ok(Binding::Socket));
    assert_eq!(c.request_pty(12, terminal(80, 24)), Err(ChannelError::InvalidStateForRequest));
}

#[test]
fn subsystem_binding() {
    let mut c = logged_in();
    c.open_channel(14, ChannelKind::Session).unwrap();
    assert_eq!(c.request_subsystem(14, &"ftp".to_string()), Err(ChannelError::UnknownSubsystem));
    assert_eq!(c.channel(14).unwrap().binding, None);
    assert_eq!(c.request_subsystem(14, &"sftp".to_string()), Ok(()));
    assert_eq!(c.route_data(14), Ok(Binding::Subsystem));

    let mut d = Connection::new(all_methods(), true, false);
    d.authenticate(AuthMethod::Password, &"demo".to_string(), Some(true));
    d.open_channel(1, ChannelKind::Session).unwrap();
    assert_eq!(d.request_subsystem(1, &"sftp".to_string()), Err(ChannelError::UnknownSubsystem));
}

#[test]
fn exec_plan_environment() {
    let mut c = logged_in();
    c.open_channel(15, ChannelKind::Session).unwrap();
    let var = EnvVar { name: "LANG".to_string(), value: "C.UTF-8".to_string() };
    assert_eq!(c.request_env(15, var), Ok(()));
    assert_eq!(c.channel(15).unwrap().phase, Phase::Negotiating);
    let plan = c.plan_exec(15, &"echo hi".to_string(), &"/bin/bash".to_string()).unwrap();
    assert_eq!(plan.program, "sh");
    assert_eq!(plan.args, vec!["-c".to_string(), "echo hi".to_string()]);
    assert!(plan.terminal.is_none());
    let env: Vec<(String, String)> = plan.env.iter().map(|e| (e.name.clone(), e.value.clone())).collect();
    let want: Vec<(String, String)> = vec![
        ("LANG".to_string(), "C.UTF-8".to_string()),
        ("USER".to_string(), "demo".to_string()),
        ("HOME".to_string(), "/home/demo".to_string()),
        ("PATH".to_string(), "/usr/local/bin:/usr/bin:/bin".to_string()),
        ("SHELL".to_string(), "/bin/bash".to_string()),
    ];
    assert_eq!(env, want);
}

#[test]
fn shell_plan_exports_terminal() {
    let mut c = logged_in();
    c.open_channel(16, ChannelKind::Session).unwrap();
    c.request_pty(16, terminal(100, 30)).unwrap();
    let plan = c.plan_shell(16, &"/bin/zsh".to_string()).unwrap();
    assert_eq!(plan.program, "/bin/zsh");
    assert!(plan.args.is_empty());
    assert_eq!(plan.env[0].name, "TERM");
    assert_eq!(plan.env[0].value, "xterm");
    assert_eq!((plan.env[1].name.as_str(), plan.env[1].value.as_str()), ("COLUMNS", "100"));
    assert_eq!((plan.env[2].name.as_str(), plan.env[2].value.as_str()), ("LINES", "30"));
    assert_eq!(plan.env[6].value, "/bin/zsh");
    let t = plan.terminal.as_ref().unwrap();
    assert_eq!(t.rows, 30);
    assert_eq!(t.modes, vec![(53, 1), (128, 38400)]);
}

#[test]
fn close_connection_releases_every_process() {
    let mut c = logged_in();
    for (id, pid) in [(1u32, 100u32), (2, 200), (3, 300)] {
        c.open_channel(id, ChannelKind::Session).unwrap();
        c.bind(id, Binding::Process { pid }).unwrap();
    }
    c.open_channel(4, ChannelKind::DirectTcpip).unwrap();
    c.bind(4, Binding::Socket).unwrap();
    c.register_forward(&"0.0.0.0".to_string(), 8080).unwrap();
    let mut pids = c.close_connection();
    pids.sort();
    assert_eq!(pids, vec![100, 200, 300]);
    for id in 1..5 {
        assert_eq!(c.route_data(id), Err(ChannelError::ChannelNotFound));
    }
    assert_eq!(c.unregister_forward(&"0.0.0.0".to_string(), 8080), Err(ChannelError::NotFound));
}

#[test]
fn auth_replies() {
    let cfg = AuthConfig { password_auth: false, pubkey_auth: true, keyboard_interactive: false };
    let mut c = Connection::new(cfg, true, true);
    let alice = "alice".to_string();
    assert_eq!(c.authenticate(AuthMethod::Password, &alice, Some(true)), AuthReply::Reject { offer_password: false });
    assert_eq!(c.authenticate(AuthMethod::NoCredential, &alice, Some(true)), AuthReply::Reject { offer_password: false });
    assert_eq!(c.authenticate(AuthMethod::PublicKey, &alice, Some(false)), AuthReply::Reject { offer_password: true });
    assert_eq!(c.authenticate(AuthMethod::PublicKey, &alice, None), AuthReply::Reject { offer_password: false });
    assert!(!c.is_authenticated());
    assert_eq!(c.authenticate(AuthMethod::PublicKey, &alice, Some(true)), AuthReply::Accept);
    // the identity stays that of the first accept
    assert_eq!(c.authenticate(AuthMethod::PublicKey, &"bob".to_string(), Some(true)), AuthReply::Accept);
    c.open_channel(1, ChannelKind::Session).unwrap();
    let plan = c.plan_exec(1, &"id".to_string(), &"/bin/sh".to_string()).unwrap();
    assert_eq!(plan.env[0].value, "alice");
}

#[test]
fn registered_channel_id_is_a_duplicate() {
    let mut c = logged_in();
    c.open_channel(20, ChannelKind::Session).unwrap();
    c.request_pty(20, terminal(80, 24)).unwrap();
    assert_eq!(c.open_channel(20, ChannelKind::Session), Err(ChannelError::DuplicateChannel));
    let ch = c.channel(20).unwrap();
    assert_eq!(ch.phase, Phase::Negotiating);
    assert!(ch.terminal.is_some());
}
