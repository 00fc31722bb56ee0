use ssh_server::config::{AuthConfig, Config};

#[test]
fn default_config() {
    let c = Config::default();
    assert_eq!(c.bind_address, "0.0.0.0");
    assert_eq!(c.port, 2222);
    assert_eq!(c.host_key_path, "/etc/rust-sshd/host_key");
    assert_eq!(c.authorized_keys_dir, "/etc/rust-sshd/authorized_keys");
    assert_eq!(c.shell, "/bin/bash");
    assert_eq!(c.max_connections, 100);
    assert_eq!(c.connection_timeout, 300);
    assert!(c.sftp_enabled);
    assert_eq!(
        c.authentication,
        AuthConfig { password_auth: true, pubkey_auth: true, keyboard_interactive: false }
    );
}
