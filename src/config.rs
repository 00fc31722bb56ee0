use vstd::prelude::*;

verus! {

/// Server settings, read once at startup.
#[derive(Debug, Clone)]
pub struct Config {
    pub bind_address: String,
    pub port: u16,
    pub host_key_path: String,
    pub authorized_keys_dir: String,
    pub shell: String,
    pub max_connections: usize,
    pub connection_timeout: u64,
    pub authentication: AuthConfig,
    pub sftp_enabled: bool,
}

/// Which authentication methods are enabled.
#[derive(Debug, Clone, Copy, PartialEq, Eq, Structural)]
pub struct AuthConfig {
    pub password_auth: bool,
    pub pubkey_auth: bool,
    pub keyboard_interactive: bool,
}

impl Default for Config {
    fn default() -> (r: Config)
        ensures
            r.bind_address@ == "0.0.0.0"@,
            r.port == 2222,
            r.host_key_path@ == "/etc/rust-sshd/host_key"@,
            r.authorized_keys_dir@ == "/etc/rust-sshd/authorized_keys"@,
            r.shell@ == "/bin/bash"@,
            r.max_connections == 100,
            r.connection_timeout == 300,
            r.sftp_enabled,
            r.authentication == (AuthConfig {
                password_auth: true,
                pubkey_auth: true,
                keyboard_interactive: false,
            }),
    {
        Config {
            bind_address: "0.0.0.0".to_owned(),
            port: 2222,
            host_key_path: "/etc/rust-sshd/host_key".to_owned(),
            authorized_keys_dir: "/etc/rust-sshd/authorized_keys".to_owned(),
            shell: "/bin/bash".to_owned(),
            max_connections: 100,
            connection_timeout: 300,
            sftp_enabled: true,
            authentication: AuthConfig {
                password_auth: true,
                pubkey_auth: true,
                keyboard_interactive: false,
            },
        }
    }
}

} // verus!
