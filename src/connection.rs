use vstd::prelude::*;
use std::collections::HashMap;
use crate::channel::{env_view, Binding, ChannelKind, ChannelSession, EnvVar, Phase, SpawnPlan, Terminal};
use crate::config::AuthConfig;
use crate::error::ChannelError;
use crate::text::{join, decimal, decimal_text};

verus! {

broadcast use vstd::std_specs::hash::group_hash_axioms;

/// An authentication method offered by a client.
#[derive(Debug, Clone, Copy, PartialEq, Eq, Structural)]
pub enum AuthMethod {
    NoCredential,
    Password,
    PublicKey,
}

/// The answer to an authentication attempt.
#[derive(Debug, Clone, Copy, PartialEq, Eq, Structural)]
pub enum AuthReply {
    Accept,
    /// Rejected; `offer_password` says whether password authentication is
    /// suggested as the next method.
    Reject { offer_password: bool },
}

/// Whether `method` is enabled by `auth`.
pub open spec fn method_enabled(auth: AuthConfig, method: AuthMethod) -> bool {
    match method {
        AuthMethod::NoCredential => false,
        AuthMethod::Password => auth.password_auth,
        AuthMethod::PublicKey => auth.pubkey_auth,
    }
}

/// The reply to an attempt with `method`, where `verdict` is the credential
/// check's answer (`None` when the check itself failed).
pub open spec fn auth_reply(auth: AuthConfig, method: AuthMethod, verdict: Option<bool>) -> AuthReply {
    if !method_enabled(auth, method) {
        AuthReply::Reject { offer_password: false }
    } else {
        match verdict {
            Some(true) => AuthReply::Accept,
            Some(false) => AuthReply::Reject { offer_password: method == AuthMethod::PublicKey },
            None => AuthReply::Reject { offer_password: false },
        }
    }
}

/// One active reverse port-forward.
#[derive(Debug, Clone)]
pub struct Forward {
    pub address: String,
    pub port: u32,
}

/// The state of one client connection: its authentication, its channels
/// and its reverse port-forwards.
pub struct Connection {
    auth: AuthConfig,
    forwarding_enabled: bool,
    sftp_enabled: bool,
    identity: Option<String>,
    channels: HashMap<u32, ChannelSession>,
    /// The ids of the registered channels, each once.
    open_ids: Vec<u32>,
    /// Every id a channel has had on this connection.
    used_ids: Vec<u32>,
    /// The processes handed out for termination so far.
    released: Ghost<Set<u32>>,
    forwards: Vec<Forward>,
}

/// The set of (address, port) pairs that the forwards in `s` are bound to.
pub open spec fn forward_set(s: Seq<Forward>) -> Set<(Seq<char>, u32)> {
    Set::new(|p: (Seq<char>, u32)| exists|i: int| 0 <= i < s.len() && s[i].address@ == p.0 && s[i].port == p.1)
}

/// No two forwards in `s` are bound to the same address and port.
pub open spec fn forwards_distinct(s: Seq<Forward>) -> bool {
    forall|i: int, j: int|
        0 <= i < s.len() && 0 <= j < s.len() && i != j ==> !(s[i].address@ == s[j].address@ && s[i].port == s[j].port)
}

proof fn lemma_push_fresh(s: Seq<u32>, x: u32)
    requires
        s.no_duplicates(),
        !s.contains(x),
    ensures
        s.push(x).no_duplicates(),
        forall|k: u32| #[trigger] s.push(x).contains(k) <==> (s.contains(k) || k == x),
{
    assert forall|k: u32| #[trigger] s.push(x).contains(k) <==> (s.contains(k) || k == x) by {
        if s.contains(k) {
            let i = choose|i: int| 0 <= i < s.len() && s[i] == k;
            assert(s.push(x)[i] == k);
        }
        if k == x {
            assert(s.push(x)[s.len() as int] == k);
        }
        if s.push(x).contains(k) {
            let i = choose|i: int| 0 <= i < s.push(x).len() && s.push(x)[i] == k;
            if i < s.len() {
                assert(s[i] == k);
            }
        }
    }
    assert forall|i: int, j: int| 0 <= i < s.push(x).len() && 0 <= j < s.push(x).len() && i != j
        implies s.push(x)[i] != s.push(x)[j] by {
        if i < s.len() && j < s.len() {
        } else if i < s.len() {
            assert(s.contains(s[i]));
        } else {
            assert(s.contains(s[j]));
        }
    }
}

proof fn lemma_remove_at(s: Seq<u32>, i: int)
    requires
        s.no_duplicates(),
        0 <= i < s.len(),
    ensures
        s.remove(i).no_duplicates(),
        forall|k: u32| #[trigger] s.remove(i).contains(k) <==> (s.contains(k) && k != s[i]),
{
    let r = s.remove(i);
    assert forall|k: u32| #[trigger] r.contains(k) <==> (s.contains(k) && k != s[i]) by {
        if r.contains(k) {
            let j = choose|j: int| 0 <= j < r.len() && r[j] == k;
            if j < i {
                assert(s[j] == k);
            } else {
                assert(s[j + 1] == k);
            }
        }
        if s.contains(k) && k != s[i] {
            let j = choose|j: int| 0 <= j < s.len() && s[j] == k;
            if j < i {
                assert(r[j] == k);
            } else {
                assert(r[j - 1] == k);
            }
        }
    }
    assert forall|a: int, b: int| 0 <= a < r.len() && 0 <= b < r.len() && a != b implies r[a] != r[b] by {
        let a2 = if a < i { a } else { a + 1 };
        let b2 = if b < i { b } else { b + 1 };
        assert(r[a] == s[a2]);
        assert(r[b] == s[b2]);
    }
}

/// Whether a channel of `kind` may be bound to `binding`.
pub open spec fn binding_fits(kind: ChannelKind, binding: Binding) -> bool {
    match binding {
        Binding::Socket => kind != ChannelKind::Session,
        _ => kind == ChannelKind::Session,
    }
}

/// The variables that every spawned process gets after the channel's own
/// ones: they identify `user` and set a fixed search path.
pub open spec fn default_env(user: Seq<char>, shell: Seq<char>) -> Seq<(Seq<char>, Seq<char>)> {
    seq![
        ("USER"@, user),
        ("HOME"@, "/home/"@ + user),
        ("PATH"@, "/usr/local/bin:/usr/bin:/bin"@),
        ("SHELL"@, shell),
    ]
}

/// The variables that describe a terminal's size.
pub open spec fn size_env(cols: u32, rows: u32) -> Seq<(Seq<char>, Seq<char>)> {
    seq![("COLUMNS"@, decimal_text(cols as nat)), ("LINES"@, decimal_text(rows as nat))]
}

/// The variables that a terminal request exports: its type, then its size.
pub open spec fn terminal_env(t: Terminal) -> Seq<(Seq<char>, Seq<char>)> {
    seq![("TERM"@, t.term@)] + size_env(t.cols, t.rows)
}

/// The arguments of `s`, as character sequences.
pub open spec fn args_view(s: Seq<String>) -> Seq<Seq<char>> {
    s.map_values(|a: String| a@)
}

/// Whether `ids` holds `id`.
fn contains_id(ids: &Vec<u32>, id: u32) -> (r: bool)
    ensures
        r == ids@.contains(id),
        r == ids@.to_set().contains(id),
{
    let mut i: usize = 0;
    while i < ids.len()
        invariant
            i <= ids@.len(),
            forall|j: int| 0 <= j < i ==> ids@[j] != id,
        decreases ids@.len() - i,
    {
        if ids[i] == id {
            assert(ids@[i as int] == id);
            return true;
        }
        i = i + 1;
    }
    false
}

/// The environment of a spawned process: the channel's assignments, then
/// the defaults for `user`.
fn spawn_env(env: &Vec<EnvVar>, user: &String, shell: &String) -> (r: Vec<EnvVar>)
    ensures
        env_view(r@) == env_view(env@) + default_env(user@, shell@),
{
    let mut out: Vec<EnvVar> = Vec::new();
    let mut i: usize = 0;
    while i < env.len()
        invariant
            i <= env@.len(),
            out@.len() == i,
            forall|j: int| 0 <= j < i ==> #[trigger] out@[j].name@ == env@[j].name@ && out@[j].value@ == env@[j].value@,
        decreases env@.len() - i,
    {
        out.push(env[i].duplicate());
        i = i + 1;
    }
    let ghost copied = out@;
    assert(env_view(copied) =~= env_view(env@));
    out.push(EnvVar { name: "USER".to_owned(), value: user.clone() });
    out.push(EnvVar { name: "HOME".to_owned(), value: join("/home/", user.as_str()) });
    out.push(EnvVar { name: "PATH".to_owned(), value: "/usr/local/bin:/usr/bin:/bin".to_owned() });
    out.push(EnvVar { name: "SHELL".to_owned(), value: shell.clone() });
    assert(env_view(out@) =~= env_view(copied) + default_env(user@, shell@));
    out
}

/// The process ids bound to the channels of `m`.
pub open spec fn bound_pids(m: Map<u32, ChannelSession>) -> Set<u32> {
    Set::new(|p: u32| exists|id: u32| #[trigger] m.contains_key(id) && m[id].spec_pid() == Some(p))
}

proof fn lemma_forward_push(s: Seq<Forward>, f: Forward)
    requires
        forwards_distinct(s),
        !forward_set(s).contains((f.address@, f.port)),
    ensures
        forwards_distinct(s.push(f)),
        forward_set(s.push(f)) == forward_set(s).insert((f.address@, f.port)),
{
    let t = s.push(f);
    assert forall|p: (Seq<char>, u32)| #[trigger] forward_set(t).contains(p) <==> forward_set(s).insert((f.address@, f.port)).contains(p) by {
        if forward_set(t).contains(p) {
            let i = choose|i: int| 0 <= i < t.len() && t[i].address@ == p.0 && t[i].port == p.1;
            if i < s.len() {
                assert(s[i] == t[i]);
            }
        }
        if forward_set(s).contains(p) {
            let i = choose|i: int| 0 <= i < s.len() && s[i].address@ == p.0 && s[i].port == p.1;
            assert(t[i] == s[i]);
        }
        if p == (f.address@, f.port) {
            assert(t[s.len() as int] == f);
        }
    }
    assert(forward_set(t) =~= forward_set(s).insert((f.address@, f.port)));
    assert forall|i: int, j: int|
        0 <= i < t.len() && 0 <= j < t.len() && i != j implies !(t[i].address@ == t[j].address@ && t[i].port == t[j].port) by {
        if i < s.len() && j == s.len() {
            assert(forward_set(s).contains((t[i].address@, t[i].port)));
        }
        if j < s.len() && i == s.len() {
            assert(forward_set(s).contains((t[j].address@, t[j].port)));
        }
    }
}

proof fn lemma_forward_remove(s: Seq<Forward>, i: int)
    requires
        forwards_distinct(s),
        0 <= i < s.len(),
    ensures
        forwards_distinct(s.remove(i)),
        forward_set(s.remove(i)) == forward_set(s).remove((s[i].address@, s[i].port)),
{
    let t = s.remove(i);
    let q = (s[i].address@, s[i].port);
    assert forall|p: (Seq<char>, u32)| #[trigger] forward_set(t).contains(p) <==> forward_set(s).remove(q).contains(p) by {
        if forward_set(t).contains(p) {
            let j = choose|j: int| 0 <= j < t.len() && t[j].address@ == p.0 && t[j].port == p.1;
            let j2 = if j < i { j } else { j + 1 };
            assert(t[j] == s[j2]);
            assert(forward_set(s).contains(p));
        }
        if forward_set(s).contains(p) && p != q {
            let j = choose|j: int| 0 <= j < s.len() && s[j].address@ == p.0 && s[j].port == p.1;
            if j < i {
                assert(t[j] == s[j]);
            } else {
                assert(t[j - 1] == s[j]);
            }
        }
    }
    assert(forward_set(t) =~= forward_set(s).remove(q));
    assert forall|a: int, b: int|
        0 <= a < t.len() && 0 <= b < t.len() && a != b implies !(t[a].address@ == t[b].address@ && t[a].port == t[b].port) by {
        let a2 = if a < i { a } else { a + 1 };
        let b2 = if b < i { b } else { b + 1 };
        assert(t[a] == s[a2]);
        assert(t[b] == s[b2]);
    }
}

impl Connection {
    /// The authentication methods that are enabled.
    pub closed spec fn auth_config(&self) -> AuthConfig {
        self.auth
    }

    /// Whether reverse port-forwarding is allowed.
    pub closed spec fn spec_forwarding_enabled(&self) -> bool {
        self.forwarding_enabled
    }

    /// Whether the file-transfer subsystem is offered.
    pub closed spec fn spec_sftp_enabled(&self) -> bool {
        self.sftp_enabled
    }

    /// The identity accepted by authentication, if any.
    pub closed spec fn identity(&self) -> Option<Seq<char>> {
        match self.identity {
            Some(u) => Some(u@),
            None => None,
        }
    }

    /// The registered channels, by id.
    pub closed spec fn channels(&self) -> Map<u32, ChannelSession> {
        self.channels@
    }

    /// The processes that closing has handed out for termination.
    pub closed spec fn released(&self) -> Set<u32> {
        self.released@
    }

    /// The ids that channels of this connection have had; none is reused.
    pub closed spec fn ids_used(&self) -> Set<u32> {
        self.used_ids@.to_set()
    }

    /// The active reverse forwards, as (address, port) pairs.
    pub closed spec fn forwards(&self) -> Set<(Seq<char>, u32)> {
        forward_set(self.forwards@)
    }

    /// Whether an identity has been accepted.
    pub open spec fn authenticated(&self) -> bool {
        self.identity() is Some
    }

    /// The registry's invariant: forwards are distinct, the open ids list
    /// the registered channels once each, no id is reused, channels exist
    /// only on an authenticated connection, and a closing channel's process
    /// has been released.
    pub closed spec fn wf(&self) -> bool {
        &&& forwards_distinct(self.forwards@)
        &&& self.open_ids@.no_duplicates()
        &&& forall|id: u32| #[trigger] self.channels@.contains_key(id) <==> self.open_ids@.contains(id)
        &&& forall|id: u32| #[trigger] self.channels@.contains_key(id) ==> self.used_ids@.contains(id)
        &&& forall|id: u32| #[trigger] self.channels@.contains_key(id) ==> self.identity is Some
        &&& forall|id: u32| #[trigger] self.channels@.contains_key(id) && self.channels@[id].phase == Phase::Closing
            && self.channels@[id].spec_pid() is Some ==> self.released@.contains(self.channels@[id].spec_pid()->0)
        &&& forall|id: u32| #[trigger] self.channels@.contains_key(id) ==> self.channels@[id].wf()
    }

    /// The error, if any, that a request on channel `id` meets before its
    /// phase is looked at.
    pub open spec fn gate_error(&self, id: u32) -> Option<ChannelError> {
        if !self.authenticated() {
            Some(ChannelError::Unauthenticated)
        } else if !self.channels().contains_key(id) {
            Some(ChannelError::ChannelNotFound)
        } else {
            None
        }
    }

    /// A connection on which nobody has authenticated yet.
    pub fn new(auth: AuthConfig, forwarding_enabled: bool, sftp_enabled: bool) -> (r: Connection)
        ensures
            r.wf(),
            r.identity() is None,
            r.channels() == Map::<u32, ChannelSession>::empty(),
            r.forwards() == Set::<(Seq<char>, u32)>::empty(),
            r.ids_used() == Set::<u32>::empty(),
            r.auth_config() == auth,
            r.spec_forwarding_enabled() == forwarding_enabled,
            r.spec_sftp_enabled() == sftp_enabled,
    {
        let r = Connection {
            auth,
            forwarding_enabled,
            sftp_enabled,
            identity: None,
            channels: HashMap::new(),
            open_ids: Vec::new(),
            used_ids: Vec::new(),
            released: Ghost(Set::empty()),
            forwards: Vec::new(),
        };
        assert(r.used_ids@.to_set() =~= Set::<u32>::empty());
        assert(forward_set(r.forwards@) =~= Set::<(Seq<char>, u32)>::empty());
        r
    }

    /// Whether an authentication has been accepted.
    pub fn is_authenticated(&self) -> (r: bool)
        ensures
            r == self.authenticated(),
    {
        self.identity.is_some()
    }

    /// Takes the verdict of the credential check for an attempt by `user`
    /// with `method`. The first accepted identity is kept for the rest of
    /// the connection.
    pub fn authenticate(&mut self, method: AuthMethod, user: &String, verdict: Option<bool>) -> (r: AuthReply)
        requires
            old(self).wf(),
        ensures
            final(self).wf(),
            r == auth_reply(old(self).auth_config(), method, verdict),
            final(self).identity() == if r == AuthReply::Accept && old(self).identity() is None {
                Some(user@)
            } else {
                old(self).identity()
            },
            final(self).channels() == old(self).channels(),
            final(self).ids_used() == old(self).ids_used(),
            final(self).forwards() == old(self).forwards(),
            final(self).auth_config() == old(self).auth_config(),
            final(self).spec_forwarding_enabled() == old(self).spec_forwarding_enabled(),
            final(self).spec_sftp_enabled() == old(self).spec_sftp_enabled(),
            final(self).released() == old(self).released(),
    {
        let enabled = match method {
            AuthMethod::NoCredential => false,
            AuthMethod::Password => self.auth.password_auth,
            AuthMethod::PublicKey => self.auth.pubkey_auth,
        };
        if !enabled {
            return AuthReply::Reject { offer_password: false };
        }
        match verdict {
            Some(true) => {
                if self.identity.is_none() {
                    self.identity = Some(user.clone());
                }
                AuthReply::Accept
            },
            Some(false) => {
                let offer = match method {
                    AuthMethod::PublicKey => true,
                    _ => false,
                };
                AuthReply::Reject { offer_password: offer }
            },
            None => AuthReply::Reject { offer_password: false },
        }
    }

    /// Registers a new channel with id `id`.
    pub fn open_channel(&mut self, id: u32, kind: ChannelKind) -> (r: Result<(), ChannelError>)
        requires
            old(self).wf(),
        ensures
            final(self).wf(),
            !old(self).authenticated() ==> r == Err::<(), ChannelError>(ChannelError::Unauthenticated),
            old(self).authenticated() && old(self).ids_used().contains(id) ==> r == Err::<(), ChannelError>(
                ChannelError::DuplicateChannel,
            ),
            r is Ok <==> old(self).authenticated() && !old(self).ids_used().contains(id),
            final(self).ids_used() == if r is Ok {
                old(self).ids_used().insert(id)
            } else {
                old(self).ids_used()
            },
            r is Ok ==> final(self).channels().contains_key(id) && final(self).channels()[id].is_fresh(kind)
                && final(self).channels() == old(self).channels().insert(id, final(self).channels()[id]),
            r is Err ==> final(self).channels() == old(self).channels(),
            final(self).identity() == old(self).identity(),
            final(self).forwards() == old(self).forwards(),
            final(self).auth_config() == old(self).auth_config(),
            final(self).spec_forwarding_enabled() == old(self).spec_forwarding_enabled(),
            final(self).spec_sftp_enabled() == old(self).spec_sftp_enabled(),
            final(self).released() == old(self).released(),
    {
        if self.identity.is_none() {
            return Err(ChannelError::Unauthenticated);
        }
        if contains_id(&self.used_ids, id) {
            return Err(ChannelError::DuplicateChannel);
        }
        let ch = ChannelSession::new(kind);
        proof {
            assert(self.channels@.contains_key(id) ==> self.used_ids@.contains(id));
            assert(!self.channels@.contains_key(id));
            assert(self.channels@.contains_key(id) <==> self.open_ids@.contains(id));
            lemma_push_fresh(self.open_ids@, id);
            assert(self.used_ids@.push(id).to_set() =~= self.used_ids@.to_set().insert(id)) by {
                assert forall|k: u32| #[trigger] self.used_ids@.push(id).contains(k) <==> (self.used_ids@.contains(k) || k == id) by {
                    if self.used_ids@.contains(k) {
                        let i = choose|i: int| 0 <= i < self.used_ids@.len() && self.used_ids@[i] == k;
                        assert(self.used_ids@.push(id)[i] == k);
                    }
                    if k == id {
                        assert(self.used_ids@.push(id)[self.used_ids@.len() as int] == k);
                    }
                    if self.used_ids@.push(id).contains(k) {
                        let i = choose|i: int| 0 <= i < self.used_ids@.push(id).len() && self.used_ids@.push(id)[i] == k;
                        if i < self.used_ids@.len() {
                            assert(self.used_ids@[i] == k);
                        }
                    }
                }
            }
        }
        self.channels.insert(id, ch);
        self.open_ids.push(id);
        let ghost used_before = self.used_ids@;
        self.used_ids.push(id);
        proof {
            assert forall|k: u32| #[trigger] self.channels@.contains_key(k) implies self.used_ids@.contains(k) by {
                if k == id {
                    assert(self.used_ids@[used_before.len() as int] == k);
                } else {
                    let i = choose|i: int| 0 <= i < used_before.len() && used_before[i] == k;
                    assert(self.used_ids@[i] == k);
                }
            }
        }
        Ok(())
    }

    /// Whether `other` keeps the settings, identity and forwards of `self`.
    pub open spec fn same_settings(&self, other: &Connection) -> bool {
        &&& other.identity() == self.identity()
        &&& other.forwards() == self.forwards()
        &&& other.ids_used() == self.ids_used()
        &&& other.auth_config() == self.auth_config()
        &&& other.spec_forwarding_enabled() == self.spec_forwarding_enabled()
        &&& other.spec_sftp_enabled() == self.spec_sftp_enabled()
    }

    /// The error that a configuring request on channel `id` (terminal,
    /// environment, command, shell, subsystem) meets, if any.
    pub open spec fn setup_error(&self, id: u32) -> Option<ChannelError> {
        match self.gate_error(id) {
            Some(e) => Some(e),
            None => if self.channels()[id].kind != ChannelKind::Session
                || !self.channels()[id].accepts_setup() {
                Some(ChannelError::InvalidStateForRequest)
            } else {
                None
            },
        }
    }

    /// Takes channel `id` out of the map for an update.
    fn take(&mut self, id: u32) -> (r: ChannelSession)
        requires
            old(self).wf(),
            old(self).channels().contains_key(id),
        ensures
            r == old(self).channels()[id],
            r.wf(),
            final(self).channels() == old(self).channels().remove(id),
            final(self).open_ids == old(self).open_ids,
            final(self).used_ids == old(self).used_ids,
            final(self).released == old(self).released,
            final(self).forwards == old(self).forwards,
            final(self).identity == old(self).identity,
            final(self).auth == old(self).auth,
            final(self).forwarding_enabled == old(self).forwarding_enabled,
            final(self).sftp_enabled == old(self).sftp_enabled,
    {
        self.channels.remove(&id).unwrap()
    }

    /// Puts channel `id` back after an update.
    fn put(&mut self, id: u32, ch: ChannelSession)
        requires
            ch.wf(),
            forwards_distinct(old(self).forwards@),
            old(self).open_ids@.no_duplicates(),
            old(self).open_ids@.contains(id),
            forall|k: u32| k != id ==> (#[trigger] old(self).channels@.contains_key(k) <==> old(self).open_ids@.contains(k)),
            forall|k: u32| #[trigger] old(self).channels@.contains_key(k) ==> old(self).channels@[k].wf(),
            old(self).used_ids@.contains(id),
            forall|k: u32| #[trigger] old(self).channels@.contains_key(k) ==> old(self).used_ids@.contains(k),
            old(self).identity is Some,
            ch.phase == Phase::Closing && ch.spec_pid() is Some ==> old(self).released@.contains(ch.spec_pid()->0),
            forall|k: u32| #[trigger] old(self).channels@.contains_key(k) && old(self).channels@[k].phase == Phase::Closing
                && old(self).channels@[k].spec_pid() is Some ==> old(self).released@.contains(old(self).channels@[k].spec_pid()->0),
        ensures
            final(self).wf(),
            final(self).channels() == old(self).channels().insert(id, ch),
            old(self).same_settings(final(self)),
            final(self).open_ids == old(self).open_ids,
            final(self).used_ids == old(self).used_ids,
            final(self).released == old(self).released,
    {
        self.channels.insert(id, ch);
    }

    /// Records a terminal request on channel `id`; the terminal type and
    /// size are also exported as `TERM`, `COLUMNS` and `LINES`.
    pub fn request_pty(&mut self, id: u32, terminal: Terminal) -> (r: Result<(), ChannelError>)
        requires
            old(self).wf(),
        ensures
            final(self).wf(),
            old(self).same_settings(final(self)),
            final(self).released() == old(self).released(),
            match old(self).setup_error(id) {
                Some(e) => r == Err::<(), ChannelError>(e) && final(self).channels() == old(self).channels(),
                None => r is Ok && {
                    let c = old(self).channels()[id];
                    let n = final(self).channels()[id];
                    &&& final(self).channels() == old(self).channels().insert(id, n)
                    &&& n.kind == c.kind
                    &&& n.phase == Phase::Negotiating
                    &&& n.binding == c.binding
                    &&& n.terminal is Some && n.terminal->0.same(&terminal)
                    &&& env_view(n.env@) == env_view(c.env@) + terminal_env(terminal)
                },
            },
    {
        if self.identity.is_none() {
            return Err(ChannelError::Unauthenticated);
        }
        if !self.channels.contains_key(&id) {
            return Err(ChannelError::ChannelNotFound);
        }
        let mut ch = self.take(id);
        if !ch.can_configure() || ch.kind != ChannelKind::Session {
            self.put(id, ch);
            assert(self.channels@ =~= old(self).channels@);
            return Err(ChannelError::InvalidStateForRequest);
        }
        let ghost old_env = ch.env@;
        ch.env.push(EnvVar { name: "TERM".to_owned(), value: terminal.term.clone() });
        ch.env.push(EnvVar { name: "COLUMNS".to_owned(), value: decimal(terminal.cols) });
        ch.env.push(EnvVar { name: "LINES".to_owned(), value: decimal(terminal.rows) });
        assert(env_view(ch.env@) =~= env_view(old_env) + terminal_env(terminal));
        ch.terminal = Some(terminal);
        ch.phase = Phase::Negotiating;
        self.put(id, ch);
        Ok(())
    }

    /// Records an environment assignment requested for channel `id`.
    pub fn request_env(&mut self, id: u32, var: EnvVar) -> (r: Result<(), ChannelError>)
        requires
            old(self).wf(),
        ensures
            final(self).wf(),
            old(self).same_settings(final(self)),
            final(self).released() == old(self).released(),
            match old(self).setup_error(id) {
                Some(e) => r == Err::<(), ChannelError>(e) && final(self).channels() == old(self).channels(),
                None => r is Ok && {
                    let c = old(self).channels()[id];
                    let n = final(self).channels()[id];
                    &&& final(self).channels() == old(self).channels().insert(id, n)
                    &&& n.kind == c.kind
                    &&& n.phase == Phase::Negotiating
                    &&& n.binding == c.binding
                    &&& n.terminal == c.terminal
                    &&& env_view(n.env@) == env_view(c.env@).push((var.name@, var.value@))
                },
            },
    {
        if self.identity.is_none() {
            return Err(ChannelError::Unauthenticated);
        }
        if !self.channels.contains_key(&id) {
            return Err(ChannelError::ChannelNotFound);
        }
        let mut ch = self.take(id);
        if !ch.can_configure() || ch.kind != ChannelKind::Session {
            self.put(id, ch);
            assert(self.channels@ =~= old(self).channels@);
            return Err(ChannelError::InvalidStateForRequest);
        }
        let ghost old_env = ch.env@;
        let ghost entry = (var.name@, var.value@);
        ch.env.push(var);
        assert(env_view(ch.env@) =~= env_view(old_env).push(entry));
        ch.phase = Phase::Negotiating;
        self.put(id, ch);
        Ok(())
    }

    /// Takes a window-size change for channel `id`. It needs a negotiated
    /// terminal and a channel that is not closing; the new geometry is
    /// recorded and exported again as `COLUMNS` and `LINES`, and the
    /// process to notify is returned when one is bound.
    pub fn window_change(&mut self, id: u32, cols: u32, rows: u32, pix_width: u32, pix_height: u32) -> (r:
        Result<Option<u32>, ChannelError>)
        requires
            old(self).wf(),
        ensures
            final(self).wf(),
            old(self).same_settings(final(self)),
            final(self).released() == old(self).released(),
            match old(self).gate_error(id) {
                Some(e) => r == Err::<Option<u32>, ChannelError>(e) && final(self).channels() == old(self).channels(),
                None => {
                    let c = old(self).channels()[id];
                    if c.terminal is None || c.phase == Phase::Closing {
                        r == Err::<Option<u32>, ChannelError>(ChannelError::InvalidStateForRequest)
                            && final(self).channels() == old(self).channels()
                    } else {
                        let n = final(self).channels()[id];
                        &&& r == Ok::<Option<u32>, ChannelError>(c.spec_pid())
                        &&& final(self).channels() == old(self).channels().insert(id, n)
                        &&& n.kind == c.kind && n.phase == c.phase && n.binding == c.binding
                        &&& env_view(n.env@) == env_view(c.env@) + size_env(cols, rows)
                        &&& n.terminal is Some
                        &&& n.terminal->0.term@ == c.terminal->0.term@
                        &&& n.terminal->0.modes@ == c.terminal->0.modes@
                        &&& n.terminal->0.cols == cols && n.terminal->0.rows == rows
                        &&& n.terminal->0.pix_width == pix_width && n.terminal->0.pix_height == pix_height
                    }
                },
            },
    {
        if self.identity.is_none() {
            return Err(ChannelError::Unauthenticated);
        }
        if !self.channels.contains_key(&id) {
            return Err(ChannelError::ChannelNotFound);
        }
        let mut ch = self.take(id);
        let closing = match ch.phase {
            Phase::Closing => true,
            _ => false,
        };
        if ch.terminal.is_none() || closing {
            self.put(id, ch);
            assert(self.channels@ =~= old(self).channels@);
            return Err(ChannelError::InvalidStateForRequest);
        }
        let (term, modes) = match ch.terminal.take() {
            Some(t) => (t.term, t.modes),
            None => (String::new(), Vec::new()),
        };
        ch.terminal = Some(Terminal { term, cols, rows, pix_width, pix_height, modes });
        let ghost old_env = ch.env@;
        ch.env.push(EnvVar { name: "COLUMNS".to_owned(), value: decimal(cols) });
        ch.env.push(EnvVar { name: "LINES".to_owned(), value: decimal(rows) });
        assert(env_view(ch.env@) =~= env_view(old_env) + size_env(cols, rows));
        let pid = ch.pid();
        self.put(id, ch);
        Ok(pid)
    }

    /// Where data arriving on channel `id` goes: the bound resource.
    pub fn route_data(&self, id: u32) -> (r: Result<Binding, ChannelError>)
        requires
            self.wf(),
        ensures
            match self.gate_error(id) {
                Some(e) => r == Err::<Binding, ChannelError>(e),
                None => {
                    let c = self.channels()[id];
                    r == match c.phase {
                        Phase::Bound => Ok::<Binding, ChannelError>(c.binding->0),
                        Phase::Closing => Err(ChannelError::IoError),
                        _ => Err(ChannelError::NoBoundResource),
                    }
                },
            },
    {
        let ch = self.channel(id)?;
        match ch.phase {
            Phase::Bound => match ch.binding {
                Some(b) => Ok(b),
                None => Err(ChannelError::NoBoundResource),
            },
            Phase::Closing => Err(ChannelError::IoError),
            _ => Err(ChannelError::NoBoundResource),
        }
    }

    /// Binds channel `id` to `binding`, once: a started process for a
    /// session channel, a connected socket for a tcpip channel.
    pub fn bind(&mut self, id: u32, binding: Binding) -> (r: Result<(), ChannelError>)
        requires
            old(self).wf(),
        ensures
            final(self).wf(),
            old(self).same_settings(final(self)),
            final(self).released() == old(self).released(),
            match old(self).gate_error(id) {
                Some(e) => r == Err::<(), ChannelError>(e) && final(self).channels() == old(self).channels(),
                None => {
                    let c = old(self).channels()[id];
                    if !c.accepts_setup() || !binding_fits(c.kind, binding) {
                        r == Err::<(), ChannelError>(ChannelError::InvalidStateForRequest)
                            && final(self).channels() == old(self).channels()
                    } else {
                        r is Ok && final(self).channels() == old(self).channels().insert(
                            id,
                            ChannelSession { phase: Phase::Bound, binding: Some(binding), ..c },
                        )
                    }
                },
            },
    {
        if self.identity.is_none() {
            return Err(ChannelError::Unauthenticated);
        }
        if !self.channels.contains_key(&id) {
            return Err(ChannelError::ChannelNotFound);
        }
        let mut ch = self.take(id);
        let fits = match binding {
            Binding::Socket => ch.kind != ChannelKind::Session,
            _ => ch.kind == ChannelKind::Session,
        };
        if !ch.can_configure() || !fits {
            self.put(id, ch);
            assert(self.channels@ =~= old(self).channels@);
            return Err(ChannelError::InvalidStateForRequest);
        }
        ch.phase = Phase::Bound;
        ch.binding = Some(binding);
        self.put(id, ch);
        Ok(())
    }

    /// What to start for an exec request on channel `id`: `command` run by
    /// `sh -c`, with the channel's environment and the defaults for the
    /// authenticated user. The channel is bound once the process has started.
    pub fn plan_exec(&self, id: u32, command: &String, shell: &String) -> (r: Result<SpawnPlan, ChannelError>)
        requires
            self.wf(),
        ensures
            match self.setup_error(id) {
                Some(e) => r == Err::<SpawnPlan, ChannelError>(e),
                None => r is Ok && {
                    let p = r->Ok_0;
                    &&& p.program@ == "sh"@
                    &&& args_view(p.args@) == seq!["-c"@, command@]
                    &&& env_view(p.env@) == env_view(self.channels()[id].env@) + default_env(
                        self.identity()->0,
                        shell@,
                    )
                    &&& p.terminal is None
                },
            },
    {
        let ch = self.channel(id)?;
        if !ch.can_configure() || ch.kind != ChannelKind::Session {
            return Err(ChannelError::InvalidStateForRequest);
        }
        let user = match &self.identity {
            Some(u) => u,
            None => {
                return Err(ChannelError::Unauthenticated);
            },
        };
        let env = spawn_env(&ch.env, user, shell);
        let mut args: Vec<String> = Vec::new();
        args.push("-c".to_owned());
        args.push(command.clone());
        assert(args_view(args@) =~= seq!["-c"@, command@]);
        Ok(SpawnPlan { program: "sh".to_owned(), args, env, terminal: None })
    }

    /// What to start for a shell request on channel `id`: `shell`, with the
    /// channel's environment, the defaults for the authenticated user, and
    /// the negotiated terminal, if any.
    pub fn plan_shell(&self, id: u32, shell: &String) -> (r: Result<SpawnPlan, ChannelError>)
        requires
            self.wf(),
        ensures
            match self.setup_error(id) {
                Some(e) => r == Err::<SpawnPlan, ChannelError>(e),
                None => r is Ok && {
                    let p = r->Ok_0;
                    let c = self.channels()[id];
                    &&& p.program@ == shell@
                    &&& p.args@.len() == 0
                    &&& env_view(p.env@) == env_view(c.env@) + default_env(self.identity()->0, shell@)
                    &&& (p.terminal is Some <==> c.terminal is Some)
                    &&& p.terminal is Some ==> p.terminal->0.same(&c.terminal->0)
                },
            },
    {
        let ch = self.channel(id)?;
        if !ch.can_configure() || ch.kind != ChannelKind::Session {
            return Err(ChannelError::InvalidStateForRequest);
        }
        let user = match &self.identity {
            Some(u) => u,
            None => {
                return Err(ChannelError::Unauthenticated);
            },
        };
        let env = spawn_env(&ch.env, user, shell);
        let terminal = match &ch.terminal {
            Some(t) => Some(t.duplicate()),
            None => None,
        };
        Ok(SpawnPlan { program: shell.clone(), args: Vec::new(), env, terminal })
    }

    /// Hands channel `id` to the subsystem `name`. Only `sftp` is offered,
    /// and only where it is enabled; any other name fails the request and
    /// leaves the channel unbound.
    pub fn request_subsystem(&mut self, id: u32, name: &String) -> (r: Result<(), ChannelError>)
        requires
            old(self).wf(),
        ensures
            final(self).wf(),
            old(self).same_settings(final(self)),
            final(self).released() == old(self).released(),
            match old(self).setup_error(id) {
                Some(e) => r == Err::<(), ChannelError>(e) && final(self).channels() == old(self).channels(),
                None => if name@ == "sftp"@ && old(self).spec_sftp_enabled() {
                    r is Ok && final(self).channels() == old(self).channels().insert(
                        id,
                        ChannelSession {
                            phase: Phase::Bound,
                            binding: Some(Binding::Subsystem),
                            ..old(self).channels()[id]
                        },
                    )
                } else {
                    r == Err::<(), ChannelError>(ChannelError::UnknownSubsystem)
                        && final(self).channels() == old(self).channels()
                },
            },
    {
        let ch = self.channel(id)?;
        if !ch.can_configure() || ch.kind != ChannelKind::Session {
            return Err(ChannelError::InvalidStateForRequest);
        }
        let sftp = "sftp".to_owned();
        if !(*name == sftp) || !self.sftp_enabled {
            return Err(ChannelError::UnknownSubsystem);
        }
        self.bind(id, Binding::Subsystem)
    }

    /// Starts closing channel `id`: on end of stream from either side, on
    /// the resource's exit, or on an explicit close. Returns the process to
    /// terminate, if one is bound; asking again is harmless.
    pub fn begin_close(&mut self, id: u32) -> (r: Result<Option<u32>, ChannelError>)
        requires
            old(self).wf(),
        ensures
            final(self).wf(),
            old(self).same_settings(final(self)),
            match old(self).gate_error(id) {
                Some(e) => r == Err::<Option<u32>, ChannelError>(e) && final(self).channels() == old(self).channels(),
                None => r == Ok::<Option<u32>, ChannelError>(old(self).channels()[id].spec_pid())
                    && final(self).channels() == old(self).channels().insert(
                    id,
                    ChannelSession { phase: Phase::Closing, ..old(self).channels()[id] },
                ),
            },
            final(self).released() == match r {
                Ok(Some(p)) => old(self).released().insert(p),
                _ => old(self).released(),
            },
    {
        if self.identity.is_none() {
            return Err(ChannelError::Unauthenticated);
        }
        if !self.channels.contains_key(&id) {
            return Err(ChannelError::ChannelNotFound);
        }
        let mut ch = self.take(id);
        ch.phase = Phase::Closing;
        let pid = ch.pid();
        proof {
            if let Some(p) = pid {
                self.released = Ghost(self.released@.insert(p));
            }
        }
        self.put(id, ch);
        Ok(pid)
    }

    /// Completes the close of channel `id` once its I/O has ended: the
    /// channel leaves the registry and is handed back for disposal. Only a
    /// closing channel can be finished.
    pub fn finish_close(&mut self, id: u32) -> (r: Result<ChannelSession, ChannelError>)
        requires
            old(self).wf(),
        ensures
            final(self).wf(),
            old(self).same_settings(final(self)),
            match old(self).gate_error(id) {
                Some(e) => r == Err::<ChannelSession, ChannelError>(e) && final(self).channels() == old(self).channels(),
                None => if old(self).channels()[id].phase == Phase::Closing {
                    r == Ok::<ChannelSession, ChannelError>(old(self).channels()[id])
                        && final(self).channels() == old(self).channels().remove(id)
                } else {
                    r == Err::<ChannelSession, ChannelError>(ChannelError::InvalidStateForRequest)
                        && final(self).channels() == old(self).channels()
                },
            },
            final(self).released() == old(self).released(),
            r is Ok && r->Ok_0.spec_pid() is Some ==> final(self).released().contains(r->Ok_0.spec_pid()->0),
    {
        if self.identity.is_none() {
            return Err(ChannelError::Unauthenticated);
        }
        if !self.channels.contains_key(&id) {
            return Err(ChannelError::ChannelNotFound);
        }
        let ch = self.take(id);
        match ch.phase {
            Phase::Closing => {},
            _ => {
                self.put(id, ch);
                assert(self.channels@ =~= old(self).channels@);
                return Err(ChannelError::InvalidStateForRequest);
            },
        }
        let mut i: usize = 0;
        while i < self.open_ids.len()
            invariant
                i <= self.open_ids@.len(),
                self.open_ids == old(self).open_ids,
                forall|j: int| 0 <= j < i ==> self.open_ids@[j] != id,
            ensures
                i <= self.open_ids@.len(),
                self.open_ids == old(self).open_ids,
                forall|j: int| 0 <= j < i ==> self.open_ids@[j] != id,
                i < self.open_ids@.len() ==> self.open_ids@[i as int] == id,
            decreases self.open_ids@.len() - i,
        {
            if self.open_ids[i] == id {
                break;
            }
            i = i + 1;
        }
        proof {
            assert(old(self).channels@.contains_key(id));
            assert(self.open_ids@.contains(id));
            if i >= self.open_ids.len() {
                let j = choose|j: int| 0 <= j < self.open_ids@.len() && self.open_ids@[j] == id;
                assert(self.open_ids@[j] != id);
            }
            lemma_remove_at(self.open_ids@, i as int);
        }
        self.open_ids.remove(i);
        Ok(ch)
    }

    /// Tears the connection down: every channel is forced out of the
    /// registry and every reverse forward is dropped. Returns the processes
    /// still bound to channels, each to be terminated and waited for.
    pub fn close_connection(&mut self) -> (r: Vec<u32>)
        requires
            old(self).wf(),
        ensures
            final(self).wf(),
            r@.to_set() == bound_pids(old(self).channels()),
            final(self).channels() == Map::<u32, ChannelSession>::empty(),
            final(self).forwards() == Set::<(Seq<char>, u32)>::empty(),
            final(self).identity() == old(self).identity(),
            final(self).ids_used() == old(self).ids_used(),
            final(self).released() == old(self).released().union(bound_pids(old(self).channels())),
    {
        let mut pids: Vec<u32> = Vec::new();
        let mut i: usize = 0;
        while i < self.open_ids.len()
            invariant
                i <= self.open_ids@.len(),
                self.wf(),
                self.channels@ == old(self).channels@,
                self.open_ids == old(self).open_ids,
                forall|p: u32| #[trigger] pids@.contains(p) <==> exists|j: int| 0 <= j < i
                    && #[trigger] self.channels@[self.open_ids@[j]].spec_pid() == Some(p),
            decreases self.open_ids@.len() - i,
        {
            let id = self.open_ids[i];
            assert(self.open_ids@.contains(id));
            let ch = self.channels.get(&id).unwrap();
            let ghost before = pids@;
            match ch.pid() {
                Some(p) => {
                    pids.push(p);
                },
                None => {},
            }
            assert forall|p: u32| #[trigger] pids@.contains(p) <==> exists|j: int| 0 <= j < i + 1
                && #[trigger] self.channels@[self.open_ids@[j]].spec_pid() == Some(p) by {
                if pids@.contains(p) && !before.contains(p) {
                    let k = choose|k: int| 0 <= k < pids@.len() && pids@[k] == p;
                    if k < before.len() {
                        assert(before[k] == p);
                    }
                    assert(self.channels@[self.open_ids@[i as int]].spec_pid() == Some(p));
                }
                if before.contains(p) {
                    let k = choose|k: int| 0 <= k < before.len() && before[k] == p;
                    assert(pids@[k] == p);
                }
                if exists|j: int| 0 <= j < i + 1 && #[trigger] self.channels@[self.open_ids@[j]].spec_pid() == Some(p) {
                    let j = choose|j: int| 0 <= j < i + 1 && #[trigger] self.channels@[self.open_ids@[j]].spec_pid() == Some(p);
                    if j == i {
                        assert(pids@[pids@.len() - 1] == p);
                    }
                }
            }
            i = i + 1;
        }
        proof {
            let m = old(self).channels();
            assert forall|p: u32| #[trigger] pids@.to_set().contains(p) <==> bound_pids(m).contains(p) by {
                if pids@.contains(p) {
                    let j = choose|j: int| 0 <= j < i && #[trigger] self.channels@[self.open_ids@[j]].spec_pid() == Some(p);
                    assert(self.open_ids@.contains(self.open_ids@[j]));
                    assert(m.contains_key(self.open_ids@[j]));
                }
                if bound_pids(m).contains(p) {
                    let id = choose|id: u32| #[trigger] m.contains_key(id) && m[id].spec_pid() == Some(p);
                    assert(self.open_ids@.contains(id));
                    let j = choose|j: int| 0 <= j < self.open_ids@.len() && self.open_ids@[j] == id;
                    assert(self.channels@[self.open_ids@[j]].spec_pid() == Some(p));
                }
            }
            assert(pids@.to_set() =~= bound_pids(m));
        }
        self.released = Ghost(self.released@.union(bound_pids(old(self).channels())));
        self.channels.clear();
        self.open_ids.clear();
        self.forwards.clear();
        assert(forward_set(self.forwards@) =~= Set::<(Seq<char>, u32)>::empty());
        assert(self.channels@ =~= Map::<u32, ChannelSession>::empty());
        pids
    }

    /// The index of the forward on (`address`, `port`), if there is one.
    fn find_forward(&self, address: &String, port: u32) -> (r: Option<usize>)
        requires
            self.wf(),
        ensures
            match r {
                Some(i) => i < self.forwards@.len() && self.forwards@[i as int].address@ == address@
                    && self.forwards@[i as int].port == port,
                None => !self.forwards().contains((address@, port)),
            },
    {
        let mut i: usize = 0;
        while i < self.forwards.len()
            invariant
                i <= self.forwards@.len(),
                forall|j: int| 0 <= j < i ==> !(#[trigger] self.forwards@[j].address@ == address@ && self.forwards@[j].port == port),
            decreases self.forwards@.len() - i,
        {
            if self.forwards[i].port == port && self.forwards[i].address == *address {
                return Some(i);
            }
            i = i + 1;
        }
        None
    }

    /// Registers a reverse forward on (`address`, `port`). Returns
    /// `Ok(false)`, with nothing registered, where forwarding is disabled.
    pub fn register_forward(&mut self, address: &String, port: u32) -> (r: Result<bool, ChannelError>)
        requires
            old(self).wf(),
        ensures
            final(self).wf(),
            final(self).channels() == old(self).channels(),
            final(self).ids_used() == old(self).ids_used(),
            final(self).identity() == old(self).identity(),
            final(self).spec_forwarding_enabled() == old(self).spec_forwarding_enabled(),
            final(self).spec_sftp_enabled() == old(self).spec_sftp_enabled(),
            final(self).auth_config() == old(self).auth_config(),
            r == if !old(self).authenticated() {
                Err::<bool, ChannelError>(ChannelError::Unauthenticated)
            } else if !old(self).spec_forwarding_enabled() {
                Ok(false)
            } else if old(self).forwards().contains((address@, port)) {
                Err(ChannelError::AlreadyBound)
            } else {
                Ok(true)
            },
            final(self).forwards() == if r == Ok::<bool, ChannelError>(true) {
                old(self).forwards().insert((address@, port))
            } else {
                old(self).forwards()
            },
            final(self).released() == old(self).released(),
    {
        if self.identity.is_none() {
            return Err(ChannelError::Unauthenticated);
        }
        if !self.forwarding_enabled {
            return Ok(false);
        }
        match self.find_forward(address, port) {
            Some(_) => {
                assert(self.forwards().contains((address@, port)));
                Err(ChannelError::AlreadyBound)
            },
            None => {
                let f = Forward { address: address.clone(), port };
                proof {
                    lemma_forward_push(self.forwards@, f);
                }
                self.forwards.push(f);
                Ok(true)
            },
        }
    }

    /// Drops the reverse forward on (`address`, `port`).
    pub fn unregister_forward(&mut self, address: &String, port: u32) -> (r: Result<(), ChannelError>)
        requires
            old(self).wf(),
        ensures
            final(self).wf(),
            final(self).channels() == old(self).channels(),
            final(self).ids_used() == old(self).ids_used(),
            final(self).identity() == old(self).identity(),
            final(self).spec_forwarding_enabled() == old(self).spec_forwarding_enabled(),
            final(self).spec_sftp_enabled() == old(self).spec_sftp_enabled(),
            final(self).auth_config() == old(self).auth_config(),
            r == if !old(self).authenticated() {
                Err::<(), ChannelError>(ChannelError::Unauthenticated)
            } else if !old(self).forwards().contains((address@, port)) {
                Err(ChannelError::NotFound)
            } else {
                Ok(())
            },
            final(self).forwards() == if r is Ok {
                old(self).forwards().remove((address@, port))
            } else {
                old(self).forwards()
            },
            final(self).released() == old(self).released(),
    {
        if self.identity.is_none() {
            return Err(ChannelError::Unauthenticated);
        }
        match self.find_forward(address, port) {
            Some(i) => {
                proof {
                    lemma_forward_remove(self.forwards@, i as int);
                    assert(self.forwards().contains((address@, port)));
                }
                self.forwards.remove(i);
                Ok(())
            },
            None => Err(ChannelError::NotFound),
        }
    }

    /// No channel reaches its end with a live process unaccounted for: the
    /// process of every closing channel has been handed out for
    /// termination, and closing never takes a process back.
    pub proof fn lemma_closing_process_released(&self, id: u32)
        requires
            self.wf(),
            self.channels().contains_key(id),
            self.channels()[id].phase == Phase::Closing,
            self.channels()[id].spec_pid() is Some,
        ensures
            self.released().contains(self.channels()[id].spec_pid()->0),
    {
    }

    /// A registered channel lives on an authenticated connection, and its
    /// id counts as used, so opening it again is refused as a duplicate.
    pub proof fn lemma_registered_channel(&self, id: u32)
        requires
            self.wf(),
            self.channels().contains_key(id),
        ensures
            self.ids_used().contains(id),
            self.authenticated(),
    {
    }

    /// The channel registered under `id`.
    pub fn channel(&self, id: u32) -> (r: Result<&ChannelSession, ChannelError>)
        ensures
            match self.gate_error(id) {
                Some(e) => r == Err::<&ChannelSession, ChannelError>(e),
                None => r is Ok && *r->Ok_0 == self.channels()[id],
            },
    {
        if self.identity.is_none() {
            return Err(ChannelError::Unauthenticated);
        }
        match self.channels.get(&id) {
            Some(ch) => Ok(ch),
            None => Err(ChannelError::ChannelNotFound),
        }
    }
}

} // verus!
