use vstd::prelude::*;

verus! {

/// The kind a channel was opened with.
#[derive(Debug, Clone, Copy, PartialEq, Eq, Structural)]
pub enum ChannelKind {
    Session,
    DirectTcpip,
    ForwardedTcpip,
}

/// The lifecycle phase of a registered channel. A closed channel is no
/// longer registered, so `Closed` is never stored.
#[derive(Debug, Clone, Copy, PartialEq, Eq, Structural)]
pub enum Phase {
    Opened,
    Negotiating,
    Bound,
    Closing,
}

/// The resource a channel is bound to.
#[derive(Debug, Clone, Copy, PartialEq, Eq, Structural)]
pub enum Binding {
    /// A child process, with its OS process id.
    Process { pid: u32 },
    /// A TCP socket.
    Socket,
    /// A subsystem backend.
    Subsystem,
}

/// A negotiated terminal: its type name, its geometry and its modes (each
/// an opcode and its argument).
#[derive(Debug, Clone)]
pub struct Terminal {
    pub term: String,
    pub cols: u32,
    pub rows: u32,
    pub pix_width: u32,
    pub pix_height: u32,
    pub modes: Vec<(u8, u32)>,
}

/// One environment assignment requested for a channel.
#[derive(Debug, Clone)]
pub struct EnvVar {
    pub name: String,
    pub value: String,
}

/// The state of one channel of a connection.
#[derive(Debug, Clone)]
pub struct ChannelSession {
    pub kind: ChannelKind,
    pub phase: Phase,
    /// Requested environment, in request order; a later entry for a name
    /// overrides an earlier one.
    pub env: Vec<EnvVar>,
    pub terminal: Option<Terminal>,
    pub binding: Option<Binding>,
}

/// The (name, value) pairs of the assignments in `s`, in order.
pub open spec fn env_view(s: Seq<EnvVar>) -> Seq<(Seq<char>, Seq<char>)> {
    s.map_values(|e: EnvVar| (e.name@, e.value@))
}

impl EnvVar {
    /// A copy of this assignment.
    pub fn duplicate(&self) -> (r: EnvVar)
        ensures
            r.name@ == self.name@,
            r.value@ == self.value@,
    {
        EnvVar { name: self.name.clone(), value: self.value.clone() }
    }
}

impl Terminal {
    /// Whether `self` and `o` describe the same terminal.
    pub open spec fn same(&self, o: &Terminal) -> bool {
        &&& self.term@ == o.term@
        &&& self.cols == o.cols
        &&& self.rows == o.rows
        &&& self.pix_width == o.pix_width
        &&& self.pix_height == o.pix_height
        &&& self.modes@ == o.modes@
    }

    /// A copy of this terminal description.
    pub fn duplicate(&self) -> (r: Terminal)
        ensures
            r.same(self),
    {
        let mut modes: Vec<(u8, u32)> = Vec::new();
        let mut i: usize = 0;
        while i < self.modes.len()
            invariant
                i <= self.modes@.len(),
                modes@ == self.modes@.subrange(0, i as int),
            decreases self.modes@.len() - i,
        {
            modes.push(self.modes[i]);
            assert(self.modes@.subrange(0, i + 1) =~= self.modes@.subrange(0, i as int).push(self.modes@[i as int]));
            i = i + 1;
        }
        assert(modes@ =~= self.modes@);
        Terminal {
            term: self.term.clone(),
            cols: self.cols,
            rows: self.rows,
            pix_width: self.pix_width,
            pix_height: self.pix_height,
            modes,
        }
    }
}

/// What to start for a channel: a program, its arguments, its whole
/// environment (applied in order, a later entry overriding an earlier one)
/// and the terminal to allocate, if any.
#[derive(Debug, Clone)]
pub struct SpawnPlan {
    pub program: String,
    pub args: Vec<String>,
    pub env: Vec<EnvVar>,
    pub terminal: Option<Terminal>,
}

impl ChannelSession {
    /// Whether this is a channel of `kind` that has just been opened.
    pub open spec fn is_fresh(&self, kind: ChannelKind) -> bool {
        &&& self.kind == kind
        &&& self.phase == Phase::Opened
        &&& self.env@.len() == 0
        &&& self.terminal is None
        &&& self.binding is None
    }

    /// A bound channel has its resource; one that is not bound yet has none.
    pub open spec fn wf(&self) -> bool {
        &&& self.phase == Phase::Bound ==> self.binding is Some
        &&& (self.phase == Phase::Opened || self.phase == Phase::Negotiating) ==> self.binding is None
    }

    /// Requests that configure a channel are taken only before it is bound.
    pub open spec fn accepts_setup(&self) -> bool {
        self.phase == Phase::Opened || self.phase == Phase::Negotiating
    }

    /// A newly opened channel of `kind`.
    pub fn new(kind: ChannelKind) -> (r: ChannelSession)
        ensures
            r.is_fresh(kind),
            r.wf(),
    {
        ChannelSession { kind, phase: Phase::Opened, env: Vec::new(), terminal: None, binding: None }
    }

    /// Whether the channel still takes configuring requests.
    pub fn can_configure(&self) -> (r: bool)
        ensures
            r == self.accepts_setup(),
    {
        match self.phase {
            Phase::Opened | Phase::Negotiating => true,
            _ => false,
        }
    }

    /// The process id of the bound process, if the channel is bound to one.
    pub open spec fn spec_pid(&self) -> Option<u32> {
        match self.binding {
            Some(Binding::Process { pid }) => Some(pid),
            _ => None,
        }
    }

    /// The process id of the bound process, if any.
    pub fn pid(&self) -> (r: Option<u32>)
        ensures
            r == self.spec_pid(),
    {
        match self.binding {
            Some(Binding::Process { pid }) => Some(pid),
            _ => None,
        }
    }
}

} // verus!
