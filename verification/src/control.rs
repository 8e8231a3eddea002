//! The control boundary: what the start and stop entry points decide.
//!
//! The entry points themselves live with the caller, who owns the process,
//! the runtime and the sockets. Here are the decisions they make: which
//! status a run ends with, how the listening port is recorded and reported,
//! where a stop request knocks so that a blocked accept returns, how the
//! log filter reads, and what a command line asks for.

use vstd::prelude::*;
use vstd::string::StringExecFns;
use crate::lifecycle::Shutdown;
use crate::resolver::IpAddress;
use crate::session::Role;

verus! {

/// Status of a run that ended cleanly.
pub const STATUS_OK: i32 = 0;

/// Status of a run that could not start or broke down.
pub const STATUS_FAILED: i32 = -1;

/// Exit code of a process that could not start.
pub const EXIT_STARTUP_FAILED: i32 = 1;

/// The port on which a client listens when none is given.
pub const DEFAULT_LISTEN_PORT: u16 = 1080;

/// An address family.
#[derive(Debug, Clone, Copy, PartialEq, Eq, Structural)]
pub enum Family {
    V4,
    V6,
}

/// The address of a socket: an IP address and a port.
#[derive(Debug, Clone, Copy, PartialEq, Eq)]
pub struct Endpoint {
    pub ip: IpAddress,
    pub port: u16,
}

/// The address of a socket as the contracts see it.
pub struct EndpointView {
    pub family: Family,
    /// The bytes of the IP address: four or sixteen.
    pub octets: Seq<u8>,
    pub port: u16,
}

impl View for Endpoint {
    type V = EndpointView;

    open spec fn view(&self) -> EndpointView {
        match self.ip {
            IpAddress::V4(a) => EndpointView { family: Family::V4, octets: a@, port: self.port },
            IpAddress::V6(a) => EndpointView { family: Family::V6, octets: a@, port: self.port },
        }
    }
}

/// The bytes of the loopback address of `family`: 127.0.0.1 or ::1.
pub open spec fn loopback_octets(family: Family) -> Seq<u8> {
    match family {
        Family::V4 => seq![127u8, 0, 0, 1],
        Family::V6 => seq![0u8, 0, 0, 0, 0, 0, 0, 0, 0, 0, 0, 0, 0, 0, 0, 1],
    }
}

impl EndpointView {
    /// The address has the length of its family.
    pub open spec fn wf(self) -> bool {
        self.octets.len() == (match self.family {
            Family::V4 => 4int,
            Family::V6 => 16int,
        })
    }

    /// The address is the wildcard of its family: every byte is zero. A
    /// socket bound to it listens on every address of the machine.
    pub open spec fn is_wildcard(self) -> bool {
        forall|i: int| 0 <= i < self.octets.len() ==> self.octets[i] == 0
    }

    /// Where to connect so as to reach a listener that is bound to this
    /// address: the address itself, or for a wildcard the loopback of its
    /// family, on the same port.
    pub open spec fn knock(self) -> EndpointView {
        if self.is_wildcard() {
            EndpointView { octets: loopback_octets(self.family), ..self }
        } else {
            self
        }
    }
}

/// A knock reaches the listener. It goes to the listener's own family and
/// port; to the very address that the listener is bound to where that is
/// one address, loopback or not; and to the loopback where the listener is
/// bound to the wildcard. It never goes to a wildcard.
pub proof fn law_knock_reaches_listener(l: EndpointView)
    requires
        l.wf(),
    ensures
        l.knock().wf(),
        l.knock().family == l.family,
        l.knock().port == l.port,
        !l.is_wildcard() ==> l.knock() == l,
        l.is_wildcard() ==> l.knock().octets == loopback_octets(l.family),
        !l.knock().is_wildcard(),
{
    let k = l.knock();
    if l.is_wildcard() {
        match l.family {
            Family::V4 => {
                assert(k.octets[0] == 127);
            },
            Family::V6 => {
                assert(k.octets[15] == 1);
            },
        }
    }
}

impl Endpoint {
    /// The family of the address.
    pub fn family(&self) -> (f: Family)
        ensures
            f == self@.family,
    {
        match self.ip {
            IpAddress::V4(_) => Family::V4,
            IpAddress::V6(_) => Family::V6,
        }
    }

    /// Port `port` on the loopback address of `family`.
    pub fn loopback(family: Family, port: u16) -> (e: Endpoint)
        ensures
            e@ == (EndpointView { family, octets: loopback_octets(family), port }),
    {
        match family {
            Family::V4 => {
                let a: [u8; 4] = [127, 0, 0, 1];
                assert(a@ =~= loopback_octets(Family::V4));
                Endpoint { ip: IpAddress::V4(a), port }
            },
            Family::V6 => {
                let a: [u8; 16] = [0, 0, 0, 0, 0, 0, 0, 0, 0, 0, 0, 0, 0, 0, 0, 1];
                assert(a@ =~= loopback_octets(Family::V6));
                Endpoint { ip: IpAddress::V6(a), port }
            },
        }
    }

    /// Whether the address is the wildcard of its family.
    pub fn is_wildcard(&self) -> (b: bool)
        ensures
            b == self@.is_wildcard(),
    {
        match self.ip {
            IpAddress::V4(a) => {
                assert(self@.octets == a@);
                if a[0] != 0 {
                    assert(self@.octets[0] != 0);
                    return false;
                }
                if a[1] != 0 {
                    assert(self@.octets[1] != 0);
                    return false;
                }
                if a[2] != 0 {
                    assert(self@.octets[2] != 0);
                    return false;
                }
                if a[3] != 0 {
                    assert(self@.octets[3] != 0);
                    return false;
                }
                true
            },
            IpAddress::V6(a) => {
                let mut i: usize = 0;
                while i < 16
                    invariant
                        i <= 16,
                        a@ == self@.octets,
                        forall|j: int| 0 <= j < i ==> a@[j] == 0,
                    decreases 16 - i,
                {
                    if a[i] != 0 {
                        assert(self@.octets[i as int] != 0);
                        return false;
                    }
                    i = i + 1;
                }
                true
            },
        }
    }

    /// Where to connect so as to reach a listener that is bound to this
    /// address.
    pub fn knock(&self) -> (k: Endpoint)
        ensures
            k@ == self@.knock(),
    {
        if self.is_wildcard() {
            Endpoint::loopback(self.family(), self.port)
        } else {
            *self
        }
    }
}

/// How a run ended.
#[derive(Debug, Clone, Copy, PartialEq, Eq, Structural)]
pub enum RunOutcome {
    /// The engine returned by itself.
    Finished,
    /// The engine returned because shutdown was asked for.
    Stopped,
    /// The configuration was unusable or the listener could not be bound.
    StartupFailed,
    /// The engine broke down while it ran.
    Faulted,
}

/// How a run ended, from what is known when the engine returns: whether
/// it returned without an error, whether shutdown had been asked for, and
/// whether the listener had been bound. An error before the listener was
/// bound is a failure to start; one after it is a breakdown.
pub fn run_outcome(ended_ok: bool, cancelled: bool, listening: bool) -> (outcome: RunOutcome)
    ensures
        outcome == (if ended_ok {
            if cancelled {
                RunOutcome::Stopped
            } else {
                RunOutcome::Finished
            }
        } else if listening {
            RunOutcome::Faulted
        } else {
            RunOutcome::StartupFailed
        }),
{
    if ended_ok {
        if cancelled {
            RunOutcome::Stopped
        } else {
            RunOutcome::Finished
        }
    } else if listening {
        RunOutcome::Faulted
    } else {
        RunOutcome::StartupFailed
    }
}

/// The status that the embeddable `run` returns: zero for a clean end,
/// negative for a failure to start or a breakdown.
pub fn embed_status(outcome: RunOutcome) -> (status: i32)
    ensures
        status == (match outcome {
            RunOutcome::Finished => STATUS_OK,
            RunOutcome::Stopped => STATUS_OK,
            RunOutcome::StartupFailed => STATUS_FAILED,
            RunOutcome::Faulted => STATUS_FAILED,
        }),
{
    match outcome {
        RunOutcome::Finished => STATUS_OK,
        RunOutcome::Stopped => STATUS_OK,
        RunOutcome::StartupFailed => STATUS_FAILED,
        RunOutcome::Faulted => STATUS_FAILED,
    }
}

/// The exit code of the process: non-zero only when it could not start.
/// What goes wrong while relaying does not show in it.
pub fn process_status(outcome: RunOutcome) -> (code: i32)
    ensures
        code == (if outcome == RunOutcome::StartupFailed {
            EXIT_STARTUP_FAILED
        } else {
            0
        }),
{
    match outcome {
        RunOutcome::StartupFailed => EXIT_STARTUP_FAILED,
        _ => 0,
    }
}

/// The text of the loopback address of `family`.
pub fn loopback_host(family: Family) -> (host: &'static str)
    ensures
        host@ == (match family {
            Family::V4 => "127.0.0.1"@,
            Family::V6 => "::1"@,
        }),
{
    match family {
        Family::V4 => "127.0.0.1",
        Family::V6 => "::1",
    }
}

/// The log level that the verbosity flag asks for: `trace` when it is set,
/// `info` when it is zero.
pub fn log_level(verbose: i8) -> (level: &'static str)
    ensures
        level@ == (if verbose != 0 {
            "trace"@
        } else {
            "info"@
        }),
{
    if verbose != 0 {
        "trace"
    } else {
        "info"
    }
}

/// The log level that a count of verbosity flags on the command line asks
/// for: `info` for none, `debug` for one, `trace` for more.
pub fn verbosity_level(count: u8) -> (level: &'static str)
    ensures
        level@ == (if count == 0 {
            "info"@
        } else if count == 1 {
            "debug"@
        } else {
            "trace"@
        }),
{
    if count == 0 {
        "info"
    } else if count == 1 {
        "debug"
    } else {
        "trace"
    }
}

/// The log filter for a run: everything off but the module tree `root`,
/// which logs at `level`.
pub fn default_log_filter(root: &str, level: &str) -> (filter: String)
    ensures
        filter@ == "off,"@ + root@ + "="@ + level@,
{
    let mut filter = String::from_str("off,");
    filter.append(root);
    filter.append("=");
    filter.append(level);
    filter
}

/// The state behind the embeddable entry points, as the contracts see it.
pub struct ControlView {
    /// Whether a stop has been asked for since the last run began.
    pub exiting: bool,
    /// The address that the client's listener is bound to, as far as it
    /// has been recorded.
    pub listen: EndpointView,
    /// Whether the port has been reported to the host in this run.
    pub reported: bool,
}

impl ControlView {
    /// The state before any run: no stop asked for, and the listener
    /// recorded as port 0 of the IPv4 loopback.
    pub open spec fn init() -> ControlView {
        ControlView {
            exiting: false,
            listen: EndpointView {
                family: Family::V4,
                octets: loopback_octets(Family::V4),
                port: 0,
            },
            reported: false,
        }
    }

    /// The state after a run has begun.
    pub open spec fn begin_run(self) -> ControlView {
        ControlView { exiting: false, reported: false, ..self }
    }

    /// The state after the listener has been bound to `bound`.
    pub open spec fn on_listening(self, bound: EndpointView) -> ControlView {
        ControlView { listen: bound, reported: true, ..self }
    }

    /// The state after a stop request.
    pub open spec fn stop(self) -> ControlView {
        ControlView { exiting: true, ..self }
    }
}

/// The state behind the embeddable entry points.
#[derive(Debug, Clone, Copy, PartialEq, Eq)]
pub struct Control {
    signal: Shutdown,
    listen: Endpoint,
    reported: bool,
}

/// What a stop request leads to.
#[derive(Debug, Clone, Copy, PartialEq, Eq)]
pub struct Stop {
    /// The status to return: always `STATUS_OK`.
    pub status: i32,
    /// Where to connect once, so that an accept that is blocked on the
    /// listener returns and sees the request.
    pub knock: Endpoint,
}

impl View for Control {
    type V = ControlView;

    closed spec fn view(&self) -> ControlView {
        ControlView { exiting: self.signal@, listen: self.listen@, reported: self.reported }
    }
}

impl Control {
    /// The state before any run.
    pub fn new() -> (c: Control)
        ensures
            c@ == ControlView::init(),
    {
        Control {
            signal: Shutdown::new(),
            listen: Endpoint::loopback(Family::V4, 0),
            reported: false,
        }
    }

    /// A run begins: an earlier stop request is forgotten, and the port is
    /// due to be reported again. This is the first thing that a run does,
    /// before it reads its configuration or builds anything: a stop that is
    /// asked for at any time after this call stays until the run sees it.
    pub fn begin_run(&mut self)
        ensures
            final(self)@ == old(self)@.begin_run(),
    {
        self.signal = Shutdown::new();
        self.reported = false;
    }

    /// The listener is bound to `bound`. The address is recorded as it is,
    /// for a later stop. The first call of a run gives the port to report
    /// to the host; later calls give none, so that the host hears of the
    /// port exactly once. A stop that was asked for before stays asked for.
    pub fn on_listening(&mut self, bound: Endpoint) -> (report: Option<i32>)
        ensures
            final(self)@ == old(self)@.on_listening(bound@),
            report == (if old(self)@.reported {
                None::<i32>
            } else {
                Some(bound.port as i32)
            }),
    {
        self.listen = bound;
        if self.reported {
            None
        } else {
            self.reported = true;
            Some(bound.port as i32)
        }
    }

    /// Whether a stop has been asked for since the run began.
    pub fn is_exiting(&self) -> (b: bool)
        ensures
            b == self@.exiting,
    {
        self.signal.is_cancelled()
    }

    /// Whether the listener has been bound in this run.
    pub fn is_listening(&self) -> (b: bool)
        ensures
            b == self@.reported,
    {
        self.reported
    }

    /// The address that the listener was last recorded at.
    pub fn listen(&self) -> (l: Endpoint)
        ensures
            l@ == self@.listen,
    {
        self.listen
    }

    /// A stop is asked for. It succeeds whether or not a run is under way
    /// and however often it is asked: the status is `STATUS_OK`, the state
    /// is that of one request, and the place to knock is where a connection
    /// reaches the recorded listener.
    pub fn stop(&mut self) -> (s: Stop)
        ensures
            final(self)@ == old(self)@.stop(),
            s.status == STATUS_OK,
            s.knock@ == old(self)@.listen.knock(),
    {
        self.signal.cancel();
        Stop { status: STATUS_OK, knock: self.listen.knock() }
    }
}

/// Stopping twice is stopping once: the second request finds the state that
/// the first one left, and leaves it as it is.
pub proof fn law_stop_is_idempotent(c: ControlView)
    ensures
        c.stop().stop() == c.stop(),
        c.stop().exiting,
        c.stop().listen == c.listen,
{
}

/// A stop that is asked for after a run has begun is not lost, whether it
/// comes before or after the listener is bound: the run finds it when it
/// looks, and the knock of a stop that comes after the listener is bound
/// goes to that listener.
pub proof fn law_stop_during_a_run_is_seen(c: ControlView, bound: EndpointView)
    ensures
        c.begin_run().stop().on_listening(bound).exiting,
        c.begin_run().on_listening(bound).stop().exiting,
        c.begin_run().on_listening(bound).listen.knock() == bound.knock(),
        !c.begin_run().exiting,
{
}

/// Where the configuration comes from.
#[derive(Debug, Clone, Copy, PartialEq, Eq, Structural)]
pub enum Source {
    /// A configuration file.
    File,
    /// A share URL that describes the remote node.
    Url,
}

/// What the command line holds, as far as the start depends on it.
#[derive(Debug, Clone, Copy, PartialEq, Eq, Structural)]
pub struct Options {
    /// Run through the embeddable entry points.
    pub c_api: bool,
    /// Run as the server.
    pub server: bool,
    /// A configuration file was named.
    pub has_config: bool,
    /// A share URL was given.
    pub has_url: bool,
    /// Print the share URL of the configuration and leave.
    pub generate_url: bool,
    /// Detach from the terminal before serving.
    pub daemonize: bool,
}

/// What the process is to do.
#[derive(Debug, Clone, Copy, PartialEq, Eq, Structural)]
pub enum Startup {
    /// Run the client through the embeddable entry points.
    Embedded(Source),
    /// Print the share URL and leave.
    PrintUrl(Source),
    /// Check the configuration for the role and serve.
    Serve { source: Source, server: bool, daemonize: bool },
}

/// Why the process cannot start.
#[derive(Debug, Clone, Copy, PartialEq, Eq, Structural)]
pub enum StartupError {
    /// The embeddable entry points run the client only.
    EmbeddedServer,
    /// Neither a configuration file nor a share URL was given.
    NoConfiguration,
    /// The server was asked for, and the configuration has no server part.
    NotServerConfig,
    /// The client was asked for, and the configuration has no client part.
    NotClientConfig,
}

impl StartupError {
    /// The message for the user.
    pub fn message(self) -> (m: &'static str)
        ensures
            m@ == (match self {
                StartupError::EmbeddedServer => "C API is not supported for server"@,
                StartupError::NoConfiguration => "Config file or node URL is required"@,
                StartupError::NotServerConfig => "Config is not a server config"@,
                StartupError::NotClientConfig => "Config is not a client config"@,
            }),
    {
        match self {
            StartupError::EmbeddedServer => "C API is not supported for server",
            StartupError::NoConfiguration => "Config file or node URL is required",
            StartupError::NotServerConfig => "Config is not a server config",
            StartupError::NotClientConfig => "Config is not a client config",
        }
    }
}

/// The source of the configuration: the file where one was named, else the
/// URL where one was given.
pub open spec fn spec_source(o: Options) -> Option<Source> {
    if o.has_config {
        Some(Source::File)
    } else if o.has_url {
        Some(Source::Url)
    } else {
        None
    }
}

/// What `o` asks for.
pub open spec fn spec_plan(o: Options) -> Result<Startup, StartupError> {
    if o.c_api && o.server {
        Err(StartupError::EmbeddedServer)
    } else {
        match spec_source(o) {
            None => Err(StartupError::NoConfiguration),
            Some(source) => if o.c_api {
                Ok(Startup::Embedded(source))
            } else if o.generate_url {
                Ok(Startup::PrintUrl(source))
            } else {
                Ok(Startup::Serve { source, server: o.server, daemonize: o.daemonize })
            },
        }
    }
}

/// Decides from the command line what the process is to do.
pub fn plan_startup(o: Options) -> (r: Result<Startup, StartupError>)
    ensures
        r == spec_plan(o),
{
    if o.c_api && o.server {
        return Err(StartupError::EmbeddedServer);
    }
    let source = if o.has_config {
        Source::File
    } else if o.has_url {
        Source::Url
    } else {
        return Err(StartupError::NoConfiguration);
    };
    if o.c_api {
        Ok(Startup::Embedded(source))
    } else if o.generate_url {
        Ok(Startup::PrintUrl(source))
    } else {
        Ok(Startup::Serve { source, server: o.server, daemonize: o.daemonize })
    }
}

/// Decides which engine runs: the one that was asked for, provided the
/// configuration has the part that it needs.
pub fn select_role(server: bool, has_server_part: bool, has_client_part: bool) -> (r: Result<
    Role,
    StartupError,
>)
    ensures
        r == (if server {
            if has_server_part {
                Ok::<Role, StartupError>(Role::Server)
            } else {
                Err::<Role, StartupError>(StartupError::NotServerConfig)
            }
        } else {
            if has_client_part {
                Ok::<Role, StartupError>(Role::Client)
            } else {
                Err::<Role, StartupError>(StartupError::NotClientConfig)
            }
        }),
{
    if server {
        if has_server_part {
            Ok(Role::Server)
        } else {
            Err(StartupError::NotServerConfig)
        }
    } else if has_client_part {
        Ok(Role::Client)
    } else {
        Err(StartupError::NotClientConfig)
    }
}

/// The address on which a client listens when it is configured from a share
/// URL and none is given: the default port on the IPv4 loopback.
pub fn default_listen() -> (l: Endpoint)
    ensures
        l@ == (EndpointView {
            family: Family::V4,
            octets: loopback_octets(Family::V4),
            port: DEFAULT_LISTEN_PORT,
        }),
{
    Endpoint::loopback(Family::V4, DEFAULT_LISTEN_PORT)
}

} // verus!
