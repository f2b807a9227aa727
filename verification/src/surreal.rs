use vstd::prelude::*;
use crate::config::UrlParts;
use crate::text::{concat_strings, decimal_chars, decimal_text, push_char, string_from_chars,
    all_digits, digits_value, law_decimal_text_denotes_number};

verus! {

/// The kind of account a profile lookup starts from.
#[derive(Clone, Copy, Debug, PartialEq, Eq)]
pub enum ProfileType {
    Mindustry,
    Discord,
    Telegram,
}

/// The name under which the database knows each kind of profile.
pub open spec fn profile_type_name(t: ProfileType) -> Seq<char> {
    match t {
        ProfileType::Mindustry => seq!['m', 'i', 'n', 'd', 'u', 's', 't', 'r', 'y'],
        ProfileType::Discord => seq!['d', 'i', 's', 'c', 'o', 'r', 'd'],
        ProfileType::Telegram => seq!['t', 'e', 'l', 'e', 'g', 'r', 'a', 'm'],
    }
}

impl ProfileType {
    /// The database name of this profile kind.
    pub fn value(&self) -> (r: &'static str)
        ensures
            r@ == profile_type_name(*self),
    {
        match self {
            ProfileType::Mindustry => {
                proof {
                    reveal_strlit("mindustry");
                }
                "mindustry"
            },
            ProfileType::Discord => {
                proof {
                    reveal_strlit("discord");
                }
                "discord"
            },
            ProfileType::Telegram => {
                proof {
                    reveal_strlit("telegram");
                }
                "telegram"
            },
        }
    }
}

/// Which profiles a lookup should return.
#[derive(Clone, Copy, Debug)]
pub struct NeededProfiles {
    pub mindustry: bool,
    pub discord: bool,
    pub telegram: bool,
}

impl Default for NeededProfiles {
    fn default() -> (r: Self)
        ensures
            !r.mindustry && !r.discord && !r.telegram,
    {
        NeededProfiles { mindustry: false, discord: false, telegram: false }
    }
}

/// The Mindustry profile of a user.
#[derive(Clone, Copy, Debug)]
pub struct MindustryProfile {}

/// The profiles found for a user.
#[derive(Clone, Copy, Debug)]
pub struct Profiles {
    pub mindustry: Option<MindustryProfile>,
}

/// Where the connection procedure stands.
#[derive(Clone, Copy, Debug, PartialEq, Eq, Structural)]
pub enum ConnectPhase {
    /// Waiting for the outcome of a health check.
    Checking,
    /// Waiting for the outcome of a connection attempt.
    Connecting,
    /// Waiting before the next health check.
    Waiting,
    /// Waiting for the sign-in.
    SigningIn,
    /// Waiting for the namespace and database to be selected.
    SelectingNamespace,
    /// Connected, signed in, namespace and database selected.
    Finished,
    /// Stopped: the URL lacks a part that the procedure needs.
    Failed,
}

/// What happened to the last action.
#[derive(Clone, Copy, Debug, PartialEq, Eq, Structural)]
pub enum ConnectEvent {
    Healthy,
    Unhealthy,
    ConnectSucceeded,
    ConnectFailed,
    WaitOver,
    SignedIn,
    NamespaceSelected,
}

/// The part of the database URL that is missing.
#[derive(Clone, Copy, Debug, PartialEq, Eq, Structural)]
pub enum ConnectFailure {
    MissingHost,
    MissingPort,
    MissingPassword,
    MissingPath,
    /// The path names no database after the namespace.
    PathTooShort,
}

/// What to do next.
pub enum ConnectAction {
    CheckHealth,
    Connect { address: String },
    Wait { seconds: u64 },
    SignIn { username: String, password: String },
    UseNamespace { namespace: String, database: String },
    Done,
    Fail { reason: ConnectFailure },
    /// The event does not belong to the current phase; nothing changes.
    Ignore,
}

/// An action, with its texts as character sequences.
pub enum ConnectActionView {
    CheckHealth,
    Connect { address: Seq<char> },
    Wait { seconds: u64 },
    SignIn { username: Seq<char>, password: Seq<char> },
    UseNamespace { namespace: Seq<char>, database: Seq<char> },
    Done,
    Fail { reason: ConnectFailure },
    Ignore,
}

impl View for ConnectAction {
    type V = ConnectActionView;

    open spec fn view(&self) -> ConnectActionView {
        match self {
            ConnectAction::CheckHealth => ConnectActionView::CheckHealth,
            ConnectAction::Connect { address } => ConnectActionView::Connect { address: address@ },
            ConnectAction::Wait { seconds } => ConnectActionView::Wait { seconds: *seconds },
            ConnectAction::SignIn { username, password } => ConnectActionView::SignIn {
                username: username@,
                password: password@,
            },
            ConnectAction::UseNamespace { namespace, database } => ConnectActionView::UseNamespace {
                namespace: namespace@,
                database: database@,
            },
            ConnectAction::Done => ConnectActionView::Done,
            ConnectAction::Fail { reason } => ConnectActionView::Fail { reason: *reason },
            ConnectAction::Ignore => ConnectActionView::Ignore,
        }
    }
}

/// The seconds to wait after a failed connection attempt.
pub open spec fn retry_delay_seconds() -> u64 {
    5
}

/// The address to connect to: `<host>:<port>`.
pub open spec fn connect_address(host: Seq<char>, port: u16) -> Seq<char> {
    host + seq![':'] + decimal_text(port as nat)
}

/// The next phase and action of the connection procedure after `event`.
pub open spec fn connect_transition(phase: ConnectPhase, event: ConnectEvent, url: UrlParts) -> (
    ConnectPhase,
    ConnectActionView,
) {
    match (phase, event) {
        (ConnectPhase::Checking, ConnectEvent::Unhealthy) => match (url.host, url.port) {
            (None, _) => (ConnectPhase::Failed, ConnectActionView::Fail { reason: ConnectFailure::MissingHost }),
            (Some(_), None) => (ConnectPhase::Failed, ConnectActionView::Fail { reason: ConnectFailure::MissingPort }),
            (Some(h), Some(p)) => (ConnectPhase::Connecting, ConnectActionView::Connect { address: connect_address(h@, p) }),
        },
        (ConnectPhase::Checking, ConnectEvent::Healthy) => match url.password {
            None => (ConnectPhase::Failed, ConnectActionView::Fail { reason: ConnectFailure::MissingPassword }),
            Some(pw) => (ConnectPhase::SigningIn, ConnectActionView::SignIn { username: url.username@, password: pw@ }),
        },
        (ConnectPhase::Connecting, ConnectEvent::ConnectSucceeded) => (ConnectPhase::Checking, ConnectActionView::CheckHealth),
        (ConnectPhase::Connecting, ConnectEvent::ConnectFailed) => (ConnectPhase::Waiting, ConnectActionView::Wait { seconds: retry_delay_seconds() }),
        (ConnectPhase::Waiting, ConnectEvent::WaitOver) => (ConnectPhase::Checking, ConnectActionView::CheckHealth),
        (ConnectPhase::SigningIn, ConnectEvent::SignedIn) => match url.path_segments.deep_view() {
            None => (ConnectPhase::Failed, ConnectActionView::Fail { reason: ConnectFailure::MissingPath }),
            Some(segs) => if segs.len() < 2 {
                (ConnectPhase::Failed, ConnectActionView::Fail { reason: ConnectFailure::PathTooShort })
            } else {
                (ConnectPhase::SelectingNamespace, ConnectActionView::UseNamespace { namespace: segs[0], database: segs[1] })
            },
        },
        (ConnectPhase::SelectingNamespace, ConnectEvent::NamespaceSelected) => (ConnectPhase::Finished, ConnectActionView::Done),
        _ => (phase, ConnectActionView::Ignore),
    }
}

/// The procedure that connects to the database: check its health; while it
/// is not healthy, connect to `<host>:<port>` and, where that fails, wait five
/// seconds and check again; then sign in as the URL's user and select the
/// namespace and database that the first two path segments of the URL name.
pub struct SurrealConnector {
    phase: ConnectPhase,
    url: UrlParts,
}

impl SurrealConnector {
    pub closed spec fn phase(&self) -> ConnectPhase {
        self.phase
    }

    pub closed spec fn url(&self) -> UrlParts {
        self.url
    }

    /// Starts the procedure for a database URL: the first action is a health
    /// check.
    pub fn new(url: UrlParts) -> (r: (SurrealConnector, ConnectAction))
        ensures
            r.0.phase() == ConnectPhase::Checking,
            r.0.url() == url,
            r.1@ == ConnectActionView::CheckHealth,
    {
        (SurrealConnector { phase: ConnectPhase::Checking, url }, ConnectAction::CheckHealth)
    }

    /// The current phase.
    pub fn current_phase(&self) -> (r: ConnectPhase)
        ensures
            r == self.phase(),
    {
        self.phase
    }

    /// Moves on after an event and says what to do next.
    pub fn step(&mut self, event: ConnectEvent) -> (r: ConnectAction)
        ensures
            final(self).url() == old(self).url(),
            (final(self).phase(), r@) == connect_transition(old(self).phase(), event, old(self).url()),
    {
        match (self.phase, event) {
            (ConnectPhase::Checking, ConnectEvent::Unhealthy) => match (&self.url.host, self.url.port) {
                (None, _) => {
                    self.phase = ConnectPhase::Failed;
                    ConnectAction::Fail { reason: ConnectFailure::MissingHost }
                },
                (Some(_), None) => {
                    self.phase = ConnectPhase::Failed;
                    ConnectAction::Fail { reason: ConnectFailure::MissingPort }
                },
                (Some(h), Some(p)) => {
                    let address = address_of(h, p);
                    self.phase = ConnectPhase::Connecting;
                    ConnectAction::Connect { address }
                },
            },
            (ConnectPhase::Checking, ConnectEvent::Healthy) => match &self.url.password {
                None => {
                    self.phase = ConnectPhase::Failed;
                    ConnectAction::Fail { reason: ConnectFailure::MissingPassword }
                },
                Some(pw) => {
                    let action = ConnectAction::SignIn { username: self.url.username.clone(), password: pw.clone() };
                    self.phase = ConnectPhase::SigningIn;
                    action
                },
            },
            (ConnectPhase::Connecting, ConnectEvent::ConnectSucceeded) => {
                self.phase = ConnectPhase::Checking;
                ConnectAction::CheckHealth
            },
            (ConnectPhase::Connecting, ConnectEvent::ConnectFailed) => {
                self.phase = ConnectPhase::Waiting;
                ConnectAction::Wait { seconds: 5 }
            },
            (ConnectPhase::Waiting, ConnectEvent::WaitOver) => {
                self.phase = ConnectPhase::Checking;
                ConnectAction::CheckHealth
            },
            (ConnectPhase::SigningIn, ConnectEvent::SignedIn) => match &self.url.path_segments {
                None => {
                    self.phase = ConnectPhase::Failed;
                    ConnectAction::Fail { reason: ConnectFailure::MissingPath }
                },
                Some(segs) => {
                    if segs.len() < 2 {
                        self.phase = ConnectPhase::Failed;
                        ConnectAction::Fail { reason: ConnectFailure::PathTooShort }
                    } else {
                        let action = ConnectAction::UseNamespace { namespace: segs[0].clone(), database: segs[1].clone() };
                        self.phase = ConnectPhase::SelectingNamespace;
                        action
                    }
                },
            },
            (ConnectPhase::SelectingNamespace, ConnectEvent::NamespaceSelected) => {
                self.phase = ConnectPhase::Finished;
                ConnectAction::Done
            },
            _ => ConnectAction::Ignore,
        }
    }
}

/// `<host>:<port>`.
fn address_of(host: &String, port: u16) -> (r: String)
    ensures
        r@ == connect_address(host@, port),
{
    let mut with_colon = host.clone();
    push_char(&mut with_colon, ':');
    let digits = string_from_chars(&decimal_chars(port as u128));
    concat_strings(with_colon.as_str(), digits.as_str())
}

/// Each kind of profile has its own database name.
pub proof fn law_profile_names_distinct(a: ProfileType, b: ProfileType)
    ensures
        a != b ==> profile_type_name(a) != profile_type_name(b),
{
    if a != b {
        assert(profile_type_name(a).len() != profile_type_name(b).len() || profile_type_name(a)[0]
            != profile_type_name(b)[0]);
    }
}

/// The procedure signs in only right after a health check found the database
/// healthy, and selects the namespace only right after signing in.
pub proof fn law_sign_in_only_when_healthy(phase: ConnectPhase, event: ConnectEvent, url: UrlParts)
    ensures
        connect_transition(phase, event, url).1 is SignIn ==> phase == ConnectPhase::Checking
            && event == ConnectEvent::Healthy,
        connect_transition(phase, event, url).1 is UseNamespace ==> phase == ConnectPhase::SigningIn
            && event == ConnectEvent::SignedIn,
{
}

/// A failed connection attempt is followed by a wait of five seconds, and the
/// end of the wait by a new health check.
pub proof fn law_failed_connection_waits_then_checks(url: UrlParts)
    ensures
        connect_transition(ConnectPhase::Connecting, ConnectEvent::ConnectFailed, url) == (
            ConnectPhase::Waiting,
            ConnectActionView::Wait { seconds: 5 },
        ),
        connect_transition(ConnectPhase::Waiting, ConnectEvent::WaitOver, url) == (
            ConnectPhase::Checking,
            ConnectActionView::CheckHealth,
        ),
{
}

/// Every connection attempt goes to the host and port of the URL.
pub proof fn law_connection_goes_to_url(phase: ConnectPhase, event: ConnectEvent, url: UrlParts)
    ensures
        connect_transition(phase, event, url).1 matches ConnectActionView::Connect { address } ==> (
        url.host matches Some(h) && url.port matches Some(p) && address == connect_address(h@, p)),
{
}

/// Once finished or failed, the procedure does nothing more.
pub proof fn law_end_phases_are_final(phase: ConnectPhase, event: ConnectEvent, url: UrlParts)
    requires
        phase == ConnectPhase::Finished || phase == ConnectPhase::Failed,
    ensures
        connect_transition(phase, event, url) == (phase, ConnectActionView::Ignore),
{
}

/// A connection attempt goes to the URL's own host and port: the address is
/// the host, a colon, and decimal digits whose value is the port.
pub proof fn law_connect_address_is_host_and_port(url: UrlParts)
    requires
        url.host is Some,
        url.port is Some,
    ensures
        ({
            let h = url.host->0@;
            let p = url.port->0;
            let (phase, action) = connect_transition(ConnectPhase::Checking, ConnectEvent::Unhealthy, url);
            &&& phase == ConnectPhase::Connecting
            &&& action matches ConnectActionView::Connect { address } && {
                &&& address.take(h.len() as int) == h
                &&& address[h.len() as int] == ':'
                &&& address.len() > h.len() + 1
                &&& all_digits(address.skip(h.len() + 1int))
                &&& digits_value(address.skip(h.len() + 1int)) == p
            }
        }),
{
    let h = url.host->0@;
    let p = url.port->0;
    law_decimal_text_denotes_number(p as nat);
    let a = connect_address(h, p);
    assert(a.take(h.len() as int) =~= h);
    assert(a.skip(h.len() + 1int) =~= decimal_text(p as nat));
}

/// After signing in, the namespace and the database are the first and the
/// second segment of the URL's path, whatever segments follow them.
pub proof fn law_namespace_and_database_from_path(url: UrlParts)
    requires
        url.path_segments matches Some(v) && v@.len() >= 2,
    ensures
        connect_transition(ConnectPhase::SigningIn, ConnectEvent::SignedIn, url) == (
            ConnectPhase::SelectingNamespace,
            ConnectActionView::UseNamespace {
                namespace: url.path_segments->0@[0]@,
                database: url.path_segments->0@[1]@,
            },
        ),
{
}

} // verus!
