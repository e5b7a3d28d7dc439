//! Bringing the SIM800L up: from the first `AT` to `CONNECT`.
//!
//! The sequence is a state machine. It says which command to send or how long
//! to wait, is told what came of it, and ends in success or in the reason for
//! failure.

use atat::Error as AtError;
use vstd::prelude::*;

use crate::config;
use crate::modem;
use crate::modem::{
    DialPpp, SetBaudRate, SetCmuxMode, SetFunctionality, SetGprsAttach, SetNetworkTime,
    SetPdpContext, SetSmsIndication, SetSmsTextMode, SetVerboseErrors, Urc,
};
use crate::text;

verus! {

/// What the AT client reports when a command fails.
#[verifier::external_type_specification]
#[verifier::external_body]
pub struct ExAtError(AtError);

/// What can go wrong on the way up.
#[derive(Debug)]
pub enum BringUpError {
    /// The module does not answer `AT`.
    NoResponse,
    /// The SIM card is not ready: none there, or a PIN wanted.
    SimNotReady,
    /// No registration in the network in the time given.
    NotRegistered,
    /// No attachment to GPRS.
    NotAttached,
    /// No `CONNECT` to the dial string.
    DialFailed,
    /// `AT+CMUX` was refused.
    CmuxRefused,
    /// The module restarted on the way, which as a rule is a lack of power.
    ModemReset,
    /// The AT exchange failed.
    At(AtError),
}

impl From<AtError> for BringUpError {
    fn from(e: AtError) -> (r: Self) {
        BringUpError::At(e)
    }
}

impl vstd::std_specs::convert::FromSpecImpl<AtError> for BringUpError {
    open spec fn obeys_from_spec() -> bool {
        true
    }

    open spec fn from_spec(e: AtError) -> Self {
        BringUpError::At(e)
    }
}

/// How often `AT` is sent before the module counts as silent.
pub const SYNC_ATTEMPTS: u32 = 20;

/// Pause between two `AT`, in milliseconds.
pub const SYNC_PAUSE_MS: u64 = 500;

/// Pause between two looks at the registration, in milliseconds.
pub const REGISTRATION_PAUSE_MS: u64 = 2000;

/// How often attaching to GPRS is tried.
pub const ATTACH_ATTEMPTS: u32 = 3;

/// Pause between two attempts to attach, in milliseconds.
pub const ATTACH_PAUSE_MS: u64 = 2000;

/// Every how many looks at the registration the operator is asked for.
pub const OPERATOR_EVERY: u32 = 5;

/// The commands of the sequence.
#[derive(Debug, Clone, Copy, PartialEq, Eq, Structural)]
pub enum Command {
    At,
    DisableEcho,
    VerboseErrors,
    BaudRate,
    SaveSettings,
    Functionality,
    PinStatus,
    Imsi,
    Iccid,
    SignalQuality,
    NetworkRegistration,
    GprsRegistration,
    Operator,
    ScanOperators,
    PdpContext,
    AttachState,
    Attach,
    ShutIpStack,
    Dial,
}

/// What the modem said to a command.
#[derive(Debug)]
pub enum Reply {
    /// The command succeeded; whatever else it said does not matter here.
    Done,
    /// The state of the SIM card, in the modem's own words.
    Pin(String),
    /// A `<stat>` of registration.
    Registration(u8),
    /// A state of attachment.
    Attachment(u8),
}

/// What came of an action.
#[derive(Debug)]
pub enum Outcome {
    /// The command was answered.
    Replied(Reply),
    /// The command failed.
    Failed(AtError),
    /// The wait is over, or the pending messages are gone.
    Over,
}

/// What to do next.
#[derive(Debug)]
pub enum Action {
    /// Send a command once.
    Send(Command),
    /// Send a command, as often as it allows itself.
    SendRetry(Command),
    /// Wait so many milliseconds.
    Wait(u64),
    /// Throw away the messages that the modem has sent so far: those of an
    /// ordinary start must not look like a restart.
    DropPending,
    /// The module is up.
    Done,
    /// It will not come up.
    Fail(BringUpError),
    /// It did not come up, as was said before: nothing is left to do.
    Stopped,
}

/// Where the sequence stands: the action whose outcome is awaited.
#[derive(Debug, Clone, Copy, PartialEq, Eq, Structural)]
pub enum Stage {
    /// `AT` number so many, counted from 1.
    Sync(u32),
    SyncPause(u32),
    Echo,
    Verbose,
    Baud,
    Save,
    Function,
    Pin,
    Imsi,
    Iccid,
    Drain,
    /// Look number so many at the registration, counted from 0.
    Signal(u32),
    Network(u32),
    /// With what the GSM network said, if anything.
    Gprs(u32, Option<u8>),
    Operator(u32),
    RegistrationPause(u32),
    Scan,
    Context,
    AttachState,
    /// Attempt number so many, counted from 1.
    Attach(u32),
    AttachPause(u32),
    Shut,
    Dial,
    /// Over: the module is up.
    Up,
    /// Over: it did not come up.
    Failed,
}

/// What does not change while the module comes up.
#[derive(Debug, Clone, Copy, PartialEq, Eq, Structural)]
pub struct Plan {
    /// How often to look at the registration.
    pub registration_attempts: u32,
    /// Whether to scan for networks when registration fails.
    pub scan_on_failure: bool,
    /// Whether to dial at the end. Without, the module is only made ready.
    pub dial: bool,
}

/// The `<stat>` that an outcome carries.
pub open spec fn stat_of(outcome: Outcome) -> Option<u8> {
    match outcome {
        Outcome::Replied(Reply::Registration(stat)) => Some(stat),
        _ => None,
    }
}

/// Whether a `<stat>` that may be missing means "registered".
pub open spec fn is_in(stat: Option<u8>) -> bool {
    stat matches Some(stat) && modem::registered(stat)
}

/// Where a look at the registration begins, or what follows the last one.
pub open spec fn registration_from(plan: Plan, attempt: u32) -> (Stage, Action) {
    if attempt < plan.registration_attempts {
        (Stage::Signal(attempt), Action::Send(Command::SignalQuality))
    } else if plan.scan_on_failure {
        (Stage::Scan, Action::Send(Command::ScanOperators))
    } else {
        (Stage::Failed, Action::Fail(BringUpError::NotRegistered))
    }
}

/// What follows the settings of the line: keeping them, unless that was done
/// before.
pub open spec fn after_baud(saved: bool) -> (Stage, Action) {
    if saved {
        (Stage::Function, Action::Send(Command::Functionality))
    } else {
        (Stage::Save, Action::Send(Command::SaveSettings))
    }
}

/// The next stage and action. `saved` says whether the settings were kept
/// before.
pub open spec fn step(plan: Plan, saved: bool, stage: Stage, outcome: Outcome) -> (Stage, Action) {
    match stage {
        Stage::Sync(n) => if outcome is Replied {
            (Stage::Echo, Action::SendRetry(Command::DisableEcho))
        } else {
            (Stage::SyncPause(n), Action::Wait(SYNC_PAUSE_MS))
        },
        Stage::SyncPause(n) => if n < SYNC_ATTEMPTS {
            (Stage::Sync((n + 1) as u32), Action::Send(Command::At))
        } else {
            (Stage::Failed, Action::Fail(BringUpError::NoResponse))
        },
        Stage::Echo => match outcome {
            Outcome::Failed(e) => (Stage::Failed, Action::Fail(BringUpError::At(e))),
            _ => (Stage::Verbose, Action::Send(Command::VerboseErrors)),
        },
        Stage::Verbose => (Stage::Baud, Action::Send(Command::BaudRate)),
        Stage::Baud => after_baud(saved),
        Stage::Save => (Stage::Function, Action::Send(Command::Functionality)),
        Stage::Function => (Stage::Pin, Action::SendRetry(Command::PinStatus)),
        Stage::Pin => match outcome {
            Outcome::Replied(Reply::Pin(code)) => if code@ == "READY"@ {
                (Stage::Imsi, Action::Send(Command::Imsi))
            } else {
                (Stage::Failed, Action::Fail(BringUpError::SimNotReady))
            },
            _ => (Stage::Failed, Action::Fail(BringUpError::SimNotReady)),
        },
        Stage::Imsi => (Stage::Iccid, Action::Send(Command::Iccid)),
        Stage::Iccid => (Stage::Drain, Action::DropPending),
        Stage::Drain => registration_from(plan, 0),
        Stage::Signal(n) => (Stage::Network(n), Action::Send(Command::NetworkRegistration)),
        Stage::Network(n) => (
            Stage::Gprs(n, stat_of(outcome)),
            Action::Send(Command::GprsRegistration),
        ),
        Stage::Gprs(n, gsm) => if is_in(gsm) && is_in(stat_of(outcome)) {
            (Stage::Context, Action::Send(Command::PdpContext))
        } else if n % OPERATOR_EVERY == 0 {
            (Stage::Operator(n), Action::Send(Command::Operator))
        } else {
            (Stage::RegistrationPause(n), Action::Wait(REGISTRATION_PAUSE_MS))
        },
        Stage::Operator(n) => (Stage::RegistrationPause(n), Action::Wait(REGISTRATION_PAUSE_MS)),
        Stage::RegistrationPause(n) => registration_from(plan, (n + 1) as u32),
        Stage::Scan => (Stage::Failed, Action::Fail(BringUpError::NotRegistered)),
        Stage::Context => match outcome {
            Outcome::Failed(e) => (Stage::Failed, Action::Fail(BringUpError::At(e))),
            _ => (Stage::AttachState, Action::Send(Command::AttachState)),
        },
        Stage::AttachState => if outcome matches Outcome::Replied(Reply::Attachment(state)) && state
            == 1 {
            (Stage::Shut, Action::Send(Command::ShutIpStack))
        } else {
            (Stage::Attach(1), Action::Send(Command::Attach))
        },
        Stage::Attach(n) => if outcome is Replied {
            (Stage::Shut, Action::Send(Command::ShutIpStack))
        } else {
            (Stage::AttachPause(n), Action::Wait(ATTACH_PAUSE_MS))
        },
        Stage::AttachPause(n) => if n < ATTACH_ATTEMPTS {
            (Stage::Attach((n + 1) as u32), Action::Send(Command::Attach))
        } else {
            (Stage::Failed, Action::Fail(BringUpError::NotAttached))
        },
        Stage::Shut => if plan.dial {
            (Stage::Dial, Action::Send(Command::Dial))
        } else {
            (Stage::Up, Action::Done)
        },
        Stage::Dial => match outcome {
            Outcome::Failed(_) => (Stage::Failed, Action::Fail(BringUpError::DialFailed)),
            _ => (Stage::Up, Action::Done),
        },
        Stage::Up => (Stage::Up, Action::Done),
        Stage::Failed => (Stage::Failed, Action::Stopped),
    }
}

/// Whether the settings are kept after an outcome.
pub open spec fn saved_after(saved: bool, stage: Stage, outcome: Outcome) -> bool {
    saved || (stage == Stage::Save && outcome is Replied)
}

/// Whether a stage belongs to the wait for registration, during which a restart
/// of the module ends the sequence at once.
pub open spec fn in_registration(stage: Stage) -> bool {
    match stage {
        Stage::Signal(_) => true,
        Stage::Network(_) => true,
        Stage::Gprs(_, _) => true,
        Stage::Operator(_) => true,
        Stage::RegistrationPause(_) => true,
        Stage::Scan => true,
        _ => false,
    }
}

/// Brings the module up.
#[derive(Debug)]
pub struct BringUp {
    plan: Plan,
    stage: Stage,
    saved: bool,
}

impl BringUp {
    /// The stage whose outcome is awaited.
    pub closed spec fn stage(&self) -> Stage {
        self.stage
    }

    /// What does not change.
    pub closed spec fn plan(&self) -> Plan {
        self.plan
    }

    /// Whether the settings are kept in the profile of the module.
    pub closed spec fn saved(&self) -> bool {
        self.saved
    }

    #[verifier::type_invariant]
    spec fn counts_in_range(self) -> bool {
        match self.stage {
            Stage::Signal(n) => n < self.plan.registration_attempts,
            Stage::Network(n) => n < self.plan.registration_attempts,
            Stage::Gprs(n, _) => n < self.plan.registration_attempts,
            Stage::Operator(n) => n < self.plan.registration_attempts,
            Stage::RegistrationPause(n) => n < self.plan.registration_attempts,
            _ => true,
        }
    }

    /// The sequence at its start: the first `AT` has to be sent.
    ///
    /// `saved` says whether the settings were kept earlier since power-up.
    /// Keeping them wears the memory out, so once is enough.
    pub fn new(plan: Plan, saved: bool) -> (r: (BringUp, Action))
        ensures
            r.0.plan() == plan,
            r.0.saved() == saved,
            r.0.stage() == Stage::Sync(1),
            r.1 == Action::Send(Command::At),
    {
        (BringUp { plan, stage: Stage::Sync(1), saved }, Action::Send(Command::At))
    }

    /// Whether the settings are kept in the profile of the module.
    pub fn settings_saved(&self) -> (r: bool)
        ensures
            r == self.saved(),
    {
        self.saved
    }

    fn begin_look(&mut self, attempt: u32) -> (r: Action)
        ensures
            (final(self).stage(), r) == registration_from(old(self).plan(), attempt),
            final(self).plan() == old(self).plan(),
            final(self).saved() == old(self).saved(),
    {
        if attempt < self.plan.registration_attempts {
            self.stage = Stage::Signal(attempt);
            Action::Send(Command::SignalQuality)
        } else if self.plan.scan_on_failure {
            self.stage = Stage::Scan;
            Action::Send(Command::ScanOperators)
        } else {
            self.stage = Stage::Failed;
            Action::Fail(BringUpError::NotRegistered)
        }
    }

    fn go(&mut self, stage: Stage, action: Action) -> (r: Action)
        requires
            !in_registration(stage) || stage is Scan,
        ensures
            final(self).stage() == stage,
            r == action,
            final(self).plan() == old(self).plan(),
            final(self).saved() == old(self).saved(),
    {
        self.stage = stage;
        action
    }

    /// Takes the outcome of the last action and says what to do next.
    pub fn on_outcome(&mut self, outcome: Outcome) -> (r: Action)
        ensures
            (final(self).stage(), r) == step(
                old(self).plan(),
                old(self).saved(),
                old(self).stage(),
                outcome,
            ),
            final(self).saved() == saved_after(old(self).saved(), old(self).stage(), outcome),
            final(self).plan() == old(self).plan(),
    {
        proof {
            use_type_invariant(&*self);
        }
        let replied: bool = match outcome {
            Outcome::Replied(_) => true,
            _ => false,
        };
        match self.stage {
            Stage::Sync(n) => {
                if replied {
                    self.go(Stage::Echo, Action::SendRetry(Command::DisableEcho))
                } else {
                    self.go(Stage::SyncPause(n), Action::Wait(SYNC_PAUSE_MS))
                }
            },
            Stage::SyncPause(n) => {
                if n < SYNC_ATTEMPTS {
                    self.go(Stage::Sync(n + 1), Action::Send(Command::At))
                } else {
                    self.go(Stage::Failed, Action::Fail(BringUpError::NoResponse))
                }
            },
            Stage::Echo => match outcome {
                Outcome::Failed(e) => self.go(
                    Stage::Failed,
                    Action::Fail(BringUpError::from(e)),
                ),
                _ => self.go(Stage::Verbose, Action::Send(Command::VerboseErrors)),
            },
            Stage::Verbose => self.go(Stage::Baud, Action::Send(Command::BaudRate)),
            Stage::Baud => {
                if self.saved {
                    self.go(Stage::Function, Action::Send(Command::Functionality))
                } else {
                    self.go(Stage::Save, Action::Send(Command::SaveSettings))
                }
            },
            Stage::Save => {
                if replied {
                    self.saved = true;
                }
                self.go(Stage::Function, Action::Send(Command::Functionality))
            },
            Stage::Function => self.go(Stage::Pin, Action::SendRetry(Command::PinStatus)),
            Stage::Pin => match outcome {
                Outcome::Replied(Reply::Pin(code)) => {
                    if text::same_text(code.as_str(), "READY") {
                        self.go(Stage::Imsi, Action::Send(Command::Imsi))
                    } else {
                        self.go(Stage::Failed, Action::Fail(BringUpError::SimNotReady))
                    }
                },
                _ => self.go(Stage::Failed, Action::Fail(BringUpError::SimNotReady)),
            },
            Stage::Imsi => self.go(Stage::Iccid, Action::Send(Command::Iccid)),
            Stage::Iccid => self.go(Stage::Drain, Action::DropPending),
            Stage::Drain => self.begin_look(0),
            Stage::Signal(n) => {
                self.stage = Stage::Network(n);
                Action::Send(Command::NetworkRegistration)
            },
            Stage::Network(n) => {
                self.stage = Stage::Gprs(n, registration_stat(&outcome));
                Action::Send(Command::GprsRegistration)
            },
            Stage::Gprs(n, gsm) => {
                let gprs = registration_stat(&outcome);
                if is_registered(gsm) && is_registered(gprs) {
                    self.stage = Stage::Context;
                    Action::Send(Command::PdpContext)
                } else if n % OPERATOR_EVERY == 0 {
                    // Asking for the operator takes its time, so seldom.
                    self.stage = Stage::Operator(n);
                    Action::Send(Command::Operator)
                } else {
                    self.stage = Stage::RegistrationPause(n);
                    Action::Wait(REGISTRATION_PAUSE_MS)
                }
            },
            Stage::Operator(n) => {
                self.stage = Stage::RegistrationPause(n);
                Action::Wait(REGISTRATION_PAUSE_MS)
            },
            Stage::RegistrationPause(n) => self.begin_look(n + 1),
            Stage::Scan => self.go(Stage::Failed, Action::Fail(BringUpError::NotRegistered)),
            Stage::Context => match outcome {
                Outcome::Failed(e) => self.go(
                    Stage::Failed,
                    Action::Fail(BringUpError::from(e)),
                ),
                _ => self.go(Stage::AttachState, Action::Send(Command::AttachState)),
            },
            Stage::AttachState => {
                let attached: bool = match outcome {
                    Outcome::Replied(Reply::Attachment(state)) => state == 1,
                    _ => false,
                };
                if attached {
                    self.go(Stage::Shut, Action::Send(Command::ShutIpStack))
                } else {
                    self.go(Stage::Attach(1), Action::Send(Command::Attach))
                }
            },
            Stage::Attach(n) => {
                if replied {
                    self.go(Stage::Shut, Action::Send(Command::ShutIpStack))
                } else {
                    self.go(Stage::AttachPause(n), Action::Wait(ATTACH_PAUSE_MS))
                }
            },
            Stage::AttachPause(n) => {
                if n < ATTACH_ATTEMPTS {
                    self.go(Stage::Attach(n + 1), Action::Send(Command::Attach))
                } else {
                    self.go(Stage::Failed, Action::Fail(BringUpError::NotAttached))
                }
            },
            Stage::Shut => {
                if self.plan.dial {
                    self.go(Stage::Dial, Action::Send(Command::Dial))
                } else {
                    self.go(Stage::Up, Action::Done)
                }
            },
            Stage::Dial => match outcome {
                Outcome::Failed(_) => self.go(
                    Stage::Failed,
                    Action::Fail(BringUpError::DialFailed),
                ),
                _ => self.go(Stage::Up, Action::Done),
            },
            Stage::Up => self.go(Stage::Up, Action::Done),
            Stage::Failed => self.go(Stage::Failed, Action::Stopped),
        }
    }

    /// Takes a message that the modem sent of its own accord. While
    /// registration is awaited, a sign of a restart ends the sequence at once:
    /// going on would be pointless.
    pub fn on_urc(&mut self, urc: &Urc, ready_means_reset: bool) -> (r: Option<Action>)
        ensures
            in_registration(old(self).stage()) && resets(*urc, ready_means_reset) ==> r == Some(
                Action::Fail(BringUpError::ModemReset),
            ) && final(self).stage() == Stage::Failed,
            !(in_registration(old(self).stage()) && resets(*urc, ready_means_reset)) ==> r is None
                && final(self).stage() == old(self).stage(),
            final(self).plan() == old(self).plan(),
            final(self).saved() == old(self).saved(),
    {
        let watching: bool = match self.stage {
            Stage::Signal(_) => true,
            Stage::Network(_) => true,
            Stage::Gprs(_, _) => true,
            Stage::Operator(_) => true,
            Stage::RegistrationPause(_) => true,
            Stage::Scan => true,
            _ => false,
        };
        if watching && is_reset_urc(urc, ready_means_reset) {
            self.stage = Stage::Failed;
            Some(Action::Fail(BringUpError::ModemReset))
        } else {
            None
        }
    }
}

fn registration_stat(outcome: &Outcome) -> (r: Option<u8>)
    ensures
        r == stat_of(*outcome),
{
    match outcome {
        Outcome::Replied(Reply::Registration(stat)) => Some(*stat),
        _ => None,
    }
}

fn is_registered(stat: Option<u8>) -> (r: bool)
    ensures
        r == is_in(stat),
{
    match stat {
        Some(stat) => stat == 1 || stat == 5,
        None => false,
    }
}

/// Whether a message means that the module went through a restart.
pub open spec fn resets(urc: Urc, ready_means_reset: bool) -> bool {
    match urc {
        Urc::Ready => true,
        Urc::PowerDown => true,
        Urc::CallReady => ready_means_reset,
        Urc::SmsReady => ready_means_reset,
        Urc::PdpDeactivated => false,
        Urc::NewMessage(_) => false,
    }
}

/// Whether a message means that the module went through a restart.
///
/// `RDY` is clear, but after a drop of the supply it often comes garbled. The
/// two "ready" messages nearly always come through, and come at an ordinary
/// start too: whether they count is up to the caller.
pub fn is_reset_urc(urc: &Urc, ready_means_reset: bool) -> (r: bool)
    ensures
        r == resets(*urc, ready_means_reset),
{
    match urc {
        Urc::Ready => true,
        Urc::PowerDown => true,
        Urc::CallReady => ready_means_reset,
        Urc::SmsReady => ready_means_reset,
        Urc::PdpDeactivated => false,
        Urc::NewMessage(_) => false,
    }
}

/// The command that asks for errors in words, which read much better in a log.
pub fn verbose_errors() -> (r: SetVerboseErrors)
    ensures
        r.n == 2,
{
    SetVerboseErrors { n: 2 }
}

/// The command that fixes the speed: PPP cannot do with speed detection.
pub fn baud_rate() -> (r: SetBaudRate)
    ensures
        r.rate == config::UART_BAUDRATE,
        r.rate == 115_200,
{
    SetBaudRate { rate: config::UART_BAUDRATE }
}

/// The command that switches everything on.
pub fn functionality() -> (r: SetFunctionality)
    ensures
        r.fun == 1,
{
    SetFunctionality { fun: 1 }
}

/// The command that defines the PDP context: number 1, over IP, for this access
/// point.
pub fn pdp_context(apn: &str) -> (r: SetPdpContext<'_>)
    ensures
        r.cid == 1,
        r.pdp_type@ == "IP"@,
        r.apn@ == apn@,
{
    SetPdpContext { cid: 1, pdp_type: "IP", apn }
}

/// The command that attaches to GPRS.
pub fn gprs_attach() -> (r: SetGprsAttach)
    ensures
        r.state == 1,
{
    SetGprsAttach { state: 1 }
}

/// The command that dials.
pub fn dial() -> (r: DialPpp<'static>)
    ensures
        r.number@ == config::DIAL_STRING@,
        r.number@ == "*99***1#"@,
{
    DialPpp { number: config::DIAL_STRING }
}

/// The command that puts the line into the multiplexer: basic option, UIH
/// alone, 115200 baud, and the longest payload.
pub fn cmux_mode(n1: u16) -> (r: SetCmuxMode)
    ensures
        r.mode == 0,
        r.subset == 0,
        r.port_speed == 5,
        r.n1 == n1,
{
    SetCmuxMode { mode: 0, subset: 0, port_speed: 5, n1 }
}

/// The command that asks for SMS as text.
pub fn sms_text_mode() -> (r: SetSmsTextMode)
    ensures
        r.mode == 1,
{
    SetSmsTextMode { mode: 1 }
}

/// The command that has a new SMS kept and announced by its index.
///
/// Having its text sent along would not do: the text comes on a second line,
/// which a message of the modem's own accord does not have.
pub fn sms_indication() -> (r: SetSmsIndication)
    ensures
        r.mode == 2,
        r.mt == 1,
        r.bm == 0,
        r.ds == 0,
        r.bfr == 0,
{
    SetSmsIndication { mode: 2, mt: 1, bm: 0, ds: 0, bfr: 0 }
}

/// The command that has the time taken from the network.
pub fn network_time() -> (r: SetNetworkTime)
    ensures
        r.mode == 1,
{
    SetNetworkTime { mode: 1 }
}

/// What a line after the dial string says.
#[derive(Debug, Clone, Copy, PartialEq, Eq, Structural)]
pub enum DialAnswer {
    /// The line is in data mode now.
    Connected,
    /// It will not be.
    Refused,
    /// Something else.
    Other,
}

/// What a line after the dial string says: `CONNECT`, whatever follows it, or
/// one of the refusals.
pub open spec fn dial_answer_of(line: Seq<u8>) -> DialAnswer {
    if line.len() >= 7 && text::spells(line.take(7), "CONNECT"@) {
        DialAnswer::Connected
    } else if text::spells(line, "ERROR"@) || text::spells(line, "NO CARRIER"@) || text::spells(
        line,
        "BUSY"@,
    ) {
        DialAnswer::Refused
    } else {
        DialAnswer::Other
    }
}

/// Reads a line after the dial string.
pub fn dial_answer(line: &[u8]) -> (r: DialAnswer)
    ensures
        r == dial_answer_of(line@),
{
    if line.len() >= 7 {
        let start: &[u8] = &line[0..7];
        assert(start@ =~= line@.take(7));
        if text::is_spelling(start, "CONNECT") {
            return DialAnswer::Connected;
        }
    }
    if text::is_spelling(line, "ERROR") || text::is_spelling(line, "NO CARRIER")
        || text::is_spelling(line, "BUSY") {
        DialAnswer::Refused
    } else {
        DialAnswer::Other
    }
}

/// What a `<stat>` of `+CREG?` or `+CGREG?` says.
pub open spec fn stat_text(stat: Option<u8>) -> Seq<char> {
    match stat {
        None => "нет ответа"@,
        Some(code) => if code == 0 {
            "не ищет"@
        } else if code == 1 {
            "зарегистрирован (дома)"@
        } else if code == 2 {
            "ищет сеть"@
        } else if code == 3 {
            "ОТКАЗАНО"@
        } else if code == 4 {
            "неизвестно"@
        } else if code == 5 {
            "зарегистрирован (роуминг)"@
        } else {
            "нерасшифрованный код"@
        },
    }
}

/// A `<stat>` in words: 2 is no network in sight, 3 is a network that refuses.
pub fn stat_name(stat: Option<u8>) -> (r: &'static str)
    ensures
        r@ == stat_text(stat),
{
    match stat {
        None => "нет ответа",
        Some(code) => match code {
            0 => "не ищет",
            1 => "зарегистрирован (дома)",
            2 => "ищет сеть",
            3 => "ОТКАЗАНО",
            4 => "неизвестно",
            5 => "зарегистрирован (роуминг)",
            _ => "нерасшифрованный код",
        },
    }
}

/// A `<stat>` as a number for the log; -1 without an answer.
pub fn stat_code(stat: Option<u8>) -> (r: i16)
    ensures
        r == (match stat {
            Some(code) => code as int,
            None => -1,
        }),
{
    match stat {
        Some(code) => code as i16,
        None => -1,
    }
}

// ---------------------------------------------------------------------------
// What holds of the sequence
// ---------------------------------------------------------------------------

/// The module is dialled only when the IP stack was shut, and that only when
/// GPRS is attached: by its own word, or by ours.
pub proof fn law_dial_comes_last(plan: Plan, saved: bool, stage: Stage, outcome: Outcome)
    ensures
        step(plan, saved, stage, outcome).1 == Action::Send(Command::Dial) ==> stage == Stage::Shut,
        step(plan, saved, stage, outcome).0 == Stage::Shut ==> stage is AttachState
            || stage is Attach,
        step(plan, saved, stage, outcome).0 is AttachState ==> stage == Stage::Context,
        step(plan, saved, stage, outcome).0 == Stage::Context ==> stage is Gprs,
{
}

/// A PDP context is defined only once both networks have said "registered".
pub proof fn law_context_needs_both_registrations(
    plan: Plan,
    saved: bool,
    n: u32,
    gsm: Option<u8>,
    outcome: Outcome,
)
    ensures
        step(plan, saved, Stage::Gprs(n, gsm), outcome).1 == Action::Send(Command::PdpContext)
            <==> is_in(gsm) && is_in(stat_of(outcome)),
{
}

/// Settings that are kept are never written again, whatever happens.
pub proof fn law_settings_are_saved_once(plan: Plan, stage: Stage, outcome: Outcome)
    ensures
        step(plan, true, stage, outcome).1 != Action::Send(Command::SaveSettings),
        saved_after(true, stage, outcome),
{
}

/// How far the sequence is from its end: every step brings it nearer.
pub open spec fn distance(plan: Plan, stage: Stage) -> int {
    match stage {
        Stage::Sync(n) => 8 * plan.registration_attempts + 100 + 2 * (SYNC_ATTEMPTS - n) + 1,
        Stage::SyncPause(n) => 8 * plan.registration_attempts + 100 + 2 * (SYNC_ATTEMPTS - n),
        Stage::Echo => 8 * plan.registration_attempts + 60,
        Stage::Verbose => 8 * plan.registration_attempts + 59,
        Stage::Baud => 8 * plan.registration_attempts + 58,
        Stage::Save => 8 * plan.registration_attempts + 57,
        Stage::Function => 8 * plan.registration_attempts + 56,
        Stage::Pin => 8 * plan.registration_attempts + 55,
        Stage::Imsi => 8 * plan.registration_attempts + 54,
        Stage::Iccid => 8 * plan.registration_attempts + 53,
        Stage::Drain => 8 * plan.registration_attempts + 52,
        Stage::Signal(n) => 8 * (plan.registration_attempts - n) + 40 + 7,
        Stage::Network(n) => 8 * (plan.registration_attempts - n) + 40 + 6,
        Stage::Gprs(n, _) => 8 * (plan.registration_attempts - n) + 40 + 5,
        Stage::Operator(n) => 8 * (plan.registration_attempts - n) + 40 + 4,
        Stage::RegistrationPause(n) => 8 * (plan.registration_attempts - n) + 40 + 3,
        Stage::Scan => 41,
        Stage::Context => 30,
        Stage::AttachState => 29,
        Stage::Attach(n) => 10 + 2 * (ATTACH_ATTEMPTS - n) + 1,
        Stage::AttachPause(n) => 10 + 2 * (ATTACH_ATTEMPTS - n),
        Stage::Shut => 2,
        Stage::Dial => 1,
        Stage::Up => 0,
        Stage::Failed => 0,
    }
}

/// Whether the counters of a stage are within their limits.
pub open spec fn counted(plan: Plan, stage: Stage) -> bool {
    match stage {
        Stage::Sync(n) => 1 <= n <= SYNC_ATTEMPTS,
        Stage::SyncPause(n) => 1 <= n <= SYNC_ATTEMPTS,
        Stage::Signal(n) => n < plan.registration_attempts,
        Stage::Network(n) => n < plan.registration_attempts,
        Stage::Gprs(n, _) => n < plan.registration_attempts,
        Stage::Operator(n) => n < plan.registration_attempts,
        Stage::RegistrationPause(n) => n < plan.registration_attempts,
        Stage::Attach(n) => 1 <= n <= ATTACH_ATTEMPTS,
        Stage::AttachPause(n) => 1 <= n <= ATTACH_ATTEMPTS,
        _ => true,
    }
}

/// Whether the sequence is over, one way or the other.
pub open spec fn is_over(stage: Stage) -> bool {
    stage == Stage::Up || stage == Stage::Failed
}

/// Whatever the modem answers, the sequence comes to an end: every step is
/// nearer to it, and no counter runs past its limit. In particular `AT` is sent
/// at most twenty times and attaching is tried at most three times.
pub proof fn law_bring_up_ends(plan: Plan, saved: bool, stage: Stage, outcome: Outcome)
    requires
        counted(plan, stage),
        !is_over(stage),
    ensures
        counted(plan, step(plan, saved, stage, outcome).0),
        0 <= distance(plan, step(plan, saved, stage, outcome).0) < distance(plan, stage),
{
}

/// A step that ends the sequence says so, and says whether the module is up.
pub proof fn law_finishing_is_reported(plan: Plan, saved: bool, stage: Stage, outcome: Outcome)
    requires
        !is_over(stage),
    ensures
        step(plan, saved, stage, outcome).0 == Stage::Up <==> step(
            plan,
            saved,
            stage,
            outcome,
        ).1 is Done,
        step(plan, saved, stage, outcome).0 == Stage::Failed <==> step(
            plan,
            saved,
            stage,
            outcome,
        ).1 is Fail,
        !(step(plan, saved, stage, outcome).1 is Stopped),
        step(plan, saved, stage, outcome).1 is Done ==> stage == Stage::Dial || (stage
            == Stage::Shut && !plan.dial),
{
}

/// A sequence that is over stays over, and a failed one never reports success.
pub proof fn law_the_end_is_final(plan: Plan, saved: bool, outcome: Outcome)
    ensures
        step(plan, saved, Stage::Up, outcome) == (Stage::Up, Action::Done),
        step(plan, saved, Stage::Failed, outcome) == (Stage::Failed, Action::Stopped),
{
}

/// Whether an outcome is the answer "registered": at home, or roaming.
pub open spec fn says_registered(outcome: Outcome) -> bool {
    outcome matches Outcome::Replied(Reply::Registration(stat)) && (stat == 1 || stat == 5)
}

/// The actions that follow one another when the outcomes come in one by one.
pub open spec fn actions(plan: Plan, saved: bool, stage: Stage, outcomes: Seq<Outcome>) -> Seq<
    Action,
>
    decreases outcomes.len(),
{
    if outcomes.len() == 0 {
        Seq::empty()
    } else {
        let (next, action) = step(plan, saved, stage, outcomes[0]);
        seq![action] + actions(plan, saved_after(saved, stage, outcomes[0]), next, outcomes.skip(1))
    }
}

/// One more outcome, one more action.
proof fn lemma_actions_step(plan: Plan, saved: bool, stage: Stage, outcomes: Seq<Outcome>)
    requires
        outcomes.len() > 0,
    ensures
        ({
            let (next, action) = step(plan, saved, stage, outcomes[0]);
            actions(plan, saved, stage, outcomes) == seq![action] + actions(
                plan,
                saved_after(saved, stage, outcomes[0]),
                next,
                outcomes.skip(1),
            )
        }),
{
}

/// At every look, what `AT+CREG?` answered is judged together with what
/// `AT+CGREG?` answered: when both say "registered" the PDP context is next,
/// and when either does not, it is not. The number of the look does not matter.
pub proof fn law_both_replies_of_a_look_are_judged(
    plan: Plan,
    saved: bool,
    n: u32,
    creg: Outcome,
    cgreg: Outcome,
)
    ensures
        ({
            let (asked, question) = step(plan, saved, Stage::Network(n), creg);
            let (next, action) = step(plan, saved, asked, cgreg);
            &&& question == Action::Send(Command::GprsRegistration)
            &&& says_registered(creg) && says_registered(cgreg) ==> next == Stage::Context && action
                == Action::Send(Command::PdpContext)
            &&& !(says_registered(creg) && says_registered(cgreg)) ==> (next, action)
                == if n % 5 == 0 {
                (Stage::Operator(n), Action::Send(Command::Operator))
            } else {
                (Stage::RegistrationPause(n), Action::Wait(2000))
            }
        }),
{
}

/// A look asks for the signal, for the GSM network and for GPRS, whatever the
/// first two say. A look in vain is followed by a pause of two seconds, every
/// fifth time behind a question for the operator.
pub proof fn law_course_of_a_look(plan: Plan, saved: bool, n: u32, outcomes: Seq<Outcome>)
    requires
        n < plan.registration_attempts,
        outcomes.len() == 4,
        !(says_registered(outcomes[1]) && says_registered(outcomes[2])),
    ensures
        ({
            let course = actions(plan, saved, Stage::Signal(n), outcomes);
            &&& course.len() == 4
            &&& course[0] == Action::Send(Command::NetworkRegistration)
            &&& course[1] == Action::Send(Command::GprsRegistration)
            &&& n % 5 == 0 ==> course[2] == Action::Send(Command::Operator) && course[3]
                == Action::Wait(2000)
            &&& n % 5 != 0 ==> course[2] == Action::Wait(2000) && course[3] == if n + 1
                < plan.registration_attempts {
                Action::Send(Command::SignalQuality)
            } else if plan.scan_on_failure {
                Action::Send(Command::ScanOperators)
            } else {
                Action::Fail(BringUpError::NotRegistered)
            }
        }),
{
    let o1 = outcomes.skip(1);
    let o2 = o1.skip(1);
    let o3 = o2.skip(1);
    assert(o1[0] == outcomes[1] && o2[0] == outcomes[2] && o3[0] == outcomes[3]);
    lemma_actions_step(plan, saved, Stage::Signal(n), outcomes);
    lemma_actions_step(plan, saved, Stage::Network(n), o1);
    let (asked, _) = step(plan, saved, Stage::Network(n), o1[0]);
    lemma_actions_step(plan, saved, asked, o2);
    let (waiting, _) = step(plan, saved, asked, o2[0]);
    lemma_actions_step(plan, saved, waiting, o3);
    let (last, _) = step(plan, saved, waiting, o3[0]);
    assert(o3.skip(1).len() == 0);
    assert(actions(plan, saved, last, o3.skip(1)) =~= Seq::empty());
}

/// After the pause the next look begins, as long as one is left. After the last
/// one networks are scanned for where that is wanted, and then, or at once, the
/// sequence ends without registration.
pub proof fn law_looks_are_counted(plan: Plan, saved: bool, n: u32, first: Outcome, second: Outcome)
    requires
        n < plan.registration_attempts,
    ensures
        ({
            let (paused, pause) = step(plan, saved, Stage::Operator(n), first);
            let (next, action) = step(plan, saved, paused, second);
            let (end, verdict) = step(plan, saved, next, first);
            &&& pause == Action::Wait(2000)
            &&& n + 1 < plan.registration_attempts ==> next == Stage::Signal((n + 1) as u32)
                && action == Action::Send(Command::SignalQuality)
            &&& n + 1 == plan.registration_attempts && plan.scan_on_failure ==> action
                == Action::Send(Command::ScanOperators) && verdict == Action::Fail(
                BringUpError::NotRegistered,
            ) && end == Stage::Failed
            &&& n + 1 == plan.registration_attempts && !plan.scan_on_failure ==> next
                == Stage::Failed && action == Action::Fail(BringUpError::NotRegistered)
        }),
        step(plan, saved, Stage::RegistrationPause(n), second) == step(
            plan,
            saved,
            step(plan, saved, Stage::Operator(n), first).0,
            second,
        ),
{
}

/// The looks begin with number 0, where there is to be any, and a look keeps its
/// number.
pub proof fn law_looks_begin_with_the_first(plan: Plan, saved: bool, n: u32, outcome: Outcome)
    ensures
        plan.registration_attempts > 0 ==> step(plan, saved, Stage::Drain, outcome) == (
            Stage::Signal(0),
            Action::Send(Command::SignalQuality),
        ),
        step(plan, saved, Stage::Signal(n), outcome) == (
            Stage::Network(n),
            Action::Send(Command::NetworkRegistration),
        ),
{
}

/// A module that does not answer is called again after half a second, twenty
/// times in all, and then given up.
pub proof fn law_silent_module_is_called_twenty_times(
    plan: Plan,
    saved: bool,
    n: u32,
    silence: Outcome,
    over: Outcome,
)
    requires
        !(silence is Replied),
    ensures
        ({
            let (paused, pause) = step(plan, saved, Stage::Sync(n), silence);
            let (next, action) = step(plan, saved, paused, over);
            &&& pause == Action::Wait(500)
            &&& n < 20 ==> next == Stage::Sync((n + 1) as u32) && action == Action::Send(Command::At)
            &&& n >= 20 ==> next == Stage::Failed && action == Action::Fail(
                BringUpError::NoResponse,
            )
        }),
{
}

/// Whichever `AT` was answered, the settings follow in this order: echo off,
/// errors in words, speed, keeping them where that was not done before, full
/// functionality, and the question for the SIM card. Once the card is ready its
/// numbers are asked for, the messages so far are dropped and the looks at the
/// registration begin. Only the echo and the card can stop this: whether the
/// other commands succeed does not matter.
pub proof fn law_settings_go_out_in_order(
    plan: Plan,
    n: u32,
    outcomes: Seq<Outcome>,
    keeping: Outcome,
)
    requires
        outcomes.len() == 9,
        outcomes[0] is Replied,
        !(outcomes[1] is Failed),
        outcomes[5] matches Outcome::Replied(Reply::Pin(code)) && code@ == "READY"@,
        plan.registration_attempts > 0,
    ensures
        ({
            let fresh = outcomes.subrange(0, 4).push(keeping) + outcomes.subrange(4, 9);
            let rest = seq![
                Action::Send(Command::Functionality),
                Action::SendRetry(Command::PinStatus),
                Action::Send(Command::Imsi),
                Action::Send(Command::Iccid),
                Action::DropPending,
                Action::Send(Command::SignalQuality),
            ];
            let start = seq![
                Action::SendRetry(Command::DisableEcho),
                Action::Send(Command::VerboseErrors),
                Action::Send(Command::BaudRate),
            ];
            &&& actions(plan, true, Stage::Sync(n), outcomes) == start + rest
            &&& actions(plan, false, Stage::Sync(n), fresh) == start.push(
                Action::Send(Command::SaveSettings),
            ) + rest
        }),
{
    let fresh = outcomes.subrange(0, 4).push(keeping) + outcomes.subrange(4, 9);
    lemma_first_settings(plan, true, n, outcomes);
    lemma_first_settings(plan, false, n, fresh);
    let late = outcomes.skip(3).skip(1);
    lemma_actions_step(plan, true, Stage::Baud, outcomes.skip(3));
    lemma_last_settings(plan, true, late);
    let keep = fresh.skip(3);
    lemma_actions_step(plan, false, Stage::Baud, keep);
    lemma_actions_step(plan, false, Stage::Save, keep.skip(1));
    assert(keep.skip(1).skip(1) =~= late);
    lemma_last_settings(plan, saved_after(false, Stage::Save, keeping), late);
    assert(keep.skip(1)[0] == keeping);
}

/// The first three of the settings.
proof fn lemma_first_settings(plan: Plan, saved: bool, n: u32, outcomes: Seq<Outcome>)
    requires
        outcomes.len() >= 3,
        outcomes[0] is Replied,
        !(outcomes[1] is Failed),
    ensures
        actions(plan, saved, Stage::Sync(n), outcomes) == seq![
            Action::SendRetry(Command::DisableEcho),
            Action::Send(Command::VerboseErrors),
            Action::Send(Command::BaudRate),
        ] + actions(plan, saved, Stage::Baud, outcomes.skip(3)),
{
    let o1 = outcomes.skip(1);
    let o2 = o1.skip(1);
    assert(o1[0] == outcomes[1] && o2[0] == outcomes[2]);
    assert(o2.skip(1) =~= outcomes.skip(3));
    lemma_actions_step(plan, saved, Stage::Sync(n), outcomes);
    lemma_actions_step(plan, saved, Stage::Echo, o1);
    lemma_actions_step(plan, saved, Stage::Verbose, o2);
}

/// The rest of the settings, up to the first look at the registration.
proof fn lemma_last_settings(plan: Plan, saved: bool, outcomes: Seq<Outcome>)
    requires
        outcomes.len() == 5,
        outcomes[1] matches Outcome::Replied(Reply::Pin(code)) && code@ == "READY"@,
        plan.registration_attempts > 0,
    ensures
        actions(plan, saved, Stage::Function, outcomes) == seq![
            Action::SendRetry(Command::PinStatus),
            Action::Send(Command::Imsi),
            Action::Send(Command::Iccid),
            Action::DropPending,
            Action::Send(Command::SignalQuality),
        ],
{
    let o1 = outcomes.skip(1);
    let o2 = o1.skip(1);
    let o3 = o2.skip(1);
    let o4 = o3.skip(1);
    assert(o1[0] == outcomes[1]);
    lemma_actions_step(plan, saved, Stage::Function, outcomes);
    lemma_actions_step(plan, saved, Stage::Pin, o1);
    lemma_actions_step(plan, saved, Stage::Imsi, o2);
    lemma_actions_step(plan, saved, Stage::Iccid, o3);
    lemma_actions_step(plan, saved, Stage::Drain, o4);
    assert(actions(plan, saved, Stage::Signal(0), o4.skip(1)) =~= Seq::empty());
}

/// What stops the settings: an echo that cannot be switched off, and a SIM card
/// that does not say `READY`.
pub proof fn law_what_stops_the_settings(plan: Plan, saved: bool, outcome: Outcome)
    ensures
        outcome matches Outcome::Failed(e) ==> step(plan, saved, Stage::Echo, outcome) == (
            Stage::Failed,
            Action::Fail(BringUpError::At(e)),
        ),
        !(outcome matches Outcome::Replied(Reply::Pin(code)) && code@ == "READY"@) ==> step(
            plan,
            saved,
            Stage::Pin,
            outcome,
        ) == (Stage::Failed, Action::Fail(BringUpError::SimNotReady)),
        plan.registration_attempts == 0 ==> step(plan, saved, Stage::Drain, outcome)
            == if plan.scan_on_failure {
            (Stage::Scan, Action::Send(Command::ScanOperators))
        } else {
            (Stage::Failed, Action::Fail(BringUpError::NotRegistered))
        },
{
}

/// The settings count as kept when they did before, or when the command that
/// keeps them was answered.
pub proof fn law_kept_settings(plan: Plan, saved: bool, stage: Stage, outcome: Outcome)
    ensures
        saved_after(saved, stage, outcome) <==> saved || (stage == Stage::Save
            && outcome is Replied),
        step(plan, saved, stage, outcome).0 == Stage::Save <==> step(
            plan,
            saved,
            stage,
            outcome,
        ).1 == Action::Send(Command::SaveSettings),
{
}

/// A context that was defined is followed by the question whether GPRS is
/// attached. Only the answer 1 saves attaching. Attaching is tried three times,
/// two seconds apart.
pub proof fn law_attaching(plan: Plan, saved: bool, n: u32, first: Outcome, second: Outcome)
    ensures
        first matches Outcome::Failed(e) ==> step(plan, saved, Stage::Context, first) == (
            Stage::Failed,
            Action::Fail(BringUpError::At(e)),
        ),
        !(first is Failed) ==> ({
            let (asked, question) = step(plan, saved, Stage::Context, first);
            let (next, action) = step(plan, saved, asked, second);
            let attached = second matches Outcome::Replied(Reply::Attachment(state)) && state == 1;
            &&& question == Action::Send(Command::AttachState)
            &&& attached ==> next == Stage::Shut && action == Action::Send(Command::ShutIpStack)
            &&& !attached ==> next == Stage::Attach(1) && action == Action::Send(Command::Attach)
        }),
        first is Replied ==> step(plan, saved, Stage::Attach(n), first) == (
            Stage::Shut,
            Action::Send(Command::ShutIpStack),
        ),
        !(first is Replied) ==> ({
            let (paused, pause) = step(plan, saved, Stage::Attach(n), first);
            let (next, action) = step(plan, saved, paused, second);
            &&& pause == Action::Wait(2000)
            &&& n < 3 ==> next == Stage::Attach((n + 1) as u32) && action == Action::Send(
                Command::Attach,
            )
            &&& n >= 3 ==> next == Stage::Failed && action == Action::Fail(
                BringUpError::NotAttached,
            )
        }),
{
}

/// Whether the stack could be shut does not matter. Then the plan decides: to
/// dial, or to be done. A dial string that fails ends the sequence.
pub proof fn law_dialling(plan: Plan, saved: bool, first: Outcome, second: Outcome)
    ensures
        ({
            let (next, action) = step(plan, saved, Stage::Shut, first);
            let (end, verdict) = step(plan, saved, next, second);
            &&& !plan.dial ==> next == Stage::Up && action == Action::Done
            &&& plan.dial ==> action == Action::Send(Command::Dial)
            &&& plan.dial && second is Failed ==> end == Stage::Failed && verdict == Action::Fail(
                BringUpError::DialFailed,
            )
            &&& plan.dial && !(second is Failed) ==> end == Stage::Up && verdict == Action::Done
        }),
{
}

/// A restart shows in `RDY` and in a power-down, and in the other two messages
/// of a start where those count. It ends the sequence only between the dropping
/// of the pending messages and the PDP context.
pub proof fn law_signs_of_a_restart(
    urc: Urc,
    ready_means_reset: bool,
    plan: Plan,
    saved: bool,
    stage: Stage,
    outcome: Outcome,
)
    ensures
        resets(urc, ready_means_reset) <==> urc is Ready || urc is PowerDown || (ready_means_reset
            && (urc is CallReady || urc is SmsReady)),
        !in_registration(stage) && in_registration(step(plan, saved, stage, outcome).0) ==> stage
            == Stage::Drain,
        stage == Stage::Drain ==> !in_registration(stage) && (in_registration(
            step(plan, saved, stage, outcome).0,
        ) || step(plan, saved, stage, outcome).0 == Stage::Failed),
        in_registration(stage) && !in_registration(step(plan, saved, stage, outcome).0) ==> step(
            plan,
            saved,
            stage,
            outcome,
        ).0 == Stage::Context || step(plan, saved, stage, outcome).0 == Stage::Failed,
{
}

/// `CONNECT` at the start of a line means data mode, whatever follows it. Three
/// lines mean a refusal, and nothing else means anything.
pub proof fn law_answers_to_the_dial_string(line: Seq<u8>, rest: Seq<u8>)
    ensures
        ({
            let connect = vstd::utf8::encode_utf8("CONNECT"@);
            let refused = line == vstd::utf8::encode_utf8("ERROR"@) || line
                == vstd::utf8::encode_utf8("NO CARRIER"@) || line == vstd::utf8::encode_utf8(
                "BUSY"@,
            );
            &&& dial_answer_of(connect + rest) == DialAnswer::Connected
            &&& dial_answer_of(line) == DialAnswer::Connected ==> connect.is_prefix_of(line)
            &&& dial_answer_of(line) == DialAnswer::Refused <==> refused
        }),
{
    reveal_strlit("CONNECT");
    reveal_strlit("ERROR");
    reveal_strlit("NO CARRIER");
    reveal_strlit("BUSY");
    let connect = vstd::utf8::encode_utf8("CONNECT"@);
    vstd::utf8::is_ascii_chars_encode_utf8("CONNECT"@);
    vstd::utf8::is_ascii_chars_encode_utf8("NO CARRIER"@);
    vstd::utf8::is_ascii_chars_encode_utf8("ERROR"@);
    vstd::utf8::is_ascii_chars_encode_utf8("BUSY"@);
    assert((connect + rest).take(7) =~= connect);
    text::law_spelling((connect + rest).take(7), "CONNECT"@);
    text::law_spelling(line.take(7), "CONNECT"@);
    text::law_spelling(line, "ERROR"@);
    text::law_spelling(line, "NO CARRIER"@);
    text::law_spelling(line, "BUSY"@);
    if line == vstd::utf8::encode_utf8("NO CARRIER"@) && line.take(7) == connect {
        assert(line[0] == line.take(7)[0]);
    }
}

/// A `<stat>` that has no name is said to have none.
pub proof fn law_stats_without_a_name(stat: u8)
    requires
        stat > 5,
    ensures
        stat_text(Some(stat)) == "нерасшифрованный код"@,
{
}

} // verus!
