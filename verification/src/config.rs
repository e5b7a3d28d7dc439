//! What has to be set for a board and an operator.

use vstd::prelude::*;

verus! {

/// Access point of the operator.
pub const APN: &'static str = "internet";

/// User name of PPP; most operators take an empty one.
pub const PPP_USERNAME: &'static str = "";

/// Password of PPP.
pub const PPP_PASSWORD: &'static str = "";

/// Dial string of PPP: it uses PDP context 1.
pub const DIAL_STRING: &'static str = "*99***1#";

/// Speed of the UART of the modem.
pub const UART_BAUDRATE: u32 = 115_200;

/// How often to look for a registration, every two seconds.
pub const REGISTRATION_ATTEMPTS: u32 = 60;

/// Whether to scan for networks when registration fails. It takes minutes, and
/// tells whether there is any network at all.
pub const SCAN_OPERATORS_ON_FAILURE: bool = true;

/// Pause before another try after the link fell, in seconds.
pub const RECONNECT_DELAY_SECS: u64 = 10;

/// Host of the demonstration request.
pub const DEMO_HOST: &'static str = "example.com";

/// Port of the demonstration request.
pub const DEMO_PORT: u16 = 80;

} // verus!
