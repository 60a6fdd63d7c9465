//! Process lifecycle: the port to listen on, the watchdog over the parent
//! process, and the logging setup.

use vstd::prelude::*;

use crate::text::{chars_of, opt_str};

verus! {

/// The value of a decimal digit; none for any other character.
pub open spec fn digit_value(c: char) -> Option<int> {
    if '0' <= c <= '9' {
        Some(c as int - '0' as int)
    } else {
        None
    }
}

/// Every character is a decimal digit.
pub open spec fn all_digits(text: Seq<char>) -> bool {
    forall|i: int| 0 <= i < text.len() ==> digit_value(#[trigger] text[i]) is Some
}

/// The number that a text of decimal digits denotes.
pub open spec fn decimal(digits: Seq<char>) -> int
    decreases digits.len(),
{
    if digits.len() == 0 {
        0
    } else {
        decimal(digits.drop_last()) * 10 + digit_value(digits.last()).unwrap()
    }
}

/// The digits of a port text: what follows one optional `+`.
pub open spec fn unsigned_part(text: Seq<char>) -> Seq<char> {
    if text.len() > 0 && text[0] == '+' {
        text.skip(1)
    } else {
        text
    }
}

/// The port that `text` denotes: one or more decimal digits behind an
/// optional `+`, not above 65535. None for any other text.
pub open spec fn port_of(text: Seq<char>) -> Option<u16> {
    let digits = unsigned_part(text);
    if digits.len() > 0 && all_digits(digits) && decimal(digits) <= u16::MAX {
        Some(decimal(digits) as u16)
    } else {
        None
    }
}

proof fn lemma_decimal_grows(digits: Seq<char>, n: int)
    requires
        0 <= n <= digits.len(),
        all_digits(digits),
    ensures
        0 <= decimal(digits.take(n)) <= decimal(digits),
    decreases digits.len() - n,
{
    if n == digits.len() {
        assert(digits.take(n) =~= digits);
        lemma_decimal_is_natural(digits);
    } else {
        lemma_decimal_grows(digits, n + 1);
        assert(digits.take(n + 1).drop_last() =~= digits.take(n));
        assert(digit_value(digits.take(n + 1).last()) is Some) by {
            assert(digits.take(n + 1).last() == digits[n]);
        }
        lemma_decimal_is_natural(digits.take(n));
    }
}

proof fn lemma_decimal_is_natural(digits: Seq<char>)
    ensures
        all_digits(digits) ==> decimal(digits) >= 0,
    decreases digits.len(),
{
    if digits.len() > 0 && all_digits(digits) {
        assert(all_digits(digits.drop_last())) by {
            assert forall|i: int| 0 <= i < digits.drop_last().len() implies digit_value(
                #[trigger] digits.drop_last()[i],
            ) is Some by {
                assert(digits.drop_last()[i] == digits[i]);
            }
        }
        lemma_decimal_is_natural(digits.drop_last());
        assert(digit_value(digits[digits.len() - 1]) is Some);
    }
}

/// Reads a port number.
pub fn parse_port(text: &str) -> (out: Option<u16>)
    ensures
        out == port_of(text@),
{
    let chars = chars_of(text);
    let start: usize = if chars.len() > 0 && chars[0] == '+' {
        1
    } else {
        0
    };
    let ghost digits = unsigned_part(text@);
    proof {
        assert(digits =~= chars@.skip(start as int));
    }
    if start == chars.len() {
        return None;
    }
    let mut value: u32 = 0;
    let mut i: usize = start;
    proof {
        assert(digits.take(0) =~= Seq::<char>::empty());
    }
    while i < chars.len()
        invariant
            start <= i <= chars.len(),
            digits == chars@.skip(start as int),
            digits == unsigned_part(text@),
            all_digits(digits.take(i - start)),
            value == decimal(digits.take(i - start)),
            value <= u16::MAX,
        decreases chars.len() - i,
    {
        let c = chars[i];
        let ghost before = digits.take(i - start);
        let ghost after = digits.take(i - start + 1);
        proof {
            assert(after.drop_last() =~= before);
            assert(after.last() == c);
        }
        if c < '0' || c > '9' {
            proof {
                assert(digits[i - start] == c);
            }
            return None;
        }
        let digit: u32 = c as u32 - '0' as u32;
        let next: u32 = value * 10 + digit;
        proof {
            assert(all_digits(after)) by {
                assert forall|k: int| 0 <= k < after.len() implies digit_value(#[trigger] after[k]) is Some by {
                    if k < before.len() {
                        assert(after[k] == before[k]);
                    }
                }
            }
            assert(next == decimal(after));
        }
        if next > 65535 {
            proof {
                if all_digits(digits) {
                    lemma_decimal_grows(digits, i - start + 1);
                }
            }
            return None;
        }
        value = next;
        i += 1;
    }
    proof {
        assert(digits.take(chars.len() - start) =~= digits);
    }
    Some(value as u16)
}

/// Where the listener is to be bound.
#[derive(Clone, Copy, Debug, PartialEq, Eq, Structural)]
pub enum PortChoice {
    /// The configured port.
    Fixed(u16),
    /// Any port that the system has free.
    Ephemeral,
}

/// A port was configured, but its text denotes none.
#[derive(Clone, Copy, Debug, PartialEq, Eq, Structural)]
pub struct PortError;

/// The port choice that a configuration stands for.
pub open spec fn port_choice(configured: Option<Seq<char>>) -> Result<PortChoice, PortError> {
    match configured {
        Some(text) => match port_of(text) {
            Some(port) => Ok(PortChoice::Fixed(port)),
            None => Err(PortError),
        },
        None => Ok(PortChoice::Ephemeral),
    }
}

/// Chooses the port from the configured override, if there is one. A
/// configured text that denotes no port is an error: the process is then
/// not to start.
pub fn get_port(configured: Option<&str>) -> (out: Result<PortChoice, PortError>)
    ensures
        out == port_choice(opt_str(configured)),
{
    match configured {
        Some(text) => match parse_port(text) {
            Some(port) => Ok(PortChoice::Fixed(port)),
            None => Err(PortError),
        },
        None => Ok(PortChoice::Ephemeral),
    }
}

/// Milliseconds between two looks at the parent process.
pub const POLL_INTERVAL_MS: u64 = 1000;

/// The state of the watchdog.
#[derive(Clone, Copy, Debug, PartialEq, Eq, Structural)]
pub enum Watch {
    /// The process has yet to find its parent.
    Starting,
    /// The process watches the parent with the given id.
    Watching { parent: u32 },
    /// The watchdog has asked for the shutdown.
    Stopped,
}

/// What a look at the process table gave.
#[derive(Clone, Copy, Debug, PartialEq, Eq, Structural)]
pub enum Sighting {
    /// The look at the process itself: the id of its parent, or none where
    /// any step of the lookup failed.
    Own { parent: Option<u32> },
    /// The look at the parent: whether it is still there.
    Parent { alive: bool },
}

/// What the watchdog is to do next.
#[derive(Clone, Copy, Debug, PartialEq, Eq, Structural)]
pub enum WatchAction {
    /// Look the process itself up, to find its parent.
    FindParent,
    /// Wait for `after_ms` milliseconds, then look the parent up.
    Probe { parent: u32, after_ms: u64 },
    /// Stop the listener. In-flight requests complete where `graceful`.
    Stop { graceful: bool },
}

/// One step of the watchdog.
///
/// Once the parent is found it is probed at once, and again after every
/// interval for as long as it is there. When it is gone, when a lookup
/// fails, or when a sighting arrives that the state does not wait for, the
/// watchdog asks for a graceful stop and stays stopped.
pub open spec fn watch_step(state: Watch, sighting: Sighting) -> (Watch, WatchAction) {
    match (state, sighting) {
        (Watch::Starting, Sighting::Own { parent: Some(parent) }) => (
            Watch::Watching { parent },
            WatchAction::Probe { parent, after_ms: 0 },
        ),
        (Watch::Watching { parent }, Sighting::Parent { alive: true }) => (
            Watch::Watching { parent },
            WatchAction::Probe { parent, after_ms: POLL_INTERVAL_MS },
        ),
        _ => (Watch::Stopped, WatchAction::Stop { graceful: true }),
    }
}

impl Watch {
    /// The watchdog at startup, and its first action.
    pub fn start() -> (out: (Watch, WatchAction))
        ensures
            out == (Watch::Starting, WatchAction::FindParent),
    {
        (Watch::Starting, WatchAction::FindParent)
    }

    /// Takes in a sighting and names the next action.
    pub fn step(self, sighting: Sighting) -> (out: (Watch, WatchAction))
        ensures
            out == watch_step(self, sighting),
    {
        match (self, sighting) {
            (Watch::Starting, Sighting::Own { parent: Some(parent) }) => (
                Watch::Watching { parent },
                WatchAction::Probe { parent, after_ms: 0 },
            ),
            (Watch::Watching { parent }, Sighting::Parent { alive: true }) => (
                Watch::Watching { parent },
                WatchAction::Probe { parent, after_ms: POLL_INTERVAL_MS },
            ),
            _ => (Watch::Stopped, WatchAction::Stop { graceful: true }),
        }
    }
}

/// The logging setup of a backend.
#[derive(Debug)]
pub struct Telemetry {
    /// The name under which the records are written.
    pub name: String,
    /// The filter directives: which targets are logged at which level.
    pub filter: String,
}

/// The filter directives for the backend `app_name`: everything of the
/// backend itself, and debug records of this library and of the web
/// server.
pub open spec fn filter_for(app_name: Seq<char>) -> Seq<char> {
    app_name + "=trace,xcmd_base=debug,actix_web=debug"@
}

/// The logging setup for the backend `app_name`.
pub fn init_telemetry(app_name: &str) -> (out: Telemetry)
    ensures
        out.name@ == "xcmd_base"@,
        out.filter@ == filter_for(app_name@),
{
    let mut filter = app_name.to_owned();
    filter.append("=trace,xcmd_base=debug,actix_web=debug");
    Telemetry { name: "xcmd_base".to_owned(), filter }
}

} // verus!
