use crate::text::is_part_of;
use vstd::prelude::*;

verus! {

/// The game titles whose traffic can be read.
#[derive(Clone, Copy, PartialEq, Eq, Structural, Debug)]
pub enum Game {
    Hsr,
    Gi,
    Zzz,
}

/// Path segment of the achievement tracker page for each game.
pub open spec fn achievement_prefix(g: Game) -> Seq<char> {
    match g {
        Game::Hsr => ""@,
        Game::Gi => "genshin"@,
        Game::Zzz => "zzz"@,
    }
}

/// Path of the pull tracker page for each game.
pub open spec fn pull_path(g: Game) -> Seq<char> {
    match g {
        Game::Hsr => "warp-tracker"@,
        Game::Gi => "genshin/wish-tracker"@,
        Game::Zzz => "zzz/signal-tracker"@,
    }
}

pub open spec fn site_root() -> Seq<char> {
    "https://stardb.gg/"@
}

/// The capture filter of each game's session traffic; none is known for Zzz.
pub open spec fn filter_of(g: Game) -> Option<Seq<char>> {
    match g {
        Game::Hsr => Some("udp portrange 23301-23302"@),
        Game::Gi => Some("udp portrange 22101-22102"@),
        Game::Zzz => None,
    }
}

#[verifier::external_type_specification]
#[verifier::external_body]
pub struct ExRegex(regex::Regex);

/// Relies on `regex::Regex::new`: compiles a pattern, failing on invalid syntax.
#[verifier::external_body]
fn compile_pattern(pattern: &str) -> (r: Option<regex::Regex>) {
    regex::Regex::new(pattern).ok()
}

/// Relies on `regex::Regex::find`: a match, when there is one, is a contiguous
/// part of the text.
#[verifier::external_body]
fn find_match(re: &regex::Regex, text: &str) -> (r: Option<String>)
    ensures
        r matches Some(m) ==> is_part_of(m@, text@),
{
    match re.find(text) {
        Some(m) => Some(m.as_str().to_string()),
        None => None,
    }
}

/// Why the install directory of a game was not found.
#[derive(Clone, Copy, PartialEq, Eq, Structural, Debug)]
pub enum GamePathError {
    /// The install directory is looked up from the log for Gi only.
    Unsupported,
    /// The directory pattern did not compile.
    BadPattern,
    /// No log line names the install directory.
    NotFound,
}

impl Game {
    /// Finds the install directory named in the lines of the game's log: the
    /// first match of a drive path ending in the data directory.
    pub fn game_path(self, log_lines: &Vec<String>) -> (r: Result<String, GamePathError>)
        ensures
            r matches Ok(p) ==> exists|i: int| 0 <= i < log_lines@.len() && is_part_of(p@, #[trigger] log_lines@[i]@),
            self != Game::Gi ==> r == Err::<String, GamePathError>(GamePathError::Unsupported),
            log_lines@.len() == 0 && self == Game::Gi ==> r is Err,
    {
        if self != Game::Gi {
            return Err(GamePathError::Unsupported);
        }
        let re = match compile_pattern(".:\\\\.+(GenshinImpact_Data|YuanShen_Data)") {
            Some(re) => re,
            None => return Err(GamePathError::BadPattern),
        };
        let mut i: usize = 0;
        while i < log_lines.len()
            invariant
                i <= log_lines.len(),
                self == Game::Gi,
            decreases log_lines.len() - i,
        {
            match find_match(&re, log_lines[i].as_str()) {
                Some(m) => {
                    assert(is_part_of(m@, log_lines@[i as int]@));
                    return Ok(m);
                },
                None => {},
            }
            i = i + 1;
        }
        Err(GamePathError::NotFound)
    }

    /// The capture filter expression for the game's traffic.
    pub fn packet_filter(self) -> (r: Option<String>)
        ensures
            r matches Some(f) ==> filter_of(self) == Some(f@),
            r is None ==> filter_of(self) is None,
    {
        match self {
            Game::Hsr => Some(String::from_str("udp portrange 23301-23302")),
            Game::Gi => Some(String::from_str("udp portrange 22101-22102")),
            Game::Zzz => None,
        }
    }

    /// Address of the game's achievement tracker page.
    pub fn achievement_url(self) -> (r: String)
        ensures
            r@ == site_root() + achievement_prefix(self) + "/achievement-tracker"@,
    {
        let prefix = match self {
            Game::Hsr => "",
            Game::Gi => "genshin",
            Game::Zzz => "zzz",
        };
        let mut url = String::from_str("https://stardb.gg/");
        url.append(prefix);
        url.append("/achievement-tracker");
        url
    }

    /// Address of the game's pull (wish) tracker page.
    pub fn pull_url(self) -> (r: String)
        ensures
            r@ == site_root() + pull_path(self),
    {
        let path = match self {
            Game::Hsr => "warp-tracker",
            Game::Gi => "genshin/wish-tracker",
            Game::Zzz => "zzz/signal-tracker",
        };
        let mut url = String::from_str("https://stardb.gg/");
        url.append(path);
        url
    }
}

/// A network interface as the capture provider lists it.
pub struct DeviceInfo {
    pub name: String,
    pub connected: bool,
    pub n_addresses: usize,
    pub loopback: bool,
}

/// A device is captured on when it is connected, has an address and is not loopback.
pub open spec fn is_eligible(d: DeviceInfo) -> bool {
    d.connected && d.n_addresses > 0 && !d.loopback
}

/// Positions of the eligible devices, in order.
pub open spec fn eligible_indices(devices: Seq<DeviceInfo>) -> Seq<usize>
    decreases devices.len(),
{
    if devices.len() == 0 {
        seq![]
    } else {
        let p = eligible_indices(devices.drop_last());
        if is_eligible(devices.last()) {
            p.push((devices.len() - 1) as usize)
        } else {
            p
        }
    }
}

/// Why no capture could be started.
#[derive(Clone, Copy, PartialEq, Eq, Structural, Debug)]
pub enum DeviceError {
    /// No device is connected, addressed and not loopback.
    NoDevices,
}

/// Positions of the devices to capture on; fails when there is none.
pub fn select_devices(devices: &Vec<DeviceInfo>) -> (r: Result<Vec<usize>, DeviceError>)
    ensures
        eligible_indices(devices@).len() > 0 ==> (r matches Ok(v) && v@ == eligible_indices(
            devices@,
        )),
        eligible_indices(devices@).len() == 0 ==> r == Err::<Vec<usize>, DeviceError>(
            DeviceError::NoDevices,
        ),
{
    let mut out: Vec<usize> = Vec::new();
    let mut i: usize = 0;
    while i < devices.len()
        invariant
            i <= devices.len(),
            out@ == eligible_indices(devices@.take(i as int)),
        decreases devices.len() - i,
    {
        proof {
            assert(devices@.take(i + 1).drop_last() == devices@.take(i as int));
            assert(devices@.take(i + 1).last() == devices@[i as int]);
        }
        let d = &devices[i];
        if d.connected && d.n_addresses > 0 && !d.loopback {
            out.push(i);
        }
        i = i + 1;
    }
    assert(devices@.take(devices.len() as int) == devices@);
    if out.len() == 0 {
        Err(DeviceError::NoDevices)
    } else {
        Ok(out)
    }
}

/// Where a capture session stands.
#[derive(Clone, Copy, PartialEq, Eq, Structural, Debug)]
pub enum CaptureState {
    /// About to open a handle on the device.
    Opening,
    /// Reading datagrams; `has_captured` once one was read since the handle opened.
    Capturing { has_captured: bool },
    /// The session is over.
    Stopped,
}

/// What the outside world reports to a capture session.
#[derive(Clone, Copy, PartialEq, Eq, Structural, Debug)]
pub enum CaptureEvent {
    /// The handle opened and the filter is installed.
    Opened,
    /// The handle or its filter could not be set up.
    OpenFailed,
    /// A datagram was read.
    Datagram,
    /// The read timed out.
    Timeout,
    /// The read failed otherwise.
    ReadFailed,
    /// The consumer is gone: a datagram could not be handed on.
    SendFailed,
}

/// What a capture session asks of the outside world next.
#[derive(Clone, Copy, PartialEq, Eq, Structural, Debug)]
pub enum CaptureAction {
    /// Open a handle on the device and install the filter.
    Open,
    /// Announce that the device is ready, then read.
    NotifyReady,
    /// Hand the datagram just read to the consumer, then read.
    Forward,
    /// Read the next datagram.
    Read,
    /// Announce a failure, then open the device again.
    NotifyRestart,
    /// End the session and report the error.
    Fail,
    /// End the session without a word.
    Exit,
}

/// The session's rules. A read failure on a device that never gave a datagram
/// ends the session quietly (it sees no matching traffic); on a device that did,
/// it restarts the session. Timeouts are ignored. Failing to open, or to hand a
/// datagram on, ends the session with an error.
pub open spec fn capture_transition(s: CaptureState, e: CaptureEvent) -> (CaptureState, CaptureAction) {
    match s {
        CaptureState::Stopped => (CaptureState::Stopped, CaptureAction::Exit),
        CaptureState::Opening => match e {
            CaptureEvent::Opened => (CaptureState::Capturing { has_captured: false }, CaptureAction::NotifyReady),
            CaptureEvent::OpenFailed => (CaptureState::Stopped, CaptureAction::Fail),
            CaptureEvent::SendFailed => (CaptureState::Stopped, CaptureAction::Fail),
            _ => (CaptureState::Opening, CaptureAction::Open),
        },
        CaptureState::Capturing { has_captured } => match e {
            CaptureEvent::Datagram => (CaptureState::Capturing { has_captured: true }, CaptureAction::Forward),
            CaptureEvent::Timeout => (s, CaptureAction::Read),
            CaptureEvent::ReadFailed => if has_captured {
                (CaptureState::Opening, CaptureAction::NotifyRestart)
            } else {
                (CaptureState::Stopped, CaptureAction::Exit)
            },
            CaptureEvent::SendFailed => (CaptureState::Stopped, CaptureAction::Fail),
            _ => (s, CaptureAction::Read),
        },
    }
}

/// One step of a capture session: the next state and what to do.
pub fn capture_step(s: CaptureState, e: CaptureEvent) -> (r: (CaptureState, CaptureAction))
    ensures
        r == capture_transition(s, e),
{
    match s {
        CaptureState::Stopped => (CaptureState::Stopped, CaptureAction::Exit),
        CaptureState::Opening => match e {
            CaptureEvent::Opened => (CaptureState::Capturing { has_captured: false }, CaptureAction::NotifyReady),
            CaptureEvent::OpenFailed => (CaptureState::Stopped, CaptureAction::Fail),
            CaptureEvent::SendFailed => (CaptureState::Stopped, CaptureAction::Fail),
            _ => (CaptureState::Opening, CaptureAction::Open),
        },
        CaptureState::Capturing { has_captured } => match e {
            CaptureEvent::Datagram => (CaptureState::Capturing { has_captured: true }, CaptureAction::Forward),
            CaptureEvent::Timeout => (s, CaptureAction::Read),
            CaptureEvent::ReadFailed => if has_captured {
                (CaptureState::Opening, CaptureAction::NotifyRestart)
            } else {
                (CaptureState::Stopped, CaptureAction::Exit)
            },
            CaptureEvent::SendFailed => (CaptureState::Stopped, CaptureAction::Fail),
            _ => (s, CaptureAction::Read),
        },
    }
}

} // verus!
