use stardb_exporter::games::{
    capture_step, select_devices, CaptureAction, CaptureEvent, CaptureState, DeviceError, DeviceInfo, Game,
    GamePathError,
};

fn dev(name: &str, connected: bool, n: usize, loopback: bool) -> DeviceInfo {
    DeviceInfo { name: name.to_string(), connected, n_addresses: n, loopback }
}

#[test]
fn tracker_urls() {
    assert_eq!(Game::Gi.achievement_url(), "https://stardb.gg/genshin/achievement-tracker");
    assert_eq!(Game::Hsr.achievement_url(), "https://stardb.gg//achievement-tracker");
    assert_eq!(Game::Zzz.achievement_url(), "https://stardb.gg/zzz/achievement-tracker");
    assert_eq!(Game::Hsr.pull_url(), "https://stardb.gg/warp-tracker");
    assert_eq!(Game::Gi.pull_url(), "https://stardb.gg/genshin/wish-tracker");
    assert_eq!(Game::Zzz.pull_url(), "https://stardb.gg/zzz/signal-tracker");
}

#[test]
fn packet_filters() {
    assert_eq!(Game::Gi.packet_filter().unwrap(), "udp portrange 22101-22102");
    assert_eq!(Game::Hsr.packet_filter().unwrap(), "udp portrange 23301-23302");
    assert!(Game::Zzz.packet_filter().is_none());
}

#[test]
fn eligible_devices_only() {
    let devices = vec![
        dev("lo", true, 1, true),
        dev("eth0", true, 2, false),
        dev("down", false, 1, false),
        dev("bare", true, 0, false),
        dev("wlan0", true, 1, false),
    ];
    assert_eq!(select_devices(&devices).unwrap(), vec![1, 4]);
    assert_eq!(select_devices(&vec![dev("lo", true, 1, true)]).err(), Some(DeviceError::NoDevices));
    assert_eq!(select_devices(&vec![]).err(), Some(DeviceError::NoDevices));
}

#[test]
fn capture_session_rules() {
    let (s, a) = capture_step(CaptureState::Opening, CaptureEvent::Opened);
    assert_eq!((s, a), (CaptureState::Capturing { has_captured: false }, CaptureAction::NotifyReady));
    assert_eq!(capture_step(s, CaptureEvent::Timeout), (s, CaptureAction::Read));
    assert_eq!(capture_step(s, CaptureEvent::ReadFailed), (CaptureState::Stopped, CaptureAction::Exit));
    let (s2, a2) = capture_step(s, CaptureEvent::Datagram);
    assert_eq!((s2, a2), (CaptureState::Capturing { has_captured: true }, CaptureAction::Forward));
    assert_eq!(capture_step(s2, CaptureEvent::ReadFailed), (CaptureState::Opening, CaptureAction::NotifyRestart));
    assert_eq!(capture_step(s2, CaptureEvent::SendFailed), (CaptureState::Stopped, CaptureAction::Fail));
    assert_eq!(capture_step(CaptureState::Opening, CaptureEvent::OpenFailed), (CaptureState::Stopped, CaptureAction::Fail));
}

#[test]
fn game_path_from_log() {
    let lines = vec![
        "starting up".to_string(),
        "Loading C:\\Games\\Genshin Impact\\GenshinImpact_Data\\Managed".to_string(),
    ];
    assert_eq!(Game::Gi.game_path(&lines).unwrap(), "C:\\Games\\Genshin Impact\\GenshinImpact_Data");
    assert_eq!(Game::Gi.game_path(&vec!["nothing".to_string()]).err(), Some(GamePathError::NotFound));
    assert_eq!(Game::Hsr.game_path(&lines).err(), Some(GamePathError::Unsupported));
}
