use seamless::address::{Ipv4Addr, SocketAddrV4};
use seamless::communicate::{
    group_address, Communicate, CommunicateError, ReceiverDevice, BROADCAST_INTERVAL,
    DECAY_THRESHOLD, GROUP_PORT, SENDER_PORT, SWEEP_INTERVAL,
};
use seamless::display::{Client, ClientDisplays, Display, DisplayManager};

const SECOND: u64 = 1_000_000_000;
const TOKEN: u128 = 0x67e5504410b1426f9247bb680e5fe0c8;
const OTHER: &str = "936da01f-9abd-4d9d-80c7-02af85c822a8";

fn addr(last: u8) -> SocketAddrV4 {
    SocketAddrV4::new(Ipv4Addr::new(10, 0, 0, last), 31726)
}

fn topology() -> DisplayManager {
    let monitor = Display { id: 1, client_x: 0, client_y: 0, width: 1920, height: 1080 };
    DisplayManager::new(vec![monitor])
}

fn tags(manager: &DisplayManager) -> Vec<Client> {
    manager.clients().iter().map(|c| c.client).collect()
}

#[test]
fn ports_and_intervals_are_fixed() {
    assert_eq!(group_address(), SocketAddrV4::new(Ipv4Addr::new(225, 0, 4, 16), 31725));
    assert_eq!(GROUP_PORT, 31725);
    assert_eq!(SENDER_PORT, 31726);
    assert_eq!(BROADCAST_INTERVAL, SECOND);
    assert_eq!(SWEEP_INTERVAL, 5 * SECOND);
}

#[test]
fn decay_starts_after_five_seconds() {
    let device = ReceiverDevice::new(addr(1), 1000);
    assert_eq!(DECAY_THRESHOLD, 5 * SECOND);
    assert!(!device.decayed(1000));
    assert!(!device.decayed(1000 + 5 * SECOND));
    assert!(device.decayed(1001 + 5 * SECOND));
    assert!(!device.decayed(0));
}

#[test]
fn updated_takes_the_new_reading() {
    let mut device = ReceiverDevice::new(addr(1), 7);
    device.updated(99);
    assert_eq!(device, ReceiverDevice { updated: 99, socket_addr: addr(1) });
}

#[test]
fn announcement_is_the_token_as_text() {
    let directory = Communicate::with_token(TOKEN);
    assert_eq!(directory.self_id(), TOKEN);
    assert_eq!(directory.announcement(), "67e55044-10b1-426f-9247-bb680e5fe0c8");
    assert_eq!(directory.get_own_ip(), None);
    assert!(directory.devices().is_empty());
}

#[test]
fn announcements_are_started_once() {
    let mut directory = Communicate::with_token(TOKEN);
    assert!(directory.broadcast_address());
    assert!(!directory.broadcast_address());
    assert!(!directory.broadcast_address());
    assert_eq!(directory.self_id(), TOKEN);
}

#[test]
fn own_announcement_teaches_the_own_address() {
    let mut directory = Communicate::with_token(TOKEN);
    let mut displays = topology();
    let echo = directory.announcement();
    let from = SocketAddrV4::new(Ipv4Addr::new(1, 2, 3, 4), 5000);
    let snapshot = directory.devices_updater(&mut displays, &echo, Some(from), 10);
    assert_eq!(snapshot, None);
    assert_eq!(directory.get_own_ip(), Some(from));
    assert!(directory.devices().is_empty());
    assert_eq!(displays.own_ip(), Some(from));
}

#[test]
fn fresh_directory_recognises_its_own_token() {
    let mut directory = Communicate::new();
    let mut displays = topology();
    let echo = directory.announcement();
    assert_eq!(echo.len(), 36);
    let snapshot = directory.devices_updater(&mut displays, &echo, Some(addr(4)), 0);
    assert_eq!(snapshot, None);
    assert_eq!(directory.get_own_ip(), Some(addr(4)));
    assert!(directory.devices().is_empty());
    assert_ne!(Communicate::new().self_id(), directory.self_id());
}

#[test]
fn own_announcement_from_unknown_kind_of_source_changes_nothing() {
    let mut directory = Communicate::with_token(TOKEN);
    let mut displays = topology();
    let echo = directory.announcement();
    assert_eq!(directory.devices_updater(&mut displays, &echo, None, 10), None);
    assert_eq!(directory.get_own_ip(), None);
    assert_eq!(displays.own_ip(), None);
}

#[test]
fn foreign_announcement_adds_a_peer() {
    let mut directory = Communicate::with_token(TOKEN);
    let mut displays = topology();
    let snapshot = directory.devices_updater(&mut displays, OTHER, Some(addr(1)), 10);
    assert_eq!(snapshot, Some(vec![ReceiverDevice { updated: 10, socket_addr: addr(1) }]));
    assert_eq!(directory.devices(), vec![ReceiverDevice { updated: 10, socket_addr: addr(1) }]);
    assert_eq!(directory.get_own_ip(), None);
}

#[test]
fn foreign_announcement_refreshes_a_known_peer() {
    let mut directory = Communicate::with_token(TOKEN);
    let mut displays = topology();
    directory.devices_updater(&mut displays, OTHER, Some(addr(1)), 10);
    directory.devices_updater(&mut displays, OTHER, Some(addr(2)), 20);
    let snapshot = directory.devices_updater(&mut displays, OTHER, Some(addr(1)), 30);
    assert_eq!(
        snapshot,
        Some(vec![
            ReceiverDevice { updated: 30, socket_addr: addr(1) },
            ReceiverDevice { updated: 20, socket_addr: addr(2) }
        ])
    );
}

#[test]
fn token_in_another_form_is_still_a_token() {
    let mut directory = Communicate::with_token(TOKEN);
    let mut displays = topology();
    let simple = "67e5504410b1426f9247bb680e5fe0c8";
    assert_eq!(directory.devices_updater(&mut displays, simple, Some(addr(7)), 1), None);
    assert_eq!(directory.get_own_ip(), Some(addr(7)));
}

#[test]
fn payload_that_is_no_token_is_dropped() {
    let mut directory = Communicate::with_token(TOKEN);
    let mut displays = topology();
    directory.devices_updater(&mut displays, OTHER, Some(addr(1)), 10);
    assert_eq!(directory.devices_updater(&mut displays, "hello", Some(addr(2)), 6 * SECOND), None);
    assert_eq!(directory.devices_updater(&mut displays, "", Some(addr(2)), 6 * SECOND), None);
    assert_eq!(directory.devices(), vec![ReceiverDevice { updated: 10, socket_addr: addr(1) }]);
}

#[test]
fn foreign_announcement_from_unknown_kind_of_source_adds_nobody() {
    let mut directory = Communicate::with_token(TOKEN);
    let mut displays = topology();
    assert_eq!(directory.devices_updater(&mut displays, OTHER, None, 10), Some(vec![]));
    assert!(directory.devices().is_empty());
}

#[test]
fn on_announcement_takes_the_token_as_a_value() {
    let mut directory = Communicate::with_token(7);
    let mut displays = topology();
    assert_eq!(directory.on_announcement(&mut displays, None, Some(addr(1)), 0), None);
    assert_eq!(directory.on_announcement(&mut displays, Some(7), Some(addr(1)), 0), None);
    assert_eq!(directory.get_own_ip(), Some(addr(1)));
    assert_eq!(
        directory.on_announcement(&mut displays, Some(8), Some(addr(2)), 5),
        Some(vec![ReceiverDevice { updated: 5, socket_addr: addr(2) }])
    );
}

#[test]
fn silent_peer_is_gone_after_five_seconds() {
    let mut directory = Communicate::with_token(TOKEN);
    let mut displays = topology();
    directory.devices_updater(&mut displays, OTHER, Some(addr(1)), 0);
    assert_eq!(directory.planned_devices_updates(&mut displays, 5 * SECOND).len(), 1);
    assert_eq!(directory.planned_devices_updates(&mut displays, 5 * SECOND + 1), vec![]);
    assert!(directory.devices().is_empty());
}

#[test]
fn peer_refreshed_every_4900_ms_never_decays() {
    let mut directory = Communicate::with_token(TOKEN);
    let mut displays = topology();
    let step = 4_900_000_000u64;
    for round in 0..20u64 {
        let now = round * step;
        assert_eq!(
            directory.planned_devices_updates(&mut displays, now).len(),
            if round == 0 { 0 } else { 1 }
        );
        let snapshot = directory.devices_updater(&mut displays, OTHER, Some(addr(1)), now);
        assert_eq!(snapshot, Some(vec![ReceiverDevice { updated: now, socket_addr: addr(1) }]));
    }
}

#[test]
fn announcement_sweeps_decayed_peers() {
    let mut directory = Communicate::with_token(TOKEN);
    let mut displays = topology();
    directory.devices_updater(&mut displays, OTHER, Some(addr(1)), 0);
    let snapshot = directory.devices_updater(&mut displays, OTHER, Some(addr(2)), 6 * SECOND);
    assert_eq!(snapshot, Some(vec![ReceiverDevice { updated: 6 * SECOND, socket_addr: addr(2) }]));
}

#[test]
fn topology_forgets_peers_that_are_gone() {
    let mut directory = Communicate::with_token(TOKEN);
    let mut displays = topology();
    let echo = directory.announcement();
    directory.devices_updater(&mut displays, &echo, Some(addr(5)), 0);
    directory.devices_updater(&mut displays, OTHER, Some(addr(1)), 0);
    displays.received_displays(ClientDisplays::new_networked(addr(1), vec![])).unwrap();
    assert_eq!(tags(&displays), vec![Client::IsNetworked(addr(1)), Client::IsSelf]);
    directory.planned_devices_updates(&mut displays, SECOND);
    assert_eq!(tags(&displays), vec![Client::IsNetworked(addr(1)), Client::IsSelf]);
    directory.planned_devices_updates(&mut displays, 6 * SECOND);
    assert_eq!(tags(&displays), vec![Client::IsSelf]);
}

#[test]
fn send_goes_to_every_peer() {
    let mut directory = Communicate::with_token(TOKEN);
    let mut displays = topology();
    directory.devices_updater(&mut displays, OTHER, Some(addr(2)), 0);
    directory.devices_updater(&mut displays, OTHER, Some(addr(1)), 0);
    assert_eq!(directory.send().unwrap(), vec![addr(2), addr(1)]);
}

#[test]
fn send_without_peers_reports_it() {
    let directory = Communicate::with_token(TOKEN);
    assert!(matches!(directory.send(), Err(CommunicateError::ClientNotFound)));
}

#[test]
fn send_specific_needs_a_known_peer() {
    let mut directory = Communicate::with_token(TOKEN);
    let mut displays = topology();
    directory.devices_updater(&mut displays, OTHER, Some(addr(2)), 0);
    assert_eq!(directory.send_specific(addr(2)).unwrap(), addr(2));
    assert!(matches!(directory.send_specific(addr(3)), Err(CommunicateError::ClientNotFound)));
}

#[test]
fn receive_decodes_utf8_and_drops_the_rest() {
    assert_eq!(Communicate::receive("M1|2".as_bytes()), Some(String::from("M1|2")));
    assert_eq!(Communicate::receive("Grüße".as_bytes()), Some(String::from("Grüße")));
    assert_eq!(Communicate::receive(&[]), Some(String::new()));
    assert_eq!(Communicate::receive(&[0x4d, 0xff, 0x31]), None);
    assert_eq!(Communicate::receive(&[0xc3]), None);
}
