use seamless::address::{Ipv4Addr, SocketAddrV4};
use seamless::communicate::{Communicate, CommunicateError, ReceiverDevice};
use seamless::display::{Client, ClientDisplays, Display, DisplayManager};
use seamless::input::{Direction, Key, KeyInput, Keycode, MousePosition};
use seamless::protocol::{
    announcement_frame, ClientDisplayParser, Event, EventHandler, Events, KeyInputParser,
    MainParser, MouseMoveParser, ProtocolError, RequestDisplays, RequestDisplaysParser,
};

const OTHER: &str = "936da01f-9abd-4d9d-80c7-02af85c822a8";

fn src() -> SocketAddrV4 {
    SocketAddrV4::new(Ipv4Addr::new(192, 168, 1, 7), 31726)
}

fn parse(frame: &str) -> Result<Events, ProtocolError> {
    MainParser::new().parse(String::from(frame), src())
}

fn complaint(frame: &str) -> (String, String) {
    match parse(frame) {
        Err(ProtocolError::ParserError(parser, message)) => (String::from(parser), message),
        other => panic!("no parser complained about {:?}: {:?}", frame, other),
    }
}

fn key(name: &str) -> Key {
    Key::KeyCode(Keycode::from_name(name).unwrap())
}

fn monitor(id: u32, x: i32, y: i32, width: u32, height: u32) -> Display {
    Display { id, client_x: x, client_y: y, width, height }
}

#[test]
fn pointer_position_frame() {
    assert_eq!(MousePosition { x: 10, y: -20 }.serialize().unwrap(), "M10|-20");
    assert_eq!(MousePosition { x: 0, y: 0 }.serialize().unwrap(), "M0|0");
    assert_eq!(
        MousePosition { x: i32::MIN, y: i32::MAX }.serialize().unwrap(),
        "M-2147483648|2147483647"
    );
}

#[test]
fn topology_request_frame() {
    let request = RequestDisplays { client_ip: Ipv4Addr::new(192, 168, 1, 7) };
    assert_eq!(request.serialize().unwrap(), "R192.168.1.7");
    let zero = RequestDisplays { client_ip: Ipv4Addr::new(0, 0, 0, 0) };
    assert_eq!(zero.serialize().unwrap(), "R0.0.0.0");
    let full = RequestDisplays { client_ip: Ipv4Addr::new(255, 255, 255, 255) };
    assert_eq!(full.serialize().unwrap(), "R255.255.255.255");
}

#[test]
fn key_event_frame() {
    assert_eq!(KeyInput::new(key("A"), Direction::Down).serialize().unwrap(), "Kdown|K_A");
    assert_eq!(KeyInput::new(key("LShift"), Direction::Up).serialize().unwrap(), "Kup|K_LShift");
    assert_eq!(KeyInput::new(Key::MouseButton(3), Direction::Up).serialize().unwrap(), "Kup|M_3");
    assert_eq!(
        KeyInput::new(Key::MouseButton(0), Direction::Down).serialize().unwrap(),
        "Kdown|M_0"
    );
    assert_eq!(KeyInput::new(Key::MouseButton(120), Direction::Down).text(), "down|M_120");
    assert_eq!(key("Key7").text(), "K_Key7");
    assert_eq!(Direction::Down.text(), "down");
    assert_eq!(Direction::Up.text(), "up");
}

#[test]
fn topology_announcement_frame() {
    let monitors = vec![monitor(2, 1920, 0, 1280, 1024), monitor(1, 0, -5, 1920, 1080)];
    let local = ClientDisplays::new_local(monitors);
    assert_eq!(local.serialize().unwrap(), "D[[1,0,-5,1920,1080],[2,1920,0,1280,1024]]");
    assert_eq!(ClientDisplays::new_local(vec![]).serialize().unwrap(), "D[]");
}

#[test]
fn pointer_position_is_read() {
    assert_eq!(parse("M10|-20").unwrap(), Events::MouseMovement(MousePosition { x: 10, y: -20 }));
    assert_eq!(parse("M+5|-0").unwrap(), Events::MouseMovement(MousePosition { x: 5, y: 0 }));
    assert_eq!(parse("M007|08").unwrap(), Events::MouseMovement(MousePosition { x: 7, y: 8 }));
    assert_eq!(parse("M1|2|3").unwrap(), Events::MouseMovement(MousePosition { x: 1, y: 2 }));
    assert_eq!(
        parse("M-2147483648|2147483647").unwrap(),
        Events::MouseMovement(MousePosition { x: i32::MIN, y: i32::MAX })
    );
}

#[test]
fn pointer_position_with_one_number_is_refused() {
    assert_eq!(complaint("M10"), (String::from("MouseMove"), String::from("Number amount")));
    assert_eq!(complaint("M"), (String::from("MouseMove"), String::from("Number amount")));
}

#[test]
fn pointer_position_with_a_bad_number_is_refused() {
    let refused = (String::from("MouseMove"), String::from("Number parsing"));
    for frame in [
        "M10|x",
        "M|5",
        "M5|",
        "M1.5|2",
        "M 1|2",
        "M1|2 ",
        "M-|2",
        "M+|2",
        "M--1|2",
        "M2147483648|0",
        "M0|-2147483649",
        "M99999999999999999999999999|1",
        "M0x10|1",
    ] {
        assert_eq!(complaint(frame), refused);
    }
}

#[test]
fn topology_request_is_read() {
    assert_eq!(
        parse("R192.168.1.7").unwrap(),
        Events::RequestDisplays(RequestDisplays { client_ip: Ipv4Addr::new(192, 168, 1, 7) })
    );
    assert_eq!(
        parse("R0.0.0.0").unwrap(),
        Events::RequestDisplays(RequestDisplays { client_ip: Ipv4Addr::new(0, 0, 0, 0) })
    );
    assert_eq!(
        parse("R255.255.255.255").unwrap(),
        Events::RequestDisplays(RequestDisplays { client_ip: Ipv4Addr::new(255, 255, 255, 255) })
    );
}

#[test]
fn topology_request_with_a_bad_address_is_refused() {
    let refused =
        (String::from("RequestDisplaysParser"), String::from("invalid IPv4 address syntax"));
    for frame in [
        "R",
        "R1.2.3",
        "R1.2.3.4.5",
        "R1.2.3.",
        "R.1.2.3",
        "R1..2.3",
        "R256.1.1.1",
        "R1.1.1.256",
        "R01.2.3.4",
        "R1.2.3.04",
        "R1.2.3.0004",
        "R1.2.3.4 ",
        "R1.2.3.-4",
        "R+1.2.3.4",
        "R1.2.3.4:80",
        "Rlocalhost",
    ] {
        assert_eq!(complaint(frame), refused);
    }
}

#[test]
fn address_text_is_dotted_decimal() {
    assert_eq!(Ipv4Addr::new(10, 0, 200, 3).text(), "10.0.200.3");
    assert_eq!(Ipv4Addr::parse("10.0.200.3"), Some(Ipv4Addr::new(10, 0, 200, 3)));
    assert_eq!(Ipv4Addr::parse("10.0.200"), None);
    assert_eq!(Ipv4Addr::parse("0.00.0.0"), None);
    assert_eq!(Ipv4Addr::parse(""), None);
}

#[test]
fn key_event_is_read() {
    assert_eq!(
        parse("Kdown|K_A").unwrap(),
        Events::KeyInput(KeyInput::new(key("A"), Direction::Down))
    );
    assert_eq!(
        parse("Kup|K_F12").unwrap(),
        Events::KeyInput(KeyInput::new(key("F12"), Direction::Up))
    );
    assert_eq!(
        parse("Kup|M_2").unwrap(),
        Events::KeyInput(KeyInput::new(Key::MouseButton(2), Direction::Up))
    );
    assert_eq!(
        parse("Kdown|M_+7|rest").unwrap(),
        Events::KeyInput(KeyInput::new(Key::MouseButton(7), Direction::Down))
    );
}

#[test]
fn key_event_with_one_piece_is_refused() {
    let refused = (
        String::from("Key Input Parser"),
        String::from("Unable to parse key inputs. Not enough segments"),
    );
    assert_eq!(complaint("Kdown"), refused);
    assert_eq!(complaint("K"), refused);
    assert_eq!(complaint("KK_A"), refused);
}

#[test]
fn key_event_with_a_bad_direction_is_refused() {
    let refused =
        (String::from("Key direction"), String::from("Key direction could not be parsed"));
    assert_eq!(complaint("Ksideways|K_A"), refused);
    assert_eq!(complaint("KDown|K_A"), refused);
    assert_eq!(complaint("K|K_A"), refused);
    assert_eq!(complaint("Kdown |K_A"), refused);
    assert_eq!(complaint("Kbad|X_bad"), refused);
}

fn key_complaint(frame: &str) -> String {
    let (parser, message) = complaint(frame);
    assert_eq!(parser, "Key Parser");
    message
}

#[test]
fn key_event_with_an_unknown_prefix_is_refused() {
    assert_eq!(key_complaint("Kdown|X_A"), "Key does not start with a known prefix");
    assert_eq!(key_complaint("Kdown|"), "Key does not start with a known prefix");
    assert_eq!(key_complaint("Kdown|K"), "Key does not start with a known prefix");
    assert_eq!(key_complaint("Kdown|k_A"), "Key does not start with a known prefix");
}

#[test]
fn key_event_with_an_unknown_key_is_refused() {
    assert_eq!(
        key_complaint("Kdown|K_Nope"),
        "Unable to get key for: Nope. Error: failed to parse keycode"
    );
    assert_eq!(
        key_complaint("Kup|K_"),
        "Unable to get key for: . Error: failed to parse keycode"
    );
    assert_eq!(
        key_complaint("Kup|K_a"),
        "Unable to get key for: a. Error: failed to parse keycode"
    );
}

#[test]
fn key_event_with_a_bad_button_is_refused() {
    let unable = "Unable to get mouse button for: ";
    assert_eq!(
        key_complaint("Kdown|M_x"),
        format!("{}x. Error: invalid digit found in string", unable)
    );
    assert_eq!(
        key_complaint("Kdown|M_-1"),
        format!("{}-1. Error: invalid digit found in string", unable)
    );
    assert_eq!(
        key_complaint("Kdown|M_+"),
        format!("{}+. Error: invalid digit found in string", unable)
    );
    assert_eq!(
        key_complaint("Kdown|M_"),
        format!("{}. Error: cannot parse integer from empty string", unable)
    );
    assert_eq!(
        key_complaint("Kdown|M_99999999999999999999999"),
        format!("{}99999999999999999999999. Error: number too large to fit in target type", unable)
    );
    assert_eq!(
        key_complaint("Kdown|M_99999999999999999999999x"),
        format!("{}99999999999999999999999x. Error: number too large to fit in target type", unable)
    );
    assert_eq!(
        key_complaint("Kdown|M_1x99999999999999999999999"),
        format!("{}1x99999999999999999999999. Error: invalid digit found in string", unable)
    );
}

#[test]
fn topology_announcement_is_read_as_coming_from_its_sender() {
    let expected = ClientDisplays::new_networked(
        src(),
        vec![monitor(1, 0, -5, 1920, 1080), monitor(2, 1920, 0, 1280, 1024)],
    );
    assert_eq!(
        parse("D[[1,0,-5,1920,1080],[2,1920,0,1280,1024]]").unwrap(),
        Events::ClientDisplays(expected.clone())
    );
    assert_eq!(
        parse("D [ [1, 0, -5, 1920, 1080], [2,1920,0,1280,1024] ] ").unwrap(),
        Events::ClientDisplays(expected)
    );
    assert_eq!(
        parse("D[]").unwrap(),
        Events::ClientDisplays(ClientDisplays::new_networked(src(), vec![]))
    );
}

#[test]
fn topology_announcement_with_bad_json_is_refused() {
    for frame in [
        "D",
        "Dnot json",
        "D[[1,0,0,1920]]",
        "D[[1,0,0,1920,1080,7]]",
        "D[[-1,0,0,1920,1080]]",
        "D[[1,0,0,4294967296,1080]]",
        "D[[1,2147483648,0,1920,1080]]",
        "D[[1,0,0,1920,1080]",
        "D{\"displays\":[]}",
        "D[[1.5,0,0,1920,1080]]",
    ] {
        assert!(
            matches!(parse(frame), Err(ProtocolError::SerdeSerializationError(_))),
            "{}",
            frame
        );
    }
}

#[test]
fn announcement_is_framed_when_it_reads_back() {
    let rows = vec![(1, 2, 3, 4, 5)];
    let text = String::from("[[1,2,3,4,5]]");
    assert_eq!(announcement_frame(&rows, text, Ok(rows.clone())).unwrap(), "D[[1,2,3,4,5]]");
    assert_eq!(announcement_frame(&vec![], String::from("[]"), Ok(vec![])).unwrap(), "D[]");
}

#[test]
fn announcement_that_reads_back_otherwise_is_not_framed() {
    let rows = vec![(1, 2, 3, 4, 5), (6, 7, 8, 9, 10)];
    let text = String::from("[[1,2,3,4,5],[6,7,8,9,10]]");
    let others = vec![
        vec![],
        vec![(1, 2, 3, 4, 5)],
        vec![(6, 7, 8, 9, 10), (1, 2, 3, 4, 5)],
        vec![(1, 2, 3, 4, 5), (6, 7, 8, 9, 11)],
        vec![(0, 2, 3, 4, 5), (6, 7, 8, 9, 10)],
        vec![(1, 2, 3, 4, 5), (6, -7, 8, 9, 10)],
        vec![(1, 2, 3, 4, 5), (6, 7, 8, 9, 10), (6, 7, 8, 9, 10)],
    ];
    for back in others {
        match announcement_frame(&rows, text.clone(), Ok(back)) {
            Err(ProtocolError::ParserError(parser, message)) => {
                assert_eq!(parser, "ClientDisplays");
                assert_eq!(message, "Announcement does not read back as written");
            }
            other => panic!("framed or refused otherwise: {:?}", other),
        }
    }
}

#[test]
fn announcement_that_does_not_read_back_is_not_framed() {
    let rows = vec![(1, 2, 3, 4, 5)];
    let refused = serde_json::from_str::<u32>("x").unwrap_err();
    assert!(matches!(
        announcement_frame(&rows, String::from("x"), Err(refused)),
        Err(ProtocolError::SerdeSerializationError(_))
    ));
}

#[test]
fn announcement_is_read_from_what_the_codec_gives() {
    let rows = vec![(1, -2, 3, 4, 5), (6, 7, -8, 9, 10)];
    assert_eq!(
        ClientDisplayParser::announced(Ok(rows), src()).unwrap(),
        ClientDisplays::new_networked(
            src(),
            vec![monitor(1, -2, 3, 4, 5), monitor(6, 7, -8, 9, 10)]
        )
    );
    let refused = serde_json::from_str::<u32>("x").unwrap_err();
    assert!(matches!(
        ClientDisplayParser::announced(Err(refused), src()),
        Err(ProtocolError::SerdeSerializationError(_))
    ));
}

#[test]
fn unknown_prefix_is_refused() {
    assert!(matches!(parse(""), Err(ProtocolError::ParseError)));
    assert!(matches!(parse("X1|2"), Err(ProtocolError::ParseError)));
    assert!(matches!(parse("m1|2"), Err(ProtocolError::ParseError)));
    assert!(matches!(parse(" M1|2"), Err(ProtocolError::ParseError)));
    assert!(matches!(parse("éM1|2"), Err(ProtocolError::ParseError)));
}

#[test]
fn pointer_positions_round_trip() {
    let values = [
        i32::MIN,
        i32::MIN + 1,
        -1_000_000,
        -10,
        -1,
        0,
        1,
        9,
        10,
        99,
        100,
        65_535,
        i32::MAX - 1,
        i32::MAX,
    ];
    for x in values {
        for y in values {
            let position = MousePosition { x, y };
            let frame = position.serialize().unwrap();
            assert_eq!(
                MainParser::new().parse(frame, src()).unwrap(),
                Events::MouseMovement(position)
            );
        }
    }
}

#[test]
fn topology_requests_round_trip() {
    let octets = [0u8, 1, 9, 10, 99, 100, 199, 200, 254, 255];
    for a in octets {
        for d in octets {
            let request = RequestDisplays { client_ip: Ipv4Addr::new(a, 255 - a, d, 255 - d) };
            let frame = request.serialize().unwrap();
            assert_eq!(
                MainParser::new().parse(frame, src()).unwrap(),
                Events::RequestDisplays(request)
            );
        }
    }
}

#[test]
fn key_events_round_trip() {
    let names = [
        "A", "Z", "Key0", "Key9", "F1", "F20", "Escape", "Space", "LControl", "RAlt", "Command",
        "LMeta", "Enter", "Up", "Backspace", "CapsLock", "PageDown", "Numpad5", "NumpadDecimal",
        "Grave", "BackSlash", "Slash",
    ];
    for name in names {
        for direction in [Direction::Down, Direction::Up] {
            let input = KeyInput::new(key(name), direction);
            let frame = input.serialize().unwrap();
            assert_eq!(MainParser::new().parse(frame, src()).unwrap(), Events::KeyInput(input));
        }
    }
    for index in [0usize, 1, 5, 9, 10, 255, 65_536, usize::MAX] {
        for direction in [Direction::Down, Direction::Up] {
            let input = KeyInput::new(Key::MouseButton(index), direction);
            let frame = input.serialize().unwrap();
            assert_eq!(MainParser::new().parse(frame, src()).unwrap(), Events::KeyInput(input));
        }
    }
}

#[test]
fn topology_announcements_round_trip() {
    let displays = vec![
        monitor(0, i32::MIN, i32::MAX, 0, u32::MAX),
        monitor(u32::MAX, -1, 1, 1920, 1080),
        monitor(3, 0, 0, 2560, 1440),
    ];
    let local = ClientDisplays { client: Client::IsSelf, displays: displays.clone() };
    let frame = local.serialize().unwrap();
    assert_eq!(
        MainParser::new().parse(frame, src()).unwrap(),
        Events::ClientDisplays(ClientDisplays::new_networked(src(), displays.clone()))
    );
    let other = SocketAddrV4::new(Ipv4Addr::new(1, 1, 1, 1), 1);
    let remote = ClientDisplays::new_networked(other, displays.clone());
    let frame = remote.serialize().unwrap();
    assert_eq!(
        MainParser::new().parse(frame, src()).unwrap(),
        Events::ClientDisplays(ClientDisplays::new_networked(src(), displays))
    );
}

#[test]
fn parsers_read_frames_without_their_prefix() {
    assert_eq!(MouseMoveParser {}.parse("3|4").unwrap(), MousePosition { x: 3, y: 4 });
    assert_eq!(
        RequestDisplaysParser {}.parse("1.2.3.4").unwrap(),
        RequestDisplays { client_ip: Ipv4Addr::new(1, 2, 3, 4) }
    );
    assert_eq!(
        KeyInputParser {}.parse("up|K_Tab").unwrap(),
        KeyInput::new(key("Tab"), Direction::Up)
    );
    assert_eq!(
        ClientDisplayParser {}.parse("[[1,2,3,4,5]]", src()).unwrap(),
        ClientDisplays::new_networked(src(), vec![monitor(1, 2, 3, 4, 5)])
    );
    assert_eq!(
        KeyInput::try_from("down|M_1").unwrap(),
        KeyInput::new(Key::MouseButton(1), Direction::Down)
    );
    assert_eq!(Key::try_from("K_Home").unwrap(), key("Home"));
    assert_eq!(Direction::try_from("up").unwrap(), Direction::Up);
}

#[test]
fn prefixes_are_single_letters() {
    assert_eq!(MouseMoveParser {}.get_prefix(), "M");
    assert_eq!(ClientDisplayParser {}.get_prefix(), "D");
    assert_eq!(RequestDisplaysParser {}.get_prefix(), "R");
    assert_eq!(KeyInputParser {}.get_prefix(), "K");
}

#[test]
fn prepare_text_cuts_the_prefix() {
    let parser = MainParser::new();
    assert_eq!(parser.prepare_text("M", "M1|2"), "1|2");
    assert_eq!(parser.prepare_text("K_", "K_A"), "A");
    assert_eq!(parser.prepare_text("M", "M"), "");
    assert_eq!(parser.prepare_text("K_", "K"), "");
    assert_eq!(parser.prepare_text("é", "éa"), "a");
}

#[test]
fn request_is_answered_only_by_the_machine_it_names() {
    let request = RequestDisplays { client_ip: Ipv4Addr::new(10, 0, 0, 2) };
    assert!(request.is_for(Some(SocketAddrV4::new(Ipv4Addr::new(10, 0, 0, 2), 1))));
    assert!(request.is_for(Some(SocketAddrV4::new(Ipv4Addr::new(10, 0, 0, 2), 31726))));
    assert!(!request.is_for(Some(SocketAddrV4::new(Ipv4Addr::new(10, 0, 0, 3), 31726))));
    assert!(!request.is_for(None));
}

#[test]
fn requests_go_out_for_peers_without_layout() {
    let own = SocketAddrV4::new(Ipv4Addr::new(10, 0, 0, 2), 31726);
    let known = SocketAddrV4::new(Ipv4Addr::new(10, 0, 0, 1), 31726);
    let unknown = SocketAddrV4::new(Ipv4Addr::new(10, 0, 0, 9), 31726);
    let mut displays = DisplayManager::new(vec![monitor(1, 0, 0, 10, 10)]);
    displays.set_own_ip(own);
    displays.received_displays(ClientDisplays::new_networked(known, vec![])).unwrap();
    let peers = vec![ReceiverDevice::new(known, 0), ReceiverDevice::new(unknown, 0)];
    assert_eq!(
        RequestDisplays::for_missing(&displays, &peers),
        vec![RequestDisplays { client_ip: Ipv4Addr::new(10, 0, 0, 9) }]
    );
}

#[test]
fn listener_drops_what_is_no_event() {
    let handler = EventHandler::new();
    assert_eq!(
        handler.event_listener("M1|2", Some(src())),
        Some(Events::MouseMovement(MousePosition { x: 1, y: 2 }))
    );
    assert_eq!(handler.event_listener("M1|2", None), None);
    assert_eq!(handler.event_listener("M1", Some(src())), None);
    assert_eq!(handler.event_listener("?", Some(src())), None);
}

#[test]
fn emit_sends_the_frame_to_every_peer() {
    let handler = EventHandler::new();
    let mut directory = Communicate::with_token(1);
    let mut displays = DisplayManager::new(vec![]);
    let event = MousePosition { x: 4, y: 2 };
    assert!(matches!(
        handler.emit_event(&directory, &event),
        Err(ProtocolError::CommunicateError(CommunicateError::ClientNotFound))
    ));
    let first = SocketAddrV4::new(Ipv4Addr::new(10, 0, 0, 1), 31726);
    let second = SocketAddrV4::new(Ipv4Addr::new(10, 0, 0, 3), 31726);
    directory.devices_updater(&mut displays, OTHER, Some(first), 0);
    directory.devices_updater(&mut displays, OTHER, Some(second), 0);
    let dispatch = handler.emit_event(&directory, &event).unwrap();
    assert_eq!(dispatch.frame, "M4|2");
    assert_eq!(dispatch.targets, vec![first, second]);
}

#[test]
fn secure_communication_sends_the_frame_to_one_peer() {
    let handler = EventHandler::new();
    let mut directory = Communicate::with_token(1);
    let mut displays = DisplayManager::new(vec![]);
    let first = SocketAddrV4::new(Ipv4Addr::new(10, 0, 0, 1), 31726);
    let second = SocketAddrV4::new(Ipv4Addr::new(10, 0, 0, 3), 31726);
    directory.devices_updater(&mut displays, OTHER, Some(first), 0);
    let event = KeyInput::new(Key::MouseButton(1), Direction::Down);
    let dispatch = handler.secure_communication(&directory, first, &event).unwrap();
    assert_eq!(dispatch.frame, "Kdown|M_1");
    assert_eq!(dispatch.targets, vec![first]);
    assert!(matches!(
        handler.secure_communication(&directory, second, &event),
        Err(ProtocolError::CommunicateError(CommunicateError::ClientNotFound))
    ));
}
