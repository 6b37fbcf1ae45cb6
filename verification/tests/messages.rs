use seamless::communicate::CommunicateError;
use seamless::display::DisplayError;
use seamless::input::{unknown_button_message, unknown_key_message};
use seamless::key_handler::KeyError;
use seamless::mouse_handler::MouseHandlerError;
use seamless::protocol::ProtocolError;
use seamless::text::IntFault;

fn json_error() -> serde_json::Error {
    serde_json::from_str::<u32>("x").unwrap_err()
}

#[test]
fn display_errors_in_words() {
    assert_eq!(DisplayError::DisplayFetchError.message(), "Was unable to fetch displays");
    assert_eq!(
        DisplayError::ClientAddError.message(),
        "Was unable to add client to connected displays list"
    );
    assert_eq!(DisplayError::OwnIpUnknown.message(), "Own Ip is unknown");
    assert_eq!(DisplayError::InvalidMousePosition.message(), "Invalid Mouse position");
}

#[test]
fn key_error_in_words() {
    assert_eq!(
        KeyError::TransformationError.message(),
        "Was unable to transform a device_query key into an enigo key."
    );
}

#[test]
fn communicate_errors_in_words() {
    assert_eq!(CommunicateError::ClientNotFound.message(), "Client not found");
    let io = std::io::Error::new(std::io::ErrorKind::Other, "boom");
    assert_eq!(CommunicateError::SocketCreationError(io).message(), "IO Error: boom");
}

#[test]
fn protocol_errors_in_words() {
    assert_eq!(
        ProtocolError::ParserError("MouseMove", String::from("Number amount")).message(),
        "Parser 'MouseMove' for protocol had an exception: Number amount"
    );
    assert_eq!(ProtocolError::ParseError.message(), "No matching parser was found!");
    assert_eq!(
        ProtocolError::CommunicateError(CommunicateError::ClientNotFound).message(),
        "Communication Error: Client not found"
    );
    let words = ProtocolError::SerdeSerializationError(json_error()).message();
    assert_eq!(words, format!("Serde serialization error: {}", json_error()));
    assert!(words.len() > "Serde serialization error: ".len());
}

#[test]
fn mouse_handler_errors_in_words() {
    assert_eq!(
        MouseHandlerError::DisplayError(DisplayError::OwnIpUnknown).message(),
        "DisplayError: Own Ip is unknown"
    );
    assert_eq!(
        MouseHandlerError::ProtocolError(ProtocolError::ParseError).message(),
        "Protocol Error: No matching parser was found!"
    );
    assert_eq!(MouseHandlerError::SendError.message(), "Was unable to send to main thread");
    assert_eq!(MouseHandlerError::OwnDisplayError.message(), "Was unable to find own display");
}

#[test]
fn number_faults_in_words() {
    assert_eq!(IntFault::Empty.text(), "cannot parse integer from empty string");
    assert_eq!(IntFault::InvalidDigit.text(), "invalid digit found in string");
    assert_eq!(IntFault::PosOverflow.text(), "number too large to fit in target type");
    assert_eq!(format!("{}", "".parse::<usize>().unwrap_err()), IntFault::Empty.text());
    assert_eq!(format!("{}", "x".parse::<usize>().unwrap_err()), IntFault::InvalidDigit.text());
    assert_eq!(
        format!("{}", "99999999999999999999999".parse::<usize>().unwrap_err()),
        IntFault::PosOverflow.text()
    );
}

#[test]
fn key_refusals_in_words() {
    assert_eq!(
        unknown_key_message("Nope", "failed to parse keycode"),
        "Unable to get key for: Nope. Error: failed to parse keycode"
    );
    assert_eq!(
        unknown_button_message("1x", IntFault::InvalidDigit),
        "Unable to get mouse button for: 1x. Error: invalid digit found in string"
    );
}
