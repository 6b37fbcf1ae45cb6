//! The wire protocol: short text frames, one event to a datagram. A frame
//! is one character that tells the kind of event, and the event's text.

use crate::address::{Ipv4Addr, SocketAddrV4};
use crate::communicate::{
    listed, Communicate, CommunicateError, CommunicateFault, ReceiverDevice,
};
use crate::display::{Client, ClientDisplays, Display, DisplayManager};
use crate::input::{bar_free, KeyInput, KeyInputView, KeyView, MousePosition};
use crate::text::{
    chars_of, decimal_int, decimal_nat, find_from, first_segment, has_second_segment,
    lemma_decimal_nat, lemma_find_after, lemma_find_none, lemma_signed_round_trip,
    lemma_unsigned_fault, lemma_unsigned_round_trip, parse_signed, push_signed, read_i32,
    second_segment, slice_text,
};
use crate::topology::Machine;
use vstd::prelude::*;
use vstd::string::*;

verus! {

/// The error type of the JSON codec, carried as it comes and never looked
/// into.
#[verifier::external_type_specification]
#[verifier::external_body]
pub struct ExJsonError(serde_json::Error);

/// What goes wrong when a frame is read, written or sent.
#[derive(Debug)]
pub enum ProtocolError {
    /// A parser found its frame malformed: the parser's name, and what it
    /// found.
    ParserError(&'static str, String),
    /// No parser answers to the frame's first character.
    ParseError,
    CommunicateError(CommunicateError),
    SerdeSerializationError(serde_json::Error),
}

/// The `Display` of `serde_json::Error`: the codec's own words for the
/// error. Nothing is claimed of them.
#[verifier::external_body]
fn json_error_text(error: &serde_json::Error) -> (words: String) {
    error.to_string()
}

impl ProtocolError {
    /// The error in words: a fixed sentence, or a fixed beginning followed
    /// by the words of the error within.
    pub fn message(&self) -> (words: String)
        ensures
            match self {
                ProtocolError::ParserError(parser, error) => words@ == "Parser '"@ + parser@
                    + "' for protocol had an exception: "@ + error@,
                ProtocolError::ParseError => words@ == "No matching parser was found!"@,
                ProtocolError::CommunicateError(_) => "Communication Error: "@.is_prefix_of(words@),
                ProtocolError::SerdeSerializationError(_) => "Serde serialization error: "@
                    .is_prefix_of(words@),
            },
    {
        match self {
            ProtocolError::ParserError(parser, error) => String::from_str("Parser '").concat(
                parser,
            ).concat("' for protocol had an exception: ").concat(error.as_str()),
            ProtocolError::ParseError => String::from_str("No matching parser was found!"),
            ProtocolError::CommunicateError(error) => {
                let detail = error.message();
                let words = String::from_str("Communication Error: ").concat(detail.as_str());
                proof {
                    assert(words@.subrange(0, "Communication Error: "@.len() as int)
                        =~= "Communication Error: "@);
                }
                words
            },
            ProtocolError::SerdeSerializationError(error) => {
                let detail = json_error_text(error);
                let words = String::from_str("Serde serialization error: ").concat(
                    detail.as_str(),
                );
                proof {
                    assert(words@.subrange(0, "Serde serialization error: "@.len() as int)
                        =~= "Serde serialization error: "@);
                }
                words
            },
        }
    }
}

/// An error of the protocol as a value: which kind, for a parser's
/// complaint the parser's name and its words, and for an error between
/// peers its kind.
pub enum Fault {
    Parser { parser: Seq<char>, message: Seq<char> },
    NoParser,
    Communicate(CommunicateFault),
    Json,
}

impl View for ProtocolError {
    type V = Fault;

    open spec fn view(&self) -> Fault {
        match self {
            ProtocolError::ParserError(parser, message) => Fault::Parser {
                parser: parser@,
                message: message@,
            },
            ProtocolError::ParseError => Fault::NoParser,
            ProtocolError::CommunicateError(error) => Fault::Communicate(error@),
            ProtocolError::SerdeSerializationError(_) => Fault::Json,
        }
    }
}

/// A monitor as it is listed in a topology announcement: its id, its origin
/// and its size.
pub type DisplayRow = (u32, i32, i32, u32, u32);

/// The JSON text of a list of monitors, if the codec writes one for it.
pub uninterp spec fn json_text(rows: Seq<DisplayRow>) -> Option<Seq<char>>;

/// The list of monitors that a JSON text holds, if it holds one.
pub uninterp spec fn json_rows(text: Seq<char>) -> Option<Seq<DisplayRow>>;

/// `serde_json::to_string` on a list of tuples of integers: the list as
/// JSON text, or the codec's refusal. Which of the two, and the text,
/// depends on the list alone.
#[verifier::external_body]
fn json_encode(rows: &Vec<DisplayRow>) -> (r: Result<String, serde_json::Error>)
    ensures
        match r {
            Ok(text) => json_text(rows@) == Some(text@),
            Err(_) => json_text(rows@) is None,
        },
{
    serde_json::to_string(rows)
}

/// `serde_json::from_str` for a list of tuples of integers: reads the list
/// from JSON text, or refuses the text. Which of the two, and the list,
/// depends on the text alone.
#[verifier::external_body]
fn json_decode(text: &str) -> (r: Result<Vec<DisplayRow>, serde_json::Error>)
    ensures
        match r {
            Ok(rows) => json_rows(text@) == Some(rows@),
            Err(_) => json_rows(text@) is None,
        },
{
    serde_json::from_str::<Vec<DisplayRow>>(text)
}

/// A monitor as it is listed.
pub open spec fn row_of(display: Display) -> DisplayRow {
    (display.id, display.client_x, display.client_y, display.width, display.height)
}

/// The monitor that a listing describes.
pub open spec fn display_of(row: DisplayRow) -> Display {
    Display { id: row.0, client_x: row.1, client_y: row.2, width: row.3, height: row.4 }
}

/// The monitors as they are listed.
pub open spec fn rows_of(displays: Seq<Display>) -> Seq<DisplayRow> {
    displays.map_values(|d: Display| row_of(d))
}

/// The monitors that the listings describe.
pub open spec fn displays_of(rows: Seq<DisplayRow>) -> Seq<Display> {
    rows.map_values(|r: DisplayRow| display_of(r))
}

/// Listing monitors and reading the listings gives the monitors back.
pub proof fn lemma_rows_round_trip(displays: Seq<Display>)
    ensures
        displays_of(rows_of(displays)) == displays,
{
    assert(displays_of(rows_of(displays)) =~= displays);
}

/// The request for a machine's topology, addressed to the machine that the
/// requester knows under `client_ip`.
#[derive(Debug, Clone, Copy, PartialEq, Eq, Structural)]
pub struct RequestDisplays {
    pub client_ip: Ipv4Addr,
}

impl RequestDisplays {
    /// The request is addressed to the machine that is seen under `own_ip`.
    pub open spec fn spec_is_for(self, own_ip: Option<SocketAddrV4>) -> bool {
        match own_ip {
            Some(addr) => addr.ip == self.client_ip,
            None => false,
        }
    }

    /// Whether this machine is to answer the request with its own
    /// topology: it does so only when it knows its address and the request
    /// names that address.
    pub fn is_for(&self, own_ip: Option<SocketAddrV4>) -> (mine: bool)
        ensures
            mine == self.spec_is_for(own_ip),
    {
        match own_ip {
            Some(addr) => addr.ip == self.client_ip,
            None => false,
        }
    }

    /// The requests to send after the peer set has changed: one for each
    /// peer of which the topology holds no layout yet.
    pub fn for_missing(
        display_manager: &DisplayManager,
        devices: &Vec<ReceiverDevice>,
    ) -> (requests: Vec<RequestDisplays>)
        ensures
            requests@ == display_manager@.missing(devices@).map_values(
                |p: ReceiverDevice| RequestDisplays { client_ip: p.socket_addr.ip },
            ),
    {
        let missing = display_manager.get_missing_displays(devices);
        let mut requests: Vec<RequestDisplays> = Vec::new();
        let mut index: usize = 0;
        while index < missing.len()
            invariant
                index <= missing.len(),
                requests@ == missing@.take(index as int).map_values(
                    |p: ReceiverDevice| RequestDisplays { client_ip: p.socket_addr.ip },
                ),
            decreases missing.len() - index,
        {
            requests.push(RequestDisplays { client_ip: missing[index].socket_addr.ip() });
            proof {
                assert(requests@ =~= missing@.take(index + 1).map_values(
                    |p: ReceiverDevice| RequestDisplays { client_ip: p.socket_addr.ip },
                ));
            }
            index = index + 1;
        }
        proof {
            assert(missing@.take(missing.len() as int) =~= missing@);
        }
        requests
    }
}

/// An event as a value.
pub enum EventsView {
    MouseMovement(MousePosition),
    ClientDisplays(Machine),
    RequestDisplays(RequestDisplays),
    KeyInput(KeyInputView),
}

/// The pointer position that the rest of a frame describes, or why it
/// describes none: its first two pieces, set apart by bars, are numbers.
pub open spec fn spec_parse_mouse(body: Seq<char>) -> Result<MousePosition, Fault> {
    if has_second_segment(body) {
        match (
            parse_signed(first_segment(body), i32::MIN as int, i32::MAX as int),
            parse_signed(second_segment(body), i32::MIN as int, i32::MAX as int),
        ) {
            (Some(x), Some(y)) => Ok(MousePosition { x: x as i32, y: y as i32 }),
            _ => Err(Fault::Parser { parser: "MouseMove"@, message: "Number parsing"@ }),
        }
    } else {
        Err(Fault::Parser { parser: "MouseMove"@, message: "Number amount"@ })
    }
}

/// The topology announcement that the rest of a frame describes, or why it
/// describes none: a JSON list of monitors. The machine it belongs to is
/// the one the frame came from, whatever the frame says.
pub open spec fn spec_parse_displays(body: Seq<char>, src: SocketAddrV4) -> Result<Machine, Fault> {
    match json_rows(body) {
        Some(rows) => Ok(Machine { client: Client::IsNetworked(src), displays: displays_of(rows) }),
        None => Err(Fault::Json),
    }
}

/// The topology request that the rest of a frame describes, or why it
/// describes none: an address in dotted decimal notation.
pub open spec fn spec_parse_request(body: Seq<char>) -> Result<RequestDisplays, Fault> {
    match Ipv4Addr::spec_parse(body) {
        Some(client_ip) => Ok(RequestDisplays { client_ip }),
        None => Err(
            Fault::Parser {
                parser: "RequestDisplaysParser"@,
                message: "invalid IPv4 address syntax"@,
            },
        ),
    }
}

/// The event that a frame from `src` describes, or why it describes none.
/// The frame's first character picks the parser, which reads the rest.
pub open spec fn spec_parse(frame: Seq<char>, src: SocketAddrV4) -> Result<EventsView, Fault> {
    if frame.len() > 0 && frame[0] == 'M' {
        match spec_parse_mouse(frame.skip(1)) {
            Ok(position) => Ok(EventsView::MouseMovement(position)),
            Err(fault) => Err(fault),
        }
    } else if frame.len() > 0 && frame[0] == 'D' {
        match spec_parse_displays(frame.skip(1), src) {
            Ok(machine) => Ok(EventsView::ClientDisplays(machine)),
            Err(fault) => Err(fault),
        }
    } else if frame.len() > 0 && frame[0] == 'R' {
        match spec_parse_request(frame.skip(1)) {
            Ok(request) => Ok(EventsView::RequestDisplays(request)),
            Err(fault) => Err(fault),
        }
    } else if frame.len() > 0 && frame[0] == 'K' {
        match KeyInputView::spec_try_from(frame.skip(1)) {
            Ok(input) => Ok(EventsView::KeyInput(input)),
            Err(fault) => Err(fault),
        }
    } else {
        Err(Fault::NoParser)
    }
}

/// What is made of a list of monitors once the codec has written it as
/// `text` and has read that text again: the frame of the announcement where
/// the text reads back as the list, else the reason for which no frame is
/// written.
pub open spec fn spec_read_back(
    rows: Seq<DisplayRow>,
    text: Seq<char>,
    back: Option<Seq<DisplayRow>>,
) -> Result<Seq<char>, Fault> {
    match back {
        Some(read) => if read == rows {
            Ok(seq!['D'] + text)
        } else {
            Err(
                Fault::Parser {
                    parser: "ClientDisplays"@,
                    message: "Announcement does not read back as written"@,
                },
            )
        },
        None => Err(Fault::Json),
    }
}

/// The frame of a topology announcement, or why none is written. The frame
/// holds the JSON text of the list of monitors. It is written only where the
/// codec writes a text for the list and reads that text back as the same
/// list, so that every frame that goes out is one that a peer can read.
pub open spec fn spec_announcement(displays: Seq<Display>) -> Result<Seq<char>, Fault> {
    match json_text(rows_of(displays)) {
        Some(text) => spec_read_back(rows_of(displays), text, json_rows(text)),
        None => Err(Fault::Json),
    }
}

impl EventsView {
    /// The frame of the event, or why none is written. Only a topology
    /// announcement can fail to be written.
    pub open spec fn spec_frame(self) -> Result<Seq<char>, Fault> {
        match self {
            EventsView::MouseMovement(position) => Ok(
                seq!['M'] + decimal_int(position.x as int) + seq!['|'] + decimal_int(
                    position.y as int,
                ),
            ),
            EventsView::ClientDisplays(machine) => spec_announcement(machine.displays),
            EventsView::RequestDisplays(request) => Ok(
                seq!['R'] + request.client_ip.spec_text(),
            ),
            EventsView::KeyInput(input) => Ok(seq!['K'] + input.spec_text()),
        }
    }
}

impl EventsView {
    /// A key event names a key that exists; every other event is well
    /// formed as it stands.
    pub open spec fn wf(self) -> bool {
        match self {
            EventsView::KeyInput(input) => input.key.wf(),
            _ => true,
        }
    }

    /// The event as the machine at `src` is told of it: a topology
    /// announcement belongs to the machine it came from, every other event
    /// is taken as it is.
    pub open spec fn received_from(self, src: SocketAddrV4) -> EventsView {
        match self {
            EventsView::ClientDisplays(machine) => EventsView::ClientDisplays(
                Machine { client: Client::IsNetworked(src), displays: machine.displays },
            ),
            _ => self,
        }
    }
}

/// A pointer position comes back from its frame.
pub proof fn lemma_mouse_round_trip(position: MousePosition, src: SocketAddrV4)
    ensures
        spec_parse(EventsView::MouseMovement(position).spec_frame()->Ok_0, src) == Ok::<
            EventsView,
            Fault,
        >(EventsView::MouseMovement(position)),
{
    let x = decimal_int(position.x as int);
    let y = decimal_int(position.y as int);
    let frame = EventsView::MouseMovement(position).spec_frame()->Ok_0;
    let body = frame.skip(1);
    assert(frame[0] == 'M');
    assert(body =~= x + seq!['|'] + y);
    lemma_signed_round_trip(position.x as int, i32::MIN as int, i32::MAX as int);
    lemma_signed_round_trip(position.y as int, i32::MIN as int, i32::MAX as int);
    lemma_find_after(x, '|', y);
    lemma_find_none(y, '|');
}

/// A topology request comes back from its frame.
pub proof fn lemma_request_round_trip(request: RequestDisplays, src: SocketAddrV4)
    ensures
        spec_parse(EventsView::RequestDisplays(request).spec_frame()->Ok_0, src) == Ok::<
            EventsView,
            Fault,
        >(EventsView::RequestDisplays(request)),
{
    let frame = EventsView::RequestDisplays(request).spec_frame()->Ok_0;
    assert(frame[0] == 'R');
    assert(frame.skip(1) =~= request.client_ip.spec_text());
    request.client_ip.lemma_text_round_trip();
}

/// A key comes back from its text.
pub proof fn lemma_key_round_trip(key: KeyView)
    requires
        key.wf(),
    ensures
        KeyView::spec_try_from(key.spec_text()) == Ok::<KeyView, Fault>(key),
        bar_free(key.spec_text()),
{
    let text = key.spec_text();
    match key {
        KeyView::KeyCode(name) => {
            assert(text.skip(2) =~= name);
            assert forall|i: int| 0 <= i < text.len() implies #[trigger] text[i] != '|' by {
                if i >= 2 {
                    assert(text[i] == name[i - 2]);
                }
            }
        },
        KeyView::MouseButton(index) => {
            let digits = decimal_nat(index as nat);
            assert(text.skip(2) =~= digits);
            lemma_decimal_nat(index as nat);
            lemma_unsigned_round_trip(index as nat, usize::MAX as int);
            lemma_unsigned_fault(digits, usize::MAX as int);
            assert forall|i: int| 0 <= i < text.len() implies #[trigger] text[i] != '|' by {
                if i >= 2 {
                    assert(text[i] == digits[i - 2]);
                }
            }
        },
    }
}

/// A key event comes back from its frame.
pub proof fn lemma_key_input_round_trip(input: KeyInputView, src: SocketAddrV4)
    requires
        input.key.wf(),
    ensures
        spec_parse(EventsView::KeyInput(input).spec_frame()->Ok_0, src) == Ok::<
            EventsView,
            Fault,
        >(EventsView::KeyInput(input)),
{
    let frame = EventsView::KeyInput(input).spec_frame()->Ok_0;
    let direction = input.direction.spec_text();
    let key = input.key.spec_text();
    reveal_strlit("down");
    reveal_strlit("up");
    assert(frame[0] == 'K');
    assert(frame.skip(1) =~= direction + seq!['|'] + key);
    lemma_key_round_trip(input.key);
    lemma_find_after(direction, '|', key);
    lemma_find_none(key, '|');
    assert("down"@[0] == 'd');
    assert("up"@[0] == 'u');
}

/// A topology announcement comes back from its frame, as the announcement
/// of the machine that the frame came from.
pub proof fn lemma_announcement_round_trip(machine: Machine, src: SocketAddrV4)
    requires
        EventsView::ClientDisplays(machine).spec_frame() is Ok,
    ensures
        spec_parse(EventsView::ClientDisplays(machine).spec_frame()->Ok_0, src) == Ok::<
            EventsView,
            Fault,
        >(EventsView::ClientDisplays(machine).received_from(src)),
{
    let rows = rows_of(machine.displays);
    let text = json_text(rows)->0;
    let frame = EventsView::ClientDisplays(machine).spec_frame()->Ok_0;
    assert(frame[0] == 'D');
    assert(frame.skip(1) =~= text);
    lemma_rows_round_trip(machine.displays);
}

/// Reading a written frame gives the event back: for every event that is
/// well formed and for which a frame is written, that frame is read as the
/// event. A frame is written for every pointer position, topology request
/// and key event. A topology announcement is read as coming from the
/// frame's sender.
pub proof fn law_round_trip(event: EventsView, src: SocketAddrV4)
    requires
        event.wf(),
    ensures
        !(event is ClientDisplays) ==> event.spec_frame() is Ok,
        event.spec_frame() is Ok ==> spec_parse(event.spec_frame()->Ok_0, src) == Ok::<
            EventsView,
            Fault,
        >(event.received_from(src)),
{
    match event {
        EventsView::MouseMovement(position) => {
            lemma_mouse_round_trip(position, src);
        },
        EventsView::ClientDisplays(machine) => {
            if event.spec_frame() is Ok {
                lemma_announcement_round_trip(machine, src);
            }
        },
        EventsView::RequestDisplays(request) => {
            lemma_request_round_trip(request, src);
        },
        EventsView::KeyInput(input) => {
            lemma_key_input_round_trip(input, src);
        },
    }
}

/// An event that can be written as a frame.
pub trait Event {
    /// The event as a value.
    spec fn event(&self) -> EventsView;

    /// Writes the event as a frame, or says why none is written. Only a
    /// topology announcement can fail to be written. A frame that is
    /// written is read, by whoever it comes to, as the event it was written
    /// for.
    fn serialize(&self) -> (r: Result<String, ProtocolError>)
        ensures
            match r {
                Ok(frame) => self.event().spec_frame() == Ok::<Seq<char>, Fault>(frame@),
                Err(e) => self.event().spec_frame() == Err::<Seq<char>, Fault>(e@),
            },
            r is Ok ==> forall|src: SocketAddrV4| #[trigger]
                spec_parse(r->Ok_0@, src) == Ok::<EventsView, Fault>(
                    self.event().received_from(src),
                ),
    ;
}

impl Event for MousePosition {
    open spec fn event(&self) -> EventsView {
        EventsView::MouseMovement(*self)
    }

    fn serialize(&self) -> (r: Result<String, ProtocolError>) {
        proof {
            reveal_strlit("M");
            reveal_strlit("|");
        }
        let mut frame = String::from_str("M");
        push_signed(&mut frame, self.x as i64);
        frame.append("|");
        push_signed(&mut frame, self.y as i64);
        proof {
            assert(frame@ =~= self.event().spec_frame()->Ok_0);
            assert forall|src: SocketAddrV4| #[trigger]
                spec_parse(frame@, src) == Ok::<EventsView, Fault>(
                    self.event().received_from(src),
                ) by {
                lemma_mouse_round_trip(*self, src);
            }
        }
        Ok(frame)
    }
}

/// The monitors as they are listed.
fn listing(displays: &Vec<Display>) -> (rows: Vec<DisplayRow>)
    ensures
        rows@ == rows_of(displays@),
{
    let mut rows: Vec<DisplayRow> = Vec::new();
    let mut index: usize = 0;
    while index < displays.len()
        invariant
            index <= displays.len(),
            rows@ == rows_of(displays@.take(index as int)),
        decreases displays.len() - index,
    {
        let display = displays[index];
        rows.push((display.id, display.client_x, display.client_y, display.width, display.height));
        proof {
            assert(rows@ =~= rows_of(displays@.take(index + 1)));
        }
        index = index + 1;
    }
    proof {
        assert(displays@.take(displays.len() as int) =~= displays@);
    }
    rows
}

/// The monitors that the listings describe.
fn listed_displays(rows: &Vec<DisplayRow>) -> (displays: Vec<Display>)
    ensures
        displays@ == displays_of(rows@),
{
    let mut displays: Vec<Display> = Vec::new();
    let mut index: usize = 0;
    while index < rows.len()
        invariant
            index <= rows.len(),
            displays@ == displays_of(rows@.take(index as int)),
        decreases rows.len() - index,
    {
        let row = rows[index];
        displays.push(
            Display { id: row.0, client_x: row.1, client_y: row.2, width: row.3, height: row.4 },
        );
        proof {
            assert(displays@ =~= displays_of(rows@.take(index + 1)));
        }
        index = index + 1;
    }
    proof {
        assert(rows@.take(rows.len() as int) =~= rows@);
    }
    displays
}

/// The two lists hold the same monitors in the same order.
fn same_rows(first: &Vec<DisplayRow>, second: &Vec<DisplayRow>) -> (same: bool)
    ensures
        same == (first@ == second@),
{
    if first.len() != second.len() {
        return false;
    }
    let mut index: usize = 0;
    while index < first.len()
        invariant
            index <= first.len(),
            first.len() == second.len(),
            forall|i: int| 0 <= i < index ==> first@[i] == second@[i],
        decreases first.len() - index,
    {
        let a = first[index];
        let b = second[index];
        if a.0 != b.0 || a.1 != b.1 || a.2 != b.2 || a.3 != b.3 || a.4 != b.4 {
            return false;
        }
        index = index + 1;
    }
    proof {
        assert(first@ =~= second@);
    }
    true
}

/// The frame of a topology announcement from what the JSON codec made of
/// its list of monitors: the codec's text after the frame's first
/// character, where the codec has read that text back as the same list; or
/// the reason for which no frame is written.
pub fn announcement_frame(
    rows: &Vec<DisplayRow>,
    text: String,
    decoded: Result<Vec<DisplayRow>, serde_json::Error>,
) -> (r: Result<String, ProtocolError>)
    ensures
        match r {
            Ok(frame) => spec_read_back(
                rows@,
                text@,
                match decoded {
                    Ok(back) => Some(back@),
                    Err(_) => None,
                },
            ) == Ok::<Seq<char>, Fault>(frame@),
            Err(e) => spec_read_back(
                rows@,
                text@,
                match decoded {
                    Ok(back) => Some(back@),
                    Err(_) => None,
                },
            ) == Err::<Seq<char>, Fault>(e@),
        },
{
    proof {
        reveal_strlit("D");
    }
    match decoded {
        Ok(back) => if same_rows(&back, rows) {
            let frame = String::from_str("D").concat(text.as_str());
            proof {
                assert(frame@ =~= seq!['D'] + text@);
            }
            Ok(frame)
        } else {
            Err(
                ProtocolError::ParserError(
                    "ClientDisplays",
                    String::from_str("Announcement does not read back as written"),
                ),
            )
        },
        Err(e) => Err(ProtocolError::SerdeSerializationError(e)),
    }
}

impl Event for ClientDisplays {
    open spec fn event(&self) -> EventsView {
        EventsView::ClientDisplays(self@)
    }

    fn serialize(&self) -> (r: Result<String, ProtocolError>) {
        let rows = listing(&self.displays);
        match json_encode(&rows) {
            Ok(text) => {
                let decoded = json_decode(text.as_str());
                let r = announcement_frame(&rows, text, decoded);
                proof {
                    if r is Ok {
                        assert forall|src: SocketAddrV4| #[trigger]
                            spec_parse(r->Ok_0@, src) == Ok::<EventsView, Fault>(
                                self.event().received_from(src),
                            ) by {
                            lemma_announcement_round_trip(self@, src);
                        }
                    }
                }
                r
            },
            Err(e) => Err(ProtocolError::SerdeSerializationError(e)),
        }
    }
}

impl Event for RequestDisplays {
    open spec fn event(&self) -> EventsView {
        EventsView::RequestDisplays(*self)
    }

    fn serialize(&self) -> (r: Result<String, ProtocolError>) {
        proof {
            reveal_strlit("R");
        }
        let text = self.client_ip.text();
        let frame = String::from_str("R").concat(text.as_str());
        proof {
            assert(frame@ =~= self.event().spec_frame()->Ok_0);
            assert forall|src: SocketAddrV4| #[trigger]
                spec_parse(frame@, src) == Ok::<EventsView, Fault>(
                    self.event().received_from(src),
                ) by {
                lemma_request_round_trip(*self, src);
            }
        }
        Ok(frame)
    }
}

impl Event for KeyInput {
    open spec fn event(&self) -> EventsView {
        EventsView::KeyInput(self@)
    }

    fn serialize(&self) -> (r: Result<String, ProtocolError>) {
        proof {
            reveal_strlit("K");
        }
        let text = self.text();
        let frame = String::from_str("K").concat(text.as_str());
        proof {
            assert(frame@ =~= self.event().spec_frame()->Ok_0);
            assert forall|src: SocketAddrV4| #[trigger]
                spec_parse(frame@, src) == Ok::<EventsView, Fault>(
                    self.event().received_from(src),
                ) by {
                lemma_key_input_round_trip(self@, src);
            }
        }
        Ok(frame)
    }
}

/// The parser of key events.
#[derive(Debug)]
pub struct KeyInputParser {}

impl KeyInputParser {
    /// Reads a key event from a frame's text after its first character.
    pub fn parse(&self, text: &str) -> (r: Result<KeyInput, ProtocolError>)
        ensures
            match r {
                Ok(input) => KeyInputView::spec_try_from(text@) == Ok::<KeyInputView, Fault>(
                    input@,
                ) && input@.key.wf(),
                Err(e) => KeyInputView::spec_try_from(text@) == Err::<KeyInputView, Fault>(e@),
            },
    {
        KeyInput::try_from(text)
    }

    /// The character with which the frames of this parser begin.
    pub fn get_prefix(&self) -> (prefix: &'static str)
        ensures
            prefix@ == seq!['K'],
    {
        proof {
            reveal_strlit("K");
        }
        let prefix = "K";
        assert(prefix@ =~= seq!['K']);
        prefix
    }
}

/// The parser of pointer positions.
#[derive(Debug)]
pub struct MouseMoveParser {}

impl MouseMoveParser {
    /// Reads a pointer position from a frame's text after its first
    /// character.
    pub fn parse(&self, text: &str) -> (r: Result<MousePosition, ProtocolError>)
        ensures
            match r {
                Ok(position) => spec_parse_mouse(text@) == Ok::<MousePosition, Fault>(position),
                Err(e) => spec_parse_mouse(text@) == Err::<MousePosition, Fault>(e@),
            },
    {
        let chars = chars_of(text);
        let bar = find_from(&chars, 0, '|');
        proof {
            assert(chars@.skip(0) =~= text@);
        }
        if bar >= chars.len() {
            return Err(ProtocolError::ParserError("MouseMove", String::from_str("Number amount")));
        }
        let end = find_from(&chars, bar + 1, '|');
        proof {
            assert(first_segment(text@) =~= chars@.subrange(0, bar as int));
            assert(second_segment(text@) =~= chars@.subrange(bar + 1, end as int));
        }
        match (read_i32(&chars, 0, bar), read_i32(&chars, bar + 1, end)) {
            (Some(x), Some(y)) => Ok(MousePosition { x, y }),
            _ => Err(ProtocolError::ParserError("MouseMove", String::from_str("Number parsing"))),
        }
    }

    /// The character with which the frames of this parser begin.
    pub fn get_prefix(&self) -> (prefix: &'static str)
        ensures
            prefix@ == seq!['M'],
    {
        proof {
            reveal_strlit("M");
        }
        let prefix = "M";
        assert(prefix@ =~= seq!['M']);
        prefix
    }
}

/// The parser of topology announcements.
#[derive(Debug)]
pub struct ClientDisplayParser {}

impl ClientDisplayParser {
    /// Reads a topology announcement that came from `src` from a frame's
    /// text after its first character.
    pub fn parse(&self, text: &str, src: SocketAddrV4) -> (r: Result<ClientDisplays, ProtocolError>)
        ensures
            match r {
                Ok(displays) => spec_parse_displays(text@, src) == Ok::<Machine, Fault>(displays@),
                Err(e) => spec_parse_displays(text@, src) == Err::<Machine, Fault>(e@),
            },
    {
        Self::announced(json_decode(text), src)
    }

    /// The topology announcement from what the JSON codec read in a frame
    /// that came from `src`: the monitors that the codec's list describes,
    /// as those of the machine at `src`; or the codec's error.
    pub fn announced(decoded: Result<Vec<DisplayRow>, serde_json::Error>, src: SocketAddrV4) -> (r:
        Result<ClientDisplays, ProtocolError>)
        ensures
            match decoded {
                Ok(rows) => r is Ok && r->Ok_0@ == (Machine {
                    client: Client::IsNetworked(src),
                    displays: displays_of(rows@),
                }),
                Err(_) => r is Err && r->Err_0@ == Fault::Json,
            },
    {
        match decoded {
            Ok(rows) => Ok(ClientDisplays::new_networked(src, listed_displays(&rows))),
            Err(e) => Err(ProtocolError::SerdeSerializationError(e)),
        }
    }

    /// The character with which the frames of this parser begin.
    pub fn get_prefix(&self) -> (prefix: &'static str)
        ensures
            prefix@ == seq!['D'],
    {
        proof {
            reveal_strlit("D");
        }
        let prefix = "D";
        assert(prefix@ =~= seq!['D']);
        prefix
    }
}

/// The parser of topology requests.
#[derive(Debug)]
pub struct RequestDisplaysParser {}

impl RequestDisplaysParser {
    /// Reads a topology request from a frame's text after its first
    /// character.
    pub fn parse(&self, text: &str) -> (r: Result<RequestDisplays, ProtocolError>)
        ensures
            match r {
                Ok(request) => spec_parse_request(text@) == Ok::<RequestDisplays, Fault>(request),
                Err(e) => spec_parse_request(text@) == Err::<RequestDisplays, Fault>(e@),
            },
    {
        match Ipv4Addr::parse(text) {
            Some(client_ip) => Ok(RequestDisplays { client_ip }),
            None => Err(
                ProtocolError::ParserError(
                    "RequestDisplaysParser",
                    String::from_str("invalid IPv4 address syntax"),
                ),
            ),
        }
    }

    /// The character with which the frames of this parser begin.
    pub fn get_prefix(&self) -> (prefix: &'static str)
        ensures
            prefix@ == seq!['R'],
    {
        proof {
            reveal_strlit("R");
        }
        let prefix = "R";
        assert(prefix@ =~= seq!['R']);
        prefix
    }
}

/// An event that a frame described.
#[derive(Debug, Clone, PartialEq, Eq)]
pub enum Events {
    MouseMovement(MousePosition),
    ClientDisplays(ClientDisplays),
    RequestDisplays(RequestDisplays),
    KeyInput(KeyInput),
}

impl View for Events {
    type V = EventsView;

    open spec fn view(&self) -> EventsView {
        match self {
            Events::MouseMovement(position) => EventsView::MouseMovement(*position),
            Events::ClientDisplays(displays) => EventsView::ClientDisplays(displays@),
            Events::RequestDisplays(request) => EventsView::RequestDisplays(*request),
            Events::KeyInput(input) => EventsView::KeyInput(input@),
        }
    }
}

/// The text begins with the one character of a prefix.
fn starts_with(chars: &Vec<char>, prefix: &str) -> (begins: bool)
    requires
        prefix@.len() == 1,
    ensures
        begins == (chars@.len() > 0 && chars@[0] == prefix@[0]),
{
    chars.len() > 0 && chars[0] == prefix.get_char(0)
}

/// The parser of frames: one parser for each kind of event.
#[derive(Debug)]
pub struct MainParser {
    mouse_movement_parser: MouseMoveParser,
    client_displays_parser: ClientDisplayParser,
    request_displays_parser: RequestDisplaysParser,
    key_input_parser: KeyInputParser,
}

impl MainParser {
    /// A parser for every kind of frame.
    pub fn new() -> (parser: MainParser) {
        MainParser {
            mouse_movement_parser: MouseMoveParser {  },
            client_displays_parser: ClientDisplayParser {  },
            request_displays_parser: RequestDisplaysParser {  },
            key_input_parser: KeyInputParser {  },
        }
    }

    /// Reads the event of a frame that came from `src`.
    pub fn parse(&self, text: String, src: SocketAddrV4) -> (r: Result<Events, ProtocolError>)
        ensures
            match r {
                Ok(event) => spec_parse(text@, src) == Ok::<EventsView, Fault>(event@),
                Err(e) => spec_parse(text@, src) == Err::<EventsView, Fault>(e@),
            },
    {
        let chars = chars_of(text.as_str());
        if starts_with(&chars, self.mouse_movement_parser.get_prefix()) {
            let body = self.prepare_text(self.mouse_movement_parser.get_prefix(), text.as_str());
            match self.mouse_movement_parser.parse(body.as_str()) {
                Ok(position) => Ok(Events::MouseMovement(position)),
                Err(e) => Err(e),
            }
        } else if starts_with(&chars, self.client_displays_parser.get_prefix()) {
            let body = self.prepare_text(self.client_displays_parser.get_prefix(), text.as_str());
            match self.client_displays_parser.parse(body.as_str(), src) {
                Ok(displays) => Ok(Events::ClientDisplays(displays)),
                Err(e) => Err(e),
            }
        } else if starts_with(&chars, self.request_displays_parser.get_prefix()) {
            let body = self.prepare_text(self.request_displays_parser.get_prefix(), text.as_str());
            match self.request_displays_parser.parse(body.as_str()) {
                Ok(request) => Ok(Events::RequestDisplays(request)),
                Err(e) => Err(e),
            }
        } else if starts_with(&chars, self.key_input_parser.get_prefix()) {
            let body = self.prepare_text(self.key_input_parser.get_prefix(), text.as_str());
            match self.key_input_parser.parse(body.as_str()) {
                Ok(input) => Ok(Events::KeyInput(input)),
                Err(e) => Err(e),
            }
        } else {
            Err(ProtocolError::ParseError)
        }
    }

    /// The text without as many characters at its beginning as the prefix
    /// has, or without any where it has fewer.
    pub fn prepare_text(&self, prefix: &str, text: &str) -> (body: String)
        ensures
            body@ == if prefix@.len() <= text@.len() {
                text@.skip(prefix@.len() as int)
            } else {
                Seq::<char>::empty()
            },
    {
        let skipped = prefix.unicode_len();
        let length = text.unicode_len();
        if skipped <= length {
            let body = slice_text(text, skipped, length);
            proof {
                assert(body@ =~= text@.skip(skipped as int));
            }
            body
        } else {
            String::new()
        }
    }
}

/// What there is to send: a frame, and the addresses it goes to.
#[derive(Debug)]
pub struct Dispatch {
    pub frame: String,
    pub targets: Vec<SocketAddrV4>,
}

/// Turns datagrams into events and events into what there is to send.
#[derive(Debug)]
pub struct EventHandler {
    parser: MainParser,
}

impl EventHandler {
    /// A handler with a parser for every kind of frame.
    pub fn new() -> (handler: EventHandler) {
        EventHandler { parser: MainParser::new() }
    }

    /// The event of a datagram's text. There is none where the datagram
    /// came from something other than an IPv4 address, for which `src` is
    /// `None`, or where the text is no frame: such a datagram is dropped.
    pub fn event_listener(&self, msg: &str, src: Option<SocketAddrV4>) -> (r: Option<Events>)
        ensures
            match r {
                Some(event) => src is Some && spec_parse(msg@, src->0) == Ok::<EventsView, Fault>(
                    event@,
                ),
                None => src is None || spec_parse(msg@, src->0) is Err,
            },
    {
        let addr = match src {
            Some(addr) => addr,
            None => {
                return None;
            },
        };
        match self.parser.parse(String::from_str(msg), addr) {
            Ok(event) => Some(event),
            Err(_) => None,
        }
    }

    /// What there is to send to tell every peer of an event: the event's
    /// frame, to each peer of the directory. It fails where no frame is
    /// written for the event, for the reason for which none is written;
    /// and, where one is, with the peer missing if no peer is known.
    pub fn emit_event<E: Event>(&self, communicate: &Communicate, event: &E) -> (r: Result<
        Dispatch,
        ProtocolError,
    >)
        ensures
            match event.event().spec_frame() {
                Err(fault) => r is Err && r->Err_0@ == fault,
                Ok(frame) => if communicate@.peers.len() > 0 {
                    r is Ok && r->Ok_0.frame@ == frame && r->Ok_0.targets@
                        == communicate@.peers.map_values(|p: ReceiverDevice| p.socket_addr)
                } else {
                    r is Err && r->Err_0@ == Fault::Communicate(CommunicateFault::ClientNotFound)
                },
            },
    {
        let frame = match event.serialize() {
            Ok(frame) => frame,
            Err(e) => {
                return Err(e);
            },
        };
        match communicate.send() {
            Ok(targets) => Ok(Dispatch { frame, targets }),
            Err(e) => Err(ProtocolError::CommunicateError(e)),
        }
    }

    /// What there is to send to tell one peer of an event: the event's
    /// frame, to the peer's address. It fails where no frame is written for
    /// the event, for the reason for which none is written; and, where one
    /// is, with the peer missing if the peer is not known.
    pub fn secure_communication<E: Event>(
        &self,
        communicate: &Communicate,
        target: SocketAddrV4,
        event: &E,
    ) -> (r: Result<Dispatch, ProtocolError>)
        ensures
            match event.event().spec_frame() {
                Err(fault) => r is Err && r->Err_0@ == fault,
                Ok(frame) => if listed(communicate@.peers, target) {
                    r is Ok && r->Ok_0.frame@ == frame && r->Ok_0.targets@ == seq![target]
                } else {
                    r is Err && r->Err_0@ == Fault::Communicate(CommunicateFault::ClientNotFound)
                },
            },
    {
        let frame = match event.serialize() {
            Ok(frame) => frame,
            Err(e) => {
                return Err(e);
            },
        };
        match communicate.send_specific(target) {
            Ok(addr) => {
                let mut targets: Vec<SocketAddrV4> = Vec::new();
                targets.push(addr);
                proof {
                    assert(targets@ =~= seq![target]);
                }
                Ok(Dispatch { frame, targets })
            },
            Err(e) => Err(ProtocolError::CommunicateError(e)),
        }
    }
}

} // verus!
