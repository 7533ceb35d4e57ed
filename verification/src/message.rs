//! The messages that peers exchange, and their text on the wire.
//!
//! A message travels as one line: the sender's id in decimal, a colon, the
//! digit of the message's type, and a line feed that ends the frame.

use crate::error::{failure, ErrorKind, LeaderElectError};
use crate::text::{
    chars_of, code_point, decimal_digits, decimal_value, digit_char, digit_value,
    is_canonical_decimal, is_digit, is_whitespace, lemma_canonical_decimal_unique,
    lemma_decimal_digits, lemma_digit_char, lemma_digit_value, parse_canonical, push_decimal,
    trim, trim_bounds, trim_end, trim_start,
};
use vstd::prelude::*;
use vstd::string::*;

verus! {

/// What a message says.
#[derive(Debug, PartialEq, Eq, Structural, Clone, Copy)]
pub enum MessageType {
    /// "I am alive and I am your leader."
    HeartBeat,
    /// "I believe the leader is gone; stop me if you are alive and higher."
    Elect,
    /// The answer to `Elect`.
    Alive,
    /// "I am the new leader."
    Victory,
}

/// What came of an `Elect` sent to one peer.
#[derive(Debug, PartialEq, Eq, Structural, Clone, Copy)]
pub enum ElectResponse {
    /// No answer came in time.
    ResponseTimeOut,
    /// The peer answered `Alive`.
    BullierAlive,
}

impl MessageType {
    /// The number that stands for this type on the wire.
    pub open spec fn spec_code(self) -> u8 {
        match self {
            MessageType::HeartBeat => 0,
            MessageType::Elect => 1,
            MessageType::Alive => 2,
            MessageType::Victory => 3,
        }
    }

    /// The number that stands for this type on the wire.
    #[verifier::when_used_as_spec(spec_code)]
    pub fn code(self) -> (c: u8)
        ensures
            c == self.spec_code(),
    {
        match self {
            MessageType::HeartBeat => 0,
            MessageType::Elect => 1,
            MessageType::Alive => 2,
            MessageType::Victory => 3,
        }
    }

    /// The type that `code` stands for.
    pub open spec fn spec_from_code(code: nat) -> Option<MessageType> {
        if code == 0 {
            Some(MessageType::HeartBeat)
        } else if code == 1 {
            Some(MessageType::Elect)
        } else if code == 2 {
            Some(MessageType::Alive)
        } else if code == 3 {
            Some(MessageType::Victory)
        } else {
            None
        }
    }

    /// The type that `code` stands for.
    pub fn from_code(code: u8) -> (t: Option<MessageType>)
        ensures
            t == Self::spec_from_code(code as nat),
    {
        if code == 0 {
            Some(MessageType::HeartBeat)
        } else if code == 1 {
            Some(MessageType::Elect)
        } else if code == 2 {
            Some(MessageType::Alive)
        } else if code == 3 {
            Some(MessageType::Victory)
        } else {
            None
        }
    }

    /// The type that the text `s` stands for: `s` is the one digit of a code.
    pub open spec fn parse(s: Seq<char>) -> Option<MessageType> {
        if s.len() == 1 && is_digit(s[0]) {
            Self::spec_from_code(digit_value(s[0]))
        } else {
            None
        }
    }

    /// Reads the text of a type: one of `0`, `1`, `2`, `3`.
    pub fn from_wire(s: &str) -> (r: Result<MessageType, LeaderElectError>)
        ensures
            match r {
                Ok(t) => Self::parse(s@) == Some(t),
                Err(e) => Self::parse(s@) is None && e@ == failure(ErrorKind::MalformedMessage),
            },
    {
        let v = chars_of(s);
        match type_in(&v, 0, v.len()) {
            Some(t) => {
                assert(v@.subrange(0, v.len() as int) == v@);
                Ok(t)
            },
            None => {
                assert(v@.subrange(0, v.len() as int) == v@);
                Err(LeaderElectError::of(ErrorKind::MalformedMessage))
            },
        }
    }

    /// The name of the type.
    pub open spec fn spec_name(self) -> Seq<char> {
        match self {
            MessageType::HeartBeat => "HeartBeat"@,
            MessageType::Elect => "Elect"@,
            MessageType::Alive => "Alive"@,
            MessageType::Victory => "Victory"@,
        }
    }

    fn name(self) -> (s: &'static str)
        ensures
            s@ == self.spec_name(),
    {
        match self {
            MessageType::HeartBeat => "HeartBeat",
            MessageType::Elect => "Elect",
            MessageType::Alive => "Alive",
            MessageType::Victory => "Victory",
        }
    }

    /// The name of the type, as it is shown to people.
    pub fn to_string(&self) -> (s: String)
        ensures
            s@ == self.spec_name(),
    {
        String::from_str(self.name())
    }
}

impl std::str::FromStr for MessageType {
    type Err = LeaderElectError;

    /// Reads the text of a type, as `MessageType::from_wire` does.
    fn from_str(s: &str) -> (r: Result<MessageType, LeaderElectError>)
        ensures
            match r {
                Ok(t) => MessageType::parse(s@) == Some(t),
                Err(e) => MessageType::parse(s@) is None && e@ == failure(
                    ErrorKind::MalformedMessage,
                ),
            },
    {
        MessageType::from_wire(s)
    }
}

impl ElectResponse {
    /// The name of the response.
    pub open spec fn spec_name(self) -> Seq<char> {
        match self {
            ElectResponse::ResponseTimeOut => "ResponseTimeOut"@,
            ElectResponse::BullierAlive => "BullierAlive"@,
        }
    }

    /// The name of the response, as it is shown to people.
    pub fn to_string(&self) -> (s: String)
        ensures
            s@ == self.spec_name(),
    {
        match self {
            ElectResponse::ResponseTimeOut => String::from_str("ResponseTimeOut"),
            ElectResponse::BullierAlive => String::from_str("BullierAlive"),
        }
    }
}

/// One message: who sent it and what it says.
#[derive(Debug, PartialEq, Eq, Structural, Clone, Copy)]
pub struct Message {
    pub message_type: MessageType,
    pub sender_id: u8,
}

/// The line that stands for `m`, without the line feed that ends its frame.
pub open spec fn wire_text(m: Message) -> Seq<char> {
    decimal_digits(m.sender_id as nat) + seq![':', digit_char(m.message_type.spec_code() as nat)]
}

/// The frame that stands for `m`: its line and a line feed.
pub open spec fn frame_text(m: Message) -> Seq<char> {
    wire_text(m).push('\n')
}

/// The message that the line `s` stands for. The line ends in a colon and the
/// digit of a type, and what stands before the colon is the sender's id,
/// written the shortest way.
pub open spec fn parse_text(s: Seq<char>) -> Option<Message> {
    let n = s.len() as int;
    let id = s.take(n - 2);
    if n >= 3 && s[n - 2] == ':' && is_canonical_decimal(id) && decimal_value(id) <= 255 {
        match MessageType::parse(s.skip(n - 1)) {
            Some(message_type) => Some(
                Message { message_type, sender_id: decimal_value(id) as u8 },
            ),
            None => None,
        }
    } else {
        None
    }
}

/// The message that a received line stands for: the white space around the
/// line, its line feed among it, does not count.
pub open spec fn decode(s: Seq<char>) -> Option<Message> {
    parse_text(trim(s))
}

/// What a reader makes of a line that it got from a stream, where an empty
/// line says that the stream has ended.
pub open spec fn received(line: Seq<char>) -> Result<Message, ErrorKind> {
    if line.len() == 0 {
        Err(ErrorKind::ZeroBytesRead)
    } else {
        match decode(line) {
            Some(m) => Ok(m),
            None => Err(ErrorKind::MalformedMessage),
        }
    }
}

/// The type that `v[lo..hi]` stands for.
fn type_in(v: &Vec<char>, lo: usize, hi: usize) -> (r: Option<MessageType>)
    requires
        lo <= hi <= v.len(),
    ensures
        r == MessageType::parse(v@.subrange(lo as int, hi as int)),
{
    if hi - lo != 1 {
        return None;
    }
    let n = code_point(v[lo]);
    assert(v@.subrange(lo as int, hi as int)[0] == v@[lo as int]);
    if 0x30 <= n && n <= 0x39 {
        MessageType::from_code((n - 0x30) as u8)
    } else {
        None
    }
}

/// The message that `v[lo..hi]` stands for.
fn message_in(v: &Vec<char>, lo: usize, hi: usize) -> (r: Option<Message>)
    requires
        lo <= hi <= v.len(),
    ensures
        r == parse_text(v@.subrange(lo as int, hi as int)),
{
    let ghost s = v@.subrange(lo as int, hi as int);
    if hi - lo < 3 {
        return None;
    }
    let colon = hi - 2;
    assert(s[s.len() - 2] == v@[colon as int]);
    assert(s.take(s.len() - 2) == v@.subrange(lo as int, colon as int));
    assert(s.skip(s.len() - 1) == v@.subrange(hi - 1, hi as int));
    if v[colon] != ':' {
        return None;
    }
    let sender_id = match parse_canonical(v, lo, colon, 255) {
        Some(id) => id as u8,
        None => {
            return None;
        },
    };
    match type_in(v, hi - 1, hi) {
        Some(message_type) => Some(Message { message_type, sender_id }),
        None => None,
    }
}

impl Message {
    pub fn new(sender_id: u8, message_type: MessageType) -> (m: Message)
        ensures
            m == (Message { message_type, sender_id }),
    {
        Message { sender_id, message_type }
    }

    pub fn get_message_type(&self) -> (t: MessageType)
        ensures
            t == self.message_type,
    {
        self.message_type
    }

    pub fn get_sender_id(&self) -> (id: u8)
        ensures
            id == self.sender_id,
    {
        self.sender_id
    }

    /// Reads a line that holds a message and nothing else, not even white
    /// space.
    pub fn from_wire(s: &str) -> (r: Result<Message, LeaderElectError>)
        ensures
            match r {
                Ok(m) => parse_text(s@) == Some(m),
                Err(e) => parse_text(s@) is None && e@ == failure(ErrorKind::MalformedMessage),
            },
    {
        let v = chars_of(s);
        assert(v@.subrange(0, v.len() as int) == v@);
        match message_in(&v, 0, v.len()) {
            Some(m) => Ok(m),
            None => Err(LeaderElectError::of(ErrorKind::MalformedMessage)),
        }
    }

    /// The message as it is shown to people.
    pub open spec fn spec_to_string(self) -> Seq<char> {
        "[message_type: "@ + self.message_type.spec_name() + ", sender_id: "@ + decimal_digits(
            self.sender_id as nat,
        ) + "]"@
    }

    /// The message as it is shown to people.
    pub fn to_string(&self) -> (s: String)
        ensures
            s@ == self.spec_to_string(),
    {
        let mut s = String::from_str("[message_type: ");
        s.append(self.message_type.name());
        s.append(", sender_id: ");
        push_decimal(&mut s, self.sender_id);
        s.append("]");
        s
    }
}

impl std::str::FromStr for Message {
    type Err = LeaderElectError;

    /// Reads a line that holds a message and nothing else, as
    /// `Message::from_wire` does.
    fn from_str(s: &str) -> (r: Result<Message, LeaderElectError>)
        ensures
            match r {
                Ok(m) => parse_text(s@) == Some(m),
                Err(e) => parse_text(s@) is None && e@ == failure(ErrorKind::MalformedMessage),
            },
    {
        Message::from_wire(s)
    }
}

/// Reads a received line: the text of a message with white space around it.
pub fn str_to_message(inp_str: &str) -> (r: Result<Message, LeaderElectError>)
    ensures
        match r {
            Ok(m) => decode(inp_str@) == Some(m),
            Err(e) => decode(inp_str@) is None && e@ == failure(ErrorKind::MalformedMessage),
        },
{
    let v = chars_of(inp_str);
    let (lo, hi) = trim_bounds(&v);
    match message_in(&v, lo, hi) {
        Some(m) => Ok(m),
        None => Err(LeaderElectError::of(ErrorKind::MalformedMessage)),
    }
}

/// The line that stands for `msg`, without the line feed that ends its frame.
pub fn message_to_str(msg: Message) -> (s: String)
    ensures
        s@ == wire_text(msg),
{
    let mut s = String::new();
    push_decimal(&mut s, msg.sender_id);
    s.append(":");
    push_decimal(&mut s, msg.message_type.code());
    proof {
        reveal_strlit(":");
        let code = msg.message_type.spec_code() as nat;
        assert(decimal_digits(code) == seq![digit_char(code)]);
        assert(s@ == wire_text(msg));
    }
    s
}

/// Puts the frame of `msg` at the end of what `stream` is to carry.
pub fn send_message(msg: Message, stream: &mut String)
    ensures
        final(stream)@ == old(stream)@ + frame_text(msg),
{
    let line = message_to_str(msg);
    stream.append(line.as_str());
    stream.append("\n");
    proof {
        reveal_strlit("\n");
        assert(stream@ == old(stream)@ + frame_text(msg));
    }
}

/// Reads what one read of a line from a peer's stream gave: the line with
/// its line feed, or nothing where the stream has ended.
pub fn receive_message(line: &str) -> (r: Result<Message, LeaderElectError>)
    ensures
        match r {
            Ok(m) => received(line@) == Ok::<Message, ErrorKind>(m),
            Err(e) => received(line@) == Err::<Message, ErrorKind>(e@.kind) && e@ == failure(
                e@.kind,
            ),
        },
{
    if line.is_empty() {
        return Err(LeaderElectError::of(ErrorKind::ZeroBytesRead));
    }
    str_to_message(line)
}

/// The first character of a message's line is a digit, and so is the last.
proof fn lemma_wire_text_ends(m: Message)
    ensures
        wire_text(m).len() >= 3,
        is_digit(wire_text(m)[0]),
        is_digit(wire_text(m).last()),
        wire_text(m)[wire_text(m).len() - 2] == ':',
        wire_text(m).take(wire_text(m).len() - 2) == decimal_digits(m.sender_id as nat),
        wire_text(m).skip(wire_text(m).len() - 1) == seq![
            digit_char(m.message_type.spec_code() as nat),
        ],
{
    let id = decimal_digits(m.sender_id as nat);
    lemma_decimal_digits(m.sender_id as nat);
    lemma_digit_char(m.message_type.spec_code() as nat);
    assert(wire_text(m)[0] == id[0]);
}

/// Reading the line of a message gives the message back.
pub proof fn lemma_parse_wire_text(m: Message)
    ensures
        parse_text(wire_text(m)) == Some(m),
{
    lemma_wire_text_ends(m);
    lemma_decimal_digits(m.sender_id as nat);
    lemma_digit_char(m.message_type.spec_code() as nat);
}

/// A line stands for a message only if it is that message's line: nothing
/// else is read as a message.
pub proof fn lemma_parse_text_is_inverse(s: Seq<char>, m: Message)
    requires
        parse_text(s) == Some(m),
    ensures
        s == wire_text(m),
{
    let n = s.len() as int;
    let id = s.take(n - 2);
    lemma_canonical_decimal_unique(id);
    lemma_digit_value(s[n - 1]);
    assert(s.skip(n - 1)[0] == s[n - 1]);
    assert(s =~= wire_text(m));
}

/// A received line is decoded only if, without the white space around it, it
/// is the line of the message: a type code out of range, a missing colon, a
/// further field or a sender that is no number of at most 255 is an error.
pub proof fn lemma_decode_is_inverse(s: Seq<char>, m: Message)
    requires
        decode(s) == Some(m),
    ensures
        trim(s) == wire_text(m),
{
    lemma_parse_text_is_inverse(trim(s), m);
}

/// White space around a message's line does not change what is read.
pub proof fn lemma_trim_wire_text(m: Message)
    ensures
        trim(wire_text(m)) == wire_text(m),
        trim(frame_text(m)) == wire_text(m),
{
    lemma_wire_text_ends(m);
    let w = wire_text(m);
    let f = frame_text(m);
    assert(!is_whitespace(w[0]));
    assert(!is_whitespace(w.last()));
    assert(f[0] == w[0]);
    assert(trim_start(w) == w);
    assert(trim_start(f) == f);
    assert(trim_end(w) == w);
    assert(f.drop_last() == w);
    assert(is_whitespace(f.last()));
    assert(trim_end(f) == trim_end(w));
}

/// Decoding what encoding gave returns the message, with the frame's line
/// feed or without it.
pub proof fn lemma_codec_round_trip(m: Message)
    ensures
        decode(wire_text(m)) == Some(m),
        decode(frame_text(m)) == Some(m),
        received(frame_text(m)) == Ok::<Message, ErrorKind>(m),
{
    lemma_trim_wire_text(m);
    lemma_parse_wire_text(m);
}

/// Two messages with the same line are the same message.
pub proof fn lemma_wire_text_injective(a: Message, b: Message)
    requires
        wire_text(a) == wire_text(b),
    ensures
        a == b,
{
    lemma_parse_wire_text(a);
    lemma_parse_wire_text(b);
}

} // verus!
