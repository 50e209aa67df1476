//! What is checked before a peer is created: the nickname and the text of
//! the room identifier.

use crate::net::peer::{Peer, PeerView};
use crate::protocol::matchmaker::{Packet, PacketView};
use crate::wallhackd::WHDCommandLine;
use vstd::prelude::*;
use vstd::string::StringExecFns;
use vstd::utf8::encode_utf8;

verus! {

/// What the lobby shows below its menu.
#[derive(Clone, Debug, PartialEq, Eq)]
pub enum Status {
    Nothing,
    Info(String),
    Error(String),
}

/// A [`Status`] as a mathematical value.
pub enum StatusView {
    Nothing,
    Info(Seq<char>),
    Error(Seq<char>),
}

impl View for Status {
    type V = StatusView;

    open spec fn view(&self) -> StatusView {
        match *self {
            Status::Nothing => StatusView::Nothing,
            Status::Info(text) => StatusView::Info(text@),
            Status::Error(text) => StatusView::Error(text@),
        }
    }
}

/// The largest number of bytes in a nickname.
pub const MAX_NICKNAME_LEN: usize = 24;

/// The largest number of bytes in the text of a room identifier.
pub const MAX_ROOM_ID_LEN: usize = 9;

/// The nickname of a headless host that was given none.
pub open spec fn headless_server() -> Seq<char> {
    "HeadlessServer"@
}

/// Why a nickname is refused, if it is: it is empty, or longer than
/// [`MAX_NICKNAME_LEN`] bytes.
pub open spec fn nickname_fault(nickname: Seq<char>) -> Option<Seq<char>> {
    if nickname.len() == 0 {
        Some("Nickname must not be empty"@)
    } else if encode_utf8(nickname).len() > MAX_NICKNAME_LEN {
        Some("The maximum length of a nickname is 24 characters"@)
    } else {
        None
    }
}

/// Whether the byte is a decimal digit.
pub open spec fn is_digit(b: u8) -> bool {
    48 <= b <= 57
}

/// The number that the decimal digits `digits` stand for.
pub open spec fn digits_value(digits: Seq<u8>) -> nat
    decreases digits.len(),
{
    if digits.len() == 0 {
        0
    } else {
        digits_value(digits.drop_last()) * 10 + (digits.last() - 48) as nat
    }
}

/// The bytes of a number without the plus sign that may precede them.
pub open spec fn unsigned_part(bytes: Seq<u8>) -> Seq<u8> {
    if bytes.len() > 0 && bytes[0] == 43 {
        bytes.skip(1)
    } else {
        bytes
    }
}

/// Whether the bytes are a decimal number: at least one digit and nothing
/// but digits, after a plus sign that may precede them.
pub open spec fn is_number(bytes: Seq<u8>) -> bool {
    let digits = unsigned_part(bytes);
    digits.len() > 0 && forall|i: int| 0 <= i < digits.len() ==> is_digit(#[trigger] digits[i])
}

/// Whether the text of a room identifier has an acceptable length: one to
/// [`MAX_ROOM_ID_LEN`] bytes.
pub open spec fn room_id_len_ok(text: Seq<char>) -> bool {
    1 <= encode_utf8(text).len() <= MAX_ROOM_ID_LEN
}

/// Ten to the power of `n`.
pub open spec fn pow10(n: nat) -> nat
    decreases n,
{
    if n == 0 {
        1
    } else {
        10 * pow10((n - 1) as nat)
    }
}

/// Reads the text of a room identifier whose length is acceptable: a
/// decimal number, which a plus sign may precede. Returns `None` if the text
/// is no such number.
fn parse_room_id(text: &str) -> (r: Option<u32>)
    requires
        room_id_len_ok(text@),
    ensures
        match r {
            Some(id) => is_number(encode_utf8(text@)) && id == room_id_value(text@),
            None => !is_number(encode_utf8(text@)),
        },
{
    let bytes = text.as_bytes();
    let n = bytes.len();
    let start: usize = if bytes[0] == 43 { 1 } else { 0 };
    let ghost digits = unsigned_part(bytes@);
    assert(digits =~= bytes@.subrange(start as int, n as int));
    if start == n {
        return None;
    }
    let mut value: u32 = 0;
    let mut i: usize = start;
    assert(bytes@.subrange(start as int, start as int) =~= Seq::<u8>::empty());
    while i < n
        invariant
            start <= i <= n,
            n == bytes@.len(),
            n <= 9,
            bytes@ == encode_utf8(text@),
            digits == unsigned_part(bytes@),
            digits == bytes@.subrange(start as int, n as int),
            forall|j: int| start <= j < i ==> is_digit(#[trigger] bytes@[j]),
            value == digits_value(bytes@.subrange(start as int, i as int)),
            value < pow10((i - start) as nat),
        decreases n - i,
    {
        let b = bytes[i];
        if b < 48 || b > 57 {
            assert(!is_digit(digits[i - start]));
            return None;
        }
        proof {
            let next = bytes@.subrange(start as int, i + 1);
            assert(next.drop_last() =~= bytes@.subrange(start as int, i as int));
            assert(next.last() == b);
            lemma_pow10_monotone((i - start) as nat, 8);
            assert(pow10((i + 1 - start) as nat) == 10 * pow10((i - start) as nat));
        }
        value = value * 10 + (b - 48) as u32;
        i += 1;
    }
    assert(bytes@.subrange(start as int, n as int) =~= digits);
    assert forall|k: int| 0 <= k < digits.len() implies is_digit(#[trigger] digits[k]) by {
        assert(digits[k] == bytes@[start + k]);
    }
    Some(value)
}

/// A larger power of ten is no smaller.
pub proof fn lemma_pow10_monotone(a: nat, b: nat)
    requires
        a <= b,
    ensures
        pow10(a) <= pow10(b),
        pow10(8) == 100_000_000,
    decreases b,
{
    reveal_with_fuel(pow10, 10);
    if a < b {
        lemma_pow10_monotone(a, (b - 1) as nat);
    }
}

/// Checks a nickname: it must not be empty, nor longer than
/// [`MAX_NICKNAME_LEN`] bytes.
pub fn validate_nickname(nickname: &str) -> (r: Result<(), Status>)
    ensures
        match r {
            Ok(_) => nickname_fault(nickname@) is None,
            Err(status) => status is Error && nickname_fault(nickname@) == Some(status@->Error_0),
        },
{
    if nickname.is_empty() {
        return Err(Status::Error(String::from_str("Nickname must not be empty")));
    }
    if nickname.as_bytes().len() > MAX_NICKNAME_LEN {
        return Err(
            Status::Error(String::from_str("The maximum length of a nickname is 24 characters")),
        );
    }
    Ok(())
}

/// Why a request for the room with the identifier `room_id` under the
/// nickname `nickname` is refused, if it is. The length of the identifier
/// is looked at first, then the nickname, then the digits of the identifier.
pub open spec fn room_request_fault(nickname: Seq<char>, room_id: Seq<char>) -> Option<Seq<char>> {
    if !room_id_len_ok(room_id) {
        Some("Room ID must be a number with 1\u{2013}9 digits"@)
    } else if nickname_fault(nickname) is Some {
        nickname_fault(nickname)
    } else if !is_number(encode_utf8(room_id)) {
        Some("Room ID must be an integer"@)
    } else {
        None
    }
}

/// The room identifier that the text `room_id` stands for.
pub open spec fn room_id_value(room_id: Seq<char>) -> nat {
    digits_value(unsigned_part(encode_utf8(room_id)))
}

/// Why a request to start is refused, if it is: one without a room
/// identifier for its nickname, one with a room identifier also for that.
pub open spec fn start_fault(nickname: Seq<char>, room_id: Option<Seq<char>>) -> Option<
    Seq<char>,
> {
    match room_id {
        Some(text) => room_request_fault(nickname, text),
        None => nickname_fault(nickname),
    }
}

/// The request that a new peer sends to the broker first: a host asks for a
/// room, under the identifier of its choice if it has one, and a client asks
/// for the host of the room that it wants to join.
pub open spec fn first_packet(room_id: Option<Seq<char>>, is_host: bool) -> PacketView {
    match room_id {
        Some(text) => if is_host {
            PacketView::WallhackDHostWithCustomRoomId(room_id_value(text) as u32)
        } else {
            PacketView::GetHost(room_id_value(text) as u32)
        },
        None => PacketView::Host,
    }
}

/// Whether `r` is the outcome of a request to start under the nickname
/// `nickname`, for the room `room_id` if one is given: a new peer with its
/// first request if nothing is at fault, and else the fault as an error.
pub open spec fn starts(
    r: Result<(Peer, Packet), Status>,
    nickname: Seq<char>,
    room_id: Option<Seq<char>>,
    is_host: bool,
) -> bool {
    match r {
        Ok(start) => {
            &&& start_fault(nickname, room_id) is None
            &&& start.0.wf()
            &&& start.0@ == PeerView::fresh(nickname, is_host)
            &&& start.1@ == first_packet(room_id, is_host)
        },
        Err(status) => status is Error && start_fault(nickname, room_id) == Some(
            status@->Error_0,
        ),
    }
}

/// Checks a request for the room with the identifier `room_id` under the
/// nickname `nickname`, and reads the identifier.
fn check_room_request(nickname: &str, room_id: &str) -> (r: Result<u32, Status>)
    ensures
        match r {
            Ok(id) => room_request_fault(nickname@, room_id@) is None && id == room_id_value(
                room_id@,
            ),
            Err(status) => status is Error && room_request_fault(nickname@, room_id@) == Some(
                status@->Error_0,
            ),
        },
{
    let n = room_id.as_bytes().len();
    if n < 1 || n > MAX_ROOM_ID_LEN {
        return Err(
            Status::Error(String::from_str("Room ID must be a number with 1\u{2013}9 digits")),
        );
    }
    match validate_nickname(nickname) {
        Err(status) => {
            return Err(status);
        },
        Ok(_) => {},
    }
    match parse_room_id(room_id) {
        Some(id) => Ok(id),
        None => Err(Status::Error(String::from_str("Room ID must be an integer"))),
    }
}

/// Creates a peer that hosts a new room under the nickname `nickname`, with
/// the request that it sends to the broker first. The nickname is checked
/// before.
pub fn host_room(nickname: &str) -> (r: Result<(Peer, Packet), Status>)
    ensures
        starts(r, nickname@, None, true),
{
    match validate_nickname(nickname) {
        Err(status) => Err(status),
        Ok(_) => Ok(Peer::host(nickname)),
    }
}

/// Creates a peer that hosts a new room with the identifier that the text
/// `room_id` stands for, with the request that it sends to the broker
/// first. The text and the nickname are checked before.
pub fn whd_host_room_with_custom_id(nickname: &str, room_id: &str) -> (r: Result<
    (Peer, Packet),
    Status,
>)
    ensures
        starts(r, nickname@, Some(room_id@), true),
{
    match check_room_request(nickname, room_id) {
        Err(status) => Err(status),
        Ok(id) => Ok(Peer::whd_host_with_custom_id(nickname, id)),
    }
}

/// Creates a peer that joins the room with the identifier that the text
/// `room_id` stands for, with the request that it sends to the broker
/// first. The text and the nickname are checked before.
pub fn join_room(nickname: &str, room_id: &str) -> (r: Result<(Peer, Packet), Status>)
    ensures
        starts(r, nickname@, Some(room_id@), false),
{
    match check_room_request(nickname, room_id) {
        Err(status) => Err(status),
        Ok(id) => Ok(Peer::join(nickname, id)),
    }
}

/// The text of an option, if there is one.
pub open spec fn text_of(option: Option<String>) -> Option<Seq<char>> {
    match option {
        Some(text) => Some(text@),
        None => None,
    }
}

/// Whether the options hold what a headless start needs: not both roles at
/// once, and for a client a nickname and a room.
pub open spec fn headless_ready(cmd: &WHDCommandLine) -> bool {
    &&& !(cmd.headless_host && cmd.headless_client)
    &&& cmd.headless_client ==> cmd.username is Some && cmd.roomid is Some
}

/// Whether the options hold what a headless start needs.
pub fn is_headless_ready(cmd: &WHDCommandLine) -> (r: bool)
    ensures
        r == headless_ready(cmd),
{
    !(cmd.headless_host && cmd.headless_client) && (!cmd.headless_client || (
    cmd.username.is_some() && cmd.roomid.is_some()))
}

/// Creates the peer of a headless start, with the request that it sends to
/// the broker first.
///
/// A headless host hosts a room, with the identifier that was asked for if
/// one was, under the nickname that was given or else as `HeadlessServer`.
/// A headless client joins the room that was asked for. Without either role
/// there is nothing to start, and `None` is returned.
pub fn headless_start(cmd: &WHDCommandLine) -> (r: Option<Result<(Peer, Packet), Status>>)
    requires
        headless_ready(cmd),
    ensures
        match r {
            Some(made) => if cmd.headless_host {
                starts(
                    made,
                    match cmd.username {
                        Some(name) => name@,
                        None => headless_server(),
                    },
                    text_of(cmd.roomid),
                    true,
                )
            } else {
                cmd.headless_client && starts(
                    made,
                    cmd.username->Some_0@,
                    text_of(cmd.roomid),
                    false,
                )
            },
            None => !cmd.headless_host && !cmd.headless_client,
        },
{
    if cmd.headless_host {
        let nickname = match &cmd.username {
            Some(name) => name.as_str(),
            None => "HeadlessServer",
        };
        match &cmd.roomid {
            Some(room_id) => Some(whd_host_room_with_custom_id(nickname, room_id.as_str())),
            None => Some(host_room(nickname)),
        }
    } else if cmd.headless_client {
        match (&cmd.username, &cmd.roomid) {
            (Some(nickname), Some(room_id)) => Some(
                join_room(nickname.as_str(), room_id.as_str()),
            ),
            _ => None,
        }
    } else {
        None
    }
}

} // verus!
