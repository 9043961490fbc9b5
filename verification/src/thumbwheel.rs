//! The HID++ feature of the thumb wheel: its requests, its answers and its
//! events.

use vstd::prelude::*;
use hidpp::nibble::U4;
use hidpp::protocol::v20;

verus! {

/// The id of the thumb-wheel feature.
pub const FEATURE_ID: u16 = 0x2150;

/// The function that tells what the wheel can do.
pub const FN_GET_INFO: u8 = 0;

/// The function that sets how the wheel reports.
pub const FN_SET_REPORTING: u8 = 2;

/// The wheel scrolls by itself.
pub const MODE_NATIVE: u8 = 0;

/// The wheel reports its rotation as events.
pub const MODE_DIVERTED: u8 = 1;

/// The bit in the answer of a wheel that reports taps.
pub const CAP_SINGLE_TAP: u8 = 0x08;

/// The bit of a tap in an event.
pub const EV_SINGLE_TAP: u8 = 0x08;

/// The bit in an event while a finger is near the wheel.
pub const EV_PROXY: u8 = 0x04;

/// The bit in an event while the wheel is touched.
pub const EV_TOUCH: u8 = 0x02;

/// What every message starts with. The function and the software id are four
/// bits each.
#[derive(Clone, Copy, Debug, PartialEq, Eq, Structural)]
pub struct MessageHeader {
    pub device_index: u8,
    pub feature_index: u8,
    pub function_id: u8,
    pub software_id: u8,
}

/// A message with a short or a long payload.
#[derive(Clone, Copy, Debug, PartialEq, Eq)]
pub enum Message {
    Short(MessageHeader, [u8; 3]),
    Long(MessageHeader, [u8; 16]),
}

/// hidpp's `U4::from_lo`, read back by `U4::to_lo`: the four low bits of `raw`.
#[verifier::external_body]
fn low_nibble(raw: u8) -> (r: u8)
    ensures
        r == raw & 0x0f,
{
    U4::from_lo(raw).to_lo()
}

/// The payload of a message, filled up with zeroes to the long length.
pub open spec fn extended(msg: Message) -> Seq<u8> {
    match msg {
        Message::Short(_, payload) => payload@ + Seq::new(13, |i: int| 0u8),
        Message::Long(_, payload) => payload@,
    }
}

/// hidpp's `v20::Message::extend_payload`: the payload, filled up with zeroes to
/// the long length.
#[verifier::external_body]
fn extend_payload(msg: &Message) -> (r: [u8; 16])
    ensures
        r@ == extended(*msg),
{
    let (Message::Short(own, _) | Message::Long(own, _)) = *msg;
    let header = v20::MessageHeader {
        device_index: own.device_index,
        feature_index: own.feature_index,
        function_id: U4::from_lo(own.function_id),
        software_id: U4::from_lo(own.software_id),
    };
    match *msg {
        Message::Short(_, payload) => v20::Message::Short(header, payload).extend_payload(),
        Message::Long(_, payload) => v20::Message::Long(header, payload).extend_payload(),
    }
}

impl MessageHeader {
    /// A header; of the two ids only the four low bits count.
    pub fn new(device_index: u8, feature_index: u8, function_id: u8, software_id: u8) -> (r: Self)
        ensures
            r == (MessageHeader {
                device_index,
                feature_index,
                function_id: function_id & 0x0f,
                software_id: software_id & 0x0f,
            }),
    {
        MessageHeader {
            device_index,
            feature_index,
            function_id: low_nibble(function_id),
            software_id: low_nibble(software_id),
        }
    }
}

impl Message {
    /// The header of the message.
    pub open spec fn head(self) -> MessageHeader {
        match self {
            Message::Short(header, _) => header,
            Message::Long(header, _) => header,
        }
    }

    /// The header of the message.
    pub fn header(&self) -> (r: MessageHeader)
        ensures
            r == self.head(),
    {
        match self {
            Message::Short(header, _) => *header,
            Message::Long(header, _) => *header,
        }
    }
}

/// What a wheel can do.
#[derive(Clone, Copy, Debug, PartialEq, Eq, Structural)]
pub struct ThumbwheelInfo {
    /// The ratchets of one turn while the wheel scrolls by itself.
    pub native_res: u16,
    /// The increments of one turn while the wheel reports events.
    pub diverted_res: u16,
    /// The direction that counts as positive: 0 to the left or back, 1 to the
    /// right or front.
    pub default_dir: u8,
    /// The wheel reports taps.
    pub supports_single_tap: bool,
}

/// What a wheel reports.
#[derive(Clone, Copy, Debug, PartialEq, Eq, Structural)]
pub struct ThumbwheelEvent {
    /// The increments since the last report.
    pub rotation: i16,
    pub single_tap: bool,
    pub touch: bool,
    pub proxy: bool,
}

/// Two bytes as a number, the high one first.
pub open spec fn be16(hi: u8, lo: u8) -> int {
    hi * 256 + lo
}

/// A number of sixteen bits, the highest of which is its sign.
pub open spec fn signed16(n: int) -> int {
    if n < 0x8000 {
        n
    } else {
        n - 0x1_0000
    }
}

fn unsigned_be(hi: u8, lo: u8) -> (r: u16)
    ensures
        r == be16(hi, lo),
{
    hi as u16 * 256 + lo as u16
}

fn signed_be(hi: u8, lo: u8) -> (r: i16)
    ensures
        r == signed16(be16(hi, lo)),
{
    let n: i32 = hi as i32 * 256 + lo as i32;
    if n < 0x8000 {
        n as i16
    } else {
        (n - 0x1_0000) as i16
    }
}

/// `msg` is an event of the wheel at these indices: no answer to a request, and
/// of the first function.
pub open spec fn is_event(msg: Message, device_index: u8, feature_index: u8) -> bool {
    msg.head() == (MessageHeader { device_index, feature_index, function_id: 0, software_id: 0 })
}

/// What an event with the payload `p` reports.
pub open spec fn event_of(p: Seq<u8>) -> ThumbwheelEvent {
    ThumbwheelEvent {
        rotation: signed16(be16(p[0], p[1])) as i16,
        single_tap: p[5] & EV_SINGLE_TAP != 0,
        touch: p[5] & EV_TOUCH != 0,
        proxy: p[5] & EV_PROXY != 0,
    }
}

/// What an answer with the payload `p` tells of the wheel.
pub open spec fn info_of(p: Seq<u8>) -> ThumbwheelInfo {
    ThumbwheelInfo {
        native_res: be16(p[0], p[1]) as u16,
        diverted_res: be16(p[2], p[3]) as u16,
        default_dir: p[4] & 0x01,
        supports_single_tap: p[5] & CAP_SINGLE_TAP != 0,
    }
}

/// The event in `msg`, if it is one of the wheel at these indices. Answers to
/// requests and messages of others are none.
pub fn decode_event(msg: &Message, device_index: u8, feature_index: u8) -> (r: Option<ThumbwheelEvent>)
    ensures
        r == if is_event(*msg, device_index, feature_index) {
            Some(event_of(extended(*msg)))
        } else {
            None
        },
{
    let header = msg.header();
    if header.device_index != device_index || header.feature_index != feature_index || header.software_id != 0
        || header.function_id != 0 {
        return None;
    }
    let p = extend_payload(msg);
    Some(
        ThumbwheelEvent {
            rotation: signed_be(p[0], p[1]),
            single_tap: p[5] & EV_SINGLE_TAP != 0,
            touch: p[5] & EV_TOUCH != 0,
            proxy: p[5] & EV_PROXY != 0,
        },
    )
}

/// The wheel of one device.
#[derive(Clone, Copy, Debug, PartialEq, Eq, Structural)]
pub struct Thumbwheel {
    pub device_index: u8,
    pub feature_index: u8,
}

impl Thumbwheel {
    pub fn new(device_index: u8, feature_index: u8) -> (r: Self)
        ensures
            r == (Thumbwheel { device_index, feature_index }),
    {
        Thumbwheel { device_index, feature_index }
    }

    /// The index that the events of this wheel bear.
    pub fn feature_index(&self) -> (r: u8)
        ensures
            r == self.feature_index,
    {
        self.feature_index
    }

    /// A request to the wheel.
    pub fn call(&self, function_id: u8, params: [u8; 16], software_id: u8) -> (r: Message)
        ensures
            r == Message::Long(
                MessageHeader {
                    device_index: self.device_index,
                    feature_index: self.feature_index,
                    function_id: function_id & 0x0f,
                    software_id: software_id & 0x0f,
                },
                params,
            ),
    {
        Message::Long(MessageHeader::new(self.device_index, self.feature_index, function_id, software_id), params)
    }

    /// The request for what the wheel can do.
    pub fn get_info(&self, software_id: u8) -> (r: Message)
        ensures
            r.head().device_index == self.device_index,
            r.head().feature_index == self.feature_index,
            r.head().function_id == FN_GET_INFO,
            r.head().software_id == software_id & 0x0f,
            r is Long,
            extended(r) == Seq::new(16, |i: int| 0u8),
    {
        assert(0u8 & 0x0f == 0) by (bit_vector);
        let params: [u8; 16] = [0; 16];
        assert(params@ =~= Seq::new(16, |i: int| 0u8));
        self.call(FN_GET_INFO, params, software_id)
    }

    /// What the answer to [`Self::get_info`] tells.
    pub fn info(response: &Message) -> (r: ThumbwheelInfo)
        ensures
            r == info_of(extended(*response)),
    {
        let p = extend_payload(response);
        ThumbwheelInfo {
            native_res: unsigned_be(p[0], p[1]),
            diverted_res: unsigned_be(p[2], p[3]),
            default_dir: p[4] & 0x01,
            supports_single_tap: p[5] & CAP_SINGLE_TAP != 0,
        }
    }

    /// The request to report events, or to scroll natively again. `inv_dir`
    /// turns the sign of the rotation around.
    pub fn set_reporting(&self, diverted: bool, inv_dir: bool, software_id: u8) -> (r: Message)
        ensures
            r.head().device_index == self.device_index,
            r.head().feature_index == self.feature_index,
            r.head().function_id == FN_SET_REPORTING,
            r.head().software_id == software_id & 0x0f,
            r is Long,
            extended(r) == Seq::new(16, |i: int| 0u8).update(
                0,
                if diverted {
                    MODE_DIVERTED
                } else {
                    MODE_NATIVE
                },
            ).update(
                1,
                if inv_dir {
                    1u8
                } else {
                    0u8
                },
            ),
    {
        assert(2u8 & 0x0f == 2) by (bit_vector);
        let mode: u8 = if diverted {
            MODE_DIVERTED
        } else {
            MODE_NATIVE
        };
        let invert: u8 = if inv_dir {
            1
        } else {
            0
        };
        let params: [u8; 16] = [mode, invert, 0, 0, 0, 0, 0, 0, 0, 0, 0, 0, 0, 0, 0, 0];
        assert(params@ =~= Seq::new(16, |i: int| 0u8).update(0, mode).update(1, invert));
        self.call(FN_SET_REPORTING, params, software_id)
    }
}

/// The answer to a request of this software is never taken for an event.
pub proof fn law_answers_are_no_events(msg: Message, device_index: u8, feature_index: u8)
    requires
        msg.head().software_id != 0,
    ensures
        !is_event(msg, device_index, feature_index),
{
}

/// Every rotation can be told from its two bytes.
pub proof fn law_rotation_survives_the_wire(rotation: i16, hi: u8, lo: u8)
    requires
        be16(hi, lo) == if rotation >= 0 {
            rotation as int
        } else {
            rotation + 0x1_0000
        },
    ensures
        signed16(be16(hi, lo)) == rotation,
{
}

/// The first two bytes of an event are its rotation, the high one first, as a
/// number with a sign; in the sixth, the bits from the fourth down to the second
/// tell of a tap, of a finger near the wheel and of a touch.
pub proof fn law_event_is_read_byte_by_byte(p: Seq<u8>)
    requires
        p.len() == 16,
    ensures
        (event_of(p).rotation - (p[0] * 256 + p[1])) % 0x1_0000 == 0,
        event_of(p).single_tap <==> (p[5] / 8) % 2 == 1,
        event_of(p).proxy <==> (p[5] / 4) % 2 == 1,
        event_of(p).touch <==> (p[5] / 2) % 2 == 1,
{
    let b = p[5];
    assert((b & 0x08 != 0) <==> (b / 8) % 2 == 1) by (bit_vector);
    assert((b & 0x04 != 0) <==> (b / 4) % 2 == 1) by (bit_vector);
    assert((b & 0x02 != 0) <==> (b / 2) % 2 == 1) by (bit_vector);
}

/// The answer about a wheel holds its two resolutions, the high byte of each
/// first, its direction in the lowest bit of the fifth byte, and in the fourth
/// bit of the sixth whether it reports taps.
pub proof fn law_answer_is_read_byte_by_byte(p: Seq<u8>)
    requires
        p.len() == 16,
    ensures
        info_of(p).native_res == p[0] * 256 + p[1],
        info_of(p).diverted_res == p[2] * 256 + p[3],
        info_of(p).default_dir == p[4] % 2,
        info_of(p).supports_single_tap <==> (p[5] / 8) % 2 == 1,
{
    let (a, b) = (p[4], p[5]);
    assert(a & 0x01 == a % 2) by (bit_vector);
    assert((b & 0x08 != 0) <==> (b / 8) % 2 == 1) by (bit_vector);
}

/// A message is an event of a wheel exactly if it comes from its device and its
/// feature, and bears neither a function nor the id of a program, however long
/// its payload is.
pub proof fn law_event_comes_from_the_wheel(header: MessageHeader, short: [u8; 3], long: [u8; 16], device: u8, feature: u8)
    ensures
        is_event(Message::Short(header, short), device, feature) <==> header.device_index == device
            && header.feature_index == feature && header.function_id == 0 && header.software_id == 0,
        is_event(Message::Long(header, long), device, feature) <==> header.device_index == device
            && header.feature_index == feature && header.function_id == 0 && header.software_id == 0,
{
}

/// A payload is read at the same places whatever its length, and is zero where
/// it is not given.
pub proof fn law_payload_is_filled_up(header: MessageHeader, short: [u8; 3], long: [u8; 16], i: int)
    requires
        0 <= i < 16,
    ensures
        extended(Message::Short(header, short)).len() == 16,
        extended(Message::Short(header, short))[i] == if i < 3 {
            short@[i]
        } else {
            0
        },
        extended(Message::Long(header, long)) == long@,
        Message::Short(header, short).head() == header,
        Message::Long(header, long).head() == header,
{
}

/// The numbers of the feature and of its functions, and the two ways in which a
/// wheel reports.
pub proof fn law_numbers_of_the_feature()
    ensures
        FEATURE_ID == 0x2150,
        FN_GET_INFO == 0,
        FN_SET_REPORTING == 2,
        MODE_NATIVE == 0,
        MODE_DIVERTED == 1,
{
}

} // verus!
