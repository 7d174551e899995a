//! The per-pixel transmission protocol: encoding a coordinate and color into
//! a destination address, the echo-probe packet with its checksum, and the
//! bounded retry policy for transient local send failures.

use crate::utils::Color;
use crate::utils::Pixel;
use vstd::prelude::*;

verus! {

/// The configured 64-bit routing prefix (`2001:610:1908:a000::`).
pub const PREFIX: u64 = 0x2001_0610_1908_a000;

/// Pause between two full transmission passes, in milliseconds.
pub const SLEEP_PER_CYCLE_MS: u64 = 100;

/// How long to wait before retrying when a pass finds no pixels yet.
pub const EMPTY_WAIT_MS: u64 = 500;

/// Echo request message type.
pub const ECHO_REQUEST_TYPE: u8 = 128;

/// Length in bytes of the probe packet.
pub const ECHO_PACKET_LEN: usize = 16;

/// The low 64 bits of the destination address: from the most significant bit
/// down, 16 bits X, 16 bits Y, 8 bits blue, 8 bits green, 8 bits red, and a
/// constant opaque alpha byte.
pub open spec fn spec_payload(p: Pixel, c: Color) -> int {
    p.0 * 0x1_0000_0000_0000 + p.1 * 0x1_0000_0000 + c.2 * 0x100_0000 + c.1 * 0x1_0000 + c.0
        * 0x100 + 0xff
}

/// The full 128-bit destination address: routing prefix above the payload.
pub open spec fn spec_encode(p: Pixel, c: Color) -> int {
    PREFIX * 0x1_0000_0000_0000_0000 + spec_payload(p, c)
}

/// Packs a pixel and color into the low 64 bits of the destination address.
pub fn encode_payload(p: &Pixel, c: &Color) -> (r: u64)
    requires
        p.in_bounds(),
    ensures
        r == spec_payload(*p, *c),
{
    let x = p.0;
    let y = p.1;
    let r8 = c.0;
    let g8 = c.1;
    let b8 = c.2;
    let packed: u64 = ((x as u64) << 48) | ((y as u64) << 32) | ((b8 as u64) << 24) | ((g8
        as u64) << 16) | ((r8 as u64) << 8) | 0xff;
    proof {
        assert(((x as u64) << 48) | ((y as u64) << 32) | ((b8 as u64) << 24) | ((g8 as u64)
            << 16) | ((r8 as u64) << 8) | 0xff == x * 0x1_0000_0000_0000 + y * 0x1_0000_0000 + b8
            * 0x100_0000 + g8 * 0x1_0000 + r8 * 0x100 + 0xff) by (bit_vector)
            requires
                x < 1920 && y < 1080,
        ;
    }
    packed
}

/// Maps a pixel and color to the destination address to probe, following the
/// documented bit layout exactly.
pub fn encode(p: &Pixel, c: &Color) -> (r: u128)
    requires
        p.in_bounds(),
    ensures
        r == spec_encode(*p, *c),
{
    let payload = encode_payload(p, c);
    let address: u128 = ((PREFIX as u128) << 64) | (payload as u128);
    proof {
        assert(((0x2001_0610_1908_a000u64 as u128) << 64) | (payload as u128)
            == 0x2001_0610_1908_a000u64 * 0x1_0000_0000_0000_0000 + payload) by (bit_vector);
    }
    address
}

/// The checksum that the probe protocol prescribes for a message, as a
/// function of the message bytes and the skipped (checksum) word index.
pub uninterp spec fn checksum_of(data: Seq<u8>, skipword: int) -> u16;

/// Relies on pnet's `util::checksum`: the ones-complement checksum over the
/// big-endian 16-bit words of `data`, ignoring the word at index `skipword`;
/// its result depends on the arguments alone. The length bound keeps the
/// 32-bit word sum inside pnet's accumulator, which panics on overflow under
/// overflow checks.
#[verifier::external_body]
fn internet_checksum(data: &Vec<u8>, skipword: usize) -> (r: u16)
    requires
        data@.len() <= 65536,
    ensures
        r == checksum_of(data@, skipword as int),
{
    pnet::util::checksum(data.as_slice(), skipword)
}

/// The probe packet before its checksum is filled in: the echo-request type
/// byte followed by zeros.
pub open spec fn spec_blank_echo_packet() -> Seq<u8> {
    Seq::new(ECHO_PACKET_LEN as nat, |i: int| if i == 0 { ECHO_REQUEST_TYPE } else { 0u8 })
}

/// Builds the minimal echo-request probe packet: type byte, zero code, and
/// the protocol checksum (computed with the checksum field zeroed) stored
/// big-endian in bytes 2 and 3.
pub fn build_echo_request() -> (r: Vec<u8>)
    ensures
        r@.len() == ECHO_PACKET_LEN,
        r@[0] == ECHO_REQUEST_TYPE,
        r@[1] == 0,
        r@[2] == checksum_of(spec_blank_echo_packet(), 1) / 0x100,
        r@[3] == checksum_of(spec_blank_echo_packet(), 1) % 0x100,
        forall|i: int| 4 <= i < ECHO_PACKET_LEN ==> r@[i] == 0,
{
    let mut packet: Vec<u8> = Vec::new();
    packet.push(ECHO_REQUEST_TYPE);
    let mut i: usize = 1;
    while i < ECHO_PACKET_LEN
        invariant
            1 <= i <= ECHO_PACKET_LEN,
            packet@.len() == i,
            packet@[0] == ECHO_REQUEST_TYPE,
            forall|j: int| 1 <= j < i ==> packet@[j] == 0,
        decreases ECHO_PACKET_LEN - i,
    {
        packet.push(0);
        i = i + 1;
    }
    proof {
        assert(packet@ =~= spec_blank_echo_packet());
    }
    let cs = internet_checksum(&packet, 1);
    let hi = (cs >> 8) as u8;
    let lo = (cs & 0xff) as u8;
    proof {
        assert((cs >> 8) as u8 == cs / 0x100 && (cs & 0xff) as u8 == cs % 0x100) by (bit_vector);
    }
    packet.set(2, hi);
    packet.set(3, lo);
    packet
}

/// Bookkeeping for transmitting one pixel: which attempt comes next and how
/// much delay the retries have wasted so far.
#[derive(Debug, Clone, Copy, PartialEq, Eq, Structural)]
pub struct RetryState {
    pub attempt: u32,
    pub wasted_ms: u64,
}

/// What the local network stack reported for one send attempt.
#[derive(Debug, Clone, Copy, PartialEq, Eq, Structural)]
pub enum SendEvent {
    Accepted,
    Rejected,
}

/// What the transmitter must do next: stop, or sleep the given number of
/// milliseconds and try the same pixel again.
#[derive(Debug, Clone, Copy, PartialEq, Eq, Structural)]
pub enum SendAction {
    Done,
    SleepAndResend(u64),
}

/// The capped exponential backoff: 1 ms doubling per attempt, capped at
/// 100 ms from the eighth attempt on.
pub open spec fn spec_backoff_ms(attempt: nat) -> nat
    decreases attempt,
{
    if attempt <= 1 {
        1
    } else if attempt >= 8 {
        100
    } else {
        2 * spec_backoff_ms((attempt - 1) as nat)
    }
}

/// The backoff never exceeds its 100 ms cap.
pub proof fn lemma_backoff_capped(attempt: nat)
    ensures
        1 <= spec_backoff_ms(attempt) <= 100,
{
    reveal_with_fuel(spec_backoff_ms, 9);
}

/// Computes the retry delay for the given attempt number.
pub fn backoff_delay_ms(attempt: u32) -> (r: u64)
    requires
        attempt >= 1,
    ensures
        r == spec_backoff_ms(attempt as nat),
        1 <= r <= 100,
{
    proof {
        reveal_with_fuel(spec_backoff_ms, 9);
    }
    if attempt >= 8 {
        100
    } else if attempt == 1 {
        1
    } else if attempt == 2 {
        2
    } else if attempt == 3 {
        4
    } else if attempt == 4 {
        8
    } else if attempt == 5 {
        16
    } else if attempt == 6 {
        32
    } else {
        64
    }
}

impl RetryState {
    /// The state before the first attempt at a pixel.
    pub fn fresh() -> (r: Self)
        ensures
            r.attempt == 1,
            r.wasted_ms == 0,
    {
        RetryState { attempt: 1, wasted_ms: 0 }
    }
}

/// Decides what follows one send attempt: an accepted hand-off finishes the
/// pixel with the state untouched; a rejected one schedules a resend after
/// the backoff delay for this attempt and accumulates that delay as wasted.
pub fn retry_step(st: &RetryState, ev: &SendEvent) -> (r: (RetryState, SendAction))
    requires
        st.attempt >= 1,
        st.attempt < u32::MAX,
        st.wasted_ms <= u64::MAX - 100,
    ensures
        *ev is Accepted ==> r.0 == *st && r.1 is Done,
        *ev is Rejected ==> {
            &&& r.0.attempt == st.attempt + 1
            &&& r.0.wasted_ms == st.wasted_ms + spec_backoff_ms(st.attempt as nat)
            &&& r.1 == SendAction::SleepAndResend(spec_backoff_ms(st.attempt as nat) as u64)
        },
{
    match ev {
        SendEvent::Accepted => (RetryState { attempt: st.attempt, wasted_ms: st.wasted_ms },
        SendAction::Done),
        SendEvent::Rejected => {
            let delay = backoff_delay_ms(st.attempt);
            let next = RetryState { attempt: st.attempt + 1, wasted_ms: st.wasted_ms + delay };
            (next, SendAction::SleepAndResend(delay))
        },
    }
}

} // verus!

