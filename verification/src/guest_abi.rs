//! How the host hands texts to a guest: as one 64-bit number that packs the
//! address and the length of a buffer in guest memory, with zero for nothing.
use crate::host_state::{HostState, HostView};
use crate::text;
use vstd::prelude::*;
use vstd::string::*;

verus! {

/// The largest length that fits the packed number.
pub const PACKED_ABI_FIELD_MAX: usize = 0xffff_ffff;

/// How long a guest may take to make room for a response, in seconds.
pub const RESPONSE_HANDOFF_GRACE_SECS: u64 = 5;

/// The packed form of an address and a length.
pub open spec fn packed(ptr: u32, len: nat) -> nat {
    (ptr + len * 0x1_0000_0000) as nat
}

/// Packs an address and a length.
pub fn pack_guest_ptr_len(ptr: u32, len: usize) -> (r: u64)
    requires
        len <= PACKED_ABI_FIELD_MAX,
    ensures
        r == packed(ptr, len as nat),
{
    let p: u64 = ptr as u64;
    let l: u64 = len as u64;
    assert((p & 0xffff_ffff) | (l << 32) == p + l * 0x1_0000_0000) by (bit_vector)
        requires
            p <= 0xffff_ffff,
            l <= 0xffff_ffff,
    ;
    (p & 0xffff_ffff) | (l << 32)
}

/// Takes a packed number apart.
pub fn unpack_guest_ptr_len(n: u64) -> (r: (u32, u32))
    ensures
        r.0 == n % 0x1_0000_0000,
        r.1 == n / 0x1_0000_0000,
{
    assert(n & 0xffff_ffff == n % 0x1_0000_0000) by (bit_vector);
    assert(n >> 32 == n / 0x1_0000_0000) by (bit_vector);
    ((n & 0xffff_ffff) as u32, (n >> 32) as u32)
}

/// What was packed comes out again.
pub proof fn law_packing_is_undone(ptr: u32, len: u32)
    ensures
        packed(ptr, len as nat) <= u64::MAX,
        packed(ptr, len as nat) % 0x1_0000_0000 == ptr,
        packed(ptr, len as nat) / 0x1_0000_0000 == len,
{
}

/// A buffer of at least one byte never packs to zero, which stands for
/// nothing.
pub proof fn law_packed_buffer_is_not_zero(ptr: u32, len: u32)
    requires
        len > 0,
    ensures
        packed(ptr, len as nat) != 0,
{
}

// ---------------------------------------------------------------------------
// Handing over a response
// ---------------------------------------------------------------------------
/// What handing over a response starts with.
pub enum HandOver {
    /// There is nothing to hand over; the guest gets zero.
    Nothing,
    /// The response does not fit; the guest gets zero.
    TooLong,
    /// The guest is asked for a buffer of `len` bytes, within `grace_secs`.
    Allocate { len: u32, grace_secs: u64 },
}

/// What became of the buffer.
pub enum BufferEvent {
    /// The guest gave a buffer at `ptr`, and writing to it worked or did not.
    Given { ptr: u32, written: bool },
    /// The guest ran out of time.
    Interrupted,
    /// The guest failed, with this error.
    Failed { error: String },
}

/// How a response of `len` bytes is handed over.
pub open spec fn hand_over_of(len: nat) -> HandOver {
    if len == 0 {
        HandOver::Nothing
    } else if len > PACKED_ABI_FIELD_MAX {
        HandOver::TooLong
    } else {
        HandOver::Allocate { len: len as u32, grace_secs: RESPONSE_HANDOFF_GRACE_SECS }
    }
}

/// Why a response that is too long is lost.
pub open spec fn too_long_reason(len: nat) -> Seq<char> {
    "host response of "@ + text::decimal(len) + " bytes exceeds the 32-bit packed-ABI field"@
}

/// Why a response is lost after the guest was asked for a buffer, if it is.
pub open spec fn lost_reason(len: nat, event: BufferEvent) -> Option<Seq<char>> {
    match event {
        BufferEvent::Given { ptr, written } => if written {
            None
        } else {
            Some(
                "guest memory.write of "@ + text::decimal(len) + " bytes at ptr "@ + text::decimal(
                    ptr as nat,
                ) + " failed"@,
            )
        },
        BufferEvent::Interrupted => Some(
            "plugkit_alloc("@ + text::decimal(len)
                + ") hit the epoch deadline while handing the host response back to the guest"@,
        ),
        BufferEvent::Failed { error } => Some(
            "plugkit_alloc("@ + text::decimal(len) + ") failed: "@ + error@,
        ),
    }
}

/// Begins to hand over a response of `len` bytes. A response that is too long
/// is noted as lost.
pub fn begin_hand_over(state: &mut HostState, len: usize) -> (r: HandOver)
    ensures
        r == hand_over_of(len as nat),
        final(state)@ == (if r is TooLong {
            HostView { lost: Some(too_long_reason(len as nat)), ..old(state)@ }
        } else {
            old(state)@
        }),
{
    if len == 0 {
        HandOver::Nothing
    } else if len > PACKED_ABI_FIELD_MAX {
        let digits = text::u64_text(len as u64);
        state.note_lost_response(
            text::add3(
                "host response of ",
                digits.as_str(),
                " bytes exceeds the 32-bit packed-ABI field",
            ),
        );
        HandOver::TooLong
    } else {
        HandOver::Allocate { len: len as u32, grace_secs: RESPONSE_HANDOFF_GRACE_SECS }
    }
}

/// Ends the handing over of a response of `len` bytes. Gives what the guest
/// gets, and the deadline that comes back into force; a response that did not
/// arrive is noted as lost.
pub fn end_hand_over(state: &mut HostState, len: u32, event: BufferEvent) -> (r: (u64, u64))
    ensures
        r.0 == (match event {
            BufferEvent::Given { ptr, written } => if written {
                packed(ptr, len as nat)
            } else {
                0
            },
            _ => 0,
        }),
        r.1 == old(state)@.deadline,
        final(state)@ == (match lost_reason(len as nat, event) {
            Some(reason) => HostView { lost: Some(reason), ..old(state)@ },
            None => old(state)@,
        }),
{
    let deadline: u64 = state.call_deadline_secs();
    let digits = text::u64_text(len as u64);
    match event {
        BufferEvent::Given { ptr, written } => {
            if written {
                return (pack_guest_ptr_len(ptr, len as usize), deadline);
            }
            let at = text::u64_text(ptr as u64);
            state.note_lost_response(
                text::add5(
                    "guest memory.write of ",
                    digits.as_str(),
                    " bytes at ptr ",
                    at.as_str(),
                    " failed",
                ),
            );
        },
        BufferEvent::Interrupted => {
            state.note_lost_response(
                text::add3(
                    "plugkit_alloc(",
                    digits.as_str(),
                    ") hit the epoch deadline while handing the host response back to the guest",
                ),
            );
        },
        BufferEvent::Failed { error } => {
            state.note_lost_response(
                text::add4("plugkit_alloc(", digits.as_str(), ") failed: ", error.as_str()),
            );
        },
    }
    (0, deadline)
}

/// A guest that gets zero for a response of at least one byte finds the loss
/// noted: no response is taken for an empty one.
pub proof fn law_zero_for_a_response_means_lost(len: u32, event: BufferEvent)
    requires
        len > 0,
        event matches BufferEvent::Given { ptr, written } ==> !written || packed(ptr, len as nat) == 0,
    ensures
        lost_reason(len as nat, event) is Some,
{
}

/// A response is handed over where it has bytes and its length fits in 32 bits;
/// the guest then has five seconds to make room for it.
pub proof fn law_response_is_handed_over_if_it_fits(len: nat)
    ensures
        len == 0 ==> hand_over_of(len) is Nothing,
        0 < len <= 0xffff_ffff ==> hand_over_of(len) == (HandOver::Allocate {
            len: len as u32,
            grace_secs: 5,
        }),
        len > 0xffff_ffff ==> hand_over_of(len) is TooLong,
{
}

/// A response is lost unless it was written where the guest made room, and the
/// reason tells its length and what the guest did.
pub proof fn law_lost_response_has_a_reason(len: nat, ptr: u32, error: String)
    ensures
        lost_reason(len, BufferEvent::Given { ptr, written: true }) is None,
        lost_reason(len, BufferEvent::Given { ptr, written: false }) == Some(
            "guest memory.write of "@ + text::decimal(len) + " bytes at ptr "@ + text::decimal(
                ptr as nat,
            ) + " failed"@,
        ),
        lost_reason(len, BufferEvent::Interrupted) == Some(
            "plugkit_alloc("@ + text::decimal(len)
                + ") hit the epoch deadline while handing the host response back to the guest"@,
        ),
        lost_reason(len, BufferEvent::Failed { error }) == Some(
            "plugkit_alloc("@ + text::decimal(len) + ") failed: "@ + error@,
        ),
        too_long_reason(len) == "host response of "@ + text::decimal(len)
            + " bytes exceeds the 32-bit packed-ABI field"@,
{
}

} // verus!
