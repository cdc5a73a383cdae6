//! The payload framer: a payload is hidden as its length, imprinted on a
//! window of 32 carrier bytes, followed by one window of 4 carrier bytes for
//! each payload byte, in payload order and without gaps. The length window
//! starts at `header`, the offset up to which the carrier is left alone.

use vstd::prelude::*;
use crate::constants::{BYTES_PER_CHAR, LENGTH_HIDING_BYTES};
use crate::error::{ErrorKind, Operation, StegoError};
use crate::laws::lemma_recover_succeeds;
use crate::model::{
    digit, extracted, lemma_pow4_limits, modify_result, window_fault, with_digit,
};
use crate::steganography::{modify, recover};

verus! {

/// The carrier bytes that are left for payload windows in a carrier of `len`
/// bytes: what follows the header and the length window, and nothing where
/// the carrier is shorter than those two.
pub open spec fn available(len: nat, header: nat) -> nat {
    if len >= header + LENGTH_HIDING_BYTES {
        (len - header - LENGTH_HIDING_BYTES) as nat
    } else {
        0
    }
}

/// The carrier bytes that the windows of a payload of `payload_len` bytes
/// take.
pub open spec fn required(payload_len: nat) -> nat {
    payload_len * BYTES_PER_CHAR as nat
}

/// The number of whole payload windows that a carrier of `len` bytes has
/// room for.
pub open spec fn fitting_windows(len: nat, header: nat) -> nat {
    available(len, header) / (BYTES_PER_CHAR as nat)
}

/// The carrier `b` after the first `count` bytes of `payload`, and the
/// length of the whole payload, were framed into it behind `header`.
pub open spec fn framed_prefix(b: Seq<u8>, header: int, payload: Seq<u8>, count: int) -> Seq<u8> {
    let start = header + LENGTH_HIDING_BYTES;
    Seq::new(
        b.len(),
        |k: int|
            if header <= k < start {
                with_digit(b[k], digit(payload.len(), (k - header) as nat))
            } else if start <= k < start + BYTES_PER_CHAR * count {
                with_digit(
                    b[k],
                    digit(
                        payload[(k - start) / (BYTES_PER_CHAR as int)] as nat,
                        ((k - start) % (BYTES_PER_CHAR as int)) as nat,
                    ),
                )
            } else {
                b[k]
            },
    )
}

/// The carrier `b` after `payload` was framed into it behind `header`: byte
/// `header + i` of the length window takes digit `i` of the payload's length,
/// byte `j` of the window of payload byte `p` takes digit `j` of that byte,
/// each in its two low-order bits; every other bit of the carrier is as
/// before.
pub open spec fn framed(b: Seq<u8>, header: int, payload: Seq<u8>) -> Seq<u8> {
    framed_prefix(b, header, payload, payload.len() as int)
}

/// What `encode` returns for a carrier of `len` bytes and a payload of
/// `payload_len` bytes. The capacity is judged first; with an empty payload
/// the length window alone may still not fit.
pub open spec fn encode_result(len: nat, header: usize, payload_len: nat) -> Result<
    (),
    StegoError,
> {
    if required(payload_len) > available(len, header as nat) {
        Err(StegoError { kind: ErrorKind::CapacityExceeded, operation: Operation::Imprint })
    } else {
        match window_fault(len, header, LENGTH_HIDING_BYTES) {
            Some(kind) => Err(StegoError { kind, operation: Operation::Imprint }),
            None => Ok(()),
        }
    }
}

/// The payload length that the carrier `b` holds behind `header`.
pub open spec fn hidden_length(b: Seq<u8>, header: int) -> nat {
    extracted(b, header, LENGTH_HIDING_BYTES as nat)
}

/// Payload byte `i` that the carrier `b` holds behind `header`.
pub open spec fn hidden_byte(b: Seq<u8>, header: int, i: int) -> u8 {
    extracted(
        b,
        header + LENGTH_HIDING_BYTES + BYTES_PER_CHAR * i,
        BYTES_PER_CHAR as nat,
    ) as u8
}

/// The payload that the carrier `b` holds behind `header`.
pub open spec fn hidden_payload(b: Seq<u8>, header: int) -> Seq<u8> {
    Seq::new(hidden_length(b, header), |i: int| hidden_byte(b, header, i))
}

/// What `decode` returns on the carrier `b`: the hidden payload where the
/// length window and all the payload windows that the length announces lie
/// inside the carrier, and else the fault of the first window that does not.
pub open spec fn decode_result(b: Seq<u8>, header: usize) -> Result<Seq<u8>, StegoError> {
    match window_fault(b.len(), header, LENGTH_HIDING_BYTES) {
        Some(kind) => Err(StegoError { kind, operation: Operation::Extract }),
        None => {
            let start = header + LENGTH_HIDING_BYTES;
            let count = hidden_length(b, header as int);
            if start + BYTES_PER_CHAR * count <= b.len() {
                Ok(hidden_payload(b, header as int))
            } else {
                let fitting = fitting_windows(b.len(), header as nat);
                let kind = if start + BYTES_PER_CHAR * fitting + BYTES_PER_CHAR > usize::MAX {
                    ErrorKind::Overflow
                } else {
                    ErrorKind::OutOfBounds
                };
                Err(StegoError { kind, operation: Operation::Extract })
            }
        },
    }
}

/// The number of carrier bytes left for payload windows in a carrier of
/// `carrier_len` bytes whose first `header` bytes are left alone.
pub fn available_space(carrier_len: usize, header: usize) -> (space: usize)
    ensures
        space == available(carrier_len as nat, header as nat),
{
    match header.checked_add(LENGTH_HIDING_BYTES) {
        Some(overhead) => if carrier_len >= overhead {
            carrier_len - overhead
        } else {
            0
        },
        None => 0,
    }
}

/// The number of payload windows that a carrier of `carrier_len` bytes has
/// room for behind `header` and the length window: the longest payload, in
/// bytes, that the carrier can take, and the index of the first payload
/// window that does not fit.
pub fn payload_capacity(carrier_len: usize, header: usize) -> (count: usize)
    ensures
        count == fitting_windows(carrier_len as nat, header as nat),
        forall|payload_len: nat|
            required(payload_len) <= available(carrier_len as nat, header as nat) <==> payload_len
                <= count,
{
    available_space(carrier_len, header) / BYTES_PER_CHAR
}

/// The number of carrier bytes that a payload of `payload_len` bytes takes,
/// or `None` where that number does not fit the index type.
pub fn required_space(payload_len: usize) -> (space: Option<usize>)
    ensures
        match space {
            Some(n) => n == required(payload_len as nat),
            None => required(payload_len as nat) > usize::MAX,
        },
{
    payload_len.checked_mul(BYTES_PER_CHAR)
}

/// Hides `payload` in `carrier` behind its first `header` bytes: the length
/// of the payload on 32 carrier bytes, then each payload byte on 4.
///
/// The capacity is checked before anything is written: where the payload
/// needs more carrier bytes than are available the call fails with
/// `CapacityExceeded`. An empty payload passes that check on any carrier; the
/// call then fails as `modify` does where the length window does not fit.
/// On every failure the carrier is left as it was.
pub fn encode(carrier: &mut [u8], header: usize, payload: &[u8]) -> (r: Result<(), StegoError>)
    ensures
        r == encode_result(old(carrier)@.len(), header, payload@.len()),
        r is Ok ==> final(carrier)@ == framed(old(carrier)@, header as int, payload@),
        r is Err ==> final(carrier)@ == old(carrier)@,
{
    let ghost before = carrier@;
    let space = available_space(carrier.len(), header);
    let fits = match required_space(payload.len()) {
        Some(needed) => needed <= space,
        None => false,
    };
    if !fits {
        return Err(StegoError::imprint(ErrorKind::CapacityExceeded));
    }
    match modify(payload.len() as u64, carrier, header, LENGTH_HIDING_BYTES) {
        Ok(()) => {},
        Err(e) => {
            return Err(e);
        },
    }
    let start = header + LENGTH_HIDING_BYTES;
    let mut i: usize = 0;
    while i < payload.len()
        invariant
            i <= payload@.len(),
            start == header + LENGTH_HIDING_BYTES,
            start + BYTES_PER_CHAR * payload@.len() <= before.len(),
            before.len() <= usize::MAX,
            carrier@ == framed_prefix(before, header as int, payload@, i as int),
        decreases payload@.len() - i,
    {
        let ghost current = carrier@;
        let offset = start + BYTES_PER_CHAR * i;
        // The capacity check has shown that this window fits, so the call
        // cannot fail and the carrier is never left half written.
        assert(modify_result(current.len(), offset, BYTES_PER_CHAR) is Ok);
        match modify(payload[i] as u64, carrier, offset, BYTES_PER_CHAR) {
            Ok(()) => {},
            Err(e) => {
                return Err(e);
            },
        }
        assert(carrier@ =~= framed_prefix(before, header as int, payload@, i + 1)) by {
            assert forall|k: int| 0 <= k < before.len() implies #[trigger] carrier@[k]
                == framed_prefix(before, header as int, payload@, i + 1)[k] by {
                if offset <= k < offset + BYTES_PER_CHAR {
                    assert((k - start) / (BYTES_PER_CHAR as int) == i);
                    assert((k - start) % (BYTES_PER_CHAR as int) == k - offset);
                }
            }
        }
        i = i + 1;
    }
    Ok(())
}

/// Reads the payload that `carrier` holds behind its first `header` bytes:
/// first the length, then that many payload bytes, in order.
///
/// Fails with the error of the first window that `recover` refuses: the
/// length window, or the first payload window that reaches past the end of
/// the carrier. No part of a payload is returned on failure.
pub fn decode(carrier: &[u8], header: usize) -> (r: Result<Vec<u8>, StegoError>)
    ensures
        match r {
            Ok(payload) => decode_result(carrier@, header) == Ok::<Seq<u8>, StegoError>(payload@),
            Err(e) => decode_result(carrier@, header) == Err::<Seq<u8>, StegoError>(e),
        },
{
    let count = match recover(carrier, header, LENGTH_HIDING_BYTES) {
        Ok(count) => count,
        Err(e) => {
            return Err(e);
        },
    };
    proof {
        assert(carrier@.len() == carrier.len());
        lemma_recover_succeeds(carrier@, header, LENGTH_HIDING_BYTES);
    }
    let start = header + LENGTH_HIDING_BYTES;
    let mut payload: Vec<u8> = Vec::new();
    let mut i: usize = 0;
    while (i as u64) < count
        invariant
            i <= count,
            count == hidden_length(carrier@, header as int),
            start == header + LENGTH_HIDING_BYTES,
            start + BYTES_PER_CHAR * i <= carrier@.len(),
            carrier@.len() <= usize::MAX,
            payload@.len() == i,
            forall|j: int| 0 <= j < i ==> #[trigger] payload@[j] == hidden_byte(carrier@, header as int, j),
        decreases count - i,
    {
        let offset = start + BYTES_PER_CHAR * i;
        let value = match recover(carrier, offset, BYTES_PER_CHAR) {
            Ok(value) => value,
            Err(e) => {
                assert(fitting_windows(carrier@.len(), header as nat) == i);
                return Err(e);
            },
        };
        proof {
            lemma_recover_succeeds(carrier@, offset, BYTES_PER_CHAR);
            lemma_pow4_limits();
        }
        payload.push(value as u8);
        i = i + 1;
    }
    assert(payload@ =~= hidden_payload(carrier@, header as int));
    Ok(payload)
}

} // verus!
