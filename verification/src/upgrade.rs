//! The frame that the serialised state is stored in across upgrades: its
//! length in four bytes, lowest first, and then the state.

use vstd::prelude::*;

verus! {

/// The four bytes of a length below 2^32, lowest first.
pub open spec fn le32(n: nat) -> Seq<u8> {
    seq![
        (n % 256) as u8,
        ((n / 256) % 256) as u8,
        ((n / 65536) % 256) as u8,
        ((n / 16777216) % 256) as u8,
    ]
}

/// The length that four bytes stand for, lowest first.
pub open spec fn from_le32(bytes: Seq<u8>) -> nat {
    (bytes[0] + bytes[1] * 256 + bytes[2] * 65536 + bytes[3] * 16777216) as nat
}

/// The frame of a state of less than 2^32 bytes: its length, then the
/// state.
pub open spec fn framed(state: Seq<u8>) -> Seq<u8> {
    le32(state.len()) + state
}

/// The state that an image of the memory holds in its frame, or `None`
/// where the image is shorter than its frame says.
pub open spec fn unframed(image: Seq<u8>) -> Option<Seq<u8>> {
    if image.len() < 4 {
        None
    } else {
        let length = from_le32(image.take(4));
        if image.len() - 4 < length {
            None
        } else {
            Some(image.subrange(4, 4 + length as int))
        }
    }
}

/// A state of less than 2^32 bytes comes back out of its frame, whatever
/// follows the frame in memory.
pub proof fn lemma_frame_round_trip(state: Seq<u8>, rest: Seq<u8>)
    requires
        state.len() < 0x1_0000_0000,
    ensures
        unframed(framed(state) + rest) == Some(state),
{
    let n = state.len();
    let image = framed(state) + rest;
    let head = image.take(4);
    assert(head =~= le32(n));
    assert(from_le32(head) == n) by {
        let b0 = n % 256;
        let b1 = (n / 256) % 256;
        let b2 = (n / 65536) % 256;
        let b3 = (n / 16777216) % 256;
        assert(head[0] == b0 && head[1] == b1 && head[2] == b2 && head[3] == b3);
        assert(n == b0 + b1 * 256 + b2 * 65536 + b3 * 16777216);
    }
    assert(image.subrange(4, 4 + n as int) =~= state);
}

/// The most bytes of state that a frame holds.
pub const MAX_STATE_LENGTH: u64 = 0xffff_ffff;

/// Frames the serialised state for storage. The state has less than 2^32
/// bytes: a longer one could not be read back.
pub fn pre_upgrade(state_bytes: &Vec<u8>) -> (r: Vec<u8>)
    requires
        state_bytes@.len() <= MAX_STATE_LENGTH,
    ensures
        r@ == framed(state_bytes@),
        unframed(r@) == Some(state_bytes@),
{
    proof {
        lemma_frame_round_trip(state_bytes@, Seq::empty());
        assert(framed(state_bytes@) + Seq::<u8>::empty() =~= framed(state_bytes@));
    }
    let length = state_bytes.len() as u64;
    let mut image: Vec<u8> = Vec::new();
    image.push((length % 256) as u8);
    image.push(((length / 256) % 256) as u8);
    image.push(((length / 65536) % 256) as u8);
    image.push(((length / 16777216) % 256) as u8);
    assert(image@ =~= le32(state_bytes@.len()));
    let mut i: usize = 0;
    while i < state_bytes.len()
        invariant
            i <= state_bytes.len(),
            image@ == le32(state_bytes@.len()) + state_bytes@.take(i as int),
        decreases state_bytes.len() - i,
    {
        image.push(state_bytes[i]);
        assert(state_bytes@.take(i + 1) =~= state_bytes@.take(i as int).push(
            state_bytes@[i as int],
        ));
        i += 1;
    }
    assert(state_bytes@.take(i as int) =~= state_bytes@);
    image
}

/// Takes the serialised state out of an image of the memory.
pub fn post_upgrade(image: &Vec<u8>) -> (r: Option<Vec<u8>>)
    ensures
        match unframed(image@) {
            Some(state) => r matches Some(found) && found@ == state,
            None => r is None,
        },
{
    if image.len() < 4 {
        return None;
    }
    let length: u64 = image[0] as u64 + image[1] as u64 * 256 + image[2] as u64 * 65536
        + image[3] as u64 * 16777216;
    assert(length == from_le32(image@.take(4)));
    if ((image.len() - 4) as u64) < length {
        return None;
    }
    let mut state: Vec<u8> = Vec::new();
    let mut i: usize = 0;
    let end: usize = length as usize;
    while i < end
        invariant
            i <= end,
            end + 4 <= image.len(),
            state@ == image@.subrange(4, 4 + i),
        decreases end - i,
    {
        state.push(image[i + 4]);
        assert(image@.subrange(4, 4 + i + 1) =~= image@.subrange(4, 4 + i).push(image@[i + 4]));
        i += 1;
    }
    Some(state)
}

} // verus!
