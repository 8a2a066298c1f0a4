//! A frame that is read in one state and written in either.
//!
//! The bits of a frame come most significant first: four of its kind, four of
//! its length, the bytes of its data, and a trailer that is always the same.
use core::marker::PhantomData;
use vstd::arithmetic::power2::{
    lemma2_to64, lemma_pow2_strictly_increases, lemma_pow2_unfold, pow2,
};
use vstd::prelude::*;
use vstd::slice::slice_subrange;

verus! {

/// The state of a frame as it comes off the wire.
pub struct Unvalidated;

/// The state of a frame that has been looked at.
pub struct Validated;

/// A frame. Only a `Frame<Unvalidated>` can be read.
pub struct Frame<T> {
    pub kind: u8,
    pub len: u8,
    pub data: Vec<u8>,
    pub trailer: u8,
    pub _state: PhantomData<T>,
}

/// A [`Frame`] as the contracts see it.
#[verifier::ext_equal]
pub struct FrameView {
    pub kind: u8,
    pub len: u8,
    pub data: Seq<u8>,
    pub trailer: u8,
}

impl<T> View for Frame<T> {
    type V = FrameView;

    open spec fn view(&self) -> FrameView {
        FrameView { kind: self.kind, len: self.len, data: self.data@, trailer: self.trailer }
    }
}

/// Why a value cannot be read or written.
#[derive(Clone, Copy, PartialEq, Eq, Structural, Debug)]
pub enum FrameError {
    /// The input ends inside of a field, or of the bits to be skipped, of this
    /// many bits.
    Incomplete(usize),
    /// The input goes on after the value.
    TooMuchData,
    /// The trailer is not the one that a frame has.
    Assertion,
    /// A field does not fit into its bits.
    InvalidParam,
    /// A number does not fit into its field.
    Parse,
}

/// The trailer of a frame.
pub const TRAILER: u8 = 0xAB;

/// The bit at a position.
pub open spec fn bit_at(bytes: Seq<u8>, position: nat) -> nat {
    ((bytes[(position / 8) as int] >> ((7 - position % 8) as u8)) & 1) as nat
}

/// The number that some bits are.
pub open spec fn bits_at(bytes: Seq<u8>, position: nat, count: nat) -> nat
    decreases count,
{
    if count == 0 {
        0
    } else {
        2 * bits_at(bytes, position, (count - 1) as nat) + bit_at(
            bytes,
            (position + count - 1) as nat,
        )
    }
}

/// The field of `count` bits at a position.
pub open spec fn field_at(bytes: Seq<u8>, position: nat, count: nat) -> Result<u8, FrameError> {
    if position + count > 8 * bytes.len() {
        Err(FrameError::Incomplete(count as usize))
    } else {
        Ok(bits_at(bytes, position, count) as u8)
    }
}

/// Some bytes that start at a position, which need not be that of a byte.
pub open spec fn bytes_at(bytes: Seq<u8>, position: nat, count: nat) -> Result<
    Seq<u8>,
    FrameError,
> {
    if position + 8 * count > 8 * bytes.len() {
        Err(FrameError::Incomplete(8))
    } else {
        Ok(Seq::new(count, |i: int| bits_at(bytes, (position + 8 * i) as nat, 8) as u8))
    }
}

/// The frame that starts `offset` bits into the input, and where it ends.
pub open spec fn frame_at(bytes: Seq<u8>, offset: nat) -> Result<(FrameView, nat), FrameError> {
    if offset % 8 != 0 && offset > 8 * bytes.len() {
        Err(FrameError::Incomplete((offset % 8) as usize))
    } else {
        match field_at(bytes, offset, 4) {
            Err(error) => Err(error),
            Ok(kind) => match field_at(bytes, offset + 4, 4) {
                Err(error) => Err(error),
                Ok(len) => match bytes_at(bytes, offset + 8, len as nat) {
                    Err(error) => Err(error),
                    Ok(data) => match field_at(bytes, offset + 8 + 8 * len as nat, 8) {
                        Err(error) => Err(error),
                        Ok(trailer) => if trailer != TRAILER {
                            Err(FrameError::Assertion)
                        } else {
                            Ok(
                                (
                                    FrameView { kind, len, data, trailer },
                                    offset + 16 + 8 * len as nat,
                                ),
                            )
                        },
                    },
                },
            },
        }
    }
}

/// At most eight bits are a number that fits into a byte.
proof fn lemma_bits_bound(bytes: Seq<u8>, position: nat, count: nat)
    requires
        count <= 8,
    ensures
        bits_at(bytes, position, count) < pow2(count) <= 256,
    decreases count,
{
    lemma2_to64();
    if count < 8 {
        lemma_pow2_strictly_increases(count, 8);
    }
    if count > 0 {
        lemma_bits_bound(bytes, position, (count - 1) as nat);
        lemma_pow2_unfold(count);
        let byte = bytes[((position + count - 1) as nat / 8) as int];
        let shift = (7 - (position + count - 1) as nat % 8) as u8;
        assert((byte >> shift) & 1 <= 1) by (bit_vector);
    }
}

/// The field of `count` bits at a position.
fn read_field(bytes: &[u8], position: u128, count: usize) -> (result: Result<u8, FrameError>)
    requires
        count <= 8,
        position <= u128::MAX - 8,
    ensures
        result == field_at(bytes@, position as nat, count as nat),
{
    if position + count as u128 > 8 * bytes.len() as u128 {
        return Err(FrameError::Incomplete(count));
    }
    let mut value: u8 = 0;
    for i in 0..count
        invariant
            count <= 8,
            position + count <= 8 * bytes.len(),
            value == bits_at(bytes@, position as nat, i as nat),
    {
        let at: u128 = position + i as u128;
        let index = (at / 8) as usize;
        let shift = (7 - at % 8) as u8;
        let byte: u8 = bytes[index];
        let bit: u8 = (byte >> shift) & 1;
        proof {
            lemma_bits_bound(bytes@, position as nat, (i + 1) as nat);
            assert(bit == bit_at(bytes@, (position + i) as nat));
        }
        value = 2 * value + bit;
    }
    Ok(value)
}

/// Some bytes that start at a position, which need not be that of a byte.
fn read_bytes(bytes: &[u8], position: u128, count: usize) -> (result: Result<Vec<u8>, FrameError>)
    requires
        position <= u128::MAX / 2,
    ensures
        match result {
            Ok(out) => bytes_at(bytes@, position as nat, count as nat) == Ok::<_, FrameError>(
                out@,
            ),
            Err(error) => bytes_at(bytes@, position as nat, count as nat) == Err::<Seq<u8>, _>(
                error,
            ),
        },
{
    if position + 8 * count as u128 > 8 * bytes.len() as u128 {
        return Err(FrameError::Incomplete(8));
    }
    let mut out: Vec<u8> = Vec::new();
    for i in 0..count
        invariant
            position + 8 * count <= 8 * bytes.len(),
            out.len() == i,
            forall|k: int|
                0 <= k < i ==> #[trigger] out@[k] == bits_at(
                    bytes@,
                    (position + 8 * k) as nat,
                    8,
                ) as u8,
    {
        match read_field(bytes, position + 8 * i as u128, 8) {
            Ok(byte) => out.push(byte),
            Err(error) => {
                assert(false);
                return Err(error);
            },
        }
    }
    assert(out@ =~= Seq::new(
        count as nat,
        |i: int| bits_at(bytes@, (position + 8 * i) as nat, 8) as u8,
    ));
    Ok(out)
}

impl Frame<Unvalidated> {
    /// The frame that starts `input.1` bits into the bytes, with the bytes from
    /// its end on and the number of their bits that it has used.
    pub fn from_bytes<'a>(input: (&'a [u8], usize)) -> (result: Result<
        ((&'a [u8], usize), Frame<Unvalidated>),
        FrameError,
    >)
        ensures
            match result {
                Ok(((rest, bits), frame)) => frame_at(input.0@, input.1 as nat) matches Ok((view, end))
                    && frame@ == view && rest@ == input.0@.skip((end / 8) as int) && bits == end
                    % 8,
                Err(error) => frame_at(input.0@, input.1 as nat) == Err::<(FrameView, nat), _>(
                    error,
                ),
            },
    {
        let bytes = input.0;
        let offset = input.1 as u128;
        if input.1 % 8 != 0 && offset > 8 * bytes.len() as u128 {
            return Err(FrameError::Incomplete(input.1 % 8));
        }
        let kind = match read_field(bytes, offset, 4) {
            Ok(kind) => kind,
            Err(error) => return Err(error),
        };
        let len = match read_field(bytes, offset + 4, 4) {
            Ok(len) => len,
            Err(error) => return Err(error),
        };
        let data = match read_bytes(bytes, offset + 8, len as usize) {
            Ok(data) => data,
            Err(error) => return Err(error),
        };
        let trailer = match read_field(bytes, offset + 8 + 8 * len as u128, 8) {
            Ok(trailer) => trailer,
            Err(error) => return Err(error),
        };
        if trailer != TRAILER {
            return Err(FrameError::Assertion);
        }
        let end: u128 = offset + 16 + 8 * len as u128;
        let start = (end / 8) as usize;
        let rest = slice_subrange(bytes, start, bytes.len());
        assert(rest@ =~= bytes@.skip(start as int));
        Ok(
            (
                (rest, (end % 8) as usize),
                Frame { kind, len, data, trailer, _state: PhantomData },
            ),
        )
    }

    /// The frame that the bytes are, with nothing after it.
    pub fn try_from(bytes: &[u8]) -> (result: Result<Frame<Unvalidated>, FrameError>)
        ensures
            match result {
                Ok(frame) => frame_at(bytes@, 0) == Ok::<_, FrameError>(
                    (frame@, 8 * bytes@.len()),
                ),
                Err(error) => match frame_at(bytes@, 0) {
                    Ok((_, end)) => end < 8 * bytes@.len() && error == FrameError::TooMuchData,
                    Err(owed) => error == owed,
                },
            },
    {
        match Frame::from_bytes((bytes, 0)) {
            Ok(((rest, _), frame)) => if rest.len() > 0 {
                Err(FrameError::TooMuchData)
            } else {
                Ok(frame)
            },
            Err(error) => Err(error),
        }
    }
}

/// The bytes of a frame. Its data is written as it is, whatever its length says.
pub open spec fn frame_bytes(frame: FrameView) -> Result<Seq<u8>, FrameError> {
    if frame.kind > 15 || frame.len > 15 {
        Err(FrameError::InvalidParam)
    } else if frame.trailer != TRAILER {
        Err(FrameError::Assertion)
    } else {
        Ok(seq![(16 * frame.kind + frame.len) as u8] + frame.data + seq![frame.trailer])
    }
}

/// A frame whose length is that of its data.
pub open spec fn updated(frame: FrameView) -> Result<FrameView, FrameError> {
    if frame.data.len() > 255 {
        Err(FrameError::Parse)
    } else {
        Ok(FrameView { len: frame.data.len() as u8, ..frame })
    }
}

/// The bytes of a frame.
fn write_frame<T>(frame: &Frame<T>) -> (result: Result<Vec<u8>, FrameError>)
    ensures
        match result {
            Ok(bytes) => frame_bytes(frame@) == Ok::<_, FrameError>(bytes@),
            Err(error) => frame_bytes(frame@) == Err::<Seq<u8>, _>(error),
        },
{
    if frame.kind > 15 || frame.len > 15 {
        return Err(FrameError::InvalidParam);
    }
    if frame.trailer != TRAILER {
        return Err(FrameError::Assertion);
    }
    let mut bytes: Vec<u8> = Vec::new();
    bytes.push(16 * frame.kind + frame.len);
    for i in 0..frame.data.len()
        invariant
            bytes@ == seq![(16 * frame.kind + frame.len) as u8] + frame.data@.take(i as int),
    {
        bytes.push(frame.data[i]);
        assert(bytes@ =~= seq![(16 * frame.kind + frame.len) as u8] + frame.data@.take(i + 1));
    }
    bytes.push(frame.trailer);
    assert(bytes@ =~= frame_bytes(frame@)->Ok_0);
    Ok(bytes)
}

/// Sets the length of a frame to that of its data.
fn update_frame<T>(frame: &mut Frame<T>) -> (result: Result<(), FrameError>)
    ensures
        match result {
            Ok(_) => updated(old(frame)@) == Ok::<_, FrameError>(final(frame)@),
            Err(error) => updated(old(frame)@) == Err::<FrameView, _>(error) && *final(frame)
                == *old(frame),
        },
{
    if frame.data.len() > 255 {
        return Err(FrameError::Parse);
    }
    frame.len = frame.data.len() as u8;
    Ok(())
}

impl Frame<Unvalidated> {
    /// The bytes of the frame.
    pub fn to_bytes(&self) -> (result: Result<Vec<u8>, FrameError>)
        ensures
            match result {
                Ok(bytes) => frame_bytes(self@) == Ok::<_, FrameError>(bytes@),
                Err(error) => frame_bytes(self@) == Err::<Seq<u8>, _>(error),
            },
    {
        write_frame(self)
    }

    /// Sets the length to that of the data.
    pub fn update(&mut self) -> (result: Result<(), FrameError>)
        ensures
            match result {
                Ok(_) => updated(old(self)@) == Ok::<_, FrameError>(final(self)@),
                Err(error) => updated(old(self)@) == Err::<FrameView, _>(error) && *final(self)
                    == *old(self),
            },
    {
        update_frame(self)
    }
}

impl Frame<Validated> {
    /// The bytes of the frame.
    pub fn to_bytes(&self) -> (result: Result<Vec<u8>, FrameError>)
        ensures
            match result {
                Ok(bytes) => frame_bytes(self@) == Ok::<_, FrameError>(bytes@),
                Err(error) => frame_bytes(self@) == Err::<Seq<u8>, _>(error),
            },
    {
        write_frame(self)
    }

    /// Sets the length to that of the data.
    pub fn update(&mut self) -> (result: Result<(), FrameError>)
        ensures
            match result {
                Ok(_) => updated(old(self)@) == Ok::<_, FrameError>(final(self)@),
                Err(error) => updated(old(self)@) == Err::<FrameView, _>(error) && *final(self)
                    == *old(self),
            },
    {
        update_frame(self)
    }
}

/// Where a byte starts, eight bits are that byte.
proof fn lemma_whole_byte(bytes: Seq<u8>, i: nat)
    ensures
        bits_at(bytes, 8 * i, 8) == bytes[i as int],
{
    reveal_with_fuel(bits_at, 9);
    let b = bytes[i as int];
    assert forall|k: nat| k < 8 implies #[trigger] bit_at(bytes, 8 * i + k) == ((b >> ((7
        - k) as u8)) & 1) by {
        assert((8 * i + k) / 8 == i);
        assert((8 * i + k) % 8 == k);
    }
    assert(bit_at(bytes, 8 * i + 0) == (b >> 7u8) & 1);
    assert(bit_at(bytes, 8 * i + 1) == (b >> 6u8) & 1);
    assert(bit_at(bytes, 8 * i + 2) == (b >> 5u8) & 1);
    assert(bit_at(bytes, 8 * i + 3) == (b >> 4u8) & 1);
    assert(bit_at(bytes, 8 * i + 4) == (b >> 3u8) & 1);
    assert(bit_at(bytes, 8 * i + 5) == (b >> 2u8) & 1);
    assert(bit_at(bytes, 8 * i + 6) == (b >> 1u8) & 1);
    assert(bit_at(bytes, 8 * i + 7) == (b >> 0u8) & 1);
    assert(128 * ((b >> 7u8) & 1) + 64 * ((b >> 6u8) & 1) + 32 * ((b >> 5u8) & 1) + 16 * ((b
        >> 4u8) & 1) + 8 * ((b >> 3u8) & 1) + 4 * ((b >> 2u8) & 1) + 2 * ((b >> 1u8) & 1) + ((b
        >> 0u8) & 1) == b) by (bit_vector);
}

/// The halves of a byte.
proof fn lemma_half_bytes(bytes: Seq<u8>)
    ensures
        bits_at(bytes, 0, 4) == bytes[0] / 16,
        bits_at(bytes, 4, 4) == bytes[0] % 16,
{
    reveal_with_fuel(bits_at, 5);
    let b = bytes[0];
    assert(8 * ((b >> 7u8) & 1) + 4 * ((b >> 6u8) & 1) + 2 * ((b >> 5u8) & 1) + ((b >> 4u8) & 1)
        == b / 16) by (bit_vector);
    assert(8 * ((b >> 3u8) & 1) + 4 * ((b >> 2u8) & 1) + 2 * ((b >> 1u8) & 1) + ((b >> 0u8) & 1)
        == b % 16) by (bit_vector);
}

/// At the start of the input a frame is made of whole bytes: its kind and its
/// length are the halves of the first one.
pub proof fn frame_is_bytes(bytes: Seq<u8>)
    ensures
        bytes.len() == 0 ==> frame_at(bytes, 0) == Err::<(FrameView, nat), _>(
            FrameError::Incomplete(4),
        ),
        bytes.len() > 0 ==> {
            let len = bytes[0] % 16;
            if bytes.len() < len + 2 {
                frame_at(bytes, 0) == Err::<(FrameView, nat), _>(FrameError::Incomplete(8))
            } else if bytes[len + 1] != TRAILER {
                frame_at(bytes, 0) == Err::<(FrameView, nat), _>(FrameError::Assertion)
            } else {
                frame_at(bytes, 0) == Ok::<_, FrameError>(
                    (
                        FrameView {
                            kind: bytes[0] / 16,
                            len: len,
                            data: bytes.subrange(1, len + 1),
                            trailer: TRAILER,
                        },
                        8 * (len as nat + 2),
                    ),
                )
            }
        },
{
    if bytes.len() > 0 {
        lemma_half_bytes(bytes);
        let len = (bytes[0] % 16) as nat;
        lemma_whole_byte(bytes, len + 1);
        if bytes.len() >= len + 1 {
            let data = bytes_at(bytes, 8, len)->Ok_0;
            assert forall|i: int| 0 <= i < len implies #[trigger] data[i] == bytes[i + 1] by {
                lemma_whole_byte(bytes, (i + 1) as nat);
                assert(8 + 8 * i == 8 * (i + 1));
            }
            assert(data =~= bytes.subrange(1, len as int + 1));
        }
        assert(8 + 8 * len == 8 * (len + 1));
    }
}

/// What is read comes back when it is written: a frame at the start of the
/// input is written as the bytes that it was read from.
pub proof fn read_then_write(bytes: Seq<u8>)
    ensures
        frame_at(bytes, 0) matches Ok((frame, end)) ==> frame_bytes(frame) == Ok::<_, FrameError>(
            bytes.take((end / 8) as int),
        ) && end % 8 == 0 && updated(frame) == Ok::<_, FrameError>(frame),
{
    frame_is_bytes(bytes);
    if let Ok((frame, end)) = frame_at(bytes, 0) {
        let b = bytes[0];
        assert(frame_bytes(frame)->Ok_0 =~= bytes.take((end / 8) as int));
        assert(updated(frame)->Ok_0 =~= frame);
    }
}

/// What is written comes back when it is read, whatever follows it: a frame
/// whose length is that of its data.
pub proof fn write_then_read(frame: FrameView, rest: Seq<u8>)
    requires
        frame.len == frame.data.len(),
    ensures
        frame_bytes(frame) matches Ok(bytes) ==> frame_at(bytes + rest, 0) == Ok::<_, FrameError>(
            (frame, 8 * bytes.len()),
        ),
{
    if let Ok(bytes) = frame_bytes(frame) {
        frame_is_bytes(bytes + rest);
        let first = (16 * frame.kind + frame.len) as u8;
        assert((bytes + rest)[0] == first);
        assert((bytes + rest).subrange(1, frame.len + 1) =~= frame.data);
    }
}

/// No frame with another trailer is ever read or written.
pub proof fn trailer_is_kept(bytes: Seq<u8>, offset: nat, frame: FrameView)
    ensures
        frame_at(bytes, offset) matches Ok((read, _)) ==> read.trailer == TRAILER,
        frame_bytes(frame) is Ok ==> frame.trailer == TRAILER,
{
}

/// The same bits are the same number.
proof fn lemma_same_bits(
    bytes: Seq<u8>,
    position: nat,
    other: Seq<u8>,
    start: nat,
    skip: nat,
    count: nat,
)
    requires
        forall|k: nat|
            skip <= k < skip + count ==> #[trigger] bit_at(bytes, position + k) == bit_at(
                other,
                start + k,
            ),
    ensures
        bits_at(bytes, position + skip, count) == bits_at(other, start + skip, count),
    decreases count,
{
    if count > 0 {
        let last = (skip + count - 1) as nat;
        lemma_same_bits(bytes, position, other, start, skip, (count - 1) as nat);
        assert(bit_at(bytes, position + last) == bit_at(other, start + last));
        assert(position + skip + count - 1 == position + last);
        assert(start + skip + count - 1 == start + last);
    }
}

/// A frame is made of its bits, wherever they stand: where the same bits come
/// at another place, the same frame is read there, and it ends as far behind.
pub proof fn frame_goes_by_its_bits(bytes: Seq<u8>, offset: nat, other: Seq<u8>, start: nat)
    requires
        offset <= 8 * bytes.len(),
        start <= 8 * other.len(),
        frame_at(other, start) matches Ok((_, end)) && {
            &&& end - start <= 8 * bytes.len() - offset
            &&& forall|k: nat|
                k < end - start ==> #[trigger] bit_at(bytes, offset + k) == bit_at(
                    other,
                    start + k,
                )
        },
    ensures
        frame_at(other, start) matches Ok((frame, end)) && frame_at(bytes, offset) == Ok::<
            _,
            FrameError,
        >((frame, (offset + end - start) as nat)),
{
    let (frame, end) = frame_at(other, start)->Ok_0;
    let len = frame.len as nat;
    lemma_same_bits(bytes, offset, other, start, 0, 4);
    lemma_same_bits(bytes, offset, other, start, 4, 4);
    assert(bits_at(bytes, offset + 4, 4) == bits_at(other, start + 4, 4));
    let data = bytes_at(bytes, offset + 8, len)->Ok_0;
    assert forall|i: int| 0 <= i < len implies #[trigger] data[i] == frame.data[i] by {
        lemma_same_bits(bytes, offset, other, start, (8 + 8 * i) as nat, 8);
        assert(offset + 8 + 8 * i == offset + (8 + 8 * i));
        assert(start + 8 + 8 * i == start + (8 + 8 * i));
    }
    assert(data =~= frame.data);
    lemma_same_bits(bytes, offset, other, start, 8 + 8 * len, 8);
    assert(offset + 8 + 8 * len == offset + (8 + 8 * len));
    assert(start + 8 + 8 * len == start + (8 + 8 * len));
}

/// How much input a frame needs, at any bit: eight bits for its kind and its
/// length, and then as many bytes as the length says and one more.
pub proof fn frame_needs_its_bits(bytes: Seq<u8>, offset: nat)
    ensures
        offset <= 8 * bytes.len() < offset + 8 ==> frame_at(bytes, offset) == Err::<
            (FrameView, nat),
            _,
        >(FrameError::Incomplete(4)),
        offset + 8 <= 8 * bytes.len() ==> {
            let len = bits_at(bytes, offset + 4, 4);
            if 8 * bytes.len() < offset + 16 + 8 * len {
                frame_at(bytes, offset) == Err::<(FrameView, nat), _>(FrameError::Incomplete(8))
            } else if bits_at(bytes, offset + 8 + 8 * len, 8) == 0xAB {
                frame_at(bytes, offset) matches Ok((frame, end)) && end == offset + 16 + 8 * len
                    && frame.kind == bits_at(bytes, offset, 4) && frame.len == len
                    && frame.data.len() == len
            } else {
                frame_at(bytes, offset) == Err::<(FrameView, nat), _>(FrameError::Assertion)
            }
        },
        offset > 8 * bytes.len() && offset % 8 == 0 ==> frame_at(bytes, offset) == Err::<
            (FrameView, nat),
            _,
        >(FrameError::Incomplete(4)),
        offset > 8 * bytes.len() && offset % 8 != 0 ==> frame_at(bytes, offset) == Err::<
            (FrameView, nat),
            _,
        >(FrameError::Incomplete((offset % 8) as usize)),
{
    lemma_bits_bound(bytes, offset, 4);
    lemma_bits_bound(bytes, offset + 4, 4);
    let len = bits_at(bytes, offset + 4, 4);
    lemma_bits_bound(bytes, offset + 8 + 8 * len, 8);
    lemma2_to64();
    if offset + 8 <= 8 * bytes.len() && offset + 8 + 8 * len > 8 * bytes.len() {
        assert(bytes_at(bytes, offset + 8, len) is Err);
    }
}

/// A frame is written as its kind and its length in one byte, all of its data
/// and its trailer, and only where these fit into their bits and the trailer is
/// the one that a frame has.
pub proof fn frame_is_written_in_full(frame: FrameView)
    ensures
        frame_bytes(frame) is Ok <==> frame.kind < 16 && frame.len < 16 && frame.trailer == 0xAB,
        frame.kind >= 16 || frame.len >= 16 ==> frame_bytes(frame) == Err::<Seq<u8>, _>(
            FrameError::InvalidParam,
        ),
        frame.kind < 16 && frame.len < 16 && frame.trailer != 0xAB ==> frame_bytes(frame) == Err::<
            Seq<u8>,
            _,
        >(FrameError::Assertion),
        frame_bytes(frame) matches Ok(bytes) ==> {
            &&& bytes.len() == frame.data.len() + 2
            &&& bytes[0] / 16 == frame.kind && bytes[0] % 16 == frame.len
            &&& bytes.subrange(1, bytes.len() - 1) == frame.data
            &&& bytes.last() == 0xAB
        },
{
    if let Ok(bytes) = frame_bytes(frame) {
        assert(bytes.subrange(1, bytes.len() - 1) =~= frame.data);
    }
}

/// Bringing a frame up to date sets its length to that of its data and changes
/// nothing else; where the data is too long for that it is refused. Once is
/// enough.
pub proof fn update_sets_the_length(frame: FrameView)
    ensures
        frame.data.len() > 255 ==> updated(frame) == Err::<FrameView, _>(FrameError::Parse),
        frame.data.len() <= 255 ==> (updated(frame) matches Ok(after) && after.len
            == frame.data.len() && after.data == frame.data && after.kind == frame.kind
            && after.trailer == frame.trailer && updated(after) == Ok::<_, FrameError>(after)),
{
    if let Ok(after) = updated(frame) {
        assert(updated(after)->Ok_0 =~= after);
    }
}

/// The bytes of the frame at the start of the input.
pub open spec fn leading_frame(bytes: Seq<u8>) -> Result<Seq<u8>, FrameError> {
    if bytes.len() == 0 {
        Err(FrameError::Incomplete(4))
    } else {
        let len = bytes[0] % 16;
        if bytes.len() < len + 2 {
            Err(FrameError::Incomplete(8))
        } else if bytes[len + 1] != TRAILER {
            Err(FrameError::Assertion)
        } else {
            Ok(bytes.take(len + 2))
        }
    }
}

/// A frame at the start of the input goes through reading and writing unchanged,
/// and what cannot be read is refused as reading refuses it.
pub proof fn leading_frame_is_kept(bytes: Seq<u8>)
    ensures
        leading_frame(bytes) == (match frame_at(bytes, 0) {
            Ok((frame, _)) => frame_bytes(frame),
            Err(error) => Err(error),
        }),
        leading_frame(bytes) matches Ok(frame) ==> frame.len() <= bytes.len() && frame
            == bytes.take(frame.len() as int),
{
    frame_is_bytes(bytes);
    read_then_write(bytes);
}

/// Parses a frame, moves it to the `Validated` state and writes it back out.
pub fn round_trip(bytes: &[u8]) -> (result: Result<Vec<u8>, FrameError>)
    ensures
        match result {
            Ok(out) => leading_frame(bytes@) == Ok::<_, FrameError>(out@),
            Err(error) => leading_frame(bytes@) == Err::<Seq<u8>, _>(error),
        },
{
    proof {
        frame_is_bytes(bytes@);
        read_then_write(bytes@);
    }
    let frame = match Frame::from_bytes((bytes, 0)) {
        Ok((_, frame)) => frame,
        Err(error) => return Err(error),
    };
    let mut validated: Frame<Validated> = Frame {
        kind: frame.kind,
        len: frame.len,
        data: frame.data,
        trailer: frame.trailer,
        _state: PhantomData,
    };
    match validated.update() {
        Ok(_) => {},
        Err(error) => return Err(error),
    }
    validated.to_bytes()
}

/// A value whose first part has a length that the reader is told.
pub struct WithCtx<T, const N: usize> {
    pub head: Vec<u8>,
    pub fixed: [u8; N],
    pub _state: PhantomData<T>,
}

/// The head of `n` bytes and the four bytes after it.
pub open spec fn ctx_parts(bytes: Seq<u8>, n: nat) -> Result<(Seq<u8>, Seq<u8>), FrameError> {
    if bytes.len() < n + 4 {
        Err(FrameError::Incomplete(8))
    } else {
        Ok((bytes.take(n as int), bytes.subrange(n as int, n as int + 4)))
    }
}

/// Told the length of the head, the reader gives back both parts, whatever
/// follows them; where there is less it gives back nothing.
pub proof fn context_tells_the_parts_apart(head: Seq<u8>, fixed: Seq<u8>, rest: Seq<u8>)
    ensures
        fixed.len() == 4 ==> ctx_parts(head + fixed + rest, head.len()) == Ok::<_, FrameError>(
            (head, fixed),
        ),
        fixed.len() < 4 ==> ctx_parts(head + fixed, head.len()) == Err::<(Seq<u8>, Seq<u8>), _>(
            FrameError::Incomplete(8),
        ),
{
    if fixed.len() == 4 {
        let bytes = head + fixed + rest;
        assert(bytes.take(head.len() as int) =~= head);
        assert(bytes.subrange(head.len() as int, head.len() as int + 4) =~= fixed);
    }
}

impl WithCtx<Validated, 4> {
    /// The value at the start of the bytes whose head has `n` bytes, and how
    /// many bytes it takes.
    pub fn from_bytes_with_ctx(bytes: &[u8], n: usize) -> (result: Result<
        (usize, WithCtx<Validated, 4>),
        FrameError,
    >)
        requires
            n <= isize::MAX,
        ensures
            match result {
                Ok((used, value)) => n + 4 <= bytes@.len() && used == n + 4 && value.head@
                    == bytes@.take(n as int) && value.fixed@ == bytes@.subrange(n as int, n + 4)
                    && value.head@ + value.fixed@ == bytes@.take(used as int),
                Err(error) => n + 4 > bytes@.len() && error == FrameError::Incomplete(8),
            },
            match result {
                Ok((_, value)) => ctx_parts(bytes@, n as nat) == Ok::<_, FrameError>(
                    (value.head@, value.fixed@),
                ),
                Err(error) => ctx_parts(bytes@, n as nat) == Err::<(Seq<u8>, Seq<u8>), _>(error),
            },
    {
        if bytes.len() < 4 || bytes.len() - 4 < n {
            return Err(FrameError::Incomplete(8));
        }
        let mut head: Vec<u8> = Vec::new();
        for i in 0..n
            invariant
                n + 4 <= bytes.len(),
                head@ == bytes@.take(i as int),
        {
            head.push(bytes[i]);
            assert(head@ =~= bytes@.take(i + 1));
        }
        let fixed: [u8; 4] = [bytes[n], bytes[n + 1], bytes[n + 2], bytes[n + 3]];
        assert(fixed@ =~= bytes@.subrange(n as int, n + 4));
        assert(head@ + fixed@ =~= bytes@.take(n + 4));
        Ok((n + 4, WithCtx { head, fixed, _state: PhantomData }))
    }

    /// The bytes of the value.
    pub fn to_bytes_with_ctx(&self, _n: usize) -> (bytes: Vec<u8>)
        ensures
            bytes@ == self.head@ + self.fixed@,
    {
        let mut bytes: Vec<u8> = Vec::new();
        for i in 0..self.head.len()
            invariant
                bytes@ == self.head@.take(i as int),
        {
            bytes.push(self.head[i]);
            assert(bytes@ =~= self.head@.take(i + 1));
        }
        assert(bytes@ =~= self.head@);
        for i in 0..4usize
            invariant
                bytes@ == self.head@ + self.fixed@.take(i as int),
        {
            bytes.push(self.fixed[i]);
            assert(bytes@ =~= self.head@ + self.fixed@.take(i + 1));
        }
        assert(self.fixed@.take(4) =~= self.fixed@);
        bytes
    }
}

} // verus!
