use core::marker::PhantomData;

use deku::ctx::{BitSize, Endian, Order};
use deku::no_std_io::Cursor;
use deku::reader::Reader;
use deku::writer::Writer;
use deku::{DekuError, DekuReader, DekuWriter};
use deku_generic::frame::FrameError;
use deku_generic::{round_trip, Frame, Unvalidated, Validated, WithCtx};

/// The fields of a frame, as deku itself reads them.
fn deku_fields(bytes: &[u8], offset: usize) -> Result<(u8, u8, Vec<u8>, u8, usize), DekuError> {
    let mut cursor = Cursor::new(bytes);
    let mut reader = Reader::new(&mut cursor);
    if offset != 0 {
        reader.skip_bits(offset, Order::default())?;
    }
    let kind = u8::from_reader_with_ctx(&mut reader, (Endian::Big, BitSize(4)))?;
    let len = u8::from_reader_with_ctx(&mut reader, (Endian::Big, BitSize(4)))?;
    let mut data = Vec::new();
    for _ in 0..len {
        data.push(u8::from_reader_with_ctx(&mut reader, Endian::Big)?);
    }
    let trailer = u8::from_reader_with_ctx(&mut reader, Endian::Big)?;
    Ok((kind, len, data, trailer, reader.bits_read))
}

#[test]
fn frame_reads_as_deku_does() {
    let inputs: [&[u8]; 6] = [
        &[0x12, 0xaa, 0xbb, 0xab, 0x99],
        &[0x31, 0x21, 0x7a, 0xba, 0xb7, 0x5a, 0xb0],
        &[0xf0, 0xab],
        &[0xff, 0x04, 0xf8, 0x15, 0x5c, 0x0a, 0xb1, 0x56],
        &[0x01],
        &[],
    ];
    for bytes in inputs {
        for offset in 0..20 {
            match (Frame::from_bytes((bytes, offset)), deku_fields(bytes, offset)) {
                (Ok(((rest, bits), frame)), Ok((kind, len, data, trailer, end))) => {
                    assert_eq!((frame.kind, frame.len, frame.trailer), (kind, len, trailer));
                    assert_eq!(frame.data, data);
                    assert_eq!(rest, &bytes[end / 8..]);
                    assert_eq!(bits, end % 8);
                    assert_eq!(trailer, 0xab);
                }
                (Err(FrameError::Assertion), Ok((_, _, _, trailer, _))) => {
                    assert_ne!(trailer, 0xab);
                }
                (Err(FrameError::Incomplete(bits)), Err(DekuError::Incomplete(need))) => {
                    assert_eq!(bits, need.bit_size());
                }
                _ => panic!("{bytes:?} at {offset}"),
            }
        }
    }
}

#[test]
fn frame_at_an_offset() {
    let Ok(((rest, bits), frame)) = Frame::from_bytes((&[0x31, 0x2a, 0xab, 0xba, 0xb7], 4)) else {
        panic!("no frame");
    };
    assert_eq!((frame.kind, frame.len, frame.trailer), (1, 2, 0xab));
    assert_eq!(frame.data, [0xaa, 0xbb]);
    assert_eq!(rest, [0xb7]);
    assert_eq!(bits, 4);
}

#[test]
fn frame_errors() {
    let error = |bytes: &[u8]| Frame::from_bytes((bytes, 0)).err();
    assert_eq!(error(&[]), Some(FrameError::Incomplete(4)));
    assert_eq!(error(&[0x12, 0xaa]), Some(FrameError::Incomplete(8)));
    assert_eq!(error(&[0x12, 0xaa, 0xbb]), Some(FrameError::Incomplete(8)));
    assert_eq!(error(&[0x12, 0xaa, 0xbb, 0x00]), Some(FrameError::Assertion));
    assert_eq!(Frame::from_bytes((&[0x12], 11)).err(), Some(FrameError::Incomplete(3)));
    assert_eq!(Frame::from_bytes((&[0x12], 16)).err(), Some(FrameError::Incomplete(4)));
    assert!(Frame::try_from(&[0x10, 0xab]).is_ok());
    assert_eq!(Frame::try_from(&[0x10, 0xab, 0x00]).err(), Some(FrameError::TooMuchData));
    assert_eq!(Frame::try_from(&[0x10]).err(), Some(FrameError::Incomplete(8)));
}

fn frame<T>(kind: u8, len: u8, data: &[u8], trailer: u8) -> Frame<T> {
    Frame { kind, len, data: data.to_vec(), trailer, _state: PhantomData }
}

#[test]
fn frame_writing() {
    let good = frame::<Validated>(3, 1, &[7, 8], 0xab);
    assert_eq!(good.to_bytes().unwrap(), [0x31, 7, 8, 0xab]);
    let error = |frame: Frame<Unvalidated>| frame.to_bytes().err();
    assert_eq!(error(frame(16, 0, &[], 0xab)), Some(FrameError::InvalidParam));
    assert_eq!(error(frame(0, 16, &[], 0x00)), Some(FrameError::InvalidParam));
    assert_eq!(error(frame(0, 0, &[], 0x00)), Some(FrameError::Assertion));
    let mut buffer = Vec::new();
    let mut cursor = Cursor::new(&mut buffer);
    let mut writer = Writer::new(&mut cursor);
    assert!(matches!(
        16u8.to_writer(&mut writer, (Endian::Big, BitSize(4))),
        Err(DekuError::InvalidParam(_))
    ));
}

#[test]
fn frame_update() {
    let mut short = frame::<Validated>(1, 0, &[1, 2, 3], 0xab);
    assert_eq!(short.update(), Ok(()));
    assert_eq!(short.len, 3);
    let mut long = frame::<Unvalidated>(1, 9, &[0; 256], 0xab);
    assert_eq!(long.update(), Err(FrameError::Parse));
    assert_eq!(long.len, 9);
}

#[test]
fn frame_round_trip() {
    assert_eq!(round_trip(&[0x12, 0xaa, 0xbb, 0xab]), Ok(vec![0x12, 0xaa, 0xbb, 0xab]));
    assert_eq!(round_trip(&[0x12, 0xaa, 0xbb, 0xab, 0x55]), Ok(vec![0x12, 0xaa, 0xbb, 0xab]));
    assert_eq!(round_trip(&[0x12, 0xaa, 0xbb]), Err(FrameError::Incomplete(8)));
    assert_eq!(round_trip(&[0x10, 0x00]), Err(FrameError::Assertion));
}

#[test]
fn written_frame_is_read_back() {
    let bytes = frame::<Validated>(5, 2, &[0xde, 0xad], 0xab).to_bytes().unwrap();
    let Ok(((rest, bits), back)) = Frame::from_bytes((&bytes, 0)) else {
        panic!("no frame");
    };
    assert!(rest.is_empty());
    assert_eq!(bits, 0);
    assert_eq!((back.kind, back.len, back.trailer), (5, 2, 0xab));
    assert_eq!(back.data, [0xde, 0xad]);
}

#[test]
fn value_with_context() {
    let Ok((used, value)) = WithCtx::from_bytes_with_ctx(&[1, 2, 3, 4, 5, 6, 7], 2) else {
        panic!("no value");
    };
    assert_eq!(used, 6);
    assert_eq!(value.head, [1, 2]);
    assert_eq!(value.fixed, [3, 4, 5, 6]);
    assert_eq!(value.to_bytes_with_ctx(2), [1, 2, 3, 4, 5, 6]);
    assert_eq!(
        WithCtx::from_bytes_with_ctx(&[1, 2, 3], 0).err(),
        Some(FrameError::Incomplete(8))
    );
}
