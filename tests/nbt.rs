use voxel_nav::nbt::{Cursor, NbtCompound, NbtError, NbtTag};

#[test]
fn mcbuf_nbt() {
    let mut buf = Vec::new();
    let tag = NbtTag::Compound(NbtCompound::from_iter(vec![(
        "hello world".into(),
        NbtTag::Compound(NbtCompound::from_iter(vec![(
            "name".into(),
            NbtTag::String("Bananrama".into()),
        )])),
    )]));
    tag.write_into(&mut buf).unwrap();

    let mut buf = Cursor::new(&buf[..]);

    let result = NbtTag::read_from(&mut buf).unwrap();
    assert_eq!(
        result,
        NbtTag::Compound(NbtCompound::from_iter(vec![(
            "hello world".into(),
            NbtTag::Compound(NbtCompound::from_iter(vec![(
                "name".into(),
                NbtTag::String("Bananrama".into()),
            )])),
        )]))
    );
}

#[test]
fn numbers_round_trip() {
    let tag = NbtTag::Compound(NbtCompound::from_iter(vec![
        ("b".to_string(), NbtTag::Byte(-3)),
        ("s".to_string(), NbtTag::Short(-1234)),
        ("i".to_string(), NbtTag::Int(0x1234_5678)),
        ("l".to_string(), NbtTag::Long(-9_000_000_000)),
    ]));
    let mut buf = Vec::new();
    tag.write_into(&mut buf).unwrap();
    assert_eq!(&buf[..3], &[10, 0, 0]);
    let back = NbtTag::read_from(&mut Cursor::new(&buf[..])).unwrap();
    assert_eq!(back, tag);
}

#[test]
fn string_root_layout() {
    let mut buf = Vec::new();
    NbtTag::String("hi".to_string()).write_into(&mut buf).unwrap();
    assert_eq!(buf, vec![8, 0, 0, 0, 2, b'h', b'i']);
}

#[test]
fn truncated_input_is_rejected() {
    let mut buf = Vec::new();
    NbtTag::String("hello".to_string()).write_into(&mut buf).unwrap();
    buf.pop();
    assert_eq!(NbtTag::read_from(&mut Cursor::new(&buf[..])), Err(NbtError::UnexpectedEnd));
    assert_eq!(NbtTag::read_from(&mut Cursor::new(&[99, 0, 0])), Err(NbtError::UnknownTagType));
    assert_eq!(NbtTag::read_from(&mut Cursor::new(&[8, 0, 0, 0, 1, 0xff])), Err(NbtError::InvalidString));
}

#[test]
fn overlong_string_is_rejected() {
    let mut buf = Vec::new();
    let long = "x".repeat(70000);
    assert_eq!(NbtTag::String(long).write_into(&mut buf), Err(NbtError::StringTooLong));
}
