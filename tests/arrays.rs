use fastanvil_core::borrow::{ByteArray, IntArray, LongArray};
use fastanvil_core::error::{Error, Tag};

#[test]
fn int_array_reads_big_endian() {
    let data = [0u8, 0, 0, 1, 0xff, 0xff, 0xff, 0xfe];
    let arr = IntArray::new(&data);
    let mut it = arr.iter();
    assert_eq!(it.next(), Some(1));
    assert_eq!(it.next(), Some(-2));
    assert_eq!(it.next(), None);
}

#[test]
fn short_input_ends_iteration_quietly() {
    // three ints declared, nine bytes present
    let data = [0u8, 0, 0, 7, 0, 0, 1, 0, 0xaa];
    let arr = IntArray::new(&data);
    let mut it = arr.iter();
    let mut got = Vec::new();
    while let Some(v) = it.next() {
        got.push(v);
    }
    assert_eq!(got, vec![7, 256]);
    assert_eq!(it.next(), None);
}

#[test]
fn each_iteration_restarts() {
    let data = [1u8, 2, 3, 4, 5, 6, 7, 8, 9, 10, 11, 12, 13, 14, 15, 16];
    let arr = LongArray::new(&data);
    let mut a = arr.iter();
    assert_eq!(a.next(), Some(0x0102030405060708));
    let mut b = arr.iter();
    assert_eq!(b.next(), Some(0x0102030405060708));
    assert_eq!(a.next(), Some(0x090a0b0c0d0e0f10));
    assert_eq!(a.next(), None);
}

#[test]
fn long_array_too_short_yields_nothing() {
    let data = [0xffu8; 7];
    let arr = LongArray::new(&data);
    assert_eq!(arr.iter().next(), None);
}

#[test]
fn byte_array_is_signed() {
    let data = [0x7fu8, 0x80, 0xff];
    let arr = ByteArray::new(&data);
    let mut it = arr.iter();
    assert_eq!(it.next(), Some(127));
    assert_eq!(it.next(), Some(-128));
    assert_eq!(it.next(), Some(-1));
    assert_eq!(it.next(), None);
}

#[test]
fn tags_map_to_bytes_and_back() {
    for b in 0u8..=12 {
        let t = Tag::from_byte(b).ok().unwrap();
        assert_eq!(t.to_byte(), b);
    }
    assert_eq!(Tag::from_byte(8).ok(), Some(Tag::String));
    assert!(matches!(Tag::from_byte(13), Err(Error::InvalidTag(13))));
}

#[test]
fn error_constructors() {
    assert!(matches!(Error::invalid_tag(99), Error::InvalidTag(99)));
    assert!(matches!(Error::invalid_size(-1), Error::InvalidSize(-1)));
    assert!(matches!(Error::no_root_compound(), Error::NoRootCompound));
    assert!(matches!(Error::unexpected_eof(), Error::UnexpectedEof));
    assert!(matches!(Error::bespoke("x"), Error::Other("x")));
    match Error::nonunicode_string(&[0xc3, 0x28]) {
        Error::NonUnicodeString(v) => assert_eq!(v, vec![0xc3, 0x28]),
        _ => panic!("wrong kind"),
    }
    match Error::custom("bad".to_string()) {
        Error::Custom(s) => assert_eq!(s, "bad"),
        _ => panic!("wrong kind"),
    }
    let e = Error::io(std::io::Error::new(std::io::ErrorKind::Other, "disk"));
    let copy = e.clone();
    assert!(matches!(copy, Error::IoError(_)));
}
