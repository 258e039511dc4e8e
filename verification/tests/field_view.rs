use binary_layout::field::{fits, Field, FieldCopyAccess, FieldReadExt, FieldWriteExt};
use binary_layout::fields::{
    ArrayField, BigEndian, Endianness, IntField, LittleEndian, NonZeroField, TailField,
};
use binary_layout::byte_order::ByteOrder;
use binary_layout::nonzero::{NonZero, NonZeroIsZeroError};
use binary_layout::primitive::{read_int, write_int, PrimitiveInt};
use binary_layout::view::FieldView;

#[test]
fn little_endian_u16_bytes() {
    let mut view = FieldView::<Vec<u8>, IntField<u16, LittleEndian, 1>>::new(vec![0u8; 4]);
    view.write(0x1234);
    assert_eq!(view.into_storage(), vec![0, 0x34, 0x12, 0]);
}

#[test]
fn big_endian_u16_bytes() {
    let mut view = FieldView::<Vec<u8>, IntField<u16, BigEndian, 1>>::new(vec![0u8; 4]);
    view.write(0x1234);
    assert_eq!(view.into_storage(), vec![0, 0x12, 0x34, 0]);
}

#[test]
fn little_endian_u32_bytes() {
    let mut buf = [0u8; 6];
    FieldView::<&mut [u8], IntField<u32, LittleEndian, 2>>::new(&mut buf[..]).write(0xDEADBEEF);
    assert_eq!(buf, [0, 0, 0xEF, 0xBE, 0xAD, 0xDE]);
}

#[test]
fn big_endian_u64_bytes() {
    let mut buf = [0u8; 8];
    FieldView::<&mut [u8], IntField<u64, BigEndian, 0>>::new(&mut buf[..])
        .write(0x0102030405060708);
    assert_eq!(buf, [1, 2, 3, 4, 5, 6, 7, 8]);
}

#[test]
fn read_decodes_in_the_declared_order() {
    let buf: [u8; 5] = [0xAA, 0x01, 0x02, 0x03, 0x04];
    let le = FieldView::<&[u8], IntField<u32, LittleEndian, 1>>::new(&buf[..]).read();
    let be = FieldView::<&[u8], IntField<u32, BigEndian, 1>>::new(&buf[..]).read();
    assert_eq!(le, 0x04030201);
    assert_eq!(be, 0x01020304);
    let one = FieldView::<&[u8], IntField<u8, BigEndian, 0>>::new(&buf[..]).read();
    assert_eq!(one, 0xAA);
}

#[test]
fn signed_values_use_twos_complement() {
    let mut buf = [0u8; 4];
    FieldView::<&mut [u8], IntField<i16, LittleEndian, 0>>::new(&mut buf[..]).write(-2);
    FieldView::<&mut [u8], IntField<i16, BigEndian, 2>>::new(&mut buf[..]).write(-2);
    assert_eq!(buf, [0xFE, 0xFF, 0xFF, 0xFE]);
    let v = FieldView::<&[u8], IntField<i8, LittleEndian, 1>>::new(&buf[..]).read();
    assert_eq!(v, -1);
    let w = FieldView::<&[u8], IntField<i32, BigEndian, 0>>::new(&buf[..]).read();
    assert_eq!(w, i32::from_be_bytes([0xFE, 0xFF, 0xFF, 0xFE]));
}

#[test]
fn round_trip_unsigned() {
    for v in [0u8, 1, 0x7F, 0x80, u8::MAX] {
        let mut view = FieldView::<Vec<u8>, IntField<u8, LittleEndian, 3>>::new(vec![9u8; 5]);
        view.write(v);
        assert_eq!(view.read(), v);
    }
    for v in [0u16, 1, 0x1234, 0x8000, u16::MAX] {
        let mut view = FieldView::<Vec<u8>, IntField<u16, BigEndian, 3>>::new(vec![9u8; 5]);
        view.write(v);
        assert_eq!(view.read(), v);
    }
    for v in [0u32, 1, 0x12345678, 0x80000000, u32::MAX] {
        let mut view = FieldView::<Vec<u8>, IntField<u32, LittleEndian, 1>>::new(vec![9u8; 5]);
        view.write(v);
        assert_eq!(view.read(), v);
    }
    for v in [0u64, 1, 0x123456789ABCDEF0, 1 << 63, u64::MAX] {
        let mut view = FieldView::<Vec<u8>, IntField<u64, BigEndian, 0>>::new(vec![9u8; 8]);
        view.write(v);
        assert_eq!(view.read(), v);
        assert_eq!(view.into_storage(), v.to_be_bytes().to_vec());
    }
}

#[test]
fn round_trip_signed() {
    for v in [i8::MIN, -1, 0, 1, i8::MAX] {
        let mut view = FieldView::<Vec<u8>, IntField<i8, BigEndian, 0>>::new(vec![9u8; 1]);
        view.write(v);
        assert_eq!(view.read(), v);
    }
    for v in [i16::MIN, -1, 0, 1, 0x1234, i16::MAX] {
        let mut view = FieldView::<Vec<u8>, IntField<i16, LittleEndian, 0>>::new(vec![9u8; 2]);
        view.write(v);
        assert_eq!(view.read(), v);
        assert_eq!(view.into_storage(), v.to_le_bytes().to_vec());
    }
    for v in [i32::MIN, -1, 0, 1, 0x12345678, i32::MAX] {
        let mut view = FieldView::<Vec<u8>, IntField<i32, BigEndian, 0>>::new(vec![9u8; 4]);
        view.write(v);
        assert_eq!(view.read(), v);
        assert_eq!(view.into_storage(), v.to_be_bytes().to_vec());
    }
    for v in [i64::MIN, -1, 0, 1, 0x123456789ABCDEF0, i64::MAX] {
        let mut view = FieldView::<Vec<u8>, IntField<i64, LittleEndian, 0>>::new(vec![9u8; 8]);
        view.write(v);
        assert_eq!(view.read(), v);
        assert_eq!(view.into_storage(), v.to_le_bytes().to_vec());
    }
}

#[test]
fn write_leaves_other_bytes_alone() {
    let mut buf = [0xA5u8; 16];
    FieldView::<&mut [u8], IntField<u32, BigEndian, 5>>::new(&mut buf[..]).write(0x01020304);
    for (i, b) in buf.iter().enumerate() {
        if (5..9).contains(&i) {
            assert_eq!(*b, (i - 4) as u8);
        } else {
            assert_eq!(*b, 0xA5);
        }
    }
}

#[test]
fn try_write_leaves_other_bytes_alone() {
    let mut buf = [0xA5u8; 8];
    let v = NonZero::new(0x0102u16).unwrap();
    let r = FieldView::<&mut [u8], NonZeroField<u16, LittleEndian, 3>>::new(&mut buf[..])
        .try_write(v);
    assert!(r.is_ok());
    assert_eq!(buf, [0xA5, 0xA5, 0xA5, 0x02, 0x01, 0xA5, 0xA5, 0xA5]);
}

#[test]
fn non_zero_new_rejects_zero() {
    assert!(NonZero::new(0u8).is_none());
    assert!(NonZero::new(0i32).is_none());
    assert!(NonZero::new(0u64).is_none());
    assert_eq!(NonZero::new(7u8).unwrap().get(), 7);
    assert_eq!(NonZero::new(-7i64).unwrap().get(), -7);
    assert_eq!(NonZero::new(u64::MAX).unwrap().get(), u64::MAX);
}

#[test]
fn try_read_rejects_zero() {
    let buf: [u8; 4] = [1, 0, 0, 1];
    let r = FieldView::<&[u8], NonZeroField<u16, BigEndian, 1>>::new(&buf[..]).try_read();
    assert!(matches!(r, Err(NonZeroIsZeroError { offset: 1 })));
    let r8 = FieldView::<&[u8], NonZeroField<i8, LittleEndian, 2>>::new(&buf[..]).try_read();
    assert_eq!(r8.map(|v| v.get()), Err(NonZeroIsZeroError { offset: 2 }));
    // the buffer is as it was
    assert_eq!(buf, [1, 0, 0, 1]);
}

#[test]
fn try_read_accepts_what_is_not_zero() {
    let buf: [u8; 4] = [0, 0, 1, 0];
    let be = FieldView::<&[u8], NonZeroField<u16, BigEndian, 1>>::new(&buf[..]).try_read();
    assert_eq!(be.map(|v| v.get()), Ok(1));
    let le = FieldView::<&[u8], NonZeroField<u16, LittleEndian, 1>>::new(&buf[..]).try_read();
    assert_eq!(le.map(|v| v.get()), Ok(0x0100));
    let whole = FieldView::<&[u8], NonZeroField<i32, BigEndian, 0>>::new(&buf[..]).try_read();
    assert_eq!(whole.map(|v| v.get()), Ok(0x100));
}

#[test]
fn round_trip_non_zero() {
    for raw in [1i16, -1, i16::MIN, i16::MAX, 0x0100] {
        let v = NonZero::new(raw).unwrap();
        let mut view = FieldView::<Vec<u8>, NonZeroField<i16, BigEndian, 1>>::new(vec![0u8; 3]);
        assert!(view.try_write(v).is_ok());
        assert_eq!(view.try_read().map(|r| r.get()), Ok(raw));
        assert_eq!(&view.into_storage()[1..], &raw.to_be_bytes()[..]);
    }
    for raw in [1u64, u64::MAX, 0x0100_0000_0000_0000] {
        let v = NonZero::new(raw).unwrap();
        let mut view = FieldView::<Vec<u8>, NonZeroField<u64, LittleEndian, 0>>::new(vec![0u8; 8]);
        assert!(view.try_write(v).is_ok());
        assert_eq!(view.try_read().map(|r| r.get()), Ok(raw));
    }
}

#[test]
fn error_message() {
    assert_eq!(
        NonZeroIsZeroError { offset: 0 }.message(),
        "tried to read a zero value from a field that must not be zero"
    );
}

#[test]
fn tail_runs_to_the_end() {
    let buf: Vec<u8> = (0u8..10).collect();
    let view = FieldView::<&[u8], TailField<4>>::new(&buf[..]);
    assert_eq!(view.tail().len(), 10 - 4);
    assert_eq!(view.tail(), &[4, 5, 6, 7, 8, 9]);
    let empty = FieldView::<&[u8], TailField<10>>::new(&buf[..]);
    assert_eq!(empty.tail().len(), 0);
}

#[test]
fn tail_mut_writes_are_seen_by_tail() {
    let mut view = FieldView::<Vec<u8>, TailField<3>>::new(vec![0xA5u8; 8]);
    view.tail_mut()[..3].copy_from_slice(&[1, 2, 3]);
    assert_eq!(view.tail(), &[1, 2, 3, 0xA5, 0xA5]);
    assert_eq!(view.into_storage(), vec![0xA5, 0xA5, 0xA5, 1, 2, 3, 0xA5, 0xA5]);
}

#[test]
fn every_storage_kind_reads() {
    let owned: Vec<u8> = vec![0x11, 0x22, 0x33];
    let mut exclusive = [0x11u8, 0x22, 0x33];
    let shared: &[u8] = &[0x11, 0x22, 0x33];
    assert_eq!(FieldView::<Vec<u8>, IntField<u16, BigEndian, 1>>::new(owned).read(), 0x2233);
    assert_eq!(FieldView::<&[u8], IntField<u16, BigEndian, 1>>::new(shared).read(), 0x2233);
    assert_eq!(
        FieldView::<&mut [u8], IntField<u16, BigEndian, 1>>::new(&mut exclusive[..]).read(),
        0x2233
    );
}

#[test]
fn new_keeps_the_storage() {
    let view = FieldView::<Vec<u8>, IntField<u8, LittleEndian, 7>>::new(vec![1, 2, 3]);
    assert_eq!(view.into_storage(), vec![1, 2, 3]);
}

#[test]
fn field_functions_work_without_a_view() {
    let mut buf = [0u8; 4];
    <IntField<u16, BigEndian, 2> as FieldWriteExt>::write(&mut buf[..], 0xABCD);
    assert_eq!(buf, [0, 0, 0xAB, 0xCD]);
    assert_eq!(<IntField<u16, LittleEndian, 2> as FieldReadExt>::read(&buf[..]), 0xCDAB);
    let r = <NonZeroField<u16, BigEndian, 0> as FieldCopyAccess>::try_read(&buf[..]);
    assert!(r.is_err());
    let w = <NonZeroField<u8, BigEndian, 0> as FieldCopyAccess>::try_write(
        &mut buf[..],
        NonZero::new(5u8).unwrap(),
    );
    assert!(w.is_ok());
    assert_eq!(buf, [5, 0, 0xAB, 0xCD]);
}

#[test]
fn array_field_reads_its_bytes() {
    let buf: [u8; 6] = [9, 1, 2, 3, 4, 9];
    let view = FieldView::<&[u8], ArrayField<4, 1>>::new(&buf[..]);
    assert_eq!(view.read(), [1, 2, 3, 4]);
    let none = FieldView::<&[u8], ArrayField<0, 6>>::new(&buf[..]);
    assert_eq!(none.read(), [0u8; 0]);
}

#[test]
fn array_field_writes_only_its_bytes() {
    let mut view = FieldView::<Vec<u8>, ArrayField<3, 2>>::new(vec![0xA5u8; 7]);
    view.write([1, 2, 3]);
    assert_eq!(view.read(), [1, 2, 3]);
    assert_eq!(view.into_storage(), vec![0xA5, 0xA5, 1, 2, 3, 0xA5, 0xA5]);
}

#[test]
fn fits_tells_whether_the_field_is_there() {
    let buf = [0u8; 6];
    assert!(fits::<IntField<u32, BigEndian, 2>>(&buf));
    assert!(!fits::<IntField<u32, BigEndian, 3>>(&buf));
    assert!(!fits::<IntField<u8, BigEndian, { usize::MAX }>>(&buf));
    assert!(fits::<ArrayField<6, 0>>(&buf));
    assert!(!fits::<ArrayField<7, 0>>(&buf));
    assert!(fits::<NonZeroField<u16, LittleEndian, 4>>(&buf));
    assert!(!fits::<NonZeroField<u16, LittleEndian, 5>>(&buf));
    assert!(fits::<TailField<6>>(&buf));
    assert!(!fits::<TailField<7>>(&buf));
    assert!(FieldView::<&[u8], IntField<u64, LittleEndian, 0>>::new(&buf[..2]).fits() == false);
    assert!(FieldView::<&[u8], IntField<u16, LittleEndian, 0>>::new(&buf[..2]).fits());
}

#[test]
fn field_metadata() {
    assert_eq!(<IntField<u32, BigEndian, 5> as Field>::field_offset(), 5);
    assert_eq!(<IntField<u32, BigEndian, 5> as Field>::field_size(), Some(4));
    assert_eq!(<IntField<i64, LittleEndian, 0> as Field>::field_size(), Some(8));
    assert_eq!(<NonZeroField<i16, BigEndian, 9> as Field>::field_offset(), 9);
    assert_eq!(<NonZeroField<i16, BigEndian, 9> as Field>::field_size(), Some(2));
    assert_eq!(<ArrayField<16, 2> as Field>::field_size(), Some(16));
    assert_eq!(<TailField<22> as Field>::field_offset(), 22);
    assert_eq!(<TailField<22> as Field>::field_size(), None);
    assert_eq!(LittleEndian::byte_order(), ByteOrder::Little);
    assert_eq!(BigEndian::byte_order(), ByteOrder::Big);
}

#[test]
fn a_layout_of_several_fields() {
    // field_one: u16 at 0, another_field: [u8; 16] at 2, something_else: u32 at 18, tail at 22
    let mut storage = vec![0u8; 30];
    {
        let data: &mut [u8] = &mut storage[..];
        FieldView::<&mut [u8], IntField<u16, LittleEndian, 0>>::new(&mut data[..]).write(0x0102);
        FieldView::<&mut [u8], ArrayField<16, 2>>::new(&mut data[..]).write([7u8; 16]);
        FieldView::<&mut [u8], IntField<u32, LittleEndian, 18>>::new(&mut data[..]).write(10);
        let mut tail = FieldView::<&mut [u8], TailField<22>>::new(&mut data[..]);
        tail.tail_mut()[..5].copy_from_slice(&[1, 2, 3, 4, 5]);
    }
    let mut expected = vec![0x02u8, 0x01];
    expected.extend_from_slice(&[7u8; 16]);
    expected.extend_from_slice(&[10, 0, 0, 0]);
    expected.extend_from_slice(&[1, 2, 3, 4, 5, 0, 0, 0]);
    assert_eq!(storage, expected);
    assert_eq!(FieldView::<&[u8], IntField<u16, LittleEndian, 0>>::new(&storage[..]).read(), 0x0102);
    assert_eq!(FieldView::<&[u8], IntField<u32, LittleEndian, 18>>::new(&storage[..]).read(), 10);
}

#[test]
fn round_trip_128_bits() {
    for v in [0u128, 1, 0x0102030405060708090A0B0C0D0E0F10, 1 << 127, u128::MAX] {
        let mut view = FieldView::<Vec<u8>, IntField<u128, BigEndian, 1>>::new(vec![9u8; 17]);
        view.write(v);
        assert_eq!(view.read(), v);
        assert_eq!(&view.into_storage()[1..], &v.to_be_bytes()[..]);
    }
    for v in [i128::MIN, i128::MIN + 1, -1, 0, 1, i128::MAX] {
        let mut view = FieldView::<Vec<u8>, IntField<i128, LittleEndian, 0>>::new(vec![9u8; 16]);
        view.write(v);
        assert_eq!(view.read(), v);
        assert_eq!(view.into_storage(), v.to_le_bytes().to_vec());
    }
    let min = NonZero::new(i128::MIN).unwrap();
    let mut view = FieldView::<Vec<u8>, NonZeroField<i128, BigEndian, 0>>::new(vec![0u8; 16]);
    assert_eq!(view.try_read().map(|v| v.get()), Err(NonZeroIsZeroError { offset: 0 }));
    assert!(view.try_write(min).is_ok());
    assert_eq!(view.try_read().map(|v| v.get()), Ok(i128::MIN));
}

#[test]
fn raw_values() {
    assert_eq!((-1i8).to_raw(), 0xFF);
    assert_eq!(i8::MIN.to_raw(), 0x80);
    assert_eq!(i8::of_raw(0x80), i8::MIN);
    assert_eq!(i8::of_raw(0x7F), i8::MAX);
    assert_eq!((-2i16).to_raw(), 0xFFFE);
    assert_eq!(i32::of_raw(0xFFFF_FFFF), -1);
    assert_eq!(i64::MIN.to_raw(), 1 << 63);
    assert_eq!(i64::of_raw(u64::MAX as u128), -1);
    assert_eq!((-1i128).to_raw(), u128::MAX);
    assert_eq!(i128::MIN.to_raw(), 1 << 127);
    assert_eq!(i128::of_raw(u128::MAX), -1);
    assert_eq!(i128::of_raw(1 << 127), i128::MIN);
    assert_eq!(0xABu8.to_raw(), 0xAB);
    assert_eq!(u16::of_raw(0xABCD), 0xABCD);
    assert_eq!(u32::MAX.to_raw(), 0xFFFF_FFFF);
    assert_eq!(u64::of_raw(5), 5);
    assert_eq!(u128::of_raw(u128::MAX), u128::MAX);
    assert_eq!(<u8 as PrimitiveInt>::byte_width(), 1);
    assert_eq!(<i16 as PrimitiveInt>::byte_width(), 2);
    assert_eq!(<u32 as PrimitiveInt>::byte_width(), 4);
    assert_eq!(<i64 as PrimitiveInt>::byte_width(), 8);
    assert_eq!(<u128 as PrimitiveInt>::byte_width(), 16);
}

#[test]
fn order_chosen_at_run_time() {
    let mut buf = [0xA5u8; 6];
    write_int(&mut buf, 1, ByteOrder::Big, -2i32);
    assert_eq!(buf, [0xA5, 0xFF, 0xFF, 0xFF, 0xFE, 0xA5]);
    assert_eq!(read_int::<i32>(&buf, 1, ByteOrder::Big), -2);
    assert_eq!(read_int::<u16>(&buf, 3, ByteOrder::Little), 0xFEFF);
    write_int(&mut buf, 4, ByteOrder::Little, 0x0102u16);
    assert_eq!(buf, [0xA5, 0xFF, 0xFF, 0xFF, 0x02, 0x01]);
}
