use cuisiner::{BigEndian, ByteBoolean, ByteOrder, ConstU16, ConstU32, Cuisiner, CuisinerError, LittleEndian, Reserved};

#[test]
fn array() {
    let arr = [0xabcdu32, 0xef01, 0x2345];
    let bytes = arr.to_bytes::<BigEndian>().unwrap();
    let parsed = <[u32; 3]>::from_bytes::<BigEndian>(&bytes).unwrap();
    assert_eq!(arr, parsed);
}

#[test]
fn array_bytes_big_endian() {
    let arr = [0x0102u16, 0x0304];
    assert_eq!(arr.to_bytes::<BigEndian>().unwrap(), vec![1, 2, 3, 4]);
    assert_eq!(arr.to_bytes::<LittleEndian>().unwrap(), vec![2, 1, 4, 3]);
}

#[test]
fn numbers_match_std_byte_order() {
    let x: u32 = 0x12345678;
    assert_eq!(x.to_bytes::<BigEndian>().unwrap(), x.to_be_bytes().to_vec());
    assert_eq!(x.to_bytes::<LittleEndian>().unwrap(), x.to_le_bytes().to_vec());
    let y: i64 = -1234567890123;
    assert_eq!(y.to_bytes::<BigEndian>().unwrap(), y.to_be_bytes().to_vec());
    assert_eq!(y.to_bytes::<LittleEndian>().unwrap(), y.to_le_bytes().to_vec());
    let z: i128 = i128::MIN + 7;
    assert_eq!(z.to_bytes::<LittleEndian>().unwrap(), z.to_le_bytes().to_vec());
    let w: u128 = u128::MAX - 3;
    assert_eq!(w.to_bytes::<BigEndian>().unwrap(), w.to_be_bytes().to_vec());
}

#[test]
fn numbers_round_trip_both_orders() {
    for v in [0i16, 1, -1, i16::MIN, i16::MAX, 1234] {
        let b = v.to_bytes::<BigEndian>().unwrap();
        assert_eq!(i16::from_bytes::<BigEndian>(&b).unwrap(), v);
        let l = v.to_bytes::<LittleEndian>().unwrap();
        assert_eq!(i16::from_bytes::<LittleEndian>(&l).unwrap(), v);
    }
    for v in [0u64, 1, u64::MAX, 0xfedcba0987654321] {
        let b = v.to_bytes::<BigEndian>().unwrap();
        assert_eq!(u64::from_bytes::<BigEndian>(&b).unwrap(), v);
        let l = v.to_bytes::<LittleEndian>().unwrap();
        assert_eq!(u64::from_bytes::<LittleEndian>(&l).unwrap(), v);
    }
    let v: u8 = 0xab;
    assert_eq!(u8::from_bytes::<BigEndian>(&v.to_bytes::<BigEndian>().unwrap()).unwrap(), v);
}

#[test]
fn from_bytes_reads_prefix() {
    assert_eq!(u16::from_bytes::<BigEndian>(&[0x12, 0x34, 0x56]).unwrap(), 0x1234);
    assert_eq!(u16::from_bytes::<LittleEndian>(&[0x12, 0x34, 0x56]).unwrap(), 0x3412);
}

#[test]
fn buffer_too_short_is_size_error() {
    let r = u32::from_bytes::<BigEndian>(&[1, 2]);
    assert_eq!(r, Err(CuisinerError::SizeError { required: 4, found: 2 }));
    let r = <[u16; 3]>::from_bytes::<LittleEndian>(&[1, 2, 3, 4, 5]);
    assert_eq!(r, Err(CuisinerError::SizeError { required: 6, found: 5 }));
    let r = u8::from_bytes::<BigEndian>(&[]);
    assert_eq!(r, Err(CuisinerError::SizeError { required: 1, found: 0 }));
}

#[test]
fn byte_boolean_reads_any_nonzero_as_true() {
    assert_eq!(ByteBoolean::<2>::from_bytes::<BigEndian>(&[0, 0]).unwrap().get(), false);
    assert_eq!(ByteBoolean::<2>::from_bytes::<BigEndian>(&[0, 3]).unwrap().get(), true);
    assert_eq!(ByteBoolean::<3>(true).to_bytes::<LittleEndian>().unwrap(), vec![0xff, 0xff, 0xff]);
    assert_eq!(ByteBoolean::<1>(false).to_bytes::<LittleEndian>().unwrap(), vec![0]);
}

#[test]
fn reserved_accepts_anything_and_writes_zeros() {
    assert!(Reserved::<3>::from_bytes::<BigEndian>(&[9, 8, 7]).is_ok());
    assert_eq!(Reserved::<4>.to_bytes::<BigEndian>().unwrap(), vec![0, 0, 0, 0]);
}

#[test]
fn byte_order_tags() {
    assert_eq!(BigEndian::order(), cuisiner::Endian::Big);
    assert_eq!(LittleEndian::order(), cuisiner::Endian::Little);
}

// The implementations below are written as the code generator emits them for these types.

#[derive(Clone, Debug, PartialEq, Eq)]
struct S2 {
    thing: u64,
}

// Token for token the text that `derive_cuisiner_inner` emits for `S2` (see the test
// `generated_struct_codec_text` in tests/derive.rs).
impl ::cuisiner::Cuisiner for S2 {
    const RAW_SIZE: usize = 0 + <u64 as ::cuisiner::Cuisiner>::RAW_SIZE;
    fn try_from_raw<___Cuisiner_Generic_B: ::cuisiner::ByteOrder>(
        raw: &[u8],
    ) -> ::core::result::Result<Self, ::cuisiner::CuisinerError> {
        let mut at: usize = 0;
        let f0 = {
            let n = <u64 as ::cuisiner::Cuisiner>::RAW_SIZE;
            let v = <u64 as ::cuisiner::Cuisiner>::try_from_raw::<___Cuisiner_Generic_B>(&raw[at..at + n])?;
            at += n;
            v
        };
        let _ = at;
        ::core::result::Result::Ok(Self { thing: f0 })
    }
    fn try_to_raw<___Cuisiner_Generic_B: ::cuisiner::ByteOrder>(
        self,
    ) -> ::core::result::Result<::std::vec::Vec<u8>, ::cuisiner::CuisinerError> {
        let mut out: ::std::vec::Vec<u8> = ::std::vec::Vec::new();
        out.extend(<u64 as ::cuisiner::Cuisiner>::try_to_raw::<___Cuisiner_Generic_B>(self.thing)?);
        ::core::result::Result::Ok(out)
    }
}

#[derive(Clone, Debug, PartialEq, Eq)]
struct MyStruct {
    a: i32,
    b: u64,
    s: S2,
}

impl Cuisiner for MyStruct {
    const RAW_SIZE: usize = 0 + <i32 as Cuisiner>::RAW_SIZE + <u64 as Cuisiner>::RAW_SIZE + <S2 as Cuisiner>::RAW_SIZE;
    fn try_from_raw<B: ByteOrder>(raw: &[u8]) -> Result<Self, CuisinerError> {
        let mut at: usize = 0;
        let f0 = {
            let n = <i32 as Cuisiner>::RAW_SIZE;
            let v = <i32 as Cuisiner>::try_from_raw::<B>(&raw[at..at + n])?;
            at += n;
            v
        };
        let f1 = {
            let n = <u64 as Cuisiner>::RAW_SIZE;
            let v = <u64 as Cuisiner>::try_from_raw::<B>(&raw[at..at + n])?;
            at += n;
            v
        };
        let f2 = {
            let n = <S2 as Cuisiner>::RAW_SIZE;
            let v = <S2 as Cuisiner>::try_from_raw::<B>(&raw[at..at + n])?;
            at += n;
            v
        };
        let _ = at;
        Ok(Self { a: f0, b: f1, s: f2 })
    }
    fn try_to_raw<B: ByteOrder>(self) -> Result<Vec<u8>, CuisinerError> {
        let mut out: Vec<u8> = Vec::new();
        out.extend(<i32 as Cuisiner>::try_to_raw::<B>(self.a)?);
        out.extend(<u64 as Cuisiner>::try_to_raw::<B>(self.b)?);
        out.extend(<S2 as Cuisiner>::try_to_raw::<B>(self.s)?);
        Ok(out)
    }
}

#[test]
fn deserialse() {
    let s = MyStruct { a: -12, b: 1234, s: S2 { thing: 4321 } };
    let b = s.clone().to_bytes::<BigEndian>().unwrap();
    let s2 = MyStruct::from_bytes::<BigEndian>(&b).unwrap();
    assert_eq!(s, s2);
}

#[test]
fn struct_round_trip_both_orders() {
    let s = MyStruct { a: -12, b: 1234, s: S2 { thing: 4321 } };
    let be = s.clone().to_bytes::<BigEndian>().unwrap();
    assert_eq!(be.len(), 20);
    assert_eq!(&be[0..4], &(-12i32).to_be_bytes());
    assert_eq!(MyStruct::from_bytes::<BigEndian>(&be).unwrap(), s);
    let le = s.clone().to_bytes::<LittleEndian>().unwrap();
    assert_eq!(&le[4..12], &1234u64.to_le_bytes());
    assert_eq!(MyStruct::from_bytes::<LittleEndian>(&le).unwrap(), s);
}

#[test]
fn struct_buffer_too_short() {
    let r = MyStruct::from_bytes::<BigEndian>(&[0u8; 19]);
    assert_eq!(r, Err(CuisinerError::SizeError { required: 20, found: 19 }));
}

#[derive(Debug, PartialEq, Eq)]
struct Generic<T: Cuisiner> {
    value: u32,
    nested: T,
}

impl<T: Cuisiner> Cuisiner for Generic<T> {
    const RAW_SIZE: usize = 0 + <u32 as Cuisiner>::RAW_SIZE + <T as Cuisiner>::RAW_SIZE;
    fn try_from_raw<B: ByteOrder>(raw: &[u8]) -> Result<Self, CuisinerError> {
        let mut at: usize = 0;
        let f0 = {
            let n = <u32 as Cuisiner>::RAW_SIZE;
            let v = <u32 as Cuisiner>::try_from_raw::<B>(&raw[at..at + n])?;
            at += n;
            v
        };
        let f1 = {
            let n = <T as Cuisiner>::RAW_SIZE;
            let v = <T as Cuisiner>::try_from_raw::<B>(&raw[at..at + n])?;
            at += n;
            v
        };
        let _ = at;
        Ok(Self { value: f0, nested: f1 })
    }
    fn try_to_raw<B: ByteOrder>(self) -> Result<Vec<u8>, CuisinerError> {
        let mut out: Vec<u8> = Vec::new();
        out.extend(<u32 as Cuisiner>::try_to_raw::<B>(self.value)?);
        out.extend(<T as Cuisiner>::try_to_raw::<B>(self.nested)?);
        Ok(out)
    }
}

#[test]
fn generic_small() {
    let bytes = Generic { value: 1234, nested: 0xffu8 }.to_bytes::<BigEndian>().unwrap();
    assert_eq!(Generic { value: 1234, nested: 0xffu8 }, Generic::<u8>::from_bytes::<BigEndian>(&bytes).unwrap());
}

#[test]
fn generic_big() {
    let bytes = Generic { value: 1234, nested: 0xfedcba0987654321u64 }.to_bytes::<BigEndian>().unwrap();
    assert_eq!(
        Generic { value: 1234, nested: 0xfedcba0987654321u64 },
        Generic::<u64>::from_bytes::<BigEndian>(&bytes).unwrap()
    );
}

#[derive(Debug, PartialEq, Eq)]
enum MyEnum {
    First,
    Second,
    Third,
}

impl Cuisiner for MyEnum {
    const RAW_SIZE: usize = <u32 as Cuisiner>::RAW_SIZE;
    fn try_from_raw<B: ByteOrder>(raw: &[u8]) -> Result<Self, CuisinerError> {
        match <u32 as Cuisiner>::try_from_raw::<B>(raw)? {
            1 => Ok(Self::First),
            2 => Ok(Self::Second),
            3 => Ok(Self::Third),
            n => Err(CuisinerError::Validation(format!("invalid discriminant for MyEnum: {}", n))),
        }
    }
    fn try_to_raw<B: ByteOrder>(self) -> Result<Vec<u8>, CuisinerError> {
        <u32 as Cuisiner>::try_to_raw::<B>(match self {
            Self::First => 1,
            Self::Second => 2,
            Self::Third => 3,
        })
    }
}

#[test]
fn enum_round_trip_and_invalid_discriminant() {
    let b = MyEnum::First.to_bytes::<BigEndian>().unwrap();
    assert_eq!(b, vec![0, 0, 0, 1]);
    assert_eq!(MyEnum::from_bytes::<BigEndian>(&b).unwrap(), MyEnum::First);
    let l = MyEnum::Third.to_bytes::<LittleEndian>().unwrap();
    assert_eq!(MyEnum::from_bytes::<LittleEndian>(&l).unwrap(), MyEnum::Third);
    match MyEnum::from_bytes::<BigEndian>(&[0, 0, 0, 4]) {
        Err(CuisinerError::Validation(msg)) => assert!(msg.contains('4')),
        other => panic!("unexpected {:?}", other),
    }
}

#[test]
fn constant_field_checks_its_value() {
    let b = ConstU32::<0x53514c69>.to_bytes::<BigEndian>().unwrap();
    assert_eq!(b, vec![0x53, 0x51, 0x4c, 0x69]);
    assert_eq!(ConstU32::<0x53514c69>::from_bytes::<BigEndian>(&b), Ok(ConstU32::<0x53514c69>));
    assert_eq!(
        ConstU16::<7>::from_bytes::<LittleEndian>(&[4, 0]),
        Err(CuisinerError::Validation("expected 7, found 4".to_string()))
    );
}
