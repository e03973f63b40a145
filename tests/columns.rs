use benzina::{
    ctid, frame_jsonb, unframe_jsonb, Array, ArrayWithNullableItems, DeepClone, Either,
    InvalidArray, Json, Jsonb, JsonbFrameError, ParseIntError, TidError, TidValue,
    TryFromIntError, JSONB_VERSION, U15, U31, U63,
};

#[test]
fn array_round_trip() {
    let a = Array::new([1i32, 2, 3]);
    assert_eq!(a.into_inner(), [1, 2, 3]);
    let b = ArrayWithNullableItems::new([Some(1i64), None]);
    assert_eq!(b.into_inner(), [Some(1), None]);
}

#[test]
fn json_wrappers_hold_their_value() {
    let j = Json::new(5u8);
    assert_eq!(*j.get(), 5);
    assert_eq!(j.into_inner(), 5);
    let jb = Jsonb::from(String::from("x"));
    assert_eq!(jb.get(), "x");
    assert_eq!(jb.into_inner(), "x");
    assert_eq!(Json::from(3u8), Json::new(3u8));
}

#[test]
fn jsonb_frame_and_unframe() {
    let framed = frame_jsonb(b"{}");
    assert_eq!(framed, vec![JSONB_VERSION, b'{', b'}']);
    assert_eq!(unframe_jsonb(&framed), Ok(&b"{}"[..]));
    assert_eq!(unframe_jsonb(&[]), Err(JsonbFrameError::Empty));
    assert_eq!(unframe_jsonb(&[2, b'1']), Err(JsonbFrameError::UnsupportedVersion));
}

#[test]
fn tid_codec() {
    let v = TidValue { block_number: 0x0102_0304, offset_number: 0x0506 };
    let bytes = v.to_bytes();
    assert_eq!(bytes, vec![1, 2, 3, 4, 5, 6]);
    assert_eq!(TidValue::from_bytes(&bytes), Ok(v));
    assert_eq!(TidValue::from_bytes(&[1, 2, 3]), Err(TidError::InvalidBlockNumber));
    assert_eq!(TidValue::from_bytes(&[1, 2, 3, 4, 5]), Err(TidError::InvalidOffsetNumber));
    let max = TidValue { block_number: u32::MAX, offset_number: u16::MAX };
    assert_eq!(TidValue::from_bytes(&max.to_bytes()), Ok(max));
}

#[test]
fn ctid_and_either() {
    let _c = ctid("users");
    let e: Either<u8, bool> = Either::Left(1);
    assert_eq!(e, Either::Left(1));
    assert_ne!(e, Either::Right(true));
}

#[test]
fn deep_clone_copies_borrowed_parts() {
    let s = String::from("k");
    let key = (&s,).deep_clone();
    assert_eq!(key, (String::from("k"),));
    let pair = (&1u64, &s).deep_clone();
    assert_eq!(pair, (1u64, String::from("k")));
}

#[test]
fn error_messages() {
    let out_of_range: TryFromIntError = U15::try_from(40000u16).unwrap_err();
    assert_eq!(out_of_range.message(), "out of range integral type conversion attempted");
    assert_eq!(InvalidArray::UnexpectedLength.message(), "mismatched array length");
    assert_eq!(
        InvalidArray::UnexpectedNullValue.message(),
        "the array contains an unexpected null value"
    );
    let parse = "x".parse::<U15>().unwrap_err();
    assert_eq!(parse.message(), "could not parse integer");
    let range = "40000".parse::<U15>().unwrap_err();
    assert!(matches!(range, ParseIntError::OutOfRange(_)));
    assert_eq!(range.message(), "integer is out of range");
}

#[test]
fn decimal_text_and_parsing() {
    assert_eq!(U15::new(0).unwrap().to_string(), "0");
    assert_eq!(U31::new(1234567).unwrap().to_string(), "1234567");
    assert_eq!(U63::max_value().to_string(), "9223372036854775807");
    assert_eq!(U15::from_decimal("+17").unwrap(), U15::new(17).unwrap());
    assert!(matches!(U15::from_decimal(""), Err(ParseIntError::Parse(_))));
    assert!(matches!(U31::from_decimal("2147483648"), Err(ParseIntError::OutOfRange(_))));
    assert!(matches!(U63::from_decimal("18446744073709551616"), Err(ParseIntError::Parse(_))));
}

#[test]
fn widening_and_saturation() {
    let a = U15::max_value();
    assert_eq!(U31::from(a).get(), 32767);
    assert_eq!(U63::from(U31::max_value()).get(), 2147483647);
    assert_eq!(U31::max_value().saturating_add(U31::new(1).unwrap()), U31::max_value());
    assert_eq!(U63::new(7).unwrap().checked_div(U63::new(2).unwrap()), U63::new(3));
    assert_eq!(U63::max_value().checked_mul(U63::new(2).unwrap()), None);
    assert_eq!(U15::default().get(), 0);
}

#[test]
fn array_from_stored_items() {
    let a = Array::<i32, 3>::from_items(vec![Some(1), Some(2), Some(3)]).unwrap();
    assert_eq!(a.into_inner(), [1, 2, 3]);
    assert!(matches!(
        Array::<i32, 3>::from_items(vec![Some(1), None, Some(3)]),
        Err(InvalidArray::UnexpectedNullValue)
    ));
    assert!(matches!(
        Array::<i32, 3>::from_items(vec![Some(1), Some(2)]),
        Err(InvalidArray::UnexpectedLength)
    ));
    assert!(matches!(
        Array::<i32, 3>::from_items(vec![None, Some(2)]),
        Err(InvalidArray::UnexpectedNullValue)
    ));
    let b = ArrayWithNullableItems::<i32, 2>::from_items(vec![None, Some(2)]).unwrap();
    assert_eq!(b.into_inner(), [None, Some(2)]);
    assert!(matches!(
        ArrayWithNullableItems::<i32, 2>::from_items(vec![None]),
        Err(InvalidArray::UnexpectedLength)
    ));
}
