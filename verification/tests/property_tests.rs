use graph_value::object::{Object, Primitives};
use graph_value::parse::{parse_property, parse_proerty_as_string};
use graph_value::property::objects_to_list_property;
use graph_value::prop_codec::long_to_data_type;
use graph_value::property::{DataType, Property};

#[test]
fn test_parse_proerty_as_string() {
    let p = Property::String("aaabbb".to_owned());
    let res = parse_proerty_as_string(p.to_bytes(), &DataType::String).unwrap();
    assert_eq!(res, "\"aaabbb\"");
    let p = Property::Date("2000-01-01".to_owned());
    let res = parse_proerty_as_string(p.to_bytes(), &DataType::String).unwrap();
    assert_eq!(res, "\"2000-01-01\"");
    let p = Property::Long(123456);
    let res = parse_proerty_as_string(p.to_bytes(), &DataType::Long).unwrap();
    assert_eq!(res, "123456");
    let p = Property::Int(123456);
    let res = parse_proerty_as_string(p.to_bytes(), &DataType::Int).unwrap();
    assert_eq!(res, "123456");
    let p = Property::Short(123);
    let res = parse_proerty_as_string(p.to_bytes(), &DataType::Short).unwrap();
    assert_eq!(res, "123");
    let p = Property::Char('x' as u8);
    let res = parse_proerty_as_string(p.to_bytes(), &DataType::Char).unwrap();
    assert_eq!(res, "'x'");
    let p = Property::Bool(false);
    let res = parse_proerty_as_string(p.to_bytes(), &DataType::Bool).unwrap();
    assert_eq!(res, "False");
    let p = Property::Bool(true);
    let res = parse_proerty_as_string(p.to_bytes(), &DataType::Bool).unwrap();
    assert_eq!(res, "True");
}

#[test]
fn test_property_transform() {
    let val = 123;
    let _properties = vec![
        Property::Int(val),
        Property::Double((val as f64).to_bits()),
        Property::Float((val as f32).to_bits()),
        Property::Short(val as i16),
        Property::Long(val as i64),
        Property::Char(val as u8),
    ];
    let _target = vec![
        (DataType::Float, Property::Float((val as f32).to_bits())),
        (DataType::Double, Property::Double((val as f64).to_bits())),
        (DataType::Int, Property::Int(val)),
        (DataType::Long, Property::Long(val as i64)),
        (DataType::Short, Property::Short(val as i16)),
        (DataType::Char, Property::Char(val as u8)),
        (DataType::Bool, Property::Bool(val != 0)),
    ];

    let p = Property::String("aaaa".to_owned());
    let t = DataType::Int;
    assert!(p.transform(&t).is_err());
}

#[test]
fn test_property_ord() {
    // cmp numbers
    let p1 = Property::Short(10);
    let p2 = Property::Long(10);
    assert!(p1 == p2);

    let p1 = Property::Short(10);
    let p2 = Property::Long(5);
    assert!(p1 > p2);

    let p1 = Property::Float((10.0f32).to_bits());
    let p2 = Property::Float((10.0f32).to_bits());
    assert!(p1 == p2);

    let p1 = Property::Float((10.0f32).to_bits());
    let p2 = Property::Short(5);
    assert!(p1 > p2);

    let p1 = Property::Double((5.0f64).to_bits());
    let p2 = Property::Long(10);
    assert!(p1 < p2);

    let p1 = Property::Float((10.0f32).to_bits());
    let p2 = Property::Double((20.0f64).to_bits());
    assert!(p1 < p2);

    // cmp objects
    let p1 = Property::String("hello".to_owned());
    let p2 = Property::String("hello".to_owned());
    assert!(p1 == p2);

    let p1 = Property::String("hello".to_owned());
    let p2 = Property::Bytes("hello".as_bytes().to_vec());
    assert!(!(p1 == p2));

    // cmp list
    let p1 = Property::ListInt(vec![1, 2, 3, 4]);
    let p2 = Property::ListInt(vec![1, 2, 3, 4]);
    assert!(p1 == p2);

    let p1 = Property::ListInt(vec![1, 2, 3, 4]);
    let p2 = Property::ListLong(vec![1, 2, 3, 4]);
    assert!(p1 == p2);

    let p1 = Property::ListLong(vec![1, 2, 3, 4]);
    let p2 = Property::ListInt(vec![1, 2, 3, 5]);
    assert!(p1 < p2);

    let p1 = Property::ListInt(vec![1, 2, 3, 4]);
    let p2 = Property::ListFloat(vec![
        (1.0f32).to_bits(),
        (2.0f32).to_bits(),
        (3.0f32).to_bits(),
        (4.0f32).to_bits(),
    ]);
    assert!(p1 == p2);

    let p1 = Property::ListFloat(vec![
        (1.0f32).to_bits(),
        (2.0f32).to_bits(),
        (3.0f32).to_bits(),
        (4.0f32).to_bits(),
    ]);
    let p2 = Property::ListDouble(vec![
        (1.0f64).to_bits(),
        (2.0f64).to_bits(),
        (3.0f64).to_bits(),
        (4.0f64).to_bits(),
    ]);
    assert!(p1 == p2);

    let p1 = Property::ListInt(vec![1, 2, 3, 4]);
    let p2 = Property::ListDouble(vec![
        (0.5f64).to_bits(),
        (2.0f64).to_bits(),
        (3.0f64).to_bits(),
        (4.0f64).to_bits(),
    ]);
    assert!(p1 > p2);
}

#[test]
fn test_property_contains() {
    let p1 = Property::String("hello world".to_owned());
    let p2 = Property::String("world".to_owned());
    assert!(p1.contains(&p2).unwrap());

    let p1 = Property::ListString(vec!["hello world".to_owned()]);
    let p2 = Property::String("hello world".to_owned());
    assert!(p1.contains(&p2).unwrap());

    let p1 = Property::ListInt(vec![1, 2, 3, 4]);
    let p2 = Property::Int(1);
    assert!(p1.contains(&p2).unwrap());

    let p1 = Property::ListBytes(vec![vec![0_u8, 1_u8]]);
    let p2 = Property::Bytes(vec![0_u8, 1_u8]);
    assert!(p1.contains(&p2).unwrap());

    let p1 = Property::ListFloat(vec![(1.0f32).to_bits(), (2.0f32).to_bits()]);
    let p2 = Property::Float((1.0f32).to_bits());
    assert!(p1.contains(&p2).unwrap());

    // A receiver that is neither a list nor a string is an error, never a
    // silent false.
    assert!(Property::Bool(true).contains(&Property::Int(1)).is_err());
    assert!(Property::Int(3).contains(&Property::Int(3)).is_err());
    assert!(Property::Bytes(vec![1]).contains(&Property::Bytes(vec![1])).is_err());
    assert!(Property::Date("2000-01-01".to_owned())
        .contains(&Property::String("2000".to_owned()))
        .is_err());
}

#[test]
fn transform_range_checks() {
    // A value beyond the unsigned 8-bit range cannot become a Char.
    assert!(Property::Long(300).transform(&DataType::Char).is_err());
    // Widening an int to a float succeeds and produces that float's bytes.
    assert_eq!(
        Property::Int(123).transform(&DataType::Float).unwrap(),
        Property::Float((123.0f32).to_bits()).to_vec()
    );
    assert!(Property::Short(200).transform(&DataType::Char).is_ok());
    assert!(Property::Long(40000).transform(&DataType::Short).is_err());
    assert!(Property::Long(i64::MAX).transform(&DataType::Int).is_err());
    assert_eq!(
        Property::Double((1.5f64).to_bits())
            .transform(&DataType::Long)
            .unwrap(),
        Property::Long(1).to_vec()
    );
    assert!(Property::Double((3.0e10f64).to_bits())
        .transform(&DataType::Int)
        .is_err());
    // A pass-through keeps the storage bytes.
    assert_eq!(
        Property::Int(7).transform(&DataType::Int).unwrap(),
        Property::Int(7).to_vec()
    );
}

#[test]
fn transform_float_narrowing_matches_hardware() {
    for v in [0i64, 1, -1, 123, -500, 1 << 40, i64::MAX, i64::MIN] {
        assert_eq!(
            long_to_data_type(v, &DataType::Double).unwrap(),
            (v as f64).to_bits().to_be_bytes().to_vec()
        );
        assert_eq!(
            long_to_data_type(v, &DataType::Float).unwrap(),
            (v as f32).to_bits().to_be_bytes().to_vec()
        );
    }
}

#[test]
fn transport_layout_bytes() {
    assert_eq!(Property::Bool(true).to_bytes(), vec![1]);
    assert_eq!(Property::Char(7).to_bytes(), vec![7]);
    assert_eq!(Property::Short(-2).to_bytes(), vec![0xFF, 0xFE]);
    assert_eq!(Property::Int(123456).to_bytes(), vec![0, 1, 0xE2, 0x40]);
    assert_eq!(
        Property::Long(1).to_bytes(),
        vec![0, 0, 0, 0, 0, 0, 0, 1]
    );
    assert_eq!(
        Property::String("ab".to_owned()).to_bytes(),
        vec![0, 0, 0, 2, b'a', b'b']
    );
    assert_eq!(
        Property::Bytes(vec![9, 8]).to_bytes(),
        vec![0, 0, 0, 2, 9, 8]
    );
    assert_eq!(
        Property::ListInt(vec![1, 2]).to_bytes(),
        vec![0, 0, 0, 2, 0, 0, 0, 1, 0, 0, 0, 2]
    );
    assert_eq!(
        Property::ListString(vec!["a".to_owned(), "bc".to_owned()]).to_bytes(),
        vec![0, 0, 0, 2, 0, 0, 0, 1, b'a', 0, 0, 0, 2, b'b', b'c']
    );
    assert_eq!(
        Property::Float((1.5f32).to_bits()).to_bytes(),
        (1.5f32).to_bits().to_be_bytes().to_vec()
    );
}

#[test]
fn storage_layout_bytes_and_list_access() {
    // Scalars have no framing; strings are raw.
    assert_eq!(Property::String("ab".to_owned()).to_vec(), vec![b'a', b'b']);
    assert_eq!(Property::Bytes(vec![9, 8]).to_vec(), vec![9, 8]);
    // A string list stores the count, cumulative end offsets, then payload.
    let p = Property::ListString(vec!["ab".to_owned(), "c".to_owned(), "def".to_owned()]);
    let bytes = p.to_vec();
    assert_eq!(
        bytes,
        vec![
            0, 0, 0, 3, // count
            0, 0, 0, 2, // end of "ab"
            0, 0, 0, 3, // end of "c"
            0, 0, 0, 6, // end of "def"
            b'a', b'b', b'c', b'd', b'e', b'f',
        ]
    );
    // The offsets let a reader slice the Nth element directly.
    let n = u32::from_be_bytes([bytes[0], bytes[1], bytes[2], bytes[3]]) as usize;
    let header = 4 + 4 * n;
    let end_of = |i: usize| -> usize {
        let o = 4 + 4 * i;
        u32::from_be_bytes([bytes[o], bytes[o + 1], bytes[o + 2], bytes[o + 3]]) as usize
    };
    let slice_of = |i: usize| -> &[u8] {
        let start = if i == 0 { 0 } else { end_of(i - 1) };
        &bytes[header + start..header + end_of(i)]
    };
    assert_eq!(slice_of(2), b"def");
    assert_eq!(slice_of(0), b"ab");
    assert_eq!(slice_of(1), b"c");

    let p = Property::ListBytes(vec![vec![1], vec![2, 3]]);
    let bytes = p.to_vec();
    assert_eq!(bytes, vec![0, 0, 0, 2, 0, 0, 0, 1, 0, 0, 0, 3, 1, 2, 3]);
}

#[test]
fn parse_property_cases() {
    assert_eq!(parse_property("true", DataType::Bool), Property::Bool(true));
    assert_eq!(
        parse_property("false", DataType::Bool),
        Property::Bool(false)
    );
    assert!(matches!(
        parse_property("tru", DataType::Bool),
        Property::Unknown
    ));
    assert_eq!(parse_property("x", DataType::Char), Property::Char(b'x'));
    assert!(matches!(
        parse_property("xy", DataType::Char),
        Property::Unknown
    ));
    assert_eq!(parse_property("123", DataType::Short), Property::Short(123));
    assert_eq!(parse_property("-7", DataType::Int), Property::Int(-7));
    assert!(matches!(
        parse_property("99999", DataType::Short),
        Property::Unknown
    ));
    assert_eq!(
        parse_property("123456", DataType::Long),
        Property::Long(123456)
    );
    assert!(matches!(
        parse_property("12a", DataType::Long),
        Property::Unknown
    ));
    assert_eq!(
        parse_property("hi", DataType::String),
        Property::String("hi".to_owned())
    );
    assert_eq!(
        parse_property("2000-01-01", DataType::Date),
        Property::Date("2000-01-01".to_owned())
    );
    assert_eq!(
        parse_property("1,2,3", DataType::ListInt),
        Property::ListInt(vec![1, 2, 3])
    );
    assert_eq!(
        parse_property("", DataType::ListInt),
        Property::ListInt(vec![])
    );
    assert_eq!(
        parse_property("4,5", DataType::ListLong),
        Property::ListLong(vec![4, 5])
    );
    assert_eq!(
        parse_property("a,b", DataType::ListString),
        Property::ListString(vec!["a".to_owned(), "b".to_owned()])
    );
    assert!(matches!(
        parse_property("zz", DataType::Unknown),
        Property::Unknown
    ));
    // An unparseable list chunk yields the sentinel, not a failure.
    assert!(matches!(
        parse_property("1,x,3", DataType::ListInt),
        Property::Unknown
    ));
    assert!(matches!(
        parse_property("1,99999999999", DataType::ListInt),
        Property::Unknown
    ));
    assert!(matches!(
        parse_property("9999999999999999999999", DataType::ListLong),
        Property::Unknown
    ));
    assert!(matches!(
        parse_property("1,,2", DataType::ListLong),
        Property::Unknown
    ));
}

#[test]
fn getters_and_errors() {
    assert_eq!(Property::Bool(true).get_bool().unwrap(), true);
    assert!(Property::Int(1).get_bool().is_err());
    assert_eq!(Property::Short(4).get_int().unwrap(), 4);
    assert_eq!(Property::Int(4).get_long().unwrap(), 4);
    assert!(Property::Bool(false).get_long().is_err());
    assert_eq!(
        Property::Int(7).get_float().unwrap(),
        (7.0f32).to_bits()
    );
    assert_eq!(
        Property::Long(7).get_double().unwrap(),
        (7.0f64).to_bits()
    );
    assert_eq!(
        Property::String("s".to_owned()).get_string().unwrap(),
        &"s".to_owned()
    );
    assert_eq!(Property::Bytes(vec![1]).get_bytes().unwrap(), &vec![1]);
    assert_eq!(Property::ListInt(vec![1]).get_list().unwrap(), &vec![1]);
    assert_eq!(
        Property::ListInt(vec![1, 2]).cast_double_list().unwrap(),
        vec![(1.0f64).to_bits(), (2.0f64).to_bits()]
    );
    assert!(Property::Null.is_null());
    assert!(!Property::Int(0).is_null());
    assert!(Property::Int(1).start_with(&Property::Int(1)).is_err());
    let s = Property::String("hello".to_owned());
    assert!(s.start_with(&Property::String("he".to_owned())).unwrap());
    assert!(s.end_with(&Property::String("lo".to_owned())).unwrap());
    assert!(!s.end_with(&Property::String("he".to_owned())).unwrap());
    assert!(s.contains(&Property::Int(1)).is_err());
    assert_eq!(
        Property::ListBytes(vec![]).get_list_ele_type().unwrap(),
        DataType::Bytes
    );
}

#[test]
fn numeric_widening_edge_values() {
    // Widening a large long loses precision exactly as the hardware does.
    let big = (1i64 << 60) + 1;
    let p1 = Property::Long(big);
    let p2 = Property::Double((big as f64).to_bits());
    assert!(p1 == p2);
    // Exact integer comparison does not lose precision.
    let p3 = Property::Long(big + 1);
    assert!(p1 < p3);
    // NaN compares with nothing, and is unequal even to itself.
    let nan = Property::Double(f64::NAN.to_bits());
    let nan2 = Property::Double(f64::NAN.to_bits());
    assert!(!(nan == nan2));
    assert!(nan.partial_cmp(&nan2).is_none());
}

#[test]
fn object_to_property_conversion() {
    let objs = vec![
        Object::Primitive(Primitives::Integer(1)),
        Object::Primitive(Primitives::Integer(2)),
    ];
    assert_eq!(
        objects_to_list_property(&objs).unwrap(),
        Property::ListInt(vec![1, 2])
    );
    // An empty list has no element type to pick.
    assert!(objects_to_list_property(&vec![]).is_err());
    // A mixed list fails on the first element of another kind.
    let mixed = vec![
        Object::String("a".to_owned()),
        Object::Primitive(Primitives::Integer(1)),
    ];
    assert!(objects_to_list_property(&mixed).is_err());
    // Float elements widen to a double list.
    let objs = vec![
        Object::Primitive(Primitives::Float((1.5f32).to_bits())),
        Object::Primitive(Primitives::Integer(2)),
    ];
    assert_eq!(
        objects_to_list_property(&objs).unwrap(),
        Property::ListDouble(vec![(1.5f64).to_bits(), (2.0f64).to_bits()])
    );

    let p = Property::from_borrow_object(&Object::Primitive(Primitives::UInteger(3))).unwrap();
    assert_eq!(p, Property::Int(3));
    let p = Property::from_borrow_object(&Object::Blob(vec![1, 2])).unwrap();
    assert_eq!(p, Property::Bytes(vec![1, 2]));
    let p = Property::from_borrow_object(&Object::Primitive(Primitives::Float(
        (1.5f32).to_bits(),
    )))
    .unwrap();
    assert_eq!(p, Property::Float((1.5f32).to_bits()));
    assert!(Property::from_borrow_object(&Object::NoneValue).is_err());
    // A 128-bit value too large for a long is rejected.
    assert!(
        Property::from_borrow_object(&Object::Primitive(Primitives::ULLong(u128::MAX))).is_err()
    );
}
