use num_bigint::BigUint;
use rvcd::radix::{
    le_bytes_to_str_radix, radix_value_big_uint, radix_vector_bin, radix_vector_dec,
    radix_vector_to_string, radix_vector_to_string_n, value_map_val, Radix,
};
use rvcd::wave::WireValue::{V0, V1, X, Z};
use rvcd::wave::{WaveDataItem, WaveDataValue, WireValue};

#[test]
fn test_vector_string() {
    let vec: Vec<WireValue> = vec![V1, V1, V1, V0, V0, V1, V1, V0];
    let bin = radix_vector_to_string(Radix::Bin, &vec);
    let oct = radix_vector_to_string(Radix::Oct, &vec);
    let dec = radix_vector_to_string(Radix::Dec, &vec);
    let hex = radix_vector_to_string(Radix::Hex, &vec);
    println!("bin={}, oct={}, dec={}, hex={}", bin, oct, dec, hex);
    assert_eq!(bin, "01100111");
    assert_eq!(oct, "147");
    assert_eq!(dec, "103");
    assert_eq!(hex, "67");

    let vec: Vec<WireValue> = vec![V1, V1, V1, X, V0, V1, V1, Z];
    let bin = radix_vector_to_string(Radix::Bin, &vec);
    let oct = radix_vector_to_string(Radix::Oct, &vec);
    let dec = radix_vector_to_string(Radix::Dec, &vec);
    let hex = radix_vector_to_string(Radix::Hex, &vec);
    println!("bin={}, oct={}, dec={}, hex={}", bin, oct, dec, hex);
    assert_eq!(bin, "z110x111");
    assert_eq!(oct, "zx7");
    assert_eq!(dec, "xxx");
    assert_eq!(hex, "zx");

    let vec: Vec<WireValue> = vec![V1, V1, V1, X, V0, V1, X, Z, V0, V0, V0];
    let bin = radix_vector_to_string(Radix::Bin, &vec);
    let oct = radix_vector_to_string(Radix::Oct, &vec);
    let dec = radix_vector_to_string(Radix::Dec, &vec);
    let hex = radix_vector_to_string(Radix::Hex, &vec);
    println!("bin={}, oct={}, dec={}, hex={}", bin, oct, dec, hex);
    assert_eq!(bin, "000zx10x111");
    assert_eq!(oct, "0xx7");
    assert_eq!(dec, "xxx");
    assert_eq!(hex, "0xx");
}

#[test]
fn test_radix_value_big_uint() {
    for test in 0usize..=32 {
        let test_uint = BigUint::from(test);
        let test_binary_str = test_uint.to_str_radix(2);
        let test_binary = test_binary_str
            .chars()
            .rev()
            .map(|x| match x {
                '0' => V0,
                _ => V1,
            })
            .collect::<Vec<_>>();
        let v = test_binary;
        let bytes = radix_value_big_uint(&v);
        let d = BigUint::from_bytes_le(&bytes);
        let le = d.to_bytes_le();
        let d2 = BigUint::from_bytes_le(&le);
        println!("v: {:?}, d: {} {}, le: {:?}, d2: {}", v, d, d.to_str_radix(2), le, d2);
        assert_eq!(d, test_uint);
        assert_eq!(d2, test_uint);
        assert_eq!(bytes.len(), (v.len() + 7) / 8);
    }
}

#[test]
fn test_compress() {
    for test in 0usize..=20 {
        let mut t = test;
        let mut bits = vec![];
        for _i in 0..32 {
            bits.push((t & 0x1usize) as u8);
            t >>= 1;
            if t == 0 {
                break;
            }
        }
        let bits = bits
            .into_iter()
            .map(|x| match x {
                0 => V0,
                _ => V1,
            })
            .collect::<Vec<_>>();
        let item = WaveDataItem { value: WaveDataValue::Raw(bits.clone()), timestamp: 0 }
            .compress()
            .unwrap();
        let item_value_v: Vec<u8> = match &item.value {
            WaveDataValue::Comp(v) => v.clone(),
            WaveDataValue::Raw(_) => vec![],
        };
        let item_value = BigUint::from_bytes_le(&item_value_v);
        println!("[test {}], item_value: {}, bits: {:?}, item_value_v: {:?}", test, item_value, bits, item_value_v);
        assert_eq!(item_value, BigUint::from(test));
        assert_eq!(item_value_v, BigUint::from(test).to_bytes_le());
    }
}

#[test]
fn radix_numbers_and_names() {
    assert_eq!(Radix::Bin.to_number(), 2);
    assert_eq!(Radix::Oct.to_number(), 8);
    assert_eq!(Radix::Dec.to_number(), 10);
    assert_eq!(Radix::Hex.to_number(), 16);
    assert_eq!(Radix::Hex.to_string(), "Hex");
    assert_eq!(Radix::Bin.to_string(), "Bin");
}

#[test]
fn radix_value_map() {
    assert_eq!(value_map_val(&V0), 0);
    assert_eq!(value_map_val(&V1), 1);
    assert_eq!(value_map_val(&X), 1);
    assert_eq!(value_map_val(&Z), 1);
}

#[test]
fn radix_bin_reverses_bits() {
    assert_eq!(radix_vector_bin(&[V1, V0, X, Z]), "zx01");
    assert_eq!(radix_vector_bin(&[]), "");
}

#[test]
fn radix_string_n_pads_and_marks() {
    let v = vec![V1, V0, V0, V0, V0];
    assert_eq!(radix_vector_to_string_n(&v, 4), "01");
    assert_eq!(radix_vector_to_string_n(&v, 1), "00001");
    let v = vec![Z, V0, V0, V0, X];
    assert_eq!(radix_vector_to_string_n(&v, 4), "xz");
}

#[test]
fn radix_dec_marks_all_digits() {
    assert_eq!(radix_vector_dec(&vec![V0, V1, V0, V1]), "10");
    assert_eq!(radix_vector_dec(&vec![Z, V1, V0, V1]), "zz");
    assert_eq!(radix_vector_dec(&vec![Z, V1, X, V1]), "xx");
}

#[test]
fn radix_le_bytes_numeral() {
    assert_eq!(le_bytes_to_str_radix(&[0x34, 0x12], Radix::Hex), "1234");
    assert_eq!(le_bytes_to_str_radix(&[0x00, 0x01], Radix::Dec), "256");
    assert_eq!(le_bytes_to_str_radix(&[], Radix::Bin), "0");
}

#[test]
fn radix_base_two_is_the_bits() {
    let cases: Vec<Vec<WireValue>> = vec![
        vec![V0],
        vec![X],
        vec![V1, Z, V0, X, V1],
        vec![V0, V0, V0, V1, V0, V0, V0, V0, V0, V1],
    ];
    for vec in cases {
        let bin = radix_vector_bin(&vec);
        assert_eq!(radix_vector_to_string(Radix::Bin, &vec), bin);
        assert_eq!(radix_vector_to_string_n(&vec, 1), bin);
    }
    assert_eq!(radix_vector_to_string_n(&vec![V1, Z, V0, X, V1], 1), "1x0z1");
}
