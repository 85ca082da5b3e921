use std::collections::{BTreeMap, HashMap};

use core_json::{
    deserialize_array, deserialize_map, deserialize_structure, serialize_map, ConstStack,
    Deserializer, JsonError, JsonSerialize, JsonStructure, Tri,
};

#[test]
fn test_int_iterator() {
    assert_eq!(JsonSerialize::serialize(&0u8), "0");
    assert_eq!(JsonSerialize::serialize(&1u8), "1");
    assert_eq!(JsonSerialize::serialize(&u64::MAX), format!("{}", u64::MAX));
    assert_eq!(JsonSerialize::serialize(&i64::MAX), format!("{}", i64::MAX));
    assert_eq!(JsonSerialize::serialize(&i64::MIN), format!("{}", i64::MIN));
}

#[test]
fn integer_widths() {
    assert_eq!(JsonSerialize::serialize(&u128::MAX), format!("{}", u128::MAX));
    assert_eq!(JsonSerialize::serialize(&i128::MIN), format!("{}", i128::MIN));
    assert_eq!(JsonSerialize::serialize(&(-7i8)), "-7");
    assert_eq!(JsonSerialize::serialize(&3usize), "3");
    assert_eq!(
        deserialize_structure::<Vec<i8>, ConstStack<8>>(b"[-128,127]".to_vec()).unwrap(),
        vec![-128, 127]
    );
    assert!(matches!(
        deserialize_structure::<Vec<i8>, ConstStack<8>>(b"[128]".to_vec()).unwrap_err(),
        JsonError::TypeError
    ));
    assert_eq!(
        deserialize_structure::<Vec<i128>, ConstStack<8>>(b"[-5]".to_vec()).unwrap(),
        vec![-5i128]
    );
    assert_eq!(
        deserialize_structure::<Vec<usize>, ConstStack<8>>(b"[11]".to_vec()).unwrap(),
        vec![11usize]
    );
}

#[test]
fn seq() {
    assert_eq!(Vec::<u64>::new().serialize(), "[]");
    assert_eq!(vec![0u64].serialize(), "[0]");
    assert_eq!(vec![0u64, 0u64].serialize(), "[0,0]");
}

fn parse_fixed(json: &[u8], n: usize) -> Result<Vec<u8>, JsonError> {
    let mut d = Deserializer::<ConstStack<128>>::new(json.to_vec())?;
    let value = d.value()?;
    deserialize_array::<u8, ConstStack<128>>(value, &mut d, n)
}

#[test]
fn arr() {
    assert_eq!(parse_fixed(b"[]", 0).unwrap(), Vec::<u8>::new());
    assert_eq!(parse_fixed(b"[1]", 1).unwrap(), vec![1]);
    assert_eq!(parse_fixed(b"[1, 2]", 2).unwrap(), vec![1, 2]);

    // Short arrays should be considered a distinct type
    assert!(matches!(parse_fixed(b"[]", 1).unwrap_err(), JsonError::TypeError));
    // The same for long arrays
    assert!(matches!(parse_fixed(b"[1, 2]", 1).unwrap_err(), JsonError::TypeError));
}

fn parse_pairs(json: Vec<u8>) -> Vec<(String, u16)> {
    let mut d = Deserializer::<ConstStack<32>>::new(json).unwrap();
    let value = d.value().unwrap();
    deserialize_map::<u16, ConstStack<32>>(value, &mut d).unwrap()
}

#[test]
fn btree_map() {
    assert_eq!(serialize_map::<u16>(&Vec::new()), "{}");
    let test_map = |map: BTreeMap<String, u16>| {
        let pairs: Vec<(String, u16)> = map.iter().map(|(k, v)| (k.clone(), *v)).collect();
        let rebuilt: BTreeMap<String, u16> =
            parse_pairs(serialize_map(&pairs).into_bytes()).into_iter().collect();
        assert_eq!(rebuilt, map);
    };
    test_map(BTreeMap::from([("key1".to_string(), 1)]));
    test_map(BTreeMap::from([("key1".to_string(), 1), ("key2".to_string(), 2)]));
}

#[test]
fn hash_map() {
    assert_eq!(serialize_map::<u16>(&Vec::new()), "{}");
    let test_map = |map: HashMap<String, u16>| {
        let pairs: Vec<(String, u16)> = map.iter().map(|(k, v)| (k.clone(), *v)).collect();
        let rebuilt: HashMap<String, u16> =
            parse_pairs(serialize_map(&pairs).into_bytes()).into_iter().collect();
        assert_eq!(rebuilt, map);
    };
    test_map(HashMap::from([("key1".to_string(), 1)]));
    test_map(HashMap::from([("key1".to_string(), 1), ("key2".to_string(), 2)]));
}

#[test]
fn round_trip_document() {
    // Decode-then-re-encode: a document of strings, integers and booleans
    // rebuilt from its parsed fields is structurally identical.
    let pairs: Vec<(String, String)> = vec![
        ("plain".to_string(), "value".to_string()),
        ("escaped \"quote\"\n".to_string(), "tab\there".to_string()),
    ];
    let json = serialize_map(&pairs);
    let mut d = Deserializer::<ConstStack<32>>::new(json.clone().into_bytes()).unwrap();
    let value = d.value().unwrap();
    let parsed = deserialize_map::<String, ConstStack<32>>(value, &mut d).unwrap();
    assert_eq!(parsed, pairs);
    // Re-encoding the parsed pairs gives back the identical text.
    assert_eq!(serialize_map(&parsed), json);

    // The integer path, through the full engine.
    for n in [0i64, 1, -1, 42, i64::MAX, i64::MIN] {
        let json = format!("[{}]", JsonSerialize::serialize(&n));
        let parsed: Vec<i64> =
            deserialize_structure::<Vec<i64>, ConstStack<8>>(json.into_bytes()).unwrap();
        assert_eq!(parsed, vec![n]);
    }
}

#[test]
fn typed_deserialize() {
    assert_eq!(
        Vec::<bool>::deserialize_structure::<ConstStack<8>>(b"[true,false]".to_vec()).unwrap(),
        vec![true, false]
    );
    assert_eq!(
        deserialize_structure::<Vec<Option<u8>>, ConstStack<8>>(b"[null,3]".to_vec()).unwrap(),
        vec![None, Some(3)]
    );
    assert_eq!(
        deserialize_structure::<Vec<String>, ConstStack<8>>(br#"["a","b"]"#.to_vec()).unwrap(),
        vec!["a".to_string(), "b".to_string()]
    );
    // A fractional number is not an integer.
    assert!(matches!(
        deserialize_structure::<Vec<u8>, ConstStack<8>>(b"[1.5]".to_vec()).unwrap_err(),
        JsonError::TypeError
    ));
    // Negative numbers do not fit unsigned targets.
    assert!(matches!(
        deserialize_structure::<Vec<u8>, ConstStack<8>>(b"[-1]".to_vec()).unwrap_err(),
        JsonError::TypeError
    ));
    // The three-state decode keeps a present null distinct from a value.
    assert_eq!(
        deserialize_structure::<Vec<Tri<u8>>, ConstStack<8>>(b"[null,3]".to_vec()).unwrap(),
        vec![Tri::Null, Tri::Present(3)]
    );
    assert_eq!(Tri::<u8>::default(), Tri::Absent);
}
