use gs11n::decoder::Decoder;
use gs11n::map::{decode_entries, encode_entries, record_entries};
use gs11n::meta_data::Metadata;
use std::collections::{BTreeMap, HashMap};

fn encode_map(entries: &[(u32, &str)]) -> Vec<u8> {
    let mut meta = Metadata::default();
    record_entries(entries, &mut meta);
    let mut out = Vec::with_capacity(meta.size);
    encode_entries(entries, &mut out, &meta);
    assert_eq!(out.len(), meta.size);
    out
}

#[test]
fn map_test() {
    let mut hash_map: HashMap<u32, &str> = HashMap::default();
    hash_map.insert(1, "one");
    hash_map.insert(2, "two");
    let entries: Vec<(u32, &str)> = hash_map.iter().map(|(k, v)| (*k, *v)).collect();
    let encode_result = encode_map(&entries);

    let decoder = Decoder::from_data(encode_result);
    let mut pos: usize = 0;
    let pairs: Vec<(u32, String)> =
        decode_entries(decoder.get_buffer(), &mut pos, decoder.get_context()).unwrap();
    let decode_map: BTreeMap<u32, String> = pairs.into_iter().collect();

    assert_eq!(hash_map.len(), decode_map.len());

    assert_eq!(hash_map.get(&1).unwrap(), decode_map.get(&1).unwrap());
    assert_eq!(hash_map.get(&2).unwrap(), decode_map.get(&2).unwrap());
}

#[test]
fn map_entries_bytes_and_slots() {
    let entries: Vec<(u32, &str)> = vec![(1, "one"), (300, "")];
    let mut meta = Metadata::default();
    record_entries(&entries, &mut meta);
    assert_eq!(meta.children.len(), 4);
    assert_eq!(meta.child(1).size, 4);
    assert_eq!(meta.child(2).size, 2);
    assert_eq!(meta.child(3).size, 1);
    let bytes = encode_map(&entries);
    assert_eq!(bytes, vec![2, 1, 3, b'o', b'n', b'e', 0xAC, 0x02, 0]);
    let decoded: Vec<(u32, String)> = Decoder::from_data(bytes).decode().unwrap();
    assert_eq!(decoded, vec![(1, String::from("one")), (300, String::new())]);
}
