use gs11n::decoder::{decode_field, decode_wired_id, DecodeContext, DecodeError, Decoder};
use gs11n::encoder::{encode_field, size_of_field, Encoder};
use gs11n::meta_data::Metadata;
use gs11n::prefab_loader::PrefabLoader;
use gs11n::simple_prefab::SimplePrefab;
use gs11n::wire_type::{NonPrefabWireType, WireType};
use gs11n::{DeSerialization, Serialization};
use rustc_hash::FxHashMap;

#[derive(Default, Debug)]
struct Foo {
    v: Vec<u32>,
}

#[derive(Default)]
struct FooPrefab {
    v: SimplePrefab,
}

fn foo_prefab_encode(f: &FooPrefab) -> Vec<u8> {
    let mut meta_data = Metadata::default();
    f.v.record(meta_data.get(0));
    meta_data.size = size_of_field::<SimplePrefab>(0, meta_data.get(0));
    let mut out = Vec::new();
    encode_field(0, &f.v, &mut out, meta_data.child(0));
    out
}

fn foo_decode<L: PrefabLoader>(decoder: &Decoder<L>) -> Result<Foo, DecodeError> {
    let ctx = decoder.get_context();
    let buf = decoder.get_buffer();
    let mut pos: usize = 0;
    let mut v = Foo::default();
    while pos < ctx.bounds_checker.get_bound() {
        let (id, wire_type) = decode_wired_id(buf, &mut pos, ctx)?;
        let is_prefab = wire_type == WireType::Prefab;
        match id {
            0 => v.v = decode_field(buf, &mut pos, ctx, is_prefab)?,
            _ => ctx.skip(buf, &mut pos, wire_type)?,
        }
    }
    Ok(v)
}

fn foo_prefab_decode<L: PrefabLoader>(decoder: &Decoder<L>) -> Result<FooPrefab, DecodeError> {
    let ctx = decoder.get_context();
    let buf = decoder.get_buffer();
    let mut pos: usize = 0;
    let mut v = FooPrefab::default();
    while pos < ctx.bounds_checker.get_bound() {
        let (id, wire_type) = decode_wired_id(buf, &mut pos, ctx)?;
        let is_prefab = wire_type == WireType::Prefab;
        match id {
            0 => v.v = decode_field(buf, &mut pos, ctx, is_prefab)?,
            _ => ctx.skip(buf, &mut pos, wire_type)?,
        }
    }
    Ok(v)
}

struct TestPrefabLoader {
    prefabs: FxHashMap<u64, Vec<u8>>,
}

impl PrefabLoader for TestPrefabLoader {
    fn skip_wire_type(&self) -> Result<NonPrefabWireType, DecodeError> {
        Ok(NonPrefabWireType::Varint)
    }

    fn handle_prefab(
        &self,
        buf: &[u8],
        pos: &mut usize,
        ctx: &DecodeContext<Self>,
    ) -> Result<Vec<u8>, DecodeError> {
        let id = u64::decode(buf, pos, ctx)?;
        match self.prefabs.get(&id) {
            None => Err(DecodeError::PrefabNotExist),
            Some(prefab) => Ok(prefab.clone()),
        }
    }
}

fn loader_with_prefab() -> (TestPrefabLoader, Vec<u32>) {
    let mut prefab_loader = TestPrefabLoader {
        prefabs: FxHashMap::default(),
    };
    let prefab_content: Vec<u32> = vec![1, 2, 3];
    let encoder = Encoder::from(&prefab_content);
    let prefabs = encoder.encode();
    prefab_loader.prefabs.insert(1, prefabs);
    (prefab_loader, prefab_content)
}

#[test]
fn prefab_test() {
    let (prefab_loader, prefab_content) = loader_with_prefab();

    let prefab = FooPrefab {
        v: SimplePrefab::new(1),
    };

    let result = foo_prefab_encode(&prefab);
    assert_eq!(result, vec![0b101_00000, 1,]);

    let decoder = Decoder::from_data_with_preloader(result, &prefab_loader);
    let foo = foo_decode(&decoder).unwrap();
    assert_eq!(foo.v, prefab_content);
}

#[test]
fn prefab_unknown_id_is_prefab_not_exist() {
    let (prefab_loader, _) = loader_with_prefab();
    let result = foo_prefab_encode(&FooPrefab { v: SimplePrefab::new(7) });
    let decoder = Decoder::from_data_with_preloader(result, &prefab_loader);
    assert_eq!(foo_decode(&decoder).unwrap_err(), DecodeError::PrefabNotExist);
}

#[test]
fn prefab_without_loader_is_prefab_not_exist() {
    let result = foo_prefab_encode(&FooPrefab { v: SimplePrefab::new(1) });
    let decoder = Decoder::from_data(result);
    assert_eq!(foo_decode(&decoder).unwrap_err(), DecodeError::PrefabNotExist);
}

#[test]
fn prefab_into_prefab_field_is_refused() {
    let (prefab_loader, _) = loader_with_prefab();
    let result = foo_prefab_encode(&FooPrefab { v: SimplePrefab::new(1) });
    let decoder = Decoder::from_data_with_preloader(result, &prefab_loader);
    assert_eq!(
        foo_prefab_decode(&decoder).err(),
        Some(DecodeError::PrefabToAnotherPrefab)
    );
}

#[test]
fn unknown_prefab_field_is_skipped_by_loader_wire_type() {
    let (prefab_loader, _) = loader_with_prefab();
    // field 5 holds a prefab token; field 0 a prefab as well
    let mut bytes = vec![0b101_00101, 0x81, 0x01];
    bytes.extend_from_slice(&[0b101_00000, 1]);
    let decoder = Decoder::from_data_with_preloader(bytes, &prefab_loader);
    let foo = foo_decode(&decoder).unwrap();
    assert_eq!(foo.v, vec![1, 2, 3]);
}
