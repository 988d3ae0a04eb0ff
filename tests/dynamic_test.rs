use gs11n::decoder::{DecodeContext, DecodeError, Decoder};
use gs11n::dynamic::{decode_type_id, encode_dyn, record_dyn, VTable};
use gs11n::encoder::Encoder;
use gs11n::meta_data::Metadata;
use gs11n::plugin::{check_gs11n_version, sync_traits, TraitInfo, TraitRegister, GS11N_VERSION};
use gs11n::prefab_loader::DefaultPrefabLoader;
use gs11n::{DeSerialization, Serialization};

type ToStringFn = fn(&[u8], &mut usize, &DecodeContext<DefaultPrefabLoader>) -> Result<String, DecodeError>;

fn decode_i32_to_string(
    buf: &[u8],
    pos: &mut usize,
    ctx: &DecodeContext<DefaultPrefabLoader>,
) -> Result<String, DecodeError> {
    Ok(i32::decode(buf, pos, ctx)?.to_string())
}

fn decode_char_to_string(
    buf: &[u8],
    pos: &mut usize,
    ctx: &DecodeContext<DefaultPrefabLoader>,
) -> Result<String, DecodeError> {
    Ok(char::decode(buf, pos, ctx)?.to_string())
}

fn to_string_table() -> VTable<ToStringFn> {
    let mut table: VTable<ToStringFn> = VTable::new();
    table.register(1, decode_i32_to_string);
    table.register(2, decode_char_to_string);
    table
}

fn encode_boxed<S: Serialization>(type_id: usize, value: &S) -> Vec<u8> {
    let mut meta = Metadata::default();
    record_dyn(type_id, value, &mut meta);
    let mut out = Vec::with_capacity(meta.size);
    encode_dyn(type_id, value, &mut out, &meta);
    assert_eq!(out.len(), meta.size);
    out
}

fn decode_boxed(bytes: Vec<u8>, table: &VTable<ToStringFn>) -> Result<String, DecodeError> {
    let decoder = Decoder::from_data(bytes);
    let ctx = decoder.get_context();
    let buf = decoder.get_buffer();
    let mut pos: usize = 0;
    let decode_fn = decode_type_id(buf, &mut pos, ctx, table)?;
    decode_fn(buf, &mut pos, ctx)
}

#[test]
fn dyn_test() {
    let table = to_string_table();
    {
        let v = encode_boxed(1, &256i32);
        assert_eq!(v, vec![0x01, 0x80, 0x04]);
        let b2 = decode_boxed(v, &table).unwrap();
        assert_eq!(b2, "256");
    }

    {
        let v = encode_boxed(2, &'x');
        let b2 = decode_boxed(v, &table).unwrap();
        assert_eq!(b2, "x");
    }
}

fn decode_fixed_to_string(
    buf: &[u8],
    pos: &mut usize,
    ctx: &DecodeContext<DefaultPrefabLoader>,
) -> Result<String, DecodeError> {
    Ok((gs11n::fixed::Fixed32::decode(buf, pos, ctx)?.0 as i32).to_string())
}

#[test]
fn dyn_fixed_width_payload() {
    let mut table: VTable<ToStringFn> = VTable::new();
    table.register(1, decode_fixed_to_string);
    let v = encode_boxed(1, &gs11n::fixed::Fixed32(256));
    assert_eq!(v, vec![0x01, 0x00, 0x01, 0x00, 0x00]);
    assert_eq!(decode_boxed(v, &table).unwrap(), "256");
}

#[test]
fn dyn_unregistered_type_id_is_invalid_type() {
    let table = to_string_table();
    let v = encode_boxed(3, &256i32);
    assert_eq!(decode_boxed(v, &table), Err(DecodeError::InvalidType));
}

#[test]
fn non_dyn_test() {
    let box_i: Box<i32> = Box::new(1);
    let encoder = Encoder::from(&box_i);
    let v = encoder.encode();
    let decoder = Decoder::from_data(v);
    let box_j: Box<i32> = decoder.decode().unwrap();
    assert_eq!(*box_i, *box_j);
    assert!(!std::ptr::eq(&*box_i, &*box_j));
}

#[test]
fn version_check() {
    assert_eq!(check_gs11n_version(GS11N_VERSION), Ok(()));
    assert_eq!(
        check_gs11n_version("0.0.1"),
        Err(DecodeError::VersionNotCompatible)
    );
}

#[test]
fn sync_traits_merges_module_entries_into_host() {
    let mut host_table: VTable<u32> = VTable::new();
    host_table.register(1, 10);
    host_table.register(2, 20);
    let mut module_table: VTable<u32> = VTable::new();
    module_table.register(2, 200);
    module_table.register(3, 300);
    let mut other: VTable<u32> = VTable::new();
    other.register(9, 90);

    let mut host: TraitRegister<u32> = TraitRegister::new();
    host.insert(String::from("dyn ToString"), host_table);
    host.insert(String::from("dyn Other"), other);
    let mut module: TraitRegister<u32> = TraitRegister::new();
    module.insert(String::from("dyn ToString"), module_table);

    sync_traits(&module, &mut host);
    let merged: &TraitInfo<u32> = host.get(0).unwrap();
    assert_eq!(merged.vtable.get(1), Some(&10));
    assert_eq!(merged.vtable.get(2), Some(&200));
    assert_eq!(merged.vtable.get(3), Some(&300));
    let untouched = host.get(1).unwrap();
    assert_eq!(untouched.vtable.get(9), Some(&90));
    assert_eq!(untouched.vtable.get(3), None);
}
