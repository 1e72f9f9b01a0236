use crc_rocksoft::primitive::CrcTable;
use crc_rocksoft::primitive::CrcTableHasher;
use crc_rocksoft::primitive::SpecRef;
use crc_rocksoft::primitive::ValueType;
use crc_rocksoft::CrcSpec;
use crc_rocksoft::CrcHasher;
use std::fmt::Debug;
use std::rc::Rc;
use std::sync::Arc;

fn feed<T: ValueType>(hasher: &mut dyn CrcHasher<T>) -> &mut dyn CrcHasher<T> {
    for i in 1..10 {
        hasher.update(0x30 + i);
    }
    hasher
}

fn test<T: ValueType + PartialEq + Debug + 'static>(spec: CrcTable<T>, expected: T) {
    let mut h = CrcTableHasher::from(spec);
    assert_eq!(feed(&mut h).finish(), expected);
}

fn crc32_spec() -> CrcTable<u32> {
    CrcTable::new(0x04C11DB7u32, 0xFFFFFFFFu32, true, true, 0xFFFFFFFFu32)
}

#[test]
fn crc32() {
    test(CrcTable::new(0x04C11DB7u32, 0xFFFFFFFFu32, true, true, 0xFFFFFFFFu32), 0xCBF43926u32);
}

#[test]
fn update_from_slice() {
    let mut bytes: Vec<u8> = Vec::new();
    for i in 1..10 {
        bytes.push(0x30 + i);
    }

    let mut h = CrcTableHasher::from(CrcTable::new(0x04C11DB7u32, 0xFFFFFFFFu32, true, true, 0xFFFFFFFFu32));
    h.update_from_slice(&bytes);
    assert_eq!(h.finish(), 0xCBF43926u32);
}

#[test]
fn crc32_posix() {
    test(CrcTable::new(0x04C11DB7u32, 0u32, false, false, 0xFFFFFFFFu32), 0x765E7680u32);
}

#[test]
fn crc32_bzip2() {
    test(CrcTable::new(0x04C11DB7u32, 0xFFFFFFFFu32, false, false, 0xFFFFFFFFu32), 0xFC891918u32);
}

#[test]
fn crc32_mpeg2() {
    test(CrcTable::new(0x04C11DB7u32, 0xFFFFFFFFu32, false, false, 0u32), 0x0376E6E7u32);
}

#[test]
fn crc32c() {
    test(CrcTable::new(0x1EDC6F41u32, 0xFFFFFFFFu32, true, true, 0xFFFFFFFFu32), 0xE3069283u32);
}

#[test]
fn doc_example_posix_by_single_bytes() {
    let spec = CrcTable::new(0x04C11DB7u32, 0u32, false, false, 0xFFFFFFFFu32);
    let mut hasher = CrcTableHasher::from(spec);
    for i in 1..10 {
        hasher.update(0x30 + i);
    }
    assert_eq!(hasher.finish(), 0x765E7680);
}

#[test]
fn new_hasher_starts_at_init() {
    // Nothing taken: the checksum is the initial value, XORed with xorout.
    let h = CrcTableHasher::from(CrcTable::new(0x04C11DB7u32, 0x12345678u32, true, true, 0u32));
    assert_eq!(h.finish(), 0x12345678u32);
    let h = CrcTableHasher::from(CrcTable::new(0x04C11DB7u32, 0x12345678u32, false, false, 0xFFu32));
    assert_eq!(h.finish(), 0x12345687u32);
    let h = CrcTableHasher::from(crc32_spec());
    assert_eq!(h.finish(), 0u32);
}

#[test]
fn empty_slice_changes_nothing() {
    let mut h = CrcTableHasher::from(crc32_spec());
    h.update_from_slice(&[]);
    assert_eq!(h.finish(), 0u32);
    h.update_from_slice(b"123456789");
    h.update_from_slice(&[]);
    assert_eq!(h.finish(), 0xCBF43926u32);
}

#[test]
fn single_byte_checksums() {
    let mut h = CrcTableHasher::from(crc32_spec());
    h.update(b'a');
    assert_eq!(h.finish(), 0xE8B7BE43u32);
    let mut h = CrcTableHasher::from(CrcTable::new(0x04C11DB7u32, 0u32, false, false, 0xFFFFFFFFu32));
    h.update(b'a');
    assert_eq!(h.finish(), 0x579B24DFu32);
}

#[test]
fn runs_are_deterministic() {
    let spec = crc32_spec();
    let data = b"The quick brown fox jumps over the lazy dog";
    let mut first = CrcTableHasher::from(&spec);
    first.update_from_slice(data);
    let mut second = CrcTableHasher::from(&spec);
    second.update_from_slice(data);
    assert_eq!(first.finish(), second.finish());
    assert_eq!(first.finish(), 0x414FA339u32);
}

#[test]
fn finish_does_not_change_the_register() {
    let mut h = CrcTableHasher::from(crc32_spec());
    h.update_from_slice(b"1234");
    let first = h.finish();
    let second = h.finish();
    let third = h.finish();
    assert_eq!(first, second);
    assert_eq!(second, third);
    // More data follows as if finish had not been called.
    h.update_from_slice(b"56789");
    assert_eq!(h.finish(), 0xCBF43926u32);
    assert_eq!(h.finish(), 0xCBF43926u32);
}

#[test]
fn slice_equals_loop() {
    let spec = crc32_spec();
    let mut data: Vec<u8> = Vec::new();
    for len in 0..70usize {
        let mut by_slice = CrcTableHasher::from(&spec);
        by_slice.update_from_slice(&data);
        let mut by_loop = CrcTableHasher::from(&spec);
        for &b in &data {
            by_loop.update(b);
        }
        assert_eq!(by_slice.finish(), by_loop.finish());
        data.push((len * 37 + 11) as u8);
    }
}

#[test]
fn slice_equals_loop_not_reflected() {
    let spec = CrcTable::new(0x1021u16, 0xFFFFu16, false, false, 0u16);
    let data = b"123456789";
    let mut by_slice = CrcTableHasher::from(&spec);
    by_slice.update_from_slice(data);
    let mut by_loop = CrcTableHasher::from(&spec);
    for &b in data {
        by_loop.update(b);
    }
    assert_eq!(by_slice.finish(), by_loop.finish());
    assert_eq!(by_slice.finish(), 0x29B1u16);
}

#[test]
fn parts_equal_whole() {
    let spec = crc32_spec();
    let data = b"123456789";
    for cut in 0..data.len() + 1 {
        let mut h = CrcTableHasher::from(&spec);
        h.update_from_slice(&data[..cut]);
        h.update_from_slice(&data[cut..]);
        assert_eq!(h.finish(), 0xCBF43926u32);
    }
}

#[test]
fn reset_gives_a_new_hasher() {
    let spec = crc32_spec();
    let mut used = CrcTableHasher::from(&spec);
    used.update_from_slice(b"some other data");
    assert_ne!(used.finish(), 0u32);
    used.reset();
    assert_eq!(used.finish(), 0u32);
    used.update_from_slice(b"123456789");
    let mut new = CrcTableHasher::from(&spec);
    new.update_from_slice(b"123456789");
    assert_eq!(used.finish(), new.finish());
    assert_eq!(used.finish(), 0xCBF43926u32);
}

#[test]
fn reset_of_a_new_hasher_changes_nothing() {
    let mut h = CrcTableHasher::from(CrcTable::new(0x8005u16, 0x1234u16, true, true, 0u16));
    h.reset();
    assert_eq!(h.finish(), 0x1234u16);
    h.reset();
    h.reset();
    assert_eq!(h.finish(), 0x1234u16);
}

#[test]
fn spec_owned_borrowed_or_shared() {
    let owned = CrcTableHasher::from(crc32_spec());

    let spec = crc32_spec();
    let spec_ref = &spec;
    let referenced = CrcTableHasher::from(spec_ref);

    let spec_box = Box::new(crc32_spec());
    let boxed = CrcTableHasher::from(spec_box);

    let spec_rc = Rc::new(crc32_spec());
    let counted = CrcTableHasher::from(spec_rc.clone());
    let counted_again = CrcTableHasher::from(spec_rc);

    let spec_arc = Arc::new(crc32_spec());
    let shared = CrcTableHasher::from(spec_arc);

    let mut hashers: Vec<Box<dyn FnMut(&[u8]) -> u32 + '_>> = Vec::new();
    let mut owned = owned;
    hashers.push(Box::new(move |d| { owned.update_from_slice(d); owned.finish() }));
    let mut referenced = referenced;
    hashers.push(Box::new(move |d| { referenced.update_from_slice(d); referenced.finish() }));
    let mut boxed = boxed;
    hashers.push(Box::new(move |d| { boxed.update_from_slice(d); boxed.finish() }));
    let mut counted = counted;
    hashers.push(Box::new(move |d| { counted.update_from_slice(d); counted.finish() }));
    let mut counted_again = counted_again;
    hashers.push(Box::new(move |d| { counted_again.update_from_slice(d); counted_again.finish() }));
    let mut shared = shared;
    hashers.push(Box::new(move |d| { shared.update_from_slice(d); shared.finish() }));
    for run in hashers.iter_mut() {
        assert_eq!(run(b"123456789"), 0xCBF43926u32);
    }
}

#[test]
fn hashers_on_one_spec_do_not_disturb_each_other() {
    let spec = crc32_spec();
    let mut a = CrcTableHasher::from(&spec);
    let mut b = CrcTableHasher::from(&spec);
    a.update_from_slice(b"12345");
    b.update_from_slice(b"abc");
    a.update_from_slice(b"6789");
    b.reset();
    b.update_from_slice(b"123456789");
    assert_eq!(a.finish(), 0xCBF43926u32);
    assert_eq!(b.finish(), 0xCBF43926u32);
}

#[test]
fn hasher_of_each_width() {
    let mut h8 = CrcTableHasher::from(CrcTable::new(0x07u8, 0u8, false, false, 0u8));
    h8.update_from_slice(b"123456789");
    assert_eq!(h8.finish(), 0xF4u8);
    let mut h16 = CrcTableHasher::from(CrcTable::new(0x8005u16, 0u16, true, true, 0u16));
    h16.update_from_slice(b"123456789");
    assert_eq!(h16.finish(), 0xBB3Du16);
    let mut h64 = CrcTableHasher::from(CrcTable::new(
        0x42F0E1EBA9EA3693u64,
        0xFFFFFFFFFFFFFFFFu64,
        true,
        true,
        0xFFFFFFFFFFFFFFFFu64,
    ));
    h64.update_from_slice(b"123456789");
    assert_eq!(h64.finish(), 0x995DC9BBDF1939FAu64);
}

#[test]
fn spec_ref_reaches_the_spec() {
    let spec = CrcTable::new(0x1021u16, 0xFFFFu16, false, true, 0x0F0Fu16);
    assert_eq!(SpecRef::get(&spec).poly(), 0x1021u16);
    assert_eq!(SpecRef::get(&&spec).init(), 0xFFFFu16);
    let boxed = Box::new(CrcTable::new(0x1021u16, 0xFFFFu16, false, true, 0x0F0Fu16));
    assert_eq!(SpecRef::get(&boxed).xorout(), 0x0F0Fu16);
    let counted = Rc::new(CrcTable::new(0x1021u16, 0xFFFFu16, false, true, 0x0F0Fu16));
    assert!(!SpecRef::get(&counted).refin());
    let shared = Arc::new(CrcTable::new(0x1021u16, 0xFFFFu16, false, true, 0x0F0Fu16));
    assert!(SpecRef::get(&shared).refout());
    assert_eq!(SpecRef::get(&shared).width(), 16);
}

fn parameters<S: CrcSpec<u32>>(spec: &S) -> (usize, u32, u32, bool, bool, u32) {
    (spec.width(), spec.poly(), spec.init(), spec.refin(), spec.refout(), spec.xorout())
}

#[test]
fn spec_through_the_trait() {
    assert_eq!(
        parameters(&crc32_spec()),
        (32, 0x04C11DB7, 0xFFFFFFFF, true, true, 0xFFFFFFFF)
    );
}

#[test]
fn shared_spec_outlives_its_hashers() {
    let spec = Rc::new(crc32_spec());
    let first = {
        let mut h = CrcTableHasher::from(spec.clone());
        h.update_from_slice(b"123456789");
        h.finish()
    };
    let second = {
        let mut h = CrcTableHasher::from(spec.clone());
        h.update_from_slice(b"123456789");
        h.finish()
    };
    assert_eq!(first, 0xCBF43926u32);
    assert_eq!(second, 0xCBF43926u32);
    assert_eq!(spec.poly(), 0x04C11DB7u32);
}

#[test]
fn check_values_through_the_trait_object() {
    test(CrcTable::new(0x07u8, 0u8, false, false, 0u8), 0xF4u8);
    test(CrcTable::new(0x31u8, 0u8, true, true, 0u8), 0xA1u8);
    test(CrcTable::new(0x1021u16, 0xFFFFu16, false, false, 0u16), 0x29B1u16);
    test(CrcTable::new(0x1021u16, 0xFFFFu16, true, true, 0xFFFFu16), 0x906Eu16);
    test(CrcTable::new(0x42F0E1EBA9EA3693u64, 0u64, false, false, 0u64), 0x6C40DF5F0B497347u64);
    test(CrcTable::new(0x1Bu64, u64::MAX, true, true, u64::MAX), 0xB90956C775A41001u64);
}
