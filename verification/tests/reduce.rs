use smallmap::collapse::Collapse;
use smallmap::hasher::CollapseHasher;
use smallmap::primitive::PrimitiveCollapse;
use smallmap::{collapse, collapse_iter, Primitive, SmallMap};

#[test]
fn xor_fold_of_bytes() {
    assert_eq!(collapse(&[]), 0);
    assert_eq!(collapse(&[1, 2, 3]), 0);
    assert_eq!(collapse(b"ab"), 3);
    assert_eq!(collapse(&[0xf0, 0x0f]), 0xff);
    assert_eq!(collapse_iter(vec![]), 0);
    assert_eq!(collapse_iter(vec![7]), 7);
    assert_eq!(collapse_iter(vec![0xf0, 0x0f, 0x01]), 0xfe);
}

#[test]
fn integers_reduce_modulo_256() {
    assert_eq!(Collapse::collapse(&200u8), 200);
    assert_eq!(Collapse::collapse(&-1i8), 255);
    assert_eq!(Collapse::collapse(&-128i8), 128);
    assert_eq!(Collapse::collapse(&261u16), 5);
    assert_eq!(Collapse::collapse(&-100i32), 156);
    assert_eq!(Collapse::collapse(&i32::MIN), 0);
    assert_eq!(Collapse::collapse(&1000i16), 232);
    assert_eq!(Collapse::collapse(&-257i16), 255);
    assert_eq!(Collapse::collapse(&u64::MAX), 255);
    assert_eq!(Collapse::collapse(&-1i64), 255);
    assert_eq!(Collapse::collapse(&(1u128 << 100)), 0);
    assert_eq!(Collapse::collapse(&-2i128), 254);
    assert_eq!(Collapse::collapse(&513usize), 1);
    assert_eq!(Collapse::collapse(&-3isize), 253);
    assert_eq!(Collapse::collapse(&4_000_000_001u32), 1);
}

#[test]
fn other_keys_reduce() {
    assert_eq!(Collapse::collapse(&true), 1);
    assert_eq!(Collapse::collapse(&false), 0);
    assert_eq!(Collapse::collapse(&()), 0);
    assert_eq!(Collapse::collapse(&'a'), 97);
    assert_eq!(Collapse::collapse(&'ł'), 66);
    assert_eq!(Collapse::collapse(&"one"), 100);
    assert_eq!(Collapse::collapse(&""), 0);
    assert_eq!(Collapse::collapse(&String::from("ab")), 3);
    assert_eq!(Collapse::collapse(&"ł"), 0xc5 ^ 0x82);
}

#[test]
fn keys_are_compared_by_what_they_hold() {
    assert!(Collapse::same(&5u8, &5u8));
    assert!(!Collapse::same(&5u16, &261u16));
    assert!(Collapse::same(&"ab", &"ab"));
    assert!(!Collapse::same(&"ab", &"ba"));
    assert!(!Collapse::same(&"ab", &"abc"));
    assert!(Collapse::same(&String::from("x"), &String::from("x")));
    assert!(Collapse::same(&(), &()));
    assert!(!Collapse::same(&true, &false));
}

#[test]
fn primitives_fold_their_bytes() {
    assert_eq!(PrimitiveCollapse::collapse(&200u8), 200);
    assert_eq!(PrimitiveCollapse::collapse(&-2i8), 254);
    assert_eq!(PrimitiveCollapse::collapse(&0x1234u16), 0x26);
    assert_eq!(PrimitiveCollapse::collapse(&-1i16), 0);
    assert_eq!(PrimitiveCollapse::collapse(&0x0102_0304u32), 4);
    assert_eq!(PrimitiveCollapse::collapse(&-2i32), 1);
    assert_eq!(PrimitiveCollapse::collapse(&0x8000_0000_0000_0001u64), 0x81);
    assert_eq!(PrimitiveCollapse::collapse(&i64::MIN), 0x80);
    assert_eq!(PrimitiveCollapse::collapse(&(0xabu128 << 120 | 0x11)), 0xab ^ 0x11);
    assert_eq!(PrimitiveCollapse::collapse(&-1i128), 0);
    assert_eq!(PrimitiveCollapse::collapse(&0x0102usize), 3);
    assert_eq!(PrimitiveCollapse::collapse(&-1isize), 0);
    assert_eq!(PrimitiveCollapse::collapse(&-256isize), 0xff);
    assert_eq!(PrimitiveCollapse::collapse(&()), 0);
    assert!(PrimitiveCollapse::same(&3u32, &3u32));
    assert!(!PrimitiveCollapse::same(&3u32, &4u32));
}

#[test]
fn primitive_wraps_and_unwraps() {
    let mut wrapped = Primitive::new(0x0102u16);
    assert_eq!(Collapse::collapse(&wrapped), 3);
    assert_eq!(*wrapped.inner(), 0x0102);
    *wrapped.inner_mut() = 0x0707;
    assert_eq!(Collapse::collapse(&wrapped), 0);
    assert_eq!(wrapped.into_inner_copy(), 0x0707);
    assert_eq!(wrapped.into_inner(), 0x0707);
    assert_eq!(Primitive::from(9u8), Primitive::new(9u8));
    assert!(Collapse::same(&Primitive::new(1i64), &Primitive::new(1i64)));
    assert!(!Collapse::same(&Primitive::new(1i64), &Primitive::new(2i64)));
    assert_eq!(Primitive::<u32>::default().into_inner(), 0);
}

#[test]
fn primitive_keys_in_a_map() {
    let mut map = SmallMap::new();
    map.insert(Primitive::new(0x0100u16), 'a');
    map.insert(Primitive::new(0x0001u16), 'b');
    assert_eq!(map.num_pages(), 2);
    assert_eq!(map.get(&Primitive::new(0x0100)), Some(&'a'));
    assert_eq!(map.get(&Primitive::new(0x0001)), Some(&'b'));
    assert_eq!(map.get(&Primitive::new(0x0101)), None);
}

#[test]
fn hasher_folds_what_is_written() {
    let mut hasher = CollapseHasher::new();
    assert_eq!(hasher.finish(), 0);
    hasher.write(&[1, 2, 4]);
    assert_eq!(hasher.finish(), 7);
    hasher.write_u8(7);
    assert_eq!(hasher.finish(), 0);
    hasher.write_i8(-1);
    assert_eq!(hasher.finish(), 255);
    hasher.write_u16(0x01ff);
    assert_eq!(hasher.finish(), 0);
    hasher.write_i16(-256);
    assert_eq!(hasher.finish(), 0);
    hasher.write_i32(-100);
    assert_eq!(hasher.finish(), 156);
    hasher.write_u32(156 + 512);
    assert_eq!(hasher.finish(), 0);
    hasher.write_u64(u64::MAX);
    hasher.write_i64(-1);
    assert_eq!(hasher.finish(), 0);
    hasher.write_u128(3);
    hasher.write_i128(-254);
    assert_eq!(hasher.finish(), 1);
    hasher.write_usize(257);
    hasher.write_isize(-255);
    assert_eq!(hasher.finish(), 1);
}
