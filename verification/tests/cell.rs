use std::mem::{size_of, size_of_val};
use zst_volatile::alignment::{Alignment, Carrier, Normal, Packed, Wrapper};
use zst_volatile::layout::{
    DescribedField, DescribedStruct, DescribedType, FieldType, LayoutDirective,
};
use zst_volatile::mirror::Mirror;
use zst_volatile::offset::{Align, PastField, Zero};
use zst_volatile::region::{Access, AccessKind, Region, WrapperPointer};
use zst_volatile::{Volatile, VolatileStruct};

const U8: DescribedType = DescribedType { size: 1, align: 1 };
const U16: DescribedType = DescribedType { size: 2, align: 2 };
const U32: DescribedType = DescribedType { size: 4, align: 4 };
const U64: DescribedType = DescribedType { size: 8, align: 8 };

fn describe(types: &[(&str, DescribedType)], directive: LayoutDirective) -> DescribedStruct {
    DescribedStruct::new(
        types.iter().map(|(name, ty)| DescribedField { name: name.to_string(), ty: FieldType::Primitive(*ty) }).collect(),
        directive,
    )
    .unwrap()
}

fn zeroed(start: usize, len: usize) -> Region {
    Region::new(start, vec![0; len])
}

#[test]
fn normal_alignment_is_the_natural_one() {
    assert_eq!(Normal.chain(), Vec::<usize>::new());
    for natural in [1usize, 2, 4, 8, 64] {
        assert_eq!(Normal.transport(natural), natural);
    }
}

#[test]
fn packed_alignment_caps_the_natural_one() {
    let packed = Packed { bound: 2, outer: Normal };
    assert_eq!(packed.chain(), vec![2]);
    assert_eq!(packed.transport(1), 1);
    assert_eq!(packed.transport(2), 2);
    assert_eq!(packed.transport(4), 2);
    assert_eq!(packed.transport(8), 2);
}

#[test]
fn nested_packing_takes_the_lowest_bound() {
    let outer_tight = Packed { bound: 8, outer: Packed { bound: 1, outer: Normal } };
    assert_eq!(outer_tight.chain(), vec![1, 8]);
    assert_eq!(outer_tight.transport(8), 1);
    assert_eq!(outer_tight.transport(4), 1);
    let inner_tight = Packed { bound: 2, outer: Packed { bound: 4, outer: Normal } };
    assert_eq!(inner_tight.chain(), vec![4, 2]);
    assert_eq!(inner_tight.transport(8), 2);
    assert_eq!(inner_tight.transport(1), 1);
    let three = Packed { bound: 8, outer: Packed { bound: 2, outer: Packed { bound: 4, outer: Normal } } };
    assert_eq!(three.chain(), vec![4, 2, 8]);
    assert_eq!(three.transport(16), 2);
}

#[test]
fn carrier_agrees_with_the_static_alignments() {
    let layered = Packed { bound: 2, outer: Packed { bound: 4, outer: Normal } };
    let carrier = Carrier::of(&layered);
    assert_eq!(carrier, Carrier { chain: vec![4, 2] });
    assert_eq!(carrier.chain(), layered.chain());
    for natural in [1usize, 2, 4, 8, 16] {
        assert_eq!(carrier.transport(natural), layered.transport(natural));
    }
    assert_eq!(Carrier::identity(), Carrier { chain: Vec::new() });
    assert_eq!(Carrier::identity().transport(8), 8);
    assert_eq!(Carrier::of(&Normal), Carrier::identity());
    assert_eq!(Carrier::identity().bounded(4).bounded(2), carrier);
    assert_eq!(carrier.duplicate(), carrier);
    assert_eq!(Carrier { chain: vec![16, 4, 32] }.transport(64), 4);
    assert_eq!(Carrier { chain: vec![16, 4, 32] }.transport(2), 2);
}

#[test]
fn composing_carriers_is_associative() {
    let chains = [vec![], vec![4], vec![8, 2], vec![1, 16, 4]];
    for outer in &chains {
        for inner in &chains {
            let joined: Vec<usize> = outer.iter().chain(inner.iter()).copied().collect();
            for natural in [1usize, 2, 4, 8, 16, 32] {
                let through_outer = Carrier { chain: outer.clone() }.transport(natural);
                assert_eq!(
                    Carrier { chain: joined.clone() }.transport(natural),
                    Carrier { chain: inner.clone() }.transport(through_outer)
                );
                let lowest = joined.iter().copied().fold(natural, usize::min);
                assert_eq!(Carrier { chain: joined.clone() }.transport(natural), lowest);
            }
        }
    }
}

#[test]
fn carrier_validity_asks_for_powers_of_two() {
    assert!(Carrier::identity().is_valid());
    assert!(Carrier { chain: vec![1, 2, 1024] }.is_valid());
    assert!(!Carrier { chain: vec![1, 3] }.is_valid());
    assert!(!Carrier { chain: vec![0] }.is_valid());
    assert!(!Carrier { chain: vec![6, 2] }.is_valid());
}

#[test]
fn wrap_and_unwrap_are_inverses() {
    let values: Vec<Vec<u8>> = vec![vec![], vec![0], vec![0xff; 3], vec![1, 2, 3, 4, 5, 6, 7, 8]];
    for value in values {
        assert_eq!(Normal.unwrap(Normal.wrap(value.clone(), 8)), value);
        let packed = Packed { bound: 2, outer: Packed { bound: 4, outer: Normal } };
        assert_eq!(packed.unwrap(packed.wrap(value.clone(), 8)), value);
        let carrier = Carrier { chain: vec![8, 1, 2] };
        assert_eq!(carrier.unwrap(carrier.wrap(value.clone(), 4)), value);
    }
    assert_eq!(Normal.unwrap(Normal.wrap(0x1234_5678u32, 4)), 0x1234_5678u32);
    assert_eq!(Normal.unwrap(Normal.wrap((1u8, [2u16; 3]), 2)), (1u8, [2u16; 3]));
}

#[test]
fn wrapper_keeps_the_value_and_lowers_the_alignment() {
    assert_eq!(Normal.wrap(7u64, 8), Wrapper { value: 7u64, alignment: 8 });
    let packed = Packed { bound: 2, outer: Normal };
    assert_eq!(packed.wrap(7u64, 8), Wrapper { value: 7u64, alignment: 2 });
    assert_eq!(packed.wrap(7u8, 1), Wrapper { value: 7u8, alignment: 1 });
    let carrier = Carrier { chain: vec![4, 1] };
    assert_eq!(carrier.wrap([1u8, 2], 2), Wrapper { value: [1u8, 2], alignment: 1 });
    assert_eq!(carrier.unwrap(Wrapper { value: 9u16, alignment: 1 }), 9u16);
}

#[test]
fn cell_lies_at_base_plus_offset() {
    let offset = Align { base: PastField { base: Align { base: Zero, alignment: 1 }, size: 1 }, alignment: 4 };
    let cell = Volatile::new(0x1000, U32, &offset, &Normal).unwrap();
    assert_eq!(cell.as_ptr(), 0x1004);
    assert_eq!(cell.element(), U32);
    assert_eq!(*cell.carrier(), Carrier::identity());
    assert_eq!(
        cell.as_wrapper_pointer(),
        WrapperPointer { address: 0x1004, size: 4, alignment: 4 }
    );
    let packed = Volatile::new(0x1001, U32, &Zero, &Packed { bound: 1, outer: Normal }).unwrap();
    assert_eq!(
        packed.as_wrapper_pointer(),
        WrapperPointer { address: 0x1001, size: 4, alignment: 1 }
    );
}

#[test]
fn cell_is_refused_where_no_access_is_legal() {
    // Null.
    assert_eq!(Volatile::new(0, U8, &Zero, &Normal), None);
    assert!(Volatile::new(0, U8, &PastField { base: Zero, size: 1 }, &Normal).is_some());
    // Not aligned.
    assert_eq!(Volatile::new(0x1001, U32, &Zero, &Normal), None);
    assert_eq!(Volatile::new(0x1002, U32, &Zero, &Normal), None);
    assert!(Volatile::new(0x1002, U32, &Zero, &Packed { bound: 2, outer: Normal }).is_some());
    assert_eq!(Volatile::new(0x1001, U32, &Zero, &Packed { bound: 2, outer: Normal }), None);
    // Past the end of the address space.
    assert_eq!(Volatile::new(usize::MAX, U8, &Zero, &Normal), None);
    assert!(Volatile::new(usize::MAX - 1, U8, &Zero, &Normal).is_some());
    assert_eq!(Volatile::new(usize::MAX, U8, &PastField { base: Zero, size: 1 }, &Normal), None);
    assert!(Volatile::new(usize::MAX, DescribedType { size: 0, align: 1 }, &Zero, &Normal).is_some());
    // An alignment that is no power of two.
    assert_eq!(Volatile::new(0x1000, DescribedType { size: 1, align: 3 }, &Zero, &Normal), None);
    assert_eq!(Volatile::new(0x1000, DescribedType { size: 1, align: 0 }, &Zero, &Normal), None);
    assert_eq!(Volatile::new(0x1000, U8, &Zero, &Packed { bound: 3, outer: Normal }), None);
    assert_eq!(Volatile::new(0x1000, U8, &Zero, &Carrier { chain: vec![2, 0] }), None);
    // An offset without a value.
    assert_eq!(Volatile::new(0x1000, U8, &Align { base: Zero, alignment: 0 }, &Normal), None);
    assert_eq!(
        Volatile::new(0x1000, U8, &PastField { base: PastField { base: Zero, size: usize::MAX }, size: 1 }, &Normal),
        None
    );
}

#[test]
fn root_cell_fills_the_start_of_the_region() {
    let region = zeroed(0x2000, 8);
    let cell = Volatile::from_ref(&region, U64).unwrap();
    assert_eq!(cell.as_ptr(), 0x2000);
    assert!(region.contains(&cell.as_wrapper_pointer()));
    assert_eq!(Volatile::from_ref(&region, DescribedType { size: 9, align: 1 }), None);
    assert_eq!(Volatile::from_ref(&zeroed(0x2004, 8), U64), None);
    assert_eq!(Volatile::from_ref(&zeroed(0, 8), U64), None);

    let mut held = zeroed(0x2000, 8);
    let same = Volatile::from_mut(&mut held, U64).unwrap();
    assert_eq!(same, cell);
    assert_eq!(held, zeroed(0x2000, 8));
    assert!(held.accesses.is_empty());
    assert_eq!(Volatile::from_mut(&mut held, DescribedType { size: 9, align: 1 }), None);
}

#[test]
fn region_knows_what_it_holds() {
    let region = zeroed(0x100, 16);
    let at = |address: usize, size: usize| WrapperPointer { address, size, alignment: 1 };
    assert!(region.contains(&at(0x100, 16)));
    assert!(region.contains(&at(0x100, 0)));
    assert!(region.contains(&at(0x10f, 1)));
    assert!(region.contains(&at(0x110, 0)));
    assert!(!region.contains(&at(0x110, 1)));
    assert!(!region.contains(&at(0x111, 0)));
    assert!(!region.contains(&at(0xff, 1)));
    assert!(!region.contains(&at(0x100, 17)));
    assert!(!region.contains(&at(0x108, usize::MAX)));
    let top = zeroed(usize::MAX - 3, 8);
    assert!(top.contains(&at(usize::MAX, 0)));
    assert!(top.contains(&at(usize::MAX - 3, 3)));
}

#[test]
fn region_loads_what_was_stored() {
    let mut region = Region::new(0x100, (0u8..16).collect());
    let pointer = WrapperPointer { address: 0x104, size: 4, alignment: 4 };
    assert_eq!(region.load(&pointer), Wrapper { value: vec![4, 5, 6, 7], alignment: 4 });
    region.store(&pointer, &Wrapper { value: vec![0xaa, 0xbb, 0xcc, 0xdd], alignment: 4 });
    assert_eq!(
        region.bytes,
        vec![0, 1, 2, 3, 0xaa, 0xbb, 0xcc, 0xdd, 8, 9, 10, 11, 12, 13, 14, 15]
    );
    assert_eq!(region.start, 0x100);
    assert_eq!(
        region.load(&pointer),
        Wrapper { value: vec![0xaa, 0xbb, 0xcc, 0xdd], alignment: 4 }
    );
    let empty = WrapperPointer { address: 0x110, size: 0, alignment: 1 };
    assert_eq!(region.load(&empty), Wrapper { value: Vec::new(), alignment: 1 });
    region.store(&empty, &Wrapper { value: Vec::new(), alignment: 1 });
    assert_eq!(region.bytes.len(), 16);
}

#[test]
fn cell_reads_and_writes_only_its_own_bytes() {
    let described = describe(&[("a", U8), ("b", U32), ("c", U16)], LayoutDirective::Standard);
    let mut region = Region::new(0x400, (1u8..=12).collect());
    let root = Volatile::from_ref(&region, described.described_type()).unwrap();
    let mirror = root.deref(&described).unwrap();
    let b = mirror.field_named("b").unwrap();
    assert_eq!(b.read(&mut region), vec![5, 6, 7, 8]);
    b.write(&mut region, vec![0xf0, 0xf1, 0xf2, 0xf3]);
    assert_eq!(region.bytes, vec![1, 2, 3, 4, 0xf0, 0xf1, 0xf2, 0xf3, 9, 10, 11, 12]);
    assert_eq!(b.read(&mut region), vec![0xf0, 0xf1, 0xf2, 0xf3]);
    let c = mirror.field(2).unwrap();
    assert_eq!(c.read(&mut region), vec![9, 10]);
    c.write(&mut region, vec![0, 0]);
    assert_eq!(b.read(&mut region), vec![0xf0, 0xf1, 0xf2, 0xf3]);
    assert_eq!(mirror.field(0).unwrap().read(&mut region), vec![1]);
}

#[test]
fn mirror_hands_out_one_cell_per_field() {
    let described = describe(&[("a", U8), ("b", U64), ("c", U8)], LayoutDirective::Packed(2));
    let region = zeroed(0x800, 12);
    let root = Volatile::from_ref(&region, described.described_type()).unwrap();
    let mirror: Mirror = Mirror::over(&root, &described).unwrap();
    assert_eq!(mirror.base(), 0x800);
    assert_eq!(mirror.len(), 3);
    let pointers: Vec<WrapperPointer> =
        (0..3).map(|i| mirror.field(i).unwrap().as_wrapper_pointer()).collect();
    assert_eq!(
        pointers,
        vec![
            WrapperPointer { address: 0x800, size: 1, alignment: 1 },
            WrapperPointer { address: 0x802, size: 8, alignment: 2 },
            WrapperPointer { address: 0x80a, size: 1, alignment: 1 },
        ]
    );
    assert!(mirror.field(3).is_none());
    assert!(mirror.field(usize::MAX).is_none());
    assert!(mirror.field_named("d").is_none());
    assert_eq!(mirror.field_named("c"), mirror.field(2));
    assert_eq!(*mirror.field(1).unwrap().carrier(), Carrier { chain: vec![2] });
    assert_eq!(described.mirror(&root), Some(Mirror::over(&root, &described).unwrap()));
}

#[test]
fn mirror_needs_a_cell_of_its_own_size_and_alignment() {
    let described = describe(&[("a", U8), ("b", U32)], LayoutDirective::Standard);
    let region = zeroed(0x800, 16);
    assert!(Volatile::from_ref(&region, DescribedType { size: 8, align: 4 })
        .unwrap()
        .deref(&described)
        .is_some());
    for other in [
        DescribedType { size: 8, align: 8 },
        DescribedType { size: 8, align: 2 },
        DescribedType { size: 12, align: 4 },
        DescribedType { size: 4, align: 4 },
    ] {
        let cell = Volatile::from_ref(&region, other).unwrap();
        assert!(cell.deref(&described).is_none());
        assert!(Mirror::over(&cell, &described).is_none());
    }
}

#[test]
fn mirror_of_an_empty_struct_is_well_defined() {
    let described = describe(&[], LayoutDirective::Standard);
    let mut region = zeroed(0x800, 0);
    let root = Volatile::from_ref(&region, described.described_type()).unwrap();
    let mirror = root.deref(&described).unwrap();
    assert_eq!(mirror.len(), 0);
    assert_eq!(mirror.base(), 0x800);
    assert!(mirror.field(0).is_none());
    assert_eq!(root.read(&mut region), Vec::<u8>::new());
}

#[test]
fn outer_packing_wins_over_inner_alignment() {
    // The inner struct asks for an alignment of eight on its own.
    let inner = describe(&[("x", U8), ("y", U64)], LayoutDirective::Aligned(8));
    assert_eq!(inner.described_type(), DescribedType { size: 16, align: 8 });
    let outer = describe(
        &[("tag", U8), ("inner", inner.described_type())],
        LayoutDirective::Packed(1),
    );
    assert_eq!(outer.offset(1), Some(1));
    assert_eq!(outer.described_type(), DescribedType { size: 17, align: 1 });

    let region = zeroed(0x1003, 17);
    let root = Volatile::from_ref(&region, outer.described_type()).unwrap();
    let held = root.deref(&outer).unwrap().field_named("inner").unwrap();
    assert_eq!(*held.carrier(), Carrier { chain: vec![1] });
    assert_eq!(held.as_wrapper_pointer(), WrapperPointer { address: 0x1004, size: 16, alignment: 1 });
    let fields = held.deref(&inner).unwrap();
    for index in 0..2 {
        let cell = fields.field(index).unwrap();
        assert_eq!(*cell.carrier(), Carrier { chain: vec![1] });
        assert_eq!(cell.carrier().transport(cell.element().align), 1);
        assert_eq!(cell.as_wrapper_pointer().alignment, 1);
    }
    // The offsets within the inner struct stay those of the inner struct.
    assert_eq!(fields.field(1).unwrap().as_ptr(), 0x1004 + 8);
}

#[test]
fn nested_packing_accumulates_outermost_first() {
    let leaf = describe(&[("a", U8), ("b", U64)], LayoutDirective::Packed(4));
    let middle = describe(&[("t", U8), ("leaf", leaf.described_type())], LayoutDirective::Packed(2));
    let top = describe(&[("t", U16), ("middle", middle.described_type())], LayoutDirective::Standard);
    assert_eq!(leaf.described_type(), DescribedType { size: 12, align: 4 });
    assert_eq!(middle.described_type(), DescribedType { size: 14, align: 2 });
    assert_eq!(top.described_type(), DescribedType { size: 16, align: 2 });

    let region = zeroed(0x3002, 16);
    let root = Volatile::from_ref(&region, top.described_type()).unwrap();
    let middle_cell = root.deref(&top).unwrap().field(1).unwrap();
    assert_eq!(*middle_cell.carrier(), Carrier::identity());
    let leaf_cell = middle_cell.deref(&middle).unwrap().field(1).unwrap();
    assert_eq!(*leaf_cell.carrier(), Carrier { chain: vec![2] });
    assert_eq!(leaf_cell.as_wrapper_pointer(), WrapperPointer { address: 0x3006, size: 12, alignment: 2 });
    let b = leaf_cell.deref(&leaf).unwrap().field(1).unwrap();
    assert_eq!(*b.carrier(), Carrier { chain: vec![2, 4] });
    assert_eq!(b.as_wrapper_pointer(), WrapperPointer { address: 0x300a, size: 8, alignment: 2 });
}

#[test]
fn every_cell_is_accessed_at_a_multiple_of_its_alignment() {
    let types = [U8, U16, U32, U64, DescribedType { size: 3, align: 1 }, DescribedType { size: 0, align: 8 }];
    let directives = [
        LayoutDirective::Standard,
        LayoutDirective::Packed(1),
        LayoutDirective::Packed(2),
        LayoutDirective::Packed(4),
        LayoutDirective::Aligned(16),
    ];
    for inner_directive in directives {
        let inner = describe(
            &[("a", types[0]), ("b", types[3]), ("c", types[1]), ("d", types[5]), ("e", types[2])],
            inner_directive,
        );
        for outer_directive in directives {
            let outer = describe(
                &[("x", types[4]), ("inner", inner.described_type()), ("y", types[2])],
                outer_directive,
            );
            let start = 0x10000;
            let region = zeroed(start, outer.size());
            let root = Volatile::from_ref(&region, outer.described_type()).unwrap();
            let mirror = root.deref(&outer).unwrap();
            for index in 0..outer.len() {
                let pointer = mirror.field(index).unwrap().as_wrapper_pointer();
                assert_eq!(pointer.address % pointer.alignment, 0);
                assert!(region.contains(&pointer));
                assert_eq!(pointer.address, start + outer.offset(index).unwrap());
            }
            let held = mirror.field(1).unwrap();
            let nested = held.deref(&inner).unwrap();
            for index in 0..inner.len() {
                let pointer = nested.field(index).unwrap().as_wrapper_pointer();
                assert_eq!(pointer.address % pointer.alignment, 0);
                assert!(region.contains(&pointer));
                assert_eq!(
                    pointer.address,
                    start + outer.offset(1).unwrap() + inner.offset(index).unwrap()
                );
            }
        }
    }
}

fn holding(name: &str, described: DescribedStruct) -> DescribedField {
    DescribedField::holding(name.to_string(), described)
}

fn primitive(name: &str, ty: DescribedType) -> DescribedField {
    DescribedField::primitive(name.to_string(), ty)
}

#[test]
fn fields_say_whether_they_hold_a_struct() {
    let plain = primitive("a", U32);
    assert_eq!(plain, DescribedField { name: "a".to_string(), ty: FieldType::Primitive(U32) });
    assert_eq!(plain.ty.description(), U32);
    let inner = describe(&[("x", U8), ("y", U16)], LayoutDirective::Standard);
    let field = holding("b", describe(&[("x", U8), ("y", U16)], LayoutDirective::Standard));
    assert_eq!(field.name, "b");
    assert_eq!(field.ty.description(), DescribedType { size: 4, align: 2 });
    assert_eq!(field.ty, FieldType::Struct(inner));
}

#[test]
fn nested_mirrors_follow_the_description() {
    let child1 = || describe(&[("x", U8), ("y", U16)], LayoutDirective::Standard);
    let child2 = || describe(&[("x", U8), ("y", U16)], LayoutDirective::Aligned(8));
    let child3 = || describe(&[("x", U8), ("y", U16)], LayoutDirective::Packed(1));
    let parent = DescribedStruct::new(
        vec![
            primitive("a", U8),
            holding("b", child1()),
            holding("c", child2()),
            holding("d", child3()),
            primitive("e", U8),
        ],
        LayoutDirective::Packed(2),
    )
    .unwrap();
    assert_eq!(parent.described_type(), DescribedType { size: 18, align: 2 });
    let region = zeroed(0x5002, 18);
    let root = Volatile::from_ref(&region, parent.described_type()).unwrap();
    let mirror = root.deref(&parent).unwrap();

    assert!(mirror.nested(0).is_none());
    assert!(mirror.nested(4).is_none());
    assert!(mirror.nested(5).is_none());
    let expected = [
        (1, 0x5004, [0x5004, 0x5006], [1, 2]),
        (2, 0x5008, [0x5008, 0x500a], [1, 2]),
        (3, 0x5010, [0x5010, 0x5011], [1, 1]),
    ];
    for (index, base, addresses, alignments) in expected {
        let nested = mirror.nested(index).unwrap();
        assert_eq!(nested.base(), base);
        assert_eq!(nested.len(), 2);
        for inner in 0..2 {
            let pointer = nested.field(inner).unwrap().as_wrapper_pointer();
            assert_eq!(pointer.address, addresses[inner]);
            assert_eq!(pointer.alignment, alignments[inner]);
        }
    }
    assert_eq!(mirror.nested_named("c"), mirror.nested(2));
    assert!(mirror.nested_named("a").is_none());
    assert!(mirror.nested_named("z").is_none());
    // The same mirror is reached through the cell of the field.
    assert_eq!(mirror.nested(1), mirror.field(1).unwrap().deref(&child1()));
    assert_eq!(*mirror.nested(3).unwrap().field(1).unwrap().carrier(), Carrier { chain: vec![2, 1] });
    assert_eq!(*mirror.nested(1).unwrap().field(1).unwrap().carrier(), Carrier { chain: vec![2] });
}

#[test]
fn nested_mirrors_reach_any_depth() {
    let leaf = describe(&[("lo", U16), ("hi", U16)], LayoutDirective::Standard);
    let mut described = leaf;
    let mut expected = 0x7000;
    for depth in 0..6 {
        described = DescribedStruct::new(
            vec![primitive("tag", U32), holding("inner", described)],
            if depth % 2 == 0 { LayoutDirective::Standard } else { LayoutDirective::Packed(2) },
        )
        .unwrap();
        expected += 4;
    }
    assert_eq!(described.size(), 6 * 4 + 4);
    let mut region = zeroed(0x7000, described.size());
    let root = Volatile::from_ref(&region, described.described_type()).unwrap();
    let mut mirror = root.deref(&described).unwrap();
    for _ in 0..6 {
        mirror = mirror.nested(1).unwrap();
    }
    assert_eq!(mirror.base(), expected);
    assert!(mirror.nested(0).is_none());
    let hi = mirror.field_named("hi").unwrap();
    assert_eq!(hi.as_wrapper_pointer(), WrapperPointer { address: expected + 2, size: 2, alignment: 2 });
    assert_eq!(*hi.carrier(), Carrier { chain: vec![2, 2, 2] });
    hi.write(&mut region, vec![0xcd, 0xab]);
    assert_eq!(region.bytes[24..], [0, 0, 0xcd, 0xab]);
    assert!(region.bytes[..24].iter().all(|byte| *byte == 0));
}

#[test]
fn every_read_and_write_is_exactly_one_access() {
    let described = describe(&[("a", U8), ("b", U32), ("c", U16)], LayoutDirective::Packed(2));
    let mut region = Region::new(0x402, (1u8..=8).collect());
    assert!(region.accesses.is_empty());
    let root = Volatile::from_ref(&region, described.described_type()).unwrap();
    let mirror = root.deref(&described).unwrap();
    assert!(region.accesses.is_empty());

    let b = mirror.field_named("b").unwrap();
    let c = mirror.field_named("c").unwrap();
    let at_b = WrapperPointer { address: 0x404, size: 4, alignment: 2 };
    let at_c = WrapperPointer { address: 0x408, size: 2, alignment: 2 };
    assert_eq!(b.read(&mut region), vec![3, 4, 5, 6]);
    assert_eq!(region.accesses, vec![Access { kind: AccessKind::Load, pointer: at_b }]);
    c.write(&mut region, vec![0x11, 0x22]);
    b.write(&mut region, vec![9, 9, 9, 9]);
    assert_eq!(b.read(&mut region), vec![9, 9, 9, 9]);
    assert_eq!(b.read(&mut region), vec![9, 9, 9, 9]);
    assert_eq!(
        region.accesses,
        vec![
            Access { kind: AccessKind::Load, pointer: at_b },
            Access { kind: AccessKind::Store, pointer: at_c },
            Access { kind: AccessKind::Store, pointer: at_b },
            Access { kind: AccessKind::Load, pointer: at_b },
            Access { kind: AccessKind::Load, pointer: at_b },
        ]
    );
    assert_eq!(region.bytes, vec![1, 2, 9, 9, 9, 9, 0x11, 0x22]);
    assert_eq!(region.start, 0x402);
}

#[test]
fn mirror_keeps_no_storage_per_field() {
    // A mirror holds an address, the chain of enclosing bounds and a
    // reference to the description; a cell holds an address, an offset, the
    // size and alignment of its value and the chain.
    assert_eq!(
        size_of::<Mirror>(),
        size_of::<usize>() + size_of::<Vec<usize>>() + size_of::<&DescribedStruct>()
    );
    assert_eq!(size_of::<Volatile>(), 4 * size_of::<usize>() + size_of::<Vec<usize>>());

    let small = describe(&[("a", U8)], LayoutDirective::Standard);
    let fields: Vec<(String, DescribedType)> = (0..64).map(|i| (format!("f{i}"), U64)).collect();
    let named: Vec<(&str, DescribedType)> =
        fields.iter().map(|(name, ty)| (name.as_str(), *ty)).collect();
    let large = describe(&named, LayoutDirective::Packed(4));
    let region = zeroed(0x9000, large.size());
    let of_small = Volatile::from_ref(&region, small.described_type()).unwrap();
    let of_large = Volatile::from_ref(&region, large.described_type()).unwrap();
    let small_mirror = of_small.deref(&small).unwrap();
    let large_mirror = of_large.deref(&large).unwrap();
    assert_eq!(size_of_val(&small_mirror), size_of_val(&large_mirror));
    // What a mirror holds on the heap is its chain of bounds, which is as
    // long as the number of packed structs around it, whatever the fields.
    assert_eq!(small_mirror.field(0).unwrap().carrier().chain.len(), 0);
    for index in [0, 31, 63] {
        assert_eq!(large_mirror.field(index).unwrap().carrier().chain, vec![4]);
    }
    // No byte of the region is copied: a cell made before a store reads what
    // was stored after it was made.
    let mut region = region;
    let cell = large_mirror.field(5).unwrap();
    large_mirror.field(5).unwrap().write(&mut region, vec![7; 8]);
    assert_eq!(cell.read(&mut region), vec![7; 8]);
}
