use zst_volatile::derive::{derive_volatile, Data, DeriveInput, Field, MirrorDef};
use zst_volatile::layout::{DescribedStruct, DescribedType, FieldType};
use zst_volatile::mirror::Mirror;
use zst_volatile::region::Region;
use zst_volatile::repr::{declared_align, Attribute, Lit, Meta, NestedMeta};
use zst_volatile::Volatile;

const U8: DescribedType = DescribedType { size: 1, align: 1 };
const U16: DescribedType = DescribedType { size: 2, align: 2 };
const U32: DescribedType = DescribedType { size: 4, align: 4 };

fn word(name: &str) -> NestedMeta {
    NestedMeta::Meta(Meta::Path(name.to_string()))
}

fn call(name: &str, value: &str) -> NestedMeta {
    NestedMeta::Meta(Meta::List(
        name.to_string(),
        vec![NestedMeta::Lit(Lit::Int(value.to_string()))],
    ))
}

fn repr(entries: Vec<NestedMeta>) -> Attribute {
    Attribute {
        path: "repr".to_string(),
        meta: Some(Meta::List("repr".to_string(), entries)),
    }
}

fn declare(name: &str, attrs: Vec<Attribute>, fields: &[(&str, &str)]) -> DeriveInput {
    DeriveInput {
        attrs,
        vis: "pub".to_string(),
        ident: name.to_string(),
        data: Data::Struct(
            fields
                .iter()
                .map(|(ident, ty)| Field {
                    vis: String::new(),
                    ident: Some(ident.to_string()),
                    ty: ty.to_string(),
                })
                .collect(),
        ),
    }
}

fn child1() -> DeriveInput {
    declare(
        "Child1",
        vec![repr(vec![word("C")])],
        &[("field1", "u32"), ("field2", "u32"), ("field3", "u32"), ("field4", "u32")],
    )
}

fn child2() -> DeriveInput {
    declare(
        "Child2",
        vec![repr(vec![word("C")])],
        &[("field1", "u32"), ("field2", "u32"), ("field3", "u32")],
    )
}

fn parent() -> DeriveInput {
    declare(
        "Parent",
        vec![repr(vec![word("C")])],
        &[("child1", "Child1"), ("child2", "Child2")],
    )
}

fn described(input: &DeriveInput, types: Vec<FieldType>) -> DescribedStruct {
    let mirror: MirrorDef = derive_volatile(input).unwrap();
    mirror.describe(types, declared_align(&input.attrs)).unwrap()
}

fn plain(types: &[DescribedType]) -> Vec<FieldType> {
    types.iter().map(|ty| FieldType::Primitive(*ty)).collect()
}

fn family() -> DescribedStruct {
    let child1 = described(&child1(), plain(&[U32, U32, U32, U32]));
    let child2 = described(&child2(), plain(&[U32, U32, U32]));
    described(
        &parent(),
        vec![FieldType::Struct(child1), FieldType::Struct(child2)],
    )
}

fn image(start: usize, values: &[u32]) -> Region {
    Region::new(
        start,
        values.iter().flat_map(|value| value.to_le_bytes()).collect(),
    )
}

fn read_u32(cell: &Volatile, region: &mut Region) -> u32 {
    assert!(region.contains(&cell.as_wrapper_pointer()));
    let bytes = cell.read(region);
    u32::from_le_bytes([bytes[0], bytes[1], bytes[2], bytes[3]])
}

fn write_u32(cell: &Volatile, region: &mut Region, value: u32) {
    assert!(region.contains(&cell.as_wrapper_pointer()));
    cell.write(region, value.to_le_bytes().to_vec());
}

pub fn sum_parent(parent: &Mirror, region: &mut Region) -> u32 {
    // The fields of children can be reached through the parent...
    let child1 = parent.nested_named("child1").unwrap();
    let sum_part1 = read_u32(&child1.field_named("field1").unwrap(), region)
        + read_u32(&child1.field_named("field2").unwrap(), region);

    // ... or by their position.
    let field3 = child1.field(2).unwrap();
    let field4 = child1.field(3).unwrap();
    let sum_part2 = read_u32(&field3, region) + read_u32(&field4, region);

    // A field can also be handed to another function.
    let sum_part3 = sum_child2(&parent.nested_named("child2").unwrap(), region);

    sum_part1 + sum_part2 + sum_part3
}

pub fn sum_child2(child: &Mirror, region: &mut Region) -> u32 {
    read_u32(&child.field_named("field1").unwrap(), region)
        + read_u32(&child.field_named("field2").unwrap(), region)
        + read_u32(&child.field_named("field3").unwrap(), region)
}

pub fn modify(parent: &Mirror, region: &mut Region) {
    let child1 = parent.nested_named("child1").unwrap();
    let child2 = parent.nested_named("child2").unwrap();

    // Access child 1.
    write_u32(&child1.field_named("field3").unwrap(), region, 3);

    // Access child 2.
    write_u32(&child2.field_named("field1").unwrap(), region, 3);

    // Access child 1 again: both children stay usable side by side.
    write_u32(&child1.field_named("field3").unwrap(), region, 3);
}

#[test]
fn struct_is_zero_sized() {
    let parent = derive_volatile(&parent()).unwrap();
    let child1 = derive_volatile(&child1()).unwrap();
    let child2 = derive_volatile(&child2()).unwrap();
    assert_eq!(parent.footprint().size(), 0);
    assert_eq!(child1.footprint().size(), 0);
    assert_eq!(child2.footprint().size(), 0);
}

#[test]
fn test_sum() {
    let family = family();
    let mut region = image(0x1000, &[1, 2, 3, 4, 5, 6, 7]);

    // Create a volatile reference.
    let root = Volatile::from_ref(&region, family.described_type()).unwrap();
    let volatile_parent = root.deref(&family).unwrap();

    // Do some work on the volatile reference.
    assert_eq!(
        sum_parent(&volatile_parent, &mut region),
        1 + 2 + 3 + 4 + 5 + 6 + 7
    );
}

#[test]
fn test_modify() {
    let family = family();
    let mut region = image(0x1000, &[1, 2, 3, 4, 5, 6, 7]);

    // Create a volatile reference.
    let root = Volatile::from_ref(&region, family.described_type()).unwrap();
    let volatile_parent = root.deref(&family).unwrap();

    modify(&volatile_parent, &mut region);
}

#[test]
fn parent_scenario_offsets_and_writes() {
    let family = family();
    let mut region = image(0x1000, &[1, 2, 3, 4, 5, 6, 7]);
    let root = Volatile::from_ref(&region, family.described_type()).unwrap();
    let parent = root.deref(&family).unwrap();

    assert_eq!(family.offset(0), Some(0));
    assert_eq!(family.offset(1), Some(16));
    match (&family.field(0).unwrap().ty, &family.field(1).unwrap().ty) {
        (FieldType::Struct(child1), FieldType::Struct(child2)) => {
            assert_eq!(child1.offset(2), Some(8));
            assert_eq!(child2.offset(0), Some(0));
        }
        other => panic!("{other:?}"),
    }
    assert_eq!(sum_parent(&parent, &mut region), 28);

    let child1 = parent.nested(0).unwrap();
    let child2 = parent.nested(1).unwrap();
    let c = child1.field_named("field3").unwrap();
    let a = child2.field_named("field1").unwrap();
    assert_eq!(c.as_ptr(), 0x1000 + 8);
    assert_eq!(a.as_ptr(), 0x1000 + 16);

    write_u32(&c, &mut region, 30);
    write_u32(&a, &mut region, 50);
    assert_eq!(read_u32(&c, &mut region), 30);
    assert_eq!(read_u32(&a, &mut region), 50);
    assert_eq!(region.bytes, image(0x1000, &[1, 2, 30, 4, 50, 6, 7]).bytes);
    assert_eq!(sum_parent(&parent, &mut region), 1 + 2 + 30 + 4 + 50 + 6 + 7);
}

#[test]
fn interleaved_writes_to_different_fields_commute() {
    let family = family();
    let start = image(0x2000, &[1, 2, 3, 4, 5, 6, 7]);
    let root = Volatile::from_ref(&start, family.described_type()).unwrap();
    let parent = root.deref(&family).unwrap();
    let child1 = parent.nested(0).unwrap();
    let child2 = parent.nested(1).unwrap();
    let first = child1.field(2).unwrap();
    let second = child2.field(0).unwrap();

    let mut one_then_two = image(0x2000, &[1, 2, 3, 4, 5, 6, 7]);
    write_u32(&first, &mut one_then_two, 11);
    write_u32(&second, &mut one_then_two, 22);

    let mut two_then_one = image(0x2000, &[1, 2, 3, 4, 5, 6, 7]);
    write_u32(&second, &mut two_then_one, 22);
    write_u32(&first, &mut two_then_one, 11);

    let mut interleaved = image(0x2000, &[1, 2, 3, 4, 5, 6, 7]);
    write_u32(&first, &mut interleaved, 10);
    write_u32(&second, &mut interleaved, 22);
    write_u32(&first, &mut interleaved, 11);

    assert_eq!(one_then_two.bytes, two_then_one.bytes);
    assert_eq!(interleaved.bytes, one_then_two.bytes);
    assert_eq!(one_then_two.bytes, image(0x2000, &[1, 2, 11, 4, 22, 6, 7]).bytes);
    // Only the order of the stores tells the runs apart.
    assert_eq!(one_then_two.accesses.len(), 2);
    assert_eq!(one_then_two.accesses[0], two_then_one.accesses[1]);
    assert_eq!(one_then_two.accesses[1], two_then_one.accesses[0]);
    assert_eq!(interleaved.accesses.len(), 3);
}

fn offset_from(base: usize, cell: &Volatile) -> usize {
    cell.as_ptr() - base
}

#[test]
fn test_repr_packed() {
    // struct Child1 { x: u8, y: u16 }, repr(C)
    let child1 = || {
        FieldType::Struct(described(
            &declare("Child1", vec![repr(vec![word("C")])], &[("x", "u8"), ("y", "u16")]),
            plain(&[U8, U16]),
        ))
    };
    // struct Child2 { x: u8, y: u16 }, repr(C) and repr(align(8))
    let child2 = || {
        FieldType::Struct(described(
            &declare(
                "Child2",
                vec![repr(vec![word("C")]), repr(vec![call("align", "8")])],
                &[("x", "u8"), ("y", "u16")],
            ),
            plain(&[U8, U16]),
        ))
    };
    // struct Child3 { x: u8, y: u16 }, repr(C) and repr(packed(1))
    let child3 = || {
        FieldType::Struct(described(
            &declare(
                "Child3",
                vec![repr(vec![word("C")]), repr(vec![call("packed", "1")])],
                &[("x", "u8"), ("y", "u16")],
            ),
            plain(&[U8, U16]),
        ))
    };
    let byte = || FieldType::Primitive(U8);

    // struct Parent1 { a: u8, b: Child1, c: Child2, d: u8 }, repr(C)
    let parent1 = described(
        &declare(
            "Parent1",
            vec![repr(vec![word("C")])],
            &[("a", "u8"), ("b", "Child1"), ("c", "Child2"), ("d", "u8")],
        ),
        vec![byte(), child1(), child2(), byte()],
    );

    assert_eq!(parent1.align(), 8);
    assert_eq!(parent1.size(), 24);

    let p1 = Region::new(0x4000, vec![1, 0, 2, 0, 3, 0, 0, 0, 4, 0, 5, 0, 0, 0, 0, 0, 6, 0, 0, 0, 0, 0, 0, 0]);
    let root1 = Volatile::from_ref(&p1, parent1.described_type()).unwrap();
    let v1 = root1.deref(&parent1).unwrap();
    let p1_addr = p1.start;
    let v1_addr = root1.as_ptr();
    let v1_b = v1.field_named("b").unwrap();
    let v1_c = v1.field_named("c").unwrap();
    let v1_b_fields = v1.nested_named("b").unwrap();
    let v1_c_fields = v1.nested_named("c").unwrap();

    assert_eq!(p1_addr, v1_addr);
    assert_eq!(0, offset_from(v1_addr, &v1.field_named("a").unwrap()));
    assert_eq!(2, offset_from(v1_addr, &v1_b));
    assert_eq!(8, offset_from(v1_addr, &v1_c));
    assert_eq!(16, offset_from(v1_addr, &v1.field_named("d").unwrap()));
    assert_eq!(
        2,
        offset_from(v1_addr, &v1_b_fields.field_named("x").unwrap())
    );
    assert_eq!(
        4,
        offset_from(v1_addr, &v1_b_fields.field_named("y").unwrap())
    );
    assert_eq!(
        8,
        offset_from(v1_addr, &v1_c_fields.field_named("x").unwrap())
    );
    assert_eq!(
        10,
        offset_from(v1_addr, &v1_c_fields.field_named("y").unwrap())
    );

    // struct Parent2 { a: u8, b: Child1, c: Child3 }, repr(C) and repr(C, packed)
    let parent2 = described(
        &declare(
            "Parent2",
            vec![repr(vec![word("C")]), repr(vec![word("C"), word("packed")])],
            &[("a", "u8"), ("b", "Child1"), ("c", "Child3")],
        ),
        vec![byte(), child1(), child3()],
    );

    assert_eq!(parent2.align(), 1);
    assert_eq!(parent2.size(), 8);

    let p2 = Region::new(0x4001, vec![1, 2, 0, 3, 0, 4, 5, 0]);
    let root2 = Volatile::from_ref(&p2, parent2.described_type()).unwrap();
    let v2 = root2.deref(&parent2).unwrap();
    let p2_addr = p2.start;
    let v2_addr = root2.as_ptr();
    let v2_b = v2.field_named("b").unwrap();
    let v2_c = v2.field_named("c").unwrap();
    let v2_b_fields = v2.nested_named("b").unwrap();
    let v2_c_fields = v2.nested_named("c").unwrap();

    assert_eq!(p2_addr, v2_addr);
    assert_eq!(0, offset_from(v2_addr, &v2.field_named("a").unwrap()));
    assert_eq!(1, offset_from(v2_addr, &v2_b));
    assert_eq!(5, offset_from(v2_addr, &v2_c));
    assert_eq!(
        1,
        offset_from(v2_addr, &v2_b_fields.field_named("x").unwrap())
    );
    assert_eq!(
        3,
        offset_from(v2_addr, &v2_b_fields.field_named("y").unwrap())
    );
    assert_eq!(
        5,
        offset_from(v2_addr, &v2_c_fields.field_named("x").unwrap())
    );
    assert_eq!(
        6,
        offset_from(v2_addr, &v2_c_fields.field_named("y").unwrap())
    );

    // struct Parent3 { a: u8, b: Child1, c: Child3 }, repr(C) and repr(C, packed(2))
    let parent3 = described(
        &declare(
            "Parent3",
            vec![repr(vec![word("C")]), repr(vec![word("C"), call("packed", "2")])],
            &[("a", "u8"), ("b", "Child1"), ("c", "Child3")],
        ),
        vec![byte(), child1(), child3()],
    );

    assert_eq!(parent3.align(), 2);
    assert_eq!(parent3.size(), 10);

    let p3 = Region::new(0x4002, vec![1, 0, 2, 0, 3, 0, 4, 5, 0, 0]);
    let root3 = Volatile::from_ref(&p3, parent3.described_type()).unwrap();
    let v3 = root3.deref(&parent3).unwrap();
    let p3_addr = p3.start;
    let v3_addr = root3.as_ptr();
    let v3_b = v3.field_named("b").unwrap();
    let v3_c = v3.field_named("c").unwrap();
    let v3_b_fields = v3.nested_named("b").unwrap();
    let v3_c_fields = v3.nested_named("c").unwrap();

    assert_eq!(p3_addr, v3_addr);
    assert_eq!(0, offset_from(v3_addr, &v3.field_named("a").unwrap()));
    assert_eq!(2, offset_from(v3_addr, &v3_b));
    assert_eq!(6, offset_from(v3_addr, &v3_c));
    assert_eq!(
        2,
        offset_from(v3_addr, &v3_b_fields.field_named("x").unwrap())
    );
    assert_eq!(
        4,
        offset_from(v3_addr, &v3_b_fields.field_named("y").unwrap())
    );
    assert_eq!(
        6,
        offset_from(v3_addr, &v3_c_fields.field_named("x").unwrap())
    );
    assert_eq!(
        7,
        offset_from(v3_addr, &v3_c_fields.field_named("y").unwrap())
    );
}
