//! Describing a struct and laying it out as a C compiler would.
//!
//! A described struct is an ordered list of fields and a layout directive.
//! The type of a field is a primitive, known by its size and natural
//! alignment, or a described struct in turn.  The order of the fields is the
//! only input to their offsets: a field starts at the end of the field before
//! it, rounded up to the field's effective alignment.

use crate::alignment::min_nat;
use crate::offset::{
    align_up, checked_align_to, is_power_of_two, lemma_align_up_bounds,
    lemma_power_of_two_divides, power_of_two, Align, Offset, PastField,
};
use vstd::prelude::*;
use vstd::string::*;

verus! {

/// The size and natural alignment of a type, in bytes.
#[derive(Debug, Clone, Copy, PartialEq, Eq, Structural)]
pub struct DescribedType {
    pub size: usize,
    pub align: usize,
}

/// How the fields of a struct are placed.
#[derive(Debug, Clone, Copy, PartialEq, Eq, Structural)]
pub enum LayoutDirective {
    /// Every field at its natural alignment.
    Standard,
    /// No field aligned to more than the given bound.
    Packed(usize),
    /// The struct as a whole aligned to at least the given bound.
    Aligned(usize),
}

/// The type of a field: a primitive of a given size and alignment, or a
/// described struct.
#[derive(Debug, PartialEq, Eq)]
pub enum FieldType {
    Primitive(DescribedType),
    Struct(DescribedStruct),
}

/// A named field of a described struct.
#[derive(Debug, PartialEq, Eq)]
pub struct DescribedField {
    pub name: String,
    pub ty: FieldType,
}

/// Why a struct has no layout.
#[derive(Debug, Clone, Copy, PartialEq, Eq, Structural)]
pub enum LayoutError {
    /// The bound of the directive is not a power of two.
    UnsupportedDirective,
    /// The natural alignment of the field at `field` is not a power of two.
    UnsupportedAlignment { field: usize },
    /// The size of the struct does not fit in a `usize`.
    TooLarge,
}

impl DescribedType {
    /// Whether the alignment is a power of two.
    pub open spec fn valid(self) -> bool {
        is_power_of_two(self.align as nat)
    }

    /// Whether the alignment is a power of two.
    pub fn is_valid(&self) -> (valid: bool)
        ensures
            valid == self.valid(),
    {
        power_of_two(self.align)
    }
}

impl LayoutDirective {
    /// Whether the bound, if there is one, is a power of two.
    pub open spec fn valid(self) -> bool {
        match self {
            LayoutDirective::Standard => true,
            LayoutDirective::Packed(bound) => is_power_of_two(bound as nat),
            LayoutDirective::Aligned(bound) => is_power_of_two(bound as nat),
        }
    }

    /// Whether the bound, if there is one, is a power of two.
    pub fn is_valid(&self) -> (valid: bool)
        ensures
            valid == self.valid(),
    {
        match self {
            LayoutDirective::Standard => true,
            LayoutDirective::Packed(bound) => power_of_two(*bound),
            LayoutDirective::Aligned(bound) => power_of_two(*bound),
        }
    }

    /// The packing bound, if the directive has one.
    pub open spec fn packing(self) -> Option<usize> {
        match self {
            LayoutDirective::Packed(bound) => Some(bound),
            _ => None,
        }
    }
}

/// The alignment of a field within its struct: its natural alignment, capped
/// by the packing bound of the struct.
pub open spec fn effective_alignment(natural: nat, directive: LayoutDirective) -> nat {
    match directive {
        LayoutDirective::Packed(bound) => min_nat(natural, bound as nat),
        _ => natural,
    }
}

/// Where the first `count` fields end: the offset just past the last of them,
/// and zero where there is none.
pub open spec fn fields_end(types: Seq<DescribedType>, directive: LayoutDirective, count: nat) -> nat
    decreases count,
{
    if count == 0 {
        0
    } else {
        align_up(
            fields_end(types, directive, (count - 1) as nat),
            effective_alignment(types[count - 1].align as nat, directive),
        ) + types[count - 1].size as nat
    }
}

/// The offset of the field at `index`: the end of the fields before it,
/// rounded up to its effective alignment.
pub open spec fn field_offset(types: Seq<DescribedType>, directive: LayoutDirective, index: nat) -> nat {
    align_up(
        fields_end(types, directive, index),
        effective_alignment(types[index as int].align as nat, directive),
    )
}

/// The highest effective alignment among the first `count` fields, and one
/// where there is none.
pub open spec fn fields_alignment(
    types: Seq<DescribedType>,
    directive: LayoutDirective,
    count: nat,
) -> nat
    decreases count,
{
    if count == 0 {
        1
    } else {
        let before = fields_alignment(types, directive, (count - 1) as nat);
        let own = effective_alignment(types[count - 1].align as nat, directive);
        if own > before {
            own
        } else {
            before
        }
    }
}

/// The alignment of the struct: the highest effective alignment among its
/// fields, or the bound of an `Aligned` directive where that is higher.
pub open spec fn struct_alignment(types: Seq<DescribedType>, directive: LayoutDirective) -> nat {
    let fields = fields_alignment(types, directive, types.len());
    match directive {
        LayoutDirective::Aligned(bound) => if bound as nat > fields {
            bound as nat
        } else {
            fields
        },
        _ => fields,
    }
}

/// The size of the struct: the end of its fields, rounded up to its
/// alignment.
pub open spec fn struct_size(types: Seq<DescribedType>, directive: LayoutDirective) -> nat {
    align_up(fields_end(types, directive, types.len()), struct_alignment(types, directive))
}

/// Whether the alignment of every type is a power of two.
pub open spec fn types_valid(types: Seq<DescribedType>) -> bool {
    forall|i: int| 0 <= i < types.len() ==> (#[trigger] types[i]).valid()
}

/// The first of the first `count` types whose alignment is no power of two.
pub open spec fn first_invalid(types: Seq<DescribedType>, count: nat) -> Option<nat>
    decreases count,
{
    if count == 0 {
        None
    } else {
        match first_invalid(types, (count - 1) as nat) {
            Some(index) => Some(index),
            None => if types[count - 1].valid() {
                None
            } else {
                Some((count - 1) as nat)
            },
        }
    }
}

/// Why the struct has no layout, or `None` where it has one.
pub open spec fn layout_error(types: Seq<DescribedType>, directive: LayoutDirective) -> Option<
    LayoutError,
> {
    if !directive.valid() {
        Some(LayoutError::UnsupportedDirective)
    } else {
        match first_invalid(types, types.len()) {
            Some(field) => Some(LayoutError::UnsupportedAlignment { field: field as usize }),
            None => if struct_size(types, directive) > usize::MAX {
                Some(LayoutError::TooLarge)
            } else {
                None
            },
        }
    }
}

/// `first_invalid` names a type that is not valid, and every type before it
/// is.  Where it names none, all of the first `count` types are valid.
pub proof fn lemma_first_invalid(types: Seq<DescribedType>, count: nat)
    requires
        count <= types.len(),
    ensures
        match first_invalid(types, count) {
            Some(index) => index < count && !types[index as int].valid() && forall|i: int|
                0 <= i < index ==> (#[trigger] types[i]).valid(),
            None => forall|i: int| 0 <= i < count ==> (#[trigger] types[i]).valid(),
        },
    decreases count,
{
    if count > 0 {
        lemma_first_invalid(types, (count - 1) as nat);
    }
}

/// Once a type that is not valid is found, later types do not matter.
pub proof fn lemma_first_invalid_stops(types: Seq<DescribedType>, found: nat, count: nat)
    requires
        found <= count,
        first_invalid(types, found) is Some,
    ensures
        first_invalid(types, count) == first_invalid(types, found),
    decreases count,
{
    if found < count {
        lemma_first_invalid_stops(types, found, (count - 1) as nat);
    }
}

/// The effective alignment of a valid type under a valid directive is a
/// power of two that does not exceed the natural alignment.
pub proof fn lemma_effective_alignment(ty: DescribedType, directive: LayoutDirective)
    requires
        ty.valid(),
        directive.valid(),
    ensures
        is_power_of_two(effective_alignment(ty.align as nat, directive)),
        0 < effective_alignment(ty.align as nat, directive) <= ty.align,
{
}

/// The fields lie one after the other: the end of the first `low` fields is
/// not past the end of the first `high` fields, and a field starts where the
/// fields before it end or later.
pub proof fn lemma_fields_end_monotone(
    types: Seq<DescribedType>,
    directive: LayoutDirective,
    low: nat,
    high: nat,
)
    requires
        types_valid(types),
        directive.valid(),
        low <= high <= types.len(),
    ensures
        fields_end(types, directive, low) <= fields_end(types, directive, high),
        high < types.len() ==> fields_end(types, directive, low) <= field_offset(
            types,
            directive,
            high,
        ),
    decreases high,
{
    if high < types.len() {
        lemma_effective_alignment(types[high as int], directive);
        lemma_align_up_bounds(
            fields_end(types, directive, high),
            effective_alignment(types[high as int].align as nat, directive),
        );
    }
    if low < high {
        lemma_fields_end_monotone(types, directive, low, (high - 1) as nat);
        lemma_effective_alignment(types[high - 1], directive);
        lemma_align_up_bounds(
            fields_end(types, directive, (high - 1) as nat),
            effective_alignment(types[high - 1].align as nat, directive),
        );
    }
}

/// No two fields overlap: an earlier field ends before a later one starts.
pub proof fn lemma_fields_disjoint(
    types: Seq<DescribedType>,
    directive: LayoutDirective,
    first: nat,
    second: nat,
)
    requires
        types_valid(types),
        directive.valid(),
        first < second < types.len(),
    ensures
        field_offset(types, directive, first) + types[first as int].size <= field_offset(
            types,
            directive,
            second,
        ),
{
    lemma_fields_end_monotone(types, directive, first + 1, second);
}

/// The alignment of the fields is a power of two, and no field has a higher
/// effective alignment.
pub proof fn lemma_fields_alignment(
    types: Seq<DescribedType>,
    directive: LayoutDirective,
    count: nat,
)
    requires
        types_valid(types),
        directive.valid(),
        count <= types.len(),
    ensures
        is_power_of_two(fields_alignment(types, directive, count)),
        forall|i: int|
            0 <= i < count ==> effective_alignment(
                (#[trigger] types[i]).align as nat,
                directive,
            ) <= fields_alignment(types, directive, count),
    decreases count,
{
    if count > 0 {
        lemma_fields_alignment(types, directive, (count - 1) as nat);
        lemma_effective_alignment(types[count - 1], directive);
    }
}

/// The alignment of a struct is a power of two that every field's
/// effective alignment divides, and the size of the struct is a multiple of
/// it.  A packed struct is aligned to no more than its bound, an aligned one
/// to no less.
pub proof fn lemma_struct_alignment(types: Seq<DescribedType>, directive: LayoutDirective)
    requires
        types_valid(types),
        directive.valid(),
    ensures
        is_power_of_two(struct_alignment(types, directive)),
        struct_size(types, directive) % struct_alignment(types, directive) == 0,
        fields_end(types, directive, types.len()) <= struct_size(types, directive),
        forall|i: int|
            0 <= i < types.len() ==> struct_alignment(types, directive) % effective_alignment(
                (#[trigger] types[i]).align as nat,
                directive,
            ) == 0,
        directive matches LayoutDirective::Packed(bound) ==> struct_alignment(types, directive)
            <= bound,
        directive matches LayoutDirective::Aligned(bound) ==> struct_alignment(types, directive)
            >= bound,
{
    lemma_fields_alignment(types, directive, types.len());
    lemma_align_up_bounds(
        fields_end(types, directive, types.len()),
        struct_alignment(types, directive),
    );
    assert forall|i: int| 0 <= i < types.len() implies struct_alignment(types, directive)
        % effective_alignment((#[trigger] types[i]).align as nat, directive) == 0 by {
        lemma_effective_alignment(types[i], directive);
        lemma_power_of_two_divides(
            effective_alignment(types[i].align as nat, directive),
            struct_alignment(types, directive),
        );
    }
    if directive is Packed {
        lemma_packed_alignment(types, directive, types.len());
    }
}

/// The fields of a packed struct are aligned to no more than its bound.
proof fn lemma_packed_alignment(types: Seq<DescribedType>, directive: LayoutDirective, count: nat)
    requires
        directive.valid(),
        directive is Packed,
        count <= types.len(),
    ensures
        directive matches LayoutDirective::Packed(bound) && fields_alignment(
            types,
            directive,
            count,
        ) <= bound,
    decreases count,
{
    if count > 0 {
        lemma_packed_alignment(types, directive, (count - 1) as nat);
    }
}

/// Every field starts at a multiple of its effective alignment and lies
/// within the struct.
pub proof fn lemma_field_placed(types: Seq<DescribedType>, directive: LayoutDirective, index: nat)
    requires
        types_valid(types),
        directive.valid(),
        index < types.len(),
    ensures
        field_offset(types, directive, index) % effective_alignment(
            types[index as int].align as nat,
            directive,
        ) == 0,
        field_offset(types, directive, index) + types[index as int].size <= struct_size(
            types,
            directive,
        ),
{
    lemma_effective_alignment(types[index as int], directive);
    lemma_align_up_bounds(
        fields_end(types, directive, index),
        effective_alignment(types[index as int].align as nat, directive),
    );
    lemma_fields_end_monotone(types, directive, index + 1, types.len());
    lemma_struct_alignment(types, directive);
}

/// The steps of the offset algebra place the fields: from the end of the
/// fields before it, `Align` leads to the start of a field and `PastField`
/// to its end.
pub proof fn lemma_offset_steps<B: Offset>(
    before: B,
    types: Seq<DescribedType>,
    directive: LayoutDirective,
    index: nat,
)
    requires
        index < types.len(),
        before.offset() == fields_end(types, directive, index),
    ensures
        ({
            let start = Align {
                base: before,
                alignment: effective_alignment(types[index as int].align as nat, directive) as usize,
            };
            let end = PastField { base: start, size: types[index as int].size };
            &&& start.offset() == field_offset(types, directive, index)
            &&& end.offset() == fields_end(types, directive, index + 1)
        }),
{
}

/// Whether a struct of these fields has a layout: the directive and the
/// types are valid, and the size fits in a `usize`.
pub open spec fn has_layout(types: Seq<DescribedType>, directive: LayoutDirective) -> bool {
    &&& directive.valid()
    &&& types_valid(types)
    &&& struct_size(types, directive) <= usize::MAX
}

/// A struct has a layout unless there is a reason why it has none.
pub proof fn lemma_has_layout(types: Seq<DescribedType>, directive: LayoutDirective)
    ensures
        has_layout(types, directive) <==> layout_error(types, directive) is None,
{
    lemma_first_invalid(types, types.len());
}

/// The first of the first `count` fields that has the given name.
pub open spec fn first_named(fields: Seq<DescribedField>, name: Seq<char>, count: nat) -> Option<
    nat,
>
    decreases count,
{
    if count == 0 {
        None
    } else {
        match first_named(fields, name, (count - 1) as nat) {
            Some(index) => Some(index),
            None => if fields[count - 1].name@ == name {
                Some((count - 1) as nat)
            } else {
                None
            },
        }
    }
}

/// `first_named` names a field of the given name, and no field before it
/// has that name.  Where it names none, none of the first `count` fields has
/// the name.
pub proof fn lemma_first_named(fields: Seq<DescribedField>, name: Seq<char>, count: nat)
    requires
        count <= fields.len(),
    ensures
        match first_named(fields, name, count) {
            Some(index) => index < count && fields[index as int].name@ == name && forall|i: int|
                0 <= i < index ==> (#[trigger] fields[i]).name@ != name,
            None => forall|i: int| 0 <= i < count ==> (#[trigger] fields[i]).name@ != name,
        },
    decreases count,
{
    if count > 0 {
        lemma_first_named(fields, name, (count - 1) as nat);
    }
}

/// Once a field of the given name is found, later fields do not matter.
pub proof fn lemma_first_named_stops(
    fields: Seq<DescribedField>,
    name: Seq<char>,
    found: nat,
    count: nat,
)
    requires
        found <= count,
        first_named(fields, name, found) is Some,
    ensures
        first_named(fields, name, count) == first_named(fields, name, found),
    decreases count,
{
    if found < count {
        lemma_first_named_stops(fields, name, found, (count - 1) as nat);
    }
}

/// The type of the first field with the given name.
pub open spec fn resolve(fields: Seq<DescribedField>, name: Seq<char>) -> Option<DescribedType> {
    match first_named(fields, name, fields.len()) {
        Some(index) => Some(fields[index as int].ty.described()),
        None => None,
    }
}

/// Whether a field name is the given one.
fn is_named(field: &String, name: &str) -> (same: bool)
    ensures
        same == (field@ == name@),
{
    let wanted: String = String::from_str(name);
    *field == wanted
}

/// Finds the first field with the given name.
pub fn find_named(fields: &Vec<DescribedField>, name: &str) -> (index: Option<usize>)
    ensures
        match index {
            Some(index) => index < fields@.len() && first_named(fields@, name@, fields@.len())
                == Some(index as nat),
            None => first_named(fields@, name@, fields@.len()) is None,
        },
{
    let mut index: usize = 0;
    while index < fields.len()
        invariant
            index <= fields@.len(),
            first_named(fields@, name@, index as nat) is None,
        decreases fields@.len() - index,
    {
        if is_named(&fields[index].name, name) {
            proof {
                assert(first_named(fields@, name@, (index + 1) as nat) == Some(index as nat));
                lemma_first_named_stops(fields@, name@, (index + 1) as nat, fields@.len());
            }
            return Some(index);
        }
        index += 1;
    }
    None
}

/// The types of a list of fields, in order.
pub open spec fn field_types(fields: Seq<DescribedField>) -> Seq<DescribedType> {
    Seq::new(fields.len(), |i: int| fields[i].ty.described())
}

/// A struct that has a layout: its fields in the order of declaration, its
/// directive, and the offsets, size and alignment that follow from them.
#[derive(Debug, PartialEq, Eq)]
pub struct DescribedStruct {
    fields: Vec<DescribedField>,
    directive: LayoutDirective,
    offsets: Vec<usize>,
    size: usize,
    align: usize,
}

impl FieldType {
    /// The primitive type with the size and natural alignment of `T`.
    pub fn of<T>() -> (ty: FieldType)
        ensures
            ty == FieldType::Primitive(
                DescribedType {
                    size: vstd::layout::size_of::<T>() as usize,
                    align: vstd::layout::align_of::<T>() as usize,
                },
            ),
            ty.described().size == vstd::layout::size_of::<T>(),
            ty.described().align == vstd::layout::align_of::<T>(),
    {
        FieldType::Primitive(
            DescribedType { size: core::mem::size_of::<T>(), align: core::mem::align_of::<T>() },
        )
    }

    /// The size and natural alignment of the type.
    pub open spec fn described(self) -> DescribedType {
        match self {
            FieldType::Primitive(ty) => ty,
            FieldType::Struct(described) => described.spec_described_type(),
        }
    }

    /// The size and natural alignment of the type.
    pub fn description(&self) -> (ty: DescribedType)
        ensures
            ty == self.described(),
    {
        match self {
            FieldType::Primitive(ty) => *ty,
            FieldType::Struct(described) => described.described_type(),
        }
    }
}

impl DescribedField {
    /// A field of a primitive type.
    pub fn primitive(name: String, ty: DescribedType) -> (field: DescribedField)
        ensures
            field.name == name,
            field.ty == FieldType::Primitive(ty),
    {
        DescribedField { name, ty: FieldType::Primitive(ty) }
    }

    /// A field that holds the struct `described`.
    pub fn holding(name: String, described: DescribedStruct) -> (field: DescribedField)
        ensures
            field.name == name,
            field.ty == FieldType::Struct(described),
    {
        DescribedField { name, ty: FieldType::Struct(described) }
    }
}

impl DescribedStruct {
    #[verifier::type_invariant]
    spec fn laid_out(self) -> bool {
        &&& self.directive.valid()
        &&& types_valid(field_types(self.fields@))
        &&& self.offsets@.len() == self.fields@.len()
        &&& forall|i: int|
            0 <= i < self.fields@.len() ==> (#[trigger] self.offsets@[i]) == field_offset(
                field_types(self.fields@),
                self.directive,
                i as nat,
            )
        &&& self.size == struct_size(field_types(self.fields@), self.directive)
        &&& self.align == struct_alignment(field_types(self.fields@), self.directive)
    }

    /// The fields, in the order of declaration.
    pub closed spec fn fields(self) -> Seq<DescribedField> {
        self.fields@
    }

    /// The types of the fields, in the order of declaration.
    pub open spec fn types(self) -> Seq<DescribedType> {
        field_types(self.fields())
    }

    /// The layout directive.
    pub closed spec fn directive(self) -> LayoutDirective {
        self.directive
    }

    /// The struct as the type of a field: its size and alignment.
    pub closed spec fn spec_described_type(self) -> DescribedType {
        DescribedType { size: self.size, align: self.align }
    }

    /// Lays out a struct.
    ///
    /// The bound of the directive and the alignment of every field must be
    /// powers of two, and the struct must not be larger than a `usize` can
    /// say.  Fields keep their order.
    pub fn new(fields: Vec<DescribedField>, directive: LayoutDirective) -> (described: Result<
        DescribedStruct,
        LayoutError,
    >)
        ensures
            match described {
                Ok(described) => {
                    &&& layout_error(field_types(fields@), directive) is None
                    &&& described.fields() == fields@
                    &&& described.directive() == directive
                },
                Err(error) => layout_error(field_types(fields@), directive) == Some(error),
            },
    {
        let ghost types = field_types(fields@);
        if !directive.is_valid() {
            return Err(LayoutError::UnsupportedDirective);
        }
        let mut checked: usize = 0;
        while checked < fields.len()
            invariant
                checked <= fields@.len(),
                types == field_types(fields@),
                directive.valid(),
                first_invalid(types, checked as nat) is None,
            decreases fields@.len() - checked,
        {
            if !fields[checked].ty.description().is_valid() {
                proof {
                    assert(types[checked as int] == fields@[checked as int].ty.described());
                    assert(first_invalid(types, (checked + 1) as nat) == Some(checked as nat));
                    lemma_first_invalid_stops(types, (checked + 1) as nat, types.len());
                }
                return Err(LayoutError::UnsupportedAlignment { field: checked });
            }
            assert(types[checked as int] == fields@[checked as int].ty.described());
            checked += 1;
        }
        proof {
            lemma_first_invalid(types, types.len());
            lemma_struct_alignment(types, directive);
        }
        let mut offsets: Vec<usize> = Vec::new();
        let mut end: usize = 0;
        let mut align: usize = 1;
        let mut index: usize = 0;
        while index < fields.len()
            invariant
                index <= fields@.len(),
                types == field_types(fields@),
                types_valid(types),
                directive.valid(),
                first_invalid(types, types.len()) is None,
                fields_end(types, directive, types.len()) <= struct_size(types, directive),
                offsets@.len() == index,
                forall|i: int|
                    0 <= i < index ==> (#[trigger] offsets@[i]) == field_offset(
                        types,
                        directive,
                        i as nat,
                    ),
                end == fields_end(types, directive, index as nat),
                align == fields_alignment(types, directive, index as nat),
            decreases fields@.len() - index,
        {
            let ty: DescribedType = fields[index].ty.description();
            let own: usize = match directive {
                LayoutDirective::Packed(bound) => if ty.align <= bound {
                    ty.align
                } else {
                    bound
                },
                _ => ty.align,
            };
            proof {
                assert(ty == types[index as int]);
                lemma_effective_alignment(ty, directive);
                lemma_fields_end_monotone(types, directive, (index + 1) as nat, types.len());
                lemma_align_up_bounds(end as nat, own as nat);
            }
            let start: usize = match checked_align_to(end, own) {
                Some(start) => start,
                None => {
                    return Err(LayoutError::TooLarge);
                },
            };
            end = match start.checked_add(ty.size) {
                Some(end) => end,
                None => {
                    return Err(LayoutError::TooLarge);
                },
            };
            offsets.push(start);
            if own > align {
                align = own;
            }
            index += 1;
        }
        match directive {
            LayoutDirective::Aligned(bound) => {
                if bound > align {
                    align = bound;
                }
            },
            _ => {},
        }
        let size: usize = match checked_align_to(end, align) {
            Some(size) => size,
            None => {
                return Err(LayoutError::TooLarge);
            },
        };
        Ok(DescribedStruct { fields, directive, offsets, size, align })
    }

    /// The number of fields.
    pub fn len(&self) -> (len: usize)
        ensures
            len == self.fields().len(),
            has_layout(self.types(), self.directive()),
    {
        proof {
            use_type_invariant(self);
        }
        self.fields.len()
    }

    /// The size of the struct in bytes.
    pub fn size(&self) -> (size: usize)
        ensures
            size == struct_size(self.types(), self.directive()),
            has_layout(self.types(), self.directive()),
    {
        proof {
            use_type_invariant(self);
        }
        self.size
    }

    /// The alignment of the struct in bytes.
    pub fn align(&self) -> (align: usize)
        ensures
            align == struct_alignment(self.types(), self.directive()),
            has_layout(self.types(), self.directive()),
    {
        proof {
            use_type_invariant(self);
        }
        self.align
    }

    /// The struct as the type of a field.
    pub fn described_type(&self) -> (ty: DescribedType)
        ensures
            ty == self.spec_described_type(),
            ty.size == struct_size(self.types(), self.directive()),
            ty.align == struct_alignment(self.types(), self.directive()),
            ty.valid(),
            has_layout(self.types(), self.directive()),
    {
        proof {
            use_type_invariant(self);
            lemma_struct_alignment(self.types(), self.directive());
        }
        DescribedType { size: self.size, align: self.align }
    }

    /// The layout directive.
    pub fn layout_directive(&self) -> (directive: LayoutDirective)
        ensures
            directive == self.directive(),
    {
        self.directive
    }

    /// The packing bound of the struct, if it is packed.
    pub fn packing(&self) -> (bound: Option<usize>)
        ensures
            bound == self.directive().packing(),
    {
        match self.directive {
            LayoutDirective::Packed(bound) => Some(bound),
            _ => None,
        }
    }

    /// The field at `index`.
    pub fn field(&self, index: usize) -> (field: Option<&DescribedField>)
        ensures
            field == if index < self.fields().len() {
                Some(&self.fields()[index as int])
            } else {
                None
            },
    {
        if index < self.fields.len() {
            Some(&self.fields[index])
        } else {
            None
        }
    }

    /// The offset of the field at `index`, in bytes from the start of the
    /// struct.
    pub fn offset(&self, index: usize) -> (offset: Option<usize>)
        ensures
            offset == if index < self.fields().len() {
                Some(field_offset(self.types(), self.directive(), index as nat) as usize)
            } else {
                None
            },
    {
        proof {
            use_type_invariant(self);
        }
        if index < self.offsets.len() {
            Some(self.offsets[index])
        } else {
            None
        }
    }

    /// The index of the first field with the given name.
    pub fn index_of(&self, name: &str) -> (index: Option<usize>)
        ensures
            match index {
                Some(index) => index < self.fields().len() && first_named(
                    self.fields(),
                    name@,
                    self.fields().len(),
                ) == Some(index as nat),
                None => first_named(self.fields(), name@, self.fields().len()) is None,
            },
    {
        find_named(&self.fields, name)
    }
}

} // verus!
