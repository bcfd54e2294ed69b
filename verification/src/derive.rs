//! Generating the mirror of a struct from its declaration.
//!
//! [`derive_volatile`] takes the declaration as plain data and returns the
//! definition of the mirror: one volatile cell per field, each with the
//! offset expression that places it and the alignment type under which it
//! is accessed.  Turning a definition into source text is left to the caller.

use crate::layout::{
    effective_alignment, field_offset, field_types, fields_alignment, fields_end, find_named,
    has_layout, layout_error, lemma_has_layout, resolve, struct_alignment, struct_size,
    DescribedField, DescribedStruct, DescribedType, FieldType, LayoutDirective, LayoutError,
};
use crate::offset::{
    align_up, checked_align_to, is_power_of_two, lemma_align_up_bounds, power_of_two,
};
use crate::repr::{check_repr, repr_outcome, Attribute, ReprError};
use vstd::prelude::*;
use vstd::string::*;

verus! {

/// A field of a declared struct.
#[derive(Debug, PartialEq, Eq)]
pub struct Field {
    /// The field's visibility, as written.
    pub vis: String,
    /// The field's name; `None` for the fields of a tuple struct.
    pub ident: Option<String>,
    /// The field's type, as written.
    pub ty: String,
}

/// What kind of item a declaration is.
#[derive(Debug, PartialEq, Eq)]
pub enum Data {
    Struct(Vec<Field>),
    Enum,
    Union,
}

/// A declaration that a mirror is asked for.
#[derive(Debug, PartialEq, Eq)]
pub struct DeriveInput {
    pub attrs: Vec<Attribute>,
    pub vis: String,
    pub ident: String,
    pub data: Data,
}

/// Why no mirror was generated.
#[derive(Debug, Clone, Copy, PartialEq, Eq, Structural)]
pub enum DeriveError {
    /// The declaration is an enum or a union.
    OnlyStructs,
    /// The attributes of the struct were not accepted.
    Repr(ReprError),
    /// The packing bound is not a power of two.
    UnsupportedPacking { bound: usize },
    /// The field at `index` has no name.
    UnnamedField { index: usize },
}

impl DeriveError {
    /// What went wrong, in words.
    pub open spec fn spec_message(self) -> Seq<char> {
        match self {
            DeriveError::OnlyStructs => "only structs are supported"@,
            DeriveError::Repr(error) => error.kind.spec_message(),
            DeriveError::UnsupportedPacking { .. } => "packing bound has to be a power of two"@,
            DeriveError::UnnamedField { .. } => "only named fields are supported"@,
        }
    }

    /// What went wrong, in words.
    pub fn message(&self) -> (text: String)
        ensures
            text@ == self.spec_message(),
    {
        match self {
            DeriveError::OnlyStructs => String::from_str("only structs are supported"),
            DeriveError::Repr(error) => error.kind.message(),
            DeriveError::UnsupportedPacking { .. } => String::from_str(
                "packing bound has to be a power of two",
            ),
            DeriveError::UnnamedField { .. } => String::from_str("only named fields are supported"),
        }
    }
}

/// Where a field starts, written over the types of the fields before it.
#[derive(Debug, PartialEq, Eq)]
pub enum OffsetExpr {
    /// The start of the struct.
    Zero,
    /// `base`, rounded up to the alignment that `ty` has as a field of the
    /// struct.
    Align { base: Box<OffsetExpr>, ty: String },
    /// `base`, moved past a field of type `ty`.
    PastField { base: Box<OffsetExpr>, ty: String },
}

/// The alignment type that the cells of a mirror carry.
#[derive(Debug, PartialEq, Eq)]
pub enum AlignmentTy {
    /// The alignment that the mirror itself was given.
    Inherited,
    /// The named alignment type, wrapped around the one the mirror was given.
    Packed(String),
}

/// The alignment type and the transport wrapper of a packed struct.
#[derive(Debug, PartialEq, Eq)]
pub struct PackedWrapper {
    /// Visibility of both types.
    pub vis: String,
    /// Name of the alignment type.
    pub alignment_ident: String,
    /// Name of the wrapper through which values are moved.
    pub wrapper_ident: String,
    /// The packing bound that the wrapper is declared with.
    pub bound: usize,
}

/// One cell of a mirror.
#[derive(Debug, PartialEq, Eq)]
pub struct MirrorField {
    pub vis: String,
    pub ident: String,
    /// The type of the values that the cell holds.
    pub ty: String,
    /// Where the cell lies within the mirror.
    pub offset: OffsetExpr,
}

/// The definition of a mirror.
#[derive(Debug, PartialEq, Eq)]
pub struct MirrorDef {
    pub vis: String,
    /// Name of the mirror.
    pub ident: String,
    /// Name of the struct that is mirrored.
    pub source: String,
    /// The alignment type of every cell.
    pub alignment: AlignmentTy,
    pub fields: Vec<MirrorField>,
    /// The types that a packed struct needs besides the mirror.
    pub wrapper: Option<PackedWrapper>,
}

impl OffsetExpr {
    /// The offset that the expression stands for when each type has the size
    /// and alignment of the field of `types` that is named like it, in a
    /// struct with the directive `directive`.  There is none where a type is
    /// not named in `types` or has no alignment.
    pub open spec fn offset(self, types: Seq<DescribedField>, directive: LayoutDirective) -> Option<
        nat,
    >
        decreases self,
    {
        match self {
            OffsetExpr::Zero => Some(0nat),
            OffsetExpr::Align { base, ty } => match (
                (*base).offset(types, directive),
                resolve(types, ty@),
            ) {
                (Some(before), Some(found)) => if effective_alignment(
                    found.align as nat,
                    directive,
                ) > 0 {
                    Some(align_up(before, effective_alignment(found.align as nat, directive)))
                } else {
                    None
                },
                _ => None,
            },
            OffsetExpr::PastField { base, ty } => match (
                (*base).offset(types, directive),
                resolve(types, ty@),
            ) {
                (Some(before), Some(found)) => Some(before + found.size as nat),
                _ => None,
            },
        }
    }

    /// Computes the offset that the expression stands for, where there is
    /// one and it fits in a `usize`.
    pub fn evaluate(&self, types: &Vec<DescribedField>, directive: LayoutDirective) -> (value:
        Option<usize>)
        ensures
            value == match self.offset(types@, directive) {
                Some(offset) => if offset <= usize::MAX {
                    Some(offset as usize)
                } else {
                    None
                },
                None => None,
            },
        decreases self,
    {
        match self {
            OffsetExpr::Zero => Some(0),
            OffsetExpr::Align { base, ty } => {
                let found: DescribedType = match find_named(types, ty.as_str()) {
                    Some(index) => types[index].ty.description(),
                    None => {
                        return None;
                    },
                };
                let alignment: usize = match directive {
                    LayoutDirective::Packed(bound) => if found.align <= bound {
                        found.align
                    } else {
                        bound
                    },
                    _ => found.align,
                };
                if alignment == 0 {
                    return None;
                }
                match base.evaluate(types, directive) {
                    Some(before) => checked_align_to(before, alignment),
                    None => {
                        proof {
                            if let Some(before) = (**base).offset(types@, directive) {
                                lemma_align_up_bounds(before, alignment as nat);
                            }
                        }
                        None
                    },
                }
            },
            OffsetExpr::PastField { base, ty } => {
                let found: DescribedType = match find_named(types, ty.as_str()) {
                    Some(index) => types[index].ty.description(),
                    None => {
                        return None;
                    },
                };
                match base.evaluate(types, directive) {
                    Some(before) => before.checked_add(found.size),
                    None => None,
                }
            },
        }
    }

    /// An equal expression.
    pub fn duplicate(&self) -> (copy: OffsetExpr)
        ensures
            copy == *self,
        decreases self,
    {
        match self {
            OffsetExpr::Zero => OffsetExpr::Zero,
            OffsetExpr::Align { base, ty } => OffsetExpr::Align {
                base: Box::new(base.duplicate()),
                ty: ty.clone(),
            },
            OffsetExpr::PastField { base, ty } => OffsetExpr::PastField {
                base: Box::new(base.duplicate()),
                ty: ty.clone(),
            },
        }
    }
}

/// The offset expression of the field at `index`: the end of the field before
/// it, rounded up to the field's own alignment.
pub open spec fn field_offset_expr(fields: Seq<Field>, index: nat) -> OffsetExpr
    decreases index,
{
    if index == 0 {
        OffsetExpr::Align { base: Box::new(OffsetExpr::Zero), ty: fields[0].ty }
    } else {
        OffsetExpr::Align {
            base: Box::new(
                OffsetExpr::PastField {
                    base: Box::new(field_offset_expr(fields, (index - 1) as nat)),
                    ty: fields[index - 1].ty,
                },
            ),
            ty: fields[index as int].ty,
        }
    }
}

/// The offset expressions of a mirror stand for the offsets of the layout:
/// where every field type is known by its name, the expression of a field
/// evaluates to the offset that the layout gives the field.
pub proof fn lemma_generated_offsets(
    fields: Seq<Field>,
    named: Seq<DescribedField>,
    types: Seq<DescribedType>,
    directive: LayoutDirective,
    index: nat,
)
    requires
        index < fields.len(),
        fields.len() == types.len(),
        forall|j: int|
            0 <= j <= index ==> resolve(named, (#[trigger] fields[j]).ty@) == Some(types[j]),
        forall|j: int|
            0 <= j <= index ==> effective_alignment((#[trigger] types[j]).align as nat, directive)
                > 0,
    ensures
        field_offset_expr(fields, index).offset(named, directive) == Some(
            field_offset(types, directive, index),
        ),
    decreases index,
{
    assert(resolve(named, fields[index as int].ty@) == Some(types[index as int]));
    assert(effective_alignment(types[index as int].align as nat, directive) > 0);
    if index > 0 {
        lemma_generated_offsets(fields, named, types, directive, (index - 1) as nat);
        assert(resolve(named, fields[index - 1].ty@) == Some(types[index - 1]));
        let before = OffsetExpr::PastField {
            base: Box::new(field_offset_expr(fields, (index - 1) as nat)),
            ty: fields[index - 1].ty,
        };
        assert(before.offset(named, directive) == Some(fields_end(types, directive, index)));
    } else {
        assert(OffsetExpr::Zero.offset(named, directive) == Some(0nat));
    }
}

/// The first of the first `count` fields that has no name.
pub open spec fn first_unnamed(fields: Seq<Field>, count: nat) -> Option<nat>
    decreases count,
{
    if count == 0 {
        None
    } else {
        match first_unnamed(fields, (count - 1) as nat) {
            Some(index) => Some(index),
            None => if fields[count - 1].ident is None {
                Some((count - 1) as nat)
            } else {
                None
            },
        }
    }
}

/// `first_unnamed` names a field without a name, and every field before it
/// has one.  Where it names none, all of the first `count` fields have names.
pub proof fn lemma_first_unnamed(fields: Seq<Field>, count: nat)
    requires
        count <= fields.len(),
    ensures
        match first_unnamed(fields, count) {
            Some(index) => index < count && fields[index as int].ident is None && forall|i: int|
                0 <= i < index ==> (#[trigger] fields[i]).ident is Some,
            None => forall|i: int| 0 <= i < count ==> (#[trigger] fields[i]).ident is Some,
        },
    decreases count,
{
    if count > 0 {
        lemma_first_unnamed(fields, (count - 1) as nat);
    }
}

/// Once a field without a name is found, later fields do not matter.
pub proof fn lemma_first_unnamed_stops(fields: Seq<Field>, found: nat, count: nat)
    requires
        found <= count,
        first_unnamed(fields, found) is Some,
    ensures
        first_unnamed(fields, count) == first_unnamed(fields, found),
    decreases count,
{
    if found < count {
        lemma_first_unnamed_stops(fields, found, (count - 1) as nat);
    }
}

/// Why no mirror is generated for `input`, or `None` where one is.
pub open spec fn derive_error(input: DeriveInput) -> Option<DeriveError> {
    match input.data {
        Data::Struct(fields) => match repr_outcome(input.attrs@) {
            Err(error) => Some(DeriveError::Repr(error)),
            Ok(Some(bound)) if !is_power_of_two(bound as nat) => Some(
                DeriveError::UnsupportedPacking { bound },
            ),
            Ok(_) => match first_unnamed(fields@, fields@.len()) {
                Some(index) => Some(DeriveError::UnnamedField { index: index as usize }),
                None => None,
            },
        },
        _ => Some(DeriveError::OnlyStructs),
    }
}

/// The name of the mirror of the struct `ident`.
pub open spec fn mirror_name(ident: Seq<char>) -> Seq<char> {
    "Volatile"@ + ident
}

/// The name of the alignment type of the packed struct `ident`.
pub open spec fn alignment_name(ident: Seq<char>) -> Seq<char> {
    "Volatile"@ + ident + "Alignment"@
}

/// The name of the transport wrapper of the packed struct `ident`.
pub open spec fn wrapper_name(ident: Seq<char>) -> Seq<char> {
    "Volatile"@ + ident + "AlignmentWrapper"@
}

impl PackedWrapper {
    /// Whether these are the types of the struct `ident`, packed to `bound`.
    pub open spec fn wraps(self, vis: Seq<char>, ident: Seq<char>, bound: usize) -> bool {
        &&& self.vis@ == vis
        &&& self.alignment_ident@ == alignment_name(ident)
        &&& self.wrapper_ident@ == wrapper_name(ident)
        &&& self.bound == bound
    }
}

impl MirrorField {
    /// Whether this is the cell of the field at `index`.
    pub open spec fn mirrors(self, fields: Seq<Field>, index: nat) -> bool {
        &&& fields[index as int].ident matches Some(ident)
        &&& self.ident@ == ident@
        &&& self.vis@ == fields[index as int].vis@
        &&& self.ty == fields[index as int].ty
        &&& self.offset == field_offset_expr(fields, index)
    }
}

impl MirrorDef {
    /// Whether this is the mirror of the struct `input`, which has the fields
    /// `fields` and the packing bound `packed`.
    pub open spec fn mirrors(self, input: DeriveInput, fields: Seq<Field>, packed: Option<usize>) -> bool {
        &&& self.vis@ == input.vis@
        &&& self.source@ == input.ident@
        &&& self.ident@ == mirror_name(input.ident@)
        &&& self.fields@.len() == fields.len()
        &&& forall|i: int|
            0 <= i < fields.len() ==> (#[trigger] self.fields@[i]).mirrors(fields, i as nat)
        &&& match packed {
            None => self.wrapper is None && self.alignment == AlignmentTy::Inherited,
            Some(bound) => {
                &&& self.wrapper matches Some(wrapper)
                &&& wrapper.wraps(input.vis@, input.ident@, bound)
                &&& self.alignment matches AlignmentTy::Packed(name)
                &&& name@ == alignment_name(input.ident@)
            },
        }
    }
}

/// Names the alignment type and the transport wrapper of the struct `ident`,
/// which is packed to `packed`, and gives the alignment type of its cells.
pub fn generate_packed_wrapper(vis: &String, ident: &String, packed: usize) -> (generated: (
    PackedWrapper,
    AlignmentTy,
))
    ensures
        generated.0.wraps(vis@, ident@, packed),
        generated.1 matches AlignmentTy::Packed(name) && name@ == alignment_name(ident@),
{
    let alignment_ident: String = String::from_str("Volatile").concat(ident.as_str()).concat(
        "Alignment",
    );
    let wrapper_ident: String = String::from_str("Volatile").concat(ident.as_str()).concat(
        "AlignmentWrapper",
    );
    let ty: AlignmentTy = AlignmentTy::Packed(alignment_ident.clone());
    let wrapper: PackedWrapper = PackedWrapper {
        vis: vis.clone(),
        alignment_ident,
        wrapper_ident,
        bound: packed,
    };
    (wrapper, ty)
}

/// Generates the mirror of a struct.
///
/// The declaration must be a struct with named fields that is `repr(C)`; a
/// packing bound must be a power of two.  The mirror is named after the
/// struct and has one cell per field, in the order of declaration.  The cell
/// of a field lies at the end of the field before it, rounded up to the
/// field's own alignment.  A packed struct also gets an alignment type and a
/// transport wrapper, and its cells carry that alignment type.
pub fn derive_volatile(input: &DeriveInput) -> (mirror: Result<MirrorDef, DeriveError>)
    ensures
        match mirror {
            Ok(def) => {
                &&& derive_error(*input) is None
                &&& input.data matches Data::Struct(fields)
                &&& repr_outcome(input.attrs@) matches Ok(packed)
                &&& def.mirrors(*input, fields@, packed)
            },
            Err(error) => derive_error(*input) == Some(error),
        },
{
    let declared: &Vec<Field> = match &input.data {
        Data::Struct(fields) => fields,
        _ => {
            return Err(DeriveError::OnlyStructs);
        },
    };
    let packed: Option<usize> = match check_repr(&input.attrs) {
        Ok(packed) => packed,
        Err(error) => {
            return Err(DeriveError::Repr(error));
        },
    };
    let ident: String = String::from_str("Volatile").concat(input.ident.as_str());
    let (wrapper, alignment): (Option<PackedWrapper>, AlignmentTy) = match packed {
        Some(bound) => {
            if !power_of_two(bound) {
                return Err(DeriveError::UnsupportedPacking { bound });
            }
            let (wrapper, ty): (PackedWrapper, AlignmentTy) = generate_packed_wrapper(
                &input.vis,
                &input.ident,
                bound,
            );
            (Some(wrapper), ty)
        },
        None => (None, AlignmentTy::Inherited),
    };
    let mut offset: OffsetExpr = OffsetExpr::Zero;
    let mut fields: Vec<MirrorField> = Vec::new();
    let mut index: usize = 0;
    while index < declared.len()
        invariant
            index <= declared@.len(),
            input.data == Data::Struct(*declared),
            repr_outcome(input.attrs@) == Ok::<Option<usize>, ReprError>(packed),
            packed matches Some(bound) ==> is_power_of_two(bound as nat),
            first_unnamed(declared@, index as nat) is None,
            fields@.len() == index,
            forall|i: int| 0 <= i < index ==> (#[trigger] fields@[i]).mirrors(declared@, i as nat),
            index == 0 ==> offset == OffsetExpr::Zero,
            index > 0 ==> offset == (OffsetExpr::PastField {
                base: Box::new(field_offset_expr(declared@, (index - 1) as nat)),
                ty: declared@[index - 1].ty,
            }),
        decreases declared@.len() - index,
    {
        let field: &Field = &declared[index];
        let name: String = match &field.ident {
            Some(name) => name.clone(),
            None => {
                proof {
                    assert(first_unnamed(declared@, (index + 1) as nat) == Some(index as nat));
                    lemma_first_unnamed_stops(declared@, (index + 1) as nat, declared@.len());
                }
                return Err(DeriveError::UnnamedField { index });
            },
        };
        let field_offset: OffsetExpr = OffsetExpr::Align {
            base: Box::new(offset),
            ty: field.ty.clone(),
        };
        offset =
        OffsetExpr::PastField { base: Box::new(field_offset.duplicate()), ty: field.ty.clone() };
        fields.push(
            MirrorField { vis: field.vis.clone(), ident: name, ty: field.ty.clone(), offset: field_offset },
        );
        index += 1;
    }
    Ok(MirrorDef { vis: input.vis.clone(), ident, source: input.ident.clone(), alignment, fields, wrapper })
}

/// Why a mirror definition could not be given a layout.
#[derive(Debug, Clone, Copy, PartialEq, Eq, Structural)]
pub enum DescribeError {
    /// The number of types given is not the number of fields.
    FieldCount { expected: usize, given: usize },
    /// The struct is packed, and an alignment was asked for as well.
    ConflictingDirectives,
    /// The struct has no layout.
    Layout(LayoutError),
}

/// The size and alignment of a cell within a generated mirror type.  This
/// is a model of the type that is generated from a definition: there a cell
/// is a marker without data, of size zero.  It says nothing of
/// [`crate::Volatile`] and [`crate::mirror::Mirror`], which hold an address.
pub open spec fn cell_type() -> DescribedType {
    DescribedType { size: 0, align: 1 }
}

/// The types of the fields of a generated mirror type with `count` cells.
pub open spec fn cell_types(count: nat) -> Seq<DescribedType> {
    Seq::new(count, |i: int| cell_type())
}

/// In this model a generated mirror type occupies no storage, however many
/// cells it has: a struct of markers of size zero has size zero and
/// alignment one.
pub proof fn lemma_mirror_is_zero_sized(count: nat)
    ensures
        has_layout(cell_types(count), LayoutDirective::Standard),
        struct_size(cell_types(count), LayoutDirective::Standard) == 0,
        struct_alignment(cell_types(count), LayoutDirective::Standard) == 1,
{
    lemma_cells_take_no_room(count, count);
    assert(is_power_of_two(1));
}

/// The first `upto` cells of a mirror end at offset zero and are aligned to
/// one.
proof fn lemma_cells_take_no_room(count: nat, upto: nat)
    requires
        upto <= count,
    ensures
        fields_end(cell_types(count), LayoutDirective::Standard, upto) == 0,
        fields_alignment(cell_types(count), LayoutDirective::Standard, upto) == 1,
    decreases upto,
{
    if upto > 0 {
        lemma_cells_take_no_room(count, (upto - 1) as nat);
    }
}

/// The sizes and alignments of a list of field types, in order.
pub open spec fn described_types(types: Seq<FieldType>) -> Seq<DescribedType> {
    Seq::new(types.len(), |i: int| types[i].described())
}

/// The directive of a struct that is packed to `packed` and asked to be
/// aligned to `align`.  No struct can be both.
pub open spec fn described_directive(packed: Option<usize>, align: Option<usize>) -> Option<
    LayoutDirective,
> {
    match (packed, align) {
        (Some(_), Some(_)) => None,
        (Some(bound), None) => Some(LayoutDirective::Packed(bound)),
        (None, Some(bound)) => Some(LayoutDirective::Aligned(bound)),
        (None, None) => Some(LayoutDirective::Standard),
    }
}

impl MirrorDef {
    /// The packing bound of the mirrored struct, if it is packed.
    pub open spec fn packing(self) -> Option<usize> {
        match self.wrapper {
            Some(wrapper) => Some(wrapper.bound),
            None => None,
        }
    }

    /// Why the mirrored struct has no layout when its fields have the types
    /// `types` and it is asked to be aligned to `align`, or `None` where it
    /// has one.
    pub open spec fn describe_error(self, types: Seq<DescribedType>, align: Option<usize>) -> Option<
        DescribeError,
    > {
        if types.len() != self.fields@.len() {
            Some(
                DescribeError::FieldCount {
                    expected: self.fields@.len() as usize,
                    given: types.len() as usize,
                },
            )
        } else {
            match described_directive(self.packing(), align) {
                None => Some(DescribeError::ConflictingDirectives),
                Some(directive) => match layout_error(types, directive) {
                    Some(error) => Some(DescribeError::Layout(error)),
                    None => None,
                },
            }
        }
    }

    /// The generated mirror type as a struct, in the model of [`cell_type`]:
    /// one marker of size zero per field.  Its size is zero.
    pub fn footprint(&self) -> (mirror: DescribedStruct)
        ensures
            mirror.types() == cell_types(self.fields@.len() as nat),
            mirror.directive() == LayoutDirective::Standard,
            struct_size(mirror.types(), mirror.directive()) == 0,
            forall|i: int|
                0 <= i < self.fields@.len() ==> (#[trigger] mirror.fields()[i]).name@
                    == self.fields@[i].ident@,
    {
        let mut cells: Vec<DescribedField> = Vec::new();
        let mut index: usize = 0;
        while index < self.fields.len()
            invariant
                index <= self.fields@.len(),
                cells@.len() == index,
                forall|i: int|
                    0 <= i < index ==> (#[trigger] cells@[i]).ty == FieldType::Primitive(
                        cell_type(),
                    ) && cells@[i].name@ == self.fields@[i].ident@,
            decreases self.fields@.len() - index,
        {
            cells.push(
                DescribedField {
                    name: self.fields[index].ident.clone(),
                    ty: FieldType::Primitive(DescribedType { size: 0, align: 1 }),
                },
            );
            index += 1;
        }
        proof {
            assert(field_types(cells@) =~= cell_types(self.fields@.len() as nat));
            lemma_mirror_is_zero_sized(self.fields@.len() as nat);
            lemma_has_layout(field_types(cells@), LayoutDirective::Standard);
        }
        match DescribedStruct::new(cells, LayoutDirective::Standard) {
            Ok(mirror) => mirror,
            Err(_) => vstd::pervasive::unreached(),
        }
    }

    /// Lays out the mirrored struct, given the type of each field in order.
    /// The struct is packed if its declaration said so.  An alignment for the
    /// struct as a whole may be asked for in `align`, but not for a packed
    /// struct.
    pub fn describe(&self, types: Vec<FieldType>, align: Option<usize>) -> (described: Result<
        DescribedStruct,
        DescribeError,
    >)
        ensures
            match described {
                Ok(described) => {
                    &&& self.describe_error(described_types(types@), align) is None
                    &&& described.types() == described_types(types@)
                    &&& Some(described.directive()) == described_directive(self.packing(), align)
                    &&& described.fields().len() == self.fields@.len()
                    &&& forall|i: int|
                        0 <= i < self.fields@.len() ==> (#[trigger] described.fields()[i]).name@
                            == self.fields@[i].ident@ && described.fields()[i].ty == types@[i]
                },
                Err(error) => self.describe_error(described_types(types@), align) == Some(error),
            },
    {
        let ghost given = types@;
        let mut types: Vec<FieldType> = types;
        if types.len() != self.fields.len() {
            return Err(
                DescribeError::FieldCount { expected: self.fields.len(), given: types.len() },
            );
        }
        let packed: Option<usize> = match &self.wrapper {
            Some(wrapper) => Some(wrapper.bound),
            None => None,
        };
        let directive: LayoutDirective = match (packed, align) {
            (Some(_), Some(_)) => {
                return Err(DescribeError::ConflictingDirectives);
            },
            (Some(bound), None) => LayoutDirective::Packed(bound),
            (None, Some(bound)) => LayoutDirective::Aligned(bound),
            (None, None) => LayoutDirective::Standard,
        };
        let mut fields: Vec<DescribedField> = Vec::new();
        let mut index: usize = types.len();
        while index > 0
            invariant
                index <= given.len() == self.fields@.len(),
                types@ == given.take(index as int),
                fields@.len() == given.len() - index,
                forall|i: int|
                    0 <= i < fields@.len() ==> (#[trigger] fields@[i]).ty == given[index + i]
                        && fields@[i].name@ == self.fields@[index + i].ident@,
            decreases index,
        {
            index -= 1;
            let ty: FieldType = match types.pop() {
                Some(ty) => ty,
                None => vstd::pervasive::unreached(),
            };
            let ghost before = fields@;
            fields.insert(0, DescribedField { name: self.fields[index].ident.clone(), ty });
            proof {
                assert(types@ =~= given.take(index as int));
                assert forall|i: int| 0 <= i < fields@.len() implies (#[trigger] fields@[i]).ty
                    == given[index + i] && fields@[i].name@ == self.fields@[index + i].ident@ by {
                    if i > 0 {
                        assert(fields@[i] == before[i - 1]);
                    }
                }
            }
        }
        proof {
            assert(field_types(fields@) =~= described_types(given));
        }
        match DescribedStruct::new(fields, directive) {
            Ok(described) => Ok(described),
            Err(error) => Err(DescribeError::Layout(error)),
        }
    }
}

} // verus!
