//! Mirrors: a described struct laid over memory.
//!
//! A mirror has one cell per field of the struct.  It holds no bytes of the
//! struct: a cell is made when it is asked for, from the address of the
//! mirror and the offset of the field.

use crate::alignment::{
    bounds_valid, lemma_transport_bound_first, lemma_transport_is_minimum,
    lemma_transport_monotone, lemma_transport_power_of_two, transport_alignment, Alignment,
    Carrier,
};
use crate::layout::{
    effective_alignment, field_offset, first_named, has_layout, lemma_effective_alignment,
    lemma_first_named,
    lemma_field_placed, lemma_fields_alignment, lemma_fields_disjoint, lemma_struct_alignment,
    struct_alignment, struct_size, DescribedStruct, DescribedType, FieldType, LayoutDirective,
};
use crate::offset::{lemma_multiples, lemma_power_of_two_divides};
use crate::region::{lemma_store_elsewhere, lemma_stores_commute, loaded, stored};
use crate::{holds_struct, CellView, Volatile, VolatileStruct};
use vstd::prelude::*;

verus! {

/// What a mirror stands for: a struct at an address.
pub struct MirrorView {
    /// The address of the struct.
    pub base: nat,
    /// The packing bounds that enclose the struct, outermost first.
    pub bounds: Seq<nat>,
    /// The struct that is mirrored: its fields, with their names and types,
    /// and its layout directive.
    pub described: DescribedStruct,
}

impl MirrorView {
    /// The types of the fields, in the order of declaration.
    pub open spec fn types(self) -> Seq<DescribedType> {
        self.described.types()
    }

    /// The layout directive of the struct.
    pub open spec fn directive(self) -> LayoutDirective {
        self.described.directive()
    }

    /// The packing bounds that enclose the fields: those that enclose the
    /// struct, followed by the struct's own bound if it is packed.
    pub open spec fn cell_bounds(self) -> Seq<nat> {
        match self.directive() {
            LayoutDirective::Packed(bound) => self.bounds.push(bound as nat),
            _ => self.bounds,
        }
    }

    /// The cell of the field at `index`.
    pub open spec fn cell(self, index: nat) -> CellView {
        CellView {
            base: self.base,
            offset: field_offset(self.types(), self.directive(), index),
            element: self.types()[index as int],
            bounds: self.cell_bounds(),
        }
    }

    /// The size of the struct.
    pub open spec fn size(self) -> nat {
        struct_size(self.types(), self.directive())
    }

    /// Whether the struct may be accessed at this place: it has a layout, its
    /// address is not null, it ends within the address space, and its
    /// address is a multiple of the alignment that the enclosing bounds leave
    /// it.
    pub open spec fn legal(self) -> bool {
        &&& has_layout(self.types(), self.directive())
        &&& bounds_valid(self.bounds)
        &&& 0 < self.base
        &&& self.base + self.size() <= usize::MAX
        &&& self.base % transport_alignment(
            struct_alignment(self.types(), self.directive()),
            self.bounds,
        ) == 0
    }
}

/// Every cell of a mirror is moved under the lowest of its natural alignment,
/// the packing bound of its struct and the bounds that enclose the struct.
pub proof fn lemma_cell_alignment(mirror: MirrorView, index: nat)
    requires
        index < mirror.types().len(),
    ensures
        mirror.cell(index).alignment() == transport_alignment(
            effective_alignment(mirror.types()[index as int].align as nat, mirror.directive()),
            mirror.bounds,
        ),
{
    if let LayoutDirective::Packed(bound) = mirror.directive() {
        lemma_transport_bound_first(
            mirror.types()[index as int].align as nat,
            mirror.bounds,
            bound as nat,
        );
    }
}

/// Every cell of a legal mirror is legal: its address is a multiple of the
/// alignment under which its value is moved, and its value lies within the
/// struct.
pub proof fn lemma_cells_legal(mirror: MirrorView, index: nat)
    requires
        mirror.legal(),
        index < mirror.types().len(),
    ensures
        mirror.cell(index).legal(),
        mirror.base <= mirror.cell(index).address(),
        mirror.cell(index).address() + mirror.types()[index as int].size <= mirror.base
            + mirror.size(),
{
    let types = mirror.types();
    let directive = mirror.directive();
    let ty = types[index as int];
    let own = effective_alignment(ty.align as nat, directive);
    let whole = struct_alignment(types, directive);
    let offset = field_offset(types, directive, index);
    let moved = transport_alignment(own, mirror.bounds);
    let placed = transport_alignment(whole, mirror.bounds);
    lemma_cell_alignment(mirror, index);
    lemma_effective_alignment(ty, directive);
    lemma_field_placed(types, directive, index);
    lemma_struct_alignment(types, directive);
    lemma_fields_alignment(types, directive, types.len());
    lemma_transport_power_of_two(own, mirror.bounds);
    lemma_transport_power_of_two(whole, mirror.bounds);
    lemma_transport_monotone(own, whole, mirror.bounds);
    lemma_transport_is_minimum(own, mirror.bounds);
    lemma_power_of_two_divides(moved, placed);
    lemma_power_of_two_divides(moved, own);
    lemma_multiples(offset, 0, own, moved);
    lemma_multiples(mirror.base, offset, placed, moved);
    assert(bounds_valid(mirror.cell_bounds())) by {
        if let LayoutDirective::Packed(bound) = directive {
            assert forall|i: int| 0 <= i < mirror.cell_bounds().len() implies crate::offset::is_power_of_two(
                #[trigger] mirror.cell_bounds()[i],
            ) by {
                if i < mirror.bounds.len() {
                    assert(mirror.cell_bounds()[i] == mirror.bounds[i]);
                }
            }
        }
    }
}

/// A struct that a legal cell holds may be mirrored at the address of the
/// cell, under the bounds of the cell.
pub proof fn lemma_nested_mirror_legal(cell: CellView, described: DescribedStruct)
    requires
        cell.legal(),
        holds_struct(cell, described.types(), described.directive()),
    ensures
        (MirrorView { base: cell.address(), bounds: cell.bounds, described }).legal(),
{
}

/// The cells of a nested struct: where the field at `index` of a mirror
/// holds the struct `held`, the cell of that struct's field at `inner_index`
/// lies at the sum of both offsets from the address of the outer mirror.  An
/// access through it is legal, and it is moved under an alignment that
/// exceeds none of the enclosing packing bounds.
pub proof fn lemma_nested_cells(
    outer: MirrorView,
    index: nat,
    held: DescribedStruct,
    inner_index: nat,
)
    requires
        outer.legal(),
        index < outer.types().len(),
        holds_struct(outer.cell(index), held.types(), held.directive()),
        inner_index < held.types().len(),
    ensures
        ({
            let inner = MirrorView {
                base: outer.cell(index).address(),
                bounds: outer.cell_bounds(),
                described: held,
            };
            let cell = inner.cell(inner_index);
            &&& inner.legal()
            &&& cell.legal()
            &&& cell.address() == outer.base + field_offset(outer.types(), outer.directive(), index)
                + field_offset(held.types(), held.directive(), inner_index)
            &&& cell.address() + cell.element.size <= outer.base + outer.size()
            &&& cell.bounds == inner.cell_bounds()
            &&& forall|i: int|
                0 <= i < cell.bounds.len() ==> cell.alignment() <= #[trigger] cell.bounds[i]
        }),
{
    let inner = MirrorView {
        base: outer.cell(index).address(),
        bounds: outer.cell_bounds(),
        described: held,
    };
    lemma_cells_legal(outer, index);
    lemma_nested_mirror_legal(outer.cell(index), held);
    lemma_cells_legal(inner, inner_index);
    lemma_transport_is_minimum(
        inner.cell(inner_index).element.align as nat,
        inner.cell(inner_index).bounds,
    );
}

/// Writes through the cells of two different fields of one mirror may be
/// made in either order, and neither touches the bytes of the other field.
pub proof fn lemma_field_writes_commute(
    mirror: MirrorView,
    start: nat,
    bytes: Seq<u8>,
    first: nat,
    first_value: Seq<u8>,
    second: nat,
    second_value: Seq<u8>,
)
    requires
        mirror.legal(),
        start <= mirror.base,
        mirror.base + mirror.size() <= start + bytes.len(),
        first < mirror.types().len(),
        second < mirror.types().len(),
        first != second,
        first_value.len() == mirror.types()[first as int].size,
        second_value.len() == mirror.types()[second as int].size,
    ensures
        ({
            let first_at = mirror.cell(first).address() - start;
            let second_at = mirror.cell(second).address() - start;
            &&& stored(stored(bytes, first_at, first_value), second_at, second_value) == stored(
                stored(bytes, second_at, second_value),
                first_at,
                first_value,
            )
            &&& loaded(stored(bytes, first_at, first_value), second_at, second_value.len() as int)
                == loaded(bytes, second_at, second_value.len() as int)
            &&& loaded(stored(bytes, second_at, second_value), first_at, first_value.len() as int)
                == loaded(bytes, first_at, first_value.len() as int)
        }),
{
    let first_at = mirror.cell(first).address() - start;
    let second_at = mirror.cell(second).address() - start;
    lemma_cells_legal(mirror, first);
    lemma_cells_legal(mirror, second);
    if first < second {
        lemma_fields_disjoint(mirror.types(), mirror.directive(), first, second);
    } else {
        lemma_fields_disjoint(mirror.types(), mirror.directive(), second, first);
    }
    lemma_stores_commute(bytes, first_at, first_value, second_at, second_value);
    lemma_store_elsewhere(bytes, first_at, first_value, second_at, second_value.len() as int);
    lemma_store_elsewhere(bytes, second_at, second_value, first_at, first_value.len() as int);
}

/// A described struct laid over memory.
#[derive(Debug, PartialEq, Eq)]
pub struct Mirror<'a> {
    base: usize,
    carrier: Carrier,
    described: &'a DescribedStruct,
}

impl<'a> View for Mirror<'a> {
    type V = MirrorView;

    closed spec fn view(&self) -> MirrorView {
        MirrorView {
            base: self.base as nat,
            bounds: self.carrier.bounds(),
            described: *self.described,
        }
    }
}

impl<'a> Mirror<'a> {
    #[verifier::type_invariant]
    spec fn placed(self) -> bool {
        self@.legal()
    }

    /// The mirror of the struct `described` that `cell` holds.  There is none
    /// where the cell holds a value of another size or alignment.
    pub fn over(cell: &Volatile, described: &'a DescribedStruct) -> (mirror: Option<Mirror<'a>>)
        ensures
            match mirror {
                Some(mirror) => {
                    &&& holds_struct(cell@, described.types(), described.directive())
                    &&& mirror@ == MirrorView {
                        base: cell@.address(),
                        bounds: cell@.bounds,
                        described: *described,
                    }
                    &&& mirror@.legal()
                },
                None => !holds_struct(cell@, described.types(), described.directive()),
            },
    {
        let element: DescribedType = cell.element();
        let base: usize = cell.as_ptr();
        if described.size() != element.size || described.align() != element.align {
            return None;
        }
        Some(Mirror { base, carrier: cell.carrier().duplicate(), described })
    }

    /// The address of the struct.
    pub fn base(&self) -> (base: usize)
        ensures
            base == self@.base,
            self@.legal(),
    {
        proof {
            use_type_invariant(self);
        }
        self.base
    }

    /// The number of fields.
    pub fn len(&self) -> (len: usize)
        ensures
            len == self@.types().len(),
    {
        self.described.len()
    }

    /// The cell of the field at `index`, if there is such a field.  The cell
    /// lies at the field's offset from the address of the mirror, within the
    /// struct, and an access through it is legal.
    pub fn field(&self, index: usize) -> (cell: Option<Volatile>)
        ensures
            match cell {
                Some(cell) => {
                    &&& index < self@.types().len()
                    &&& cell@ == self@.cell(index as nat)
                    &&& cell@.legal()
                    &&& self@.base <= cell@.address()
                    &&& cell@.address() + cell@.element.size <= self@.base + self@.size()
                },
                None => index >= self@.types().len(),
            },
    {
        proof {
            use_type_invariant(self);
        }
        let offset: usize = match self.described.offset(index) {
            Some(offset) => offset,
            None => {
                return None;
            },
        };
        let field: &crate::layout::DescribedField = match self.described.field(index) {
            Some(field) => field,
            None => {
                return None;
            },
        };
        let carrier: Carrier = match self.described.packing() {
            Some(bound) => self.carrier.bounded(bound),
            None => self.carrier.duplicate(),
        };
        proof {
            lemma_cells_legal(self@, index as nat);
            assert(self.described.types()[index as int] == field.ty.described());
        }
        Some(Volatile::place(self.base, offset, field.ty.description(), carrier))
    }

    /// The mirror of the struct that the field at `index` holds, if there is
    /// such a field and its type is a described struct.  The nested mirror
    /// starts at the address of the field's cell and is enclosed by the
    /// packing bounds of that cell.
    pub fn nested(&self, index: usize) -> (mirror: Option<Mirror<'a>>)
        ensures
            match mirror {
                Some(inner) => {
                    &&& index < self@.types().len()
                    &&& self@.described.fields()[index as int].ty == FieldType::Struct(
                        inner@.described,
                    )
                    &&& inner@ == MirrorView {
                        base: self@.cell(index as nat).address(),
                        bounds: self@.cell_bounds(),
                        described: inner@.described,
                    }
                    &&& inner@.legal()
                },
                None => index >= self@.types().len() || self@.described.fields()[index as int].ty
                    is Primitive,
            },
    {
        let cell: Volatile = match self.field(index) {
            Some(cell) => cell,
            None => {
                return None;
            },
        };
        let field: &'a crate::layout::DescribedField = match self.described.field(index) {
            Some(field) => field,
            None => {
                return None;
            },
        };
        match &field.ty {
            FieldType::Struct(inner) => {
                let held: DescribedType = inner.described_type();
                assert(self.described.types()[index as int] == held);
                Mirror::over(&cell, inner)
            },
            FieldType::Primitive(_) => None,
        }
    }

    /// The mirror of the struct that the first field with the given name
    /// holds, if there is such a field and its type is a described struct.
    pub fn nested_named(&self, name: &str) -> (mirror: Option<Mirror<'a>>)
        ensures
            match first_named(self@.described.fields(), name@, self@.described.fields().len()) {
                Some(index) => {
                    &&& index < self@.types().len()
                    &&& match mirror {
                        Some(inner) => {
                            &&& self@.described.fields()[index as int].ty == FieldType::Struct(
                                inner@.described,
                            )
                            &&& inner@ == MirrorView {
                                base: self@.cell(index).address(),
                                bounds: self@.cell_bounds(),
                                described: inner@.described,
                            }
                            &&& inner@.legal()
                        },
                        None => self@.described.fields()[index as int].ty is Primitive,
                    }
                },
                None => mirror is None,
            },
    {
        let count: usize = self.described.len();
        assert(self@.types().len() == count);
        match self.described.index_of(name) {
            Some(index) => self.nested(index),
            None => None,
        }
    }

    /// The cell of the first field with the given name, if there is one.
    pub fn field_named(&self, name: &str) -> (cell: Option<Volatile>)
        ensures
            match first_named(self@.described.fields(), name@, self@.described.fields().len()) {
                Some(index) => {
                    &&& index < self@.types().len()
                    &&& cell matches Some(cell)
                    &&& cell@ == self@.cell(index)
                    &&& cell@.legal()
                    &&& self@.base <= cell@.address()
                    &&& cell@.address() + cell@.element.size <= self@.base + self@.size()
                },
                None => cell is None,
            },
    {
        proof {
            lemma_first_named(
                self@.described.fields(),
                name@,
                self@.described.fields().len(),
            );
        }
        let count: usize = self.described.len();
        assert(self@.types().len() == count);
        match self.described.index_of(name) {
            Some(index) => self.field(index),
            None => None,
        }
    }
}

impl VolatileStruct for DescribedStruct {
    open spec fn description(&self) -> DescribedStruct {
        *self
    }

    fn mirror<'a>(&'a self, cell: &Volatile) -> (mirror: Option<Mirror<'a>>) {
        Mirror::over(cell, self)
    }
}

} // verus!
