//! Typed, volatile views onto memory that is laid out like a C struct.
//!
//! A [`layout::DescribedStruct`] lists the fields of a struct together with
//! its layout directive.  A [`mirror::Mirror`] lays such a struct over a
//! block of memory and hands out one [`Volatile`] cell per field.  A cell
//! holds no data: it knows where its value lies and under which alignment the
//! value may be moved, and every read and write goes to memory.

use crate::alignment::{
    bounds_valid, lemma_transport_power_of_two, transport_alignment, Alignment, Carrier, Normal,
    Wrapper,
};
use crate::layout::{
    has_layout, struct_alignment, struct_size, DescribedStruct, DescribedType, LayoutDirective,
};
use crate::mirror::{Mirror, MirrorView};
use crate::offset::{Offset, Zero};
use crate::region::{loaded, stored, Access, AccessKind, Region, WrapperPointer};
use vstd::prelude::*;

pub mod alignment;
pub mod derive;
pub mod layout;
pub mod mirror;
pub mod offset;
pub mod region;
pub mod repr;

verus! {

/// What a cell stands for: the place of a value in memory.
pub struct CellView {
    /// The address that the cell was placed from.
    pub base: nat,
    /// The offset of the value from `base`.
    pub offset: nat,
    /// The size and natural alignment of the value.
    pub element: DescribedType,
    /// The packing bounds that enclose the value, outermost first.
    pub bounds: Seq<nat>,
}

impl CellView {
    /// The address of the value.
    pub open spec fn address(self) -> nat {
        self.base + self.offset
    }

    /// The alignment under which the value is moved.
    pub open spec fn alignment(self) -> nat {
        transport_alignment(self.element.align as nat, self.bounds)
    }

    /// Whether a value may be accessed at this place: the address is not
    /// null, the value ends within the address space, and the address is a
    /// multiple of the alignment under which the value is moved.
    pub open spec fn legal(self) -> bool {
        &&& self.element.valid()
        &&& bounds_valid(self.bounds)
        &&& 0 < self.address()
        &&& self.address() + self.element.size <= usize::MAX
        &&& self.address() % self.alignment() == 0
    }
}

/// A volatile cell: the accessor of one value in memory.
#[derive(Debug, PartialEq, Eq)]
pub struct Volatile {
    base: usize,
    offset: usize,
    element: DescribedType,
    carrier: Carrier,
}

impl View for Volatile {
    type V = CellView;

    closed spec fn view(&self) -> CellView {
        CellView {
            base: self.base as nat,
            offset: self.offset as nat,
            element: self.element,
            bounds: self.carrier.bounds(),
        }
    }
}

/// Whether a cell holds a struct of the given fields and directive: the
/// struct has a layout, and its size and alignment are those of the cell's
/// value.
pub open spec fn holds_struct(
    cell: CellView,
    types: Seq<DescribedType>,
    directive: LayoutDirective,
) -> bool {
    &&& has_layout(types, directive)
    &&& cell.element.size == struct_size(types, directive)
    &&& cell.element.align == struct_alignment(types, directive)
}

/// A struct that can be mirrored.
pub trait VolatileStruct {
    /// The struct: its fields, with their names and types, and its layout
    /// directive.
    spec fn description(&self) -> DescribedStruct;

    /// The mirror of the struct that `cell` holds: the mirror of the
    /// described struct, at the address of the cell and under its packing
    /// bounds.  There is none where the cell holds a value of another size or
    /// alignment.
    fn mirror<'a>(&'a self, cell: &Volatile) -> (mirror: Option<Mirror<'a>>)
        ensures
            match mirror {
                Some(mirror) => {
                    &&& holds_struct(
                        cell@,
                        self.description().types(),
                        self.description().directive(),
                    )
                    &&& mirror@ == MirrorView {
                        base: cell@.address(),
                        bounds: cell@.bounds,
                        described: self.description(),
                    }
                    &&& mirror@.legal()
                },
                None => !holds_struct(
                    cell@,
                    self.description().types(),
                    self.description().directive(),
                ),
            },
    ;
}

impl Volatile {
    #[verifier::type_invariant]
    spec fn placed(self) -> bool {
        self@.legal()
    }

    /// The cell of a value at a place that is known to be legal.
    pub(crate) fn place(base: usize, offset: usize, element: DescribedType, carrier: Carrier) -> (cell:
        Volatile)
        requires
            (CellView {
                base: base as nat,
                offset: offset as nat,
                element,
                bounds: carrier.bounds(),
            }).legal(),
        ensures
            cell@ == (CellView {
                base: base as nat,
                offset: offset as nat,
                element,
                bounds: carrier.bounds(),
            }),
    {
        Volatile { base, offset, element, carrier }
    }

    /// The cell of a value of type `element` that lies `offset` past `base`
    /// and is moved under `alignment`.  There is no cell where an access at
    /// that place would not be legal.
    pub fn new<O: Offset, A: Alignment>(
        base: usize,
        element: DescribedType,
        offset: &O,
        alignment: &A,
    ) -> (cell: Option<Volatile>)
        ensures
            match cell {
                Some(cell) => {
                    &&& offset.valid()
                    &&& cell@.legal()
                    &&& cell@ == CellView {
                        base: base as nat,
                        offset: offset.offset(),
                        element,
                        bounds: alignment.bounds(),
                    }
                },
                None => !offset.valid() || !(CellView {
                    base: base as nat,
                    offset: offset.offset(),
                    element,
                    bounds: alignment.bounds(),
                }).legal(),
            },
    {
        let offset: usize = match offset.value() {
            Some(offset) => offset,
            None => {
                return None;
            },
        };
        let carrier: Carrier = Carrier::of(alignment);
        if !element.is_valid() || !carrier.is_valid() {
            return None;
        }
        let address: usize = match base.checked_add(offset) {
            Some(address) => address,
            None => {
                return None;
            },
        };
        if address == 0 || address > usize::MAX - element.size {
            return None;
        }
        proof {
            lemma_transport_power_of_two(element.align as nat, carrier.bounds());
        }
        if address % carrier.transport(element.align) != 0 {
            return None;
        }
        Some(Volatile { base, offset, element, carrier })
    }

    /// The cell of a value of type `element` that fills the start of
    /// `region`, under its normal alignment.  There is no cell where the
    /// region is too small or an access at its start would not be legal.
    pub fn from_ref(region: &Region, element: DescribedType) -> (cell: Option<Volatile>)
        ensures
            match cell {
                Some(cell) => {
                    &&& cell@.legal()
                    &&& region.covers(cell@.address(), element.size as nat)
                    &&& cell@ == CellView {
                        base: region.start as nat,
                        offset: 0,
                        element,
                        bounds: Seq::empty(),
                    }
                },
                None => !region.covers(region.start as nat, element.size as nat) || !(CellView {
                    base: region.start as nat,
                    offset: 0,
                    element,
                    bounds: Seq::empty(),
                }).legal(),
            },
    {
        if element.size > region.bytes.len() {
            return None;
        }
        Volatile::new(region.start, element, &Zero, &Normal)
    }

    /// The cell of a value of type `element` that fills the start of
    /// `region`, for a caller that holds the region for writing.  It is the
    /// cell that `from_ref` gives.
    pub fn from_mut(region: &mut Region, element: DescribedType) -> (cell: Option<Volatile>)
        ensures
            *final(region) == *old(region),
            match cell {
                Some(cell) => {
                    &&& cell@.legal()
                    &&& old(region).covers(cell@.address(), element.size as nat)
                    &&& cell@ == CellView {
                        base: old(region).start as nat,
                        offset: 0,
                        element,
                        bounds: Seq::empty(),
                    }
                },
                None => !old(region).covers(old(region).start as nat, element.size as nat) || !(
                CellView {
                    base: old(region).start as nat,
                    offset: 0,
                    element,
                    bounds: Seq::empty(),
                }).legal(),
            },
    {
        Volatile::from_ref(region, element)
    }

    /// The size and natural alignment of the value.
    pub fn element(&self) -> (element: DescribedType)
        ensures
            element == self@.element,
    {
        self.element
    }

    /// The packing bounds that enclose the value, outermost first.
    pub fn carrier(&self) -> (carrier: &Carrier)
        ensures
            carrier.bounds() == self@.bounds,
    {
        &self.carrier
    }

    /// The address of the value: the base of the cell plus its offset.  It
    /// is never null.
    pub fn as_ptr(&self) -> (address: usize)
        ensures
            address == self@.address(),
            address > 0,
            self@.legal(),
    {
        proof {
            use_type_invariant(self);
        }
        self.base + self.offset
    }

    /// The pointer through which the value is moved: its address, with the
    /// size of the value and the alignment of its wrapper.  The address is a
    /// multiple of that alignment.
    pub fn as_wrapper_pointer(&self) -> (pointer: WrapperPointer)
        ensures
            pointer == self.wrapper_pointer(),
            pointer.address == self@.address(),
            pointer.size == self@.element.size,
            pointer.alignment == self@.alignment(),
            pointer.aligned(),
            self@.legal(),
    {
        proof {
            use_type_invariant(self);
            lemma_transport_power_of_two(self.element.align as nat, self.carrier.bounds());
        }
        WrapperPointer {
            address: self.as_ptr(),
            size: self.element.size,
            alignment: self.carrier.transport(self.element.align),
        }
    }

    /// The pointer through which the value is moved.
    pub open spec fn wrapper_pointer(self) -> WrapperPointer {
        WrapperPointer {
            address: self@.address() as usize,
            size: self@.element.size,
            alignment: self@.alignment() as usize,
        }
    }

    /// Reads the value: exactly one load of its wrapper, which is then
    /// unwrapped.  The bytes of the region stay as they are.
    pub fn read(&self, region: &mut Region) -> (value: Vec<u8>)
        requires
            old(region).covers(self@.address(), self@.element.size as nat),
        ensures
            final(region).start == old(region).start,
            final(region).bytes == old(region).bytes,
            final(region).accesses@ == old(region).accesses@.push(
                Access { kind: AccessKind::Load, pointer: self.wrapper_pointer() },
            ),
            value@ == loaded(
                old(region).bytes@,
                old(region).index_of(self@.address()),
                self@.element.size as int,
            ),
    {
        let pointer: WrapperPointer = self.as_wrapper_pointer();
        let wrapped: Wrapper<Vec<u8>> = region.load(&pointer);
        self.carrier.unwrap(wrapped)
    }

    /// Writes the value: it is wrapped, and the wrapper goes to memory in
    /// exactly one store.  No byte outside of the value changes.
    pub fn write(&self, region: &mut Region, value: Vec<u8>)
        requires
            old(region).covers(self@.address(), self@.element.size as nat),
            value@.len() == self@.element.size,
        ensures
            final(region).start == old(region).start,
            final(region).bytes@ == stored(
                old(region).bytes@,
                old(region).index_of(self@.address()),
                value@,
            ),
            final(region).accesses@ == old(region).accesses@.push(
                Access { kind: AccessKind::Store, pointer: self.wrapper_pointer() },
            ),
    {
        let pointer: WrapperPointer = self.as_wrapper_pointer();
        let wrapped: Wrapper<Vec<u8>> = self.carrier.wrap(value, self.element.align);
        region.store(&pointer, &wrapped);
    }

    /// The mirror of the struct that the cell holds: the mirror of the
    /// struct that `described` describes.  Its fields start at the address of
    /// the cell and are enclosed by the same packing bounds.
    pub fn deref<'a, S: VolatileStruct>(&self, described: &'a S) -> (mirror: Option<Mirror<'a>>)
        ensures
            match mirror {
                Some(mirror) => {
                    &&& holds_struct(
                        self@,
                        described.description().types(),
                        described.description().directive(),
                    )
                    &&& mirror@ == MirrorView {
                        base: self@.address(),
                        bounds: self@.bounds,
                        described: described.description(),
                    }
                    &&& mirror@.legal()
                },
                None => !holds_struct(
                    self@,
                    described.description().types(),
                    described.description().directive(),
                ),
            },
    {
        described.mirror(self)
    }
}

} // verus!
