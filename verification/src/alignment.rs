//! Alignment carriers: how a value is moved to and from memory when the
//! structs around it are packed.
//!
//! A field of a packed struct may lie at an address that its type would not
//! accept.  Such a field is read and written through a wrapper of the same
//! size whose alignment is lowered to the packing bound.  Where packed structs
//! are nested, every enclosing bound applies, so the lowest one decides.

use crate::offset::is_power_of_two;
use vstd::prelude::*;

verus! {

/// The smaller of two numbers.
pub open spec fn min_nat(a: nat, b: nat) -> nat {
    if a <= b {
        a
    } else {
        b
    }
}

/// The alignment under which a value of natural alignment `natural` is moved
/// when the packing bounds `bounds` enclose it, outermost first: each bound in
/// turn caps what the bounds before it left.
pub open spec fn transport_alignment(natural: nat, bounds: Seq<nat>) -> nat
    decreases bounds.len(),
{
    if bounds.len() == 0 {
        natural
    } else {
        min_nat(bounds.last(), transport_alignment(natural, bounds.drop_last()))
    }
}

/// Whether every bound of a chain is a power of two.
pub open spec fn bounds_valid(bounds: Seq<nat>) -> bool {
    forall|i: int| 0 <= i < bounds.len() ==> is_power_of_two(#[trigger] bounds[i])
}

/// The numbers of a vector, as a chain of bounds.
pub open spec fn as_bounds(chain: Seq<usize>) -> Seq<nat> {
    chain.map_values(|bound: usize| bound as nat)
}

/// The transport alignment is the minimum of the natural alignment and all
/// bounds: it exceeds none of them, and it is one of them.
pub proof fn lemma_transport_is_minimum(natural: nat, bounds: Seq<nat>)
    ensures
        transport_alignment(natural, bounds) <= natural,
        forall|i: int| 0 <= i < bounds.len() ==> transport_alignment(natural, bounds) <= bounds[i],
        transport_alignment(natural, bounds) == natural || exists|i: int|
            0 <= i < bounds.len() && transport_alignment(natural, bounds) == bounds[i],
    decreases bounds.len(),
{
    if bounds.len() > 0 {
        let front = bounds.drop_last();
        lemma_transport_is_minimum(natural, front);
        let inner = transport_alignment(natural, front);
        assert forall|i: int| 0 <= i < bounds.len() implies transport_alignment(natural, bounds)
            <= bounds[i] by {
            if i < front.len() {
                assert(front[i] == bounds[i]);
            }
        }
        if transport_alignment(natural, bounds) != natural {
            if transport_alignment(natural, bounds) == bounds.last() {
                assert(bounds[bounds.len() - 1] == bounds.last());
            } else {
                let i = choose|i: int| 0 <= i < front.len() && inner == front[i];
                assert(front[i] == bounds[i]);
            }
        }
    }
}

/// Composing carriers is associative: bounds may be applied in groups.
pub proof fn lemma_transport_composes(natural: nat, outer: Seq<nat>, inner: Seq<nat>)
    ensures
        transport_alignment(natural, outer + inner) == transport_alignment(
            transport_alignment(natural, outer),
            inner,
        ),
    decreases inner.len(),
{
    if inner.len() == 0 {
        assert(outer + inner =~= outer);
    } else {
        lemma_transport_composes(natural, outer, inner.drop_last());
        assert((outer + inner).drop_last() =~= outer + inner.drop_last());
        assert((outer + inner).last() == inner.last());
    }
}

/// A lower natural alignment never gives a higher transport alignment.
pub proof fn lemma_transport_monotone(lower: nat, higher: nat, bounds: Seq<nat>)
    requires
        lower <= higher,
    ensures
        transport_alignment(lower, bounds) <= transport_alignment(higher, bounds),
    decreases bounds.len(),
{
    if bounds.len() > 0 {
        lemma_transport_monotone(lower, higher, bounds.drop_last());
    }
}

/// A bound may be applied before the chain instead of after it.
pub proof fn lemma_transport_bound_first(natural: nat, bounds: Seq<nat>, bound: nat)
    ensures
        transport_alignment(natural, bounds.push(bound)) == transport_alignment(
            min_nat(natural, bound),
            bounds,
        ),
    decreases bounds.len(),
{
    assert(bounds.push(bound).drop_last() =~= bounds);
    assert(bounds.push(bound).last() == bound);
    assert(transport_alignment(natural, bounds.push(bound)) == min_nat(
        bound,
        transport_alignment(natural, bounds),
    ));
    if bounds.len() > 0 {
        let front = bounds.drop_last();
        lemma_transport_bound_first(natural, front, bound);
        assert(front.push(bound).drop_last() =~= front);
        assert(front.push(bound).last() == bound);
        assert(transport_alignment(natural, front.push(bound)) == min_nat(
            bound,
            transport_alignment(natural, front),
        ));
        assert(transport_alignment(min_nat(natural, bound), bounds) == min_nat(
            bounds.last(),
            transport_alignment(min_nat(natural, bound), front),
        ));
    }
}

/// The transport alignment of powers of two is a power of two.
pub proof fn lemma_transport_power_of_two(natural: nat, bounds: Seq<nat>)
    requires
        is_power_of_two(natural),
        bounds_valid(bounds),
    ensures
        is_power_of_two(transport_alignment(natural, bounds)),
    decreases bounds.len(),
{
    if bounds.len() > 0 {
        let front = bounds.drop_last();
        assert forall|i: int| 0 <= i < front.len() implies is_power_of_two(
            #[trigger] front[i],
        ) by {
            assert(front[i] == bounds[i]);
        }
        lemma_transport_power_of_two(natural, front);
        assert(bounds[bounds.len() - 1] == bounds.last());
    }
}

/// A value in its transport representation.  It has the size of the value
/// and holds the same bits; only the alignment may be lower.
#[derive(Debug, PartialEq, Eq)]
pub struct Wrapper<T> {
    /// The value that is moved.
    pub value: T,
    /// The alignment under which it is moved.
    pub alignment: usize,
}

/// An alignment restriction on a volatile value.  Most values have the
/// normal alignment of their type.  The fields of a packed struct have theirs
/// restricted to the packing bound, and so has everything nested in them.
///
/// A value under such a restriction is read and written only through its
/// wrapper.
pub trait Alignment {
    /// The packing bounds that apply, outermost first.
    spec fn bounds(&self) -> Seq<nat>;

    /// The packing bounds that apply, outermost first.
    fn chain(&self) -> (chain: Vec<usize>)
        ensures
            as_bounds(chain@) == self.bounds(),
    ;

    /// The alignment under which a value of natural alignment `natural` is
    /// moved.
    fn transport(&self, natural: usize) -> (alignment: usize)
        ensures
            alignment == transport_alignment(natural as nat, self.bounds()),
    ;

    /// Moves a value into its wrapper.
    fn wrap<T>(&self, value: T, natural: usize) -> (wrapped: Wrapper<T>)
        ensures
            wrapped == wrapped_value(value, natural, self.bounds()),
    ;

    /// Moves a value out of its wrapper.
    fn unwrap<T>(&self, wrapped: Wrapper<T>) -> (value: T)
        ensures
            value == unwrapped_value(wrapped),
    ;
}

/// The wrapper that holds `value` under the bounds `bounds`.
pub open spec fn wrapped_value<T>(value: T, natural: usize, bounds: Seq<nat>) -> Wrapper<T> {
    Wrapper { value, alignment: transport_alignment(natural as nat, bounds) as usize }
}

/// The value that `wrapped` holds.
pub open spec fn unwrapped_value<T>(wrapped: Wrapper<T>) -> T {
    wrapped.value
}

/// Wrapping and unwrapping are inverses: what comes out of a wrapper is what
/// went in, whatever the chain of bounds.
pub proof fn lemma_wrap_round_trip<T>(value: T, natural: usize, bounds: Seq<nat>)
    ensures
        unwrapped_value(wrapped_value(value, natural, bounds)) == value,
{
}

/// The normal alignment of the type.
#[derive(Debug, Clone, Copy, PartialEq, Eq, Structural)]
pub struct Normal;

impl Alignment for Normal {
    open spec fn bounds(&self) -> Seq<nat> {
        Seq::empty()
    }

    fn chain(&self) -> (chain: Vec<usize>) {
        let chain: Vec<usize> = Vec::new();
        assert(as_bounds(chain@) =~= self.bounds());
        chain
    }

    fn transport(&self, natural: usize) -> (alignment: usize) {
        natural
    }

    fn wrap<T>(&self, value: T, natural: usize) -> (wrapped: Wrapper<T>) {
        Wrapper { value, alignment: natural }
    }

    fn unwrap<T>(&self, wrapped: Wrapper<T>) -> (value: T) {
        wrapped.value
    }
}

/// The alignment of the fields of a packed struct: the alignment that the
/// struct was given, capped by the struct's own packing bound.
#[derive(Debug, PartialEq, Eq)]
pub struct Packed<P> {
    /// The packing bound of the struct.
    pub bound: usize,
    /// The alignment that the struct itself is under.
    pub outer: P,
}

impl<P: Alignment> Alignment for Packed<P> {
    open spec fn bounds(&self) -> Seq<nat> {
        self.outer.bounds().push(self.bound as nat)
    }

    fn chain(&self) -> (chain: Vec<usize>) {
        let mut chain: Vec<usize> = self.outer.chain();
        chain.push(self.bound);
        assert(as_bounds(chain@) =~= self.bounds());
        chain
    }

    fn transport(&self, natural: usize) -> (alignment: usize) {
        let outer: usize = self.outer.transport(natural);
        proof {
            assert(self.bounds().drop_last() =~= self.outer.bounds());
        }
        if self.bound <= outer {
            self.bound
        } else {
            outer
        }
    }

    fn wrap<T>(&self, value: T, natural: usize) -> (wrapped: Wrapper<T>) {
        let alignment: usize = self.transport(natural);
        Wrapper { value, alignment }
    }

    fn unwrap<T>(&self, wrapped: Wrapper<T>) -> (value: T) {
        wrapped.value
    }
}

/// A chain of packing bounds that is only known when the program runs.
#[derive(Debug, PartialEq, Eq)]
pub struct Carrier {
    /// The packing bounds, outermost first.
    pub chain: Vec<usize>,
}

impl Carrier {
    /// The carrier of a value that no packed struct encloses.
    pub fn identity() -> (carrier: Carrier)
        ensures
            carrier.bounds() == Seq::<nat>::empty(),
    {
        let carrier: Carrier = Carrier { chain: Vec::new() };
        assert(as_bounds(carrier.chain@) =~= Seq::<nat>::empty());
        carrier
    }

    /// The carrier that applies `bound` inside of this one.
    pub fn bounded(&self, bound: usize) -> (carrier: Carrier)
        ensures
            carrier.bounds() == self.bounds().push(bound as nat),
    {
        let mut chain: Vec<usize> = copy_chain(&self.chain);
        chain.push(bound);
        let carrier: Carrier = Carrier { chain };
        assert(as_bounds(carrier.chain@) =~= self.bounds().push(bound as nat));
        carrier
    }

    /// The carrier with the bounds of `alignment`.
    pub fn of<A: Alignment>(alignment: &A) -> (carrier: Carrier)
        ensures
            carrier.bounds() == alignment.bounds(),
    {
        Carrier { chain: alignment.chain() }
    }

    /// An equal carrier.
    pub fn duplicate(&self) -> (carrier: Carrier)
        ensures
            carrier.chain@ == self.chain@,
            carrier.bounds() == self.bounds(),
    {
        Carrier { chain: copy_chain(&self.chain) }
    }

    /// Whether every bound is a power of two.
    pub fn is_valid(&self) -> (valid: bool)
        ensures
            valid == bounds_valid(self.bounds()),
    {
        let mut index: usize = 0;
        while index < self.chain.len()
            invariant
                index <= self.chain@.len(),
                forall|i: int| 0 <= i < index ==> is_power_of_two(#[trigger] self.bounds()[i]),
            decreases self.chain@.len() - index,
        {
            if !crate::offset::power_of_two(self.chain[index]) {
                assert(!is_power_of_two(self.bounds()[index as int]));
                return false;
            }
            index += 1;
        }
        true
    }
}

/// Copies a chain of bounds.
fn copy_chain(chain: &Vec<usize>) -> (copy: Vec<usize>)
    ensures
        copy@ == chain@,
{
    let mut copy: Vec<usize> = Vec::new();
    let mut index: usize = 0;
    while index < chain.len()
        invariant
            index <= chain@.len(),
            copy@ == chain@.take(index as int),
        decreases chain@.len() - index,
    {
        copy.push(chain[index]);
        assert(chain@.take(index + 1) =~= chain@.take(index as int).push(chain@[index as int]));
        index += 1;
    }
    assert(chain@.take(chain@.len() as int) =~= chain@);
    copy
}

impl Alignment for Carrier {
    open spec fn bounds(&self) -> Seq<nat> {
        as_bounds(self.chain@)
    }

    fn chain(&self) -> (chain: Vec<usize>) {
        copy_chain(&self.chain)
    }

    fn transport(&self, natural: usize) -> (alignment: usize) {
        let mut alignment: usize = natural;
        let mut index: usize = 0;
        while index < self.chain.len()
            invariant
                index <= self.chain@.len(),
                alignment == transport_alignment(natural as nat, self.bounds().take(index as int)),
            decreases self.chain@.len() - index,
        {
            proof {
                let next = self.bounds().take(index + 1);
                assert(next.drop_last() =~= self.bounds().take(index as int));
                assert(next.last() == self.chain@[index as int] as nat);
            }
            if self.chain[index] < alignment {
                alignment = self.chain[index];
            }
            index += 1;
        }
        assert(self.bounds().take(self.chain@.len() as int) =~= self.bounds());
        alignment
    }

    fn wrap<T>(&self, value: T, natural: usize) -> (wrapped: Wrapper<T>) {
        let alignment: usize = self.transport(natural);
        Wrapper { value, alignment }
    }

    fn unwrap<T>(&self, wrapped: Wrapper<T>) -> (value: T) {
        wrapped.value
    }
}

} // verus!
