//! Reading the layout directive of a struct from its `repr` attributes.
//!
//! The attributes arrive as plain data: a path and, where the attribute has
//! the shape of a meta item, its contents.  [`check_repr`] walks them in order
//! and reports the packing bound, or the first thing it cannot accept.

use vstd::prelude::*;
use vstd::string::*;

verus! {

/// A literal inside an attribute.
#[derive(Debug, PartialEq, Eq)]
pub enum Lit {
    /// An integer literal: its value, written in base ten.
    Int(String),
    /// Any other literal.
    Other,
}

/// One entry of a meta list.
#[derive(Debug, PartialEq, Eq)]
pub enum NestedMeta {
    Meta(Meta),
    Lit(Lit),
}

/// A meta item: `name`, `name(..)` or `name = ..`.
#[derive(Debug, PartialEq, Eq)]
pub enum Meta {
    Path(String),
    List(String, Vec<NestedMeta>),
    NameValue(String),
}

/// An attribute on a declaration.
#[derive(Debug, PartialEq, Eq)]
pub struct Attribute {
    /// The attribute's path, such as `repr`.
    pub path: String,
    /// The attribute read as a meta item; `None` where it has no such shape.
    pub meta: Option<Meta>,
}

/// Why a set of attributes was not accepted.
#[derive(Debug, Clone, Copy, PartialEq, Eq, Structural)]
pub enum ReprErrorKind {
    /// A `repr` attribute is not a meta item.
    InvalidMeta,
    /// A `repr` attribute is not a list.
    ExpectedList,
    /// An entry of `repr(..)` is a literal.
    ExpectedMeta,
    /// `packed(..)` does not hold exactly one value.
    ExpectedExactlyOneValue,
    /// The value of `packed(..)` is not a literal.
    ExpectedLiteral,
    /// The value of `packed(..)` is not an integer literal.
    ExpectedIntegerLiteral,
    /// The value of `packed(..)` is an integer literal whose digits are no
    /// number that a `usize` holds.
    InvalidInteger,
    /// `packed = ..` was written.
    ExpectedPathOrList,
    /// An entry of `repr(..)` is none of `C`, `packed` and `align`.
    UnexpectedAttribute,
    /// No `repr(C)` was found.
    MissingReprC,
}

/// A rejected attribute, with the place where it was found.
#[derive(Debug, Clone, Copy, PartialEq, Eq, Structural)]
pub struct ReprError {
    pub kind: ReprErrorKind,
    /// Index of the offending attribute; the number of attributes for
    /// [`ReprErrorKind::MissingReprC`].
    pub attribute: usize,
    /// Index of the offending entry within the attribute's list; zero where
    /// the attribute as a whole is at fault.
    pub item: usize,
}

impl ReprErrorKind {
    /// What went wrong, in words.
    pub open spec fn spec_message(self) -> Seq<char> {
        match self {
            ReprErrorKind::InvalidMeta => "expected a meta item"@,
            ReprErrorKind::ExpectedList => "expected list"@,
            ReprErrorKind::ExpectedMeta => "expected meta"@,
            ReprErrorKind::ExpectedExactlyOneValue => "expected exactly one value"@,
            ReprErrorKind::ExpectedLiteral => "expected literal"@,
            ReprErrorKind::ExpectedIntegerLiteral => "expected integer literal"@,
            ReprErrorKind::InvalidInteger => "invalid integer literal"@,
            ReprErrorKind::ExpectedPathOrList => "expected path or list meta"@,
            ReprErrorKind::UnexpectedAttribute => "unexpected attribute"@,
            ReprErrorKind::MissingReprC => "struct has to be #[repr(C)]"@,
        }
    }

    /// What went wrong, in words.
    pub fn message(&self) -> (text: String)
        ensures
            text@ == self.spec_message(),
    {
        match self {
            ReprErrorKind::InvalidMeta => String::from_str("expected a meta item"),
            ReprErrorKind::ExpectedList => String::from_str("expected list"),
            ReprErrorKind::ExpectedMeta => String::from_str("expected meta"),
            ReprErrorKind::ExpectedExactlyOneValue => String::from_str("expected exactly one value"),
            ReprErrorKind::ExpectedLiteral => String::from_str("expected literal"),
            ReprErrorKind::ExpectedIntegerLiteral => String::from_str("expected integer literal"),
            ReprErrorKind::InvalidInteger => String::from_str("invalid integer literal"),
            ReprErrorKind::ExpectedPathOrList => String::from_str("expected path or list meta"),
            ReprErrorKind::UnexpectedAttribute => String::from_str("unexpected attribute"),
            ReprErrorKind::MissingReprC => String::from_str("struct has to be #[repr(C)]"),
        }
    }
}

/// What has been learnt from the attributes read so far.
#[derive(Debug, Clone, Copy, PartialEq, Eq, Structural)]
pub struct ReprState {
    pub is_c: bool,
    pub packed: Option<usize>,
}

/// Whether every character of a text is a decimal digit.
pub open spec fn all_digits(digits: Seq<char>) -> bool {
    forall|i: int| 0 <= i < digits.len() ==> '0' <= #[trigger] digits[i] && digits[i] <= '9'
}

/// The number that a run of decimal digits stands for, the first digit being
/// the most significant.
pub open spec fn digits_value(digits: Seq<char>) -> nat
    decreases digits.len(),
{
    if digits.len() == 0 {
        0
    } else {
        digits_value(digits.drop_last()) * 10 + (digits.last() as u32 - '0' as u32) as nat
    }
}

/// The value of a text in base ten: the text must be one decimal digit or
/// more and nothing else, and the number must fit in a `usize`.
pub open spec fn decimal_value(digits: Seq<char>) -> Option<usize> {
    if digits.len() > 0 && all_digits(digits) && digits_value(digits) <= usize::MAX {
        Some(digits_value(digits) as usize)
    } else {
        None
    }
}

/// The digits at the front of a number stand for no more than the number.
pub proof fn lemma_digits_value_grows(digits: Seq<char>, front: nat)
    requires
        all_digits(digits),
        front <= digits.len(),
    ensures
        digits_value(digits.take(front as int)) <= digits_value(digits),
    decreases digits.len(),
{
    if front == digits.len() {
        assert(digits.take(front as int) =~= digits);
    } else {
        let shorter = digits.drop_last();
        assert(shorter.take(front as int) =~= digits.take(front as int));
        assert forall|i: int| 0 <= i < shorter.len() implies '0' <= #[trigger] shorter[i]
            && shorter[i] <= '9' by {
            assert(shorter[i] == digits[i]);
        }
        lemma_digits_value_grows(shorter, front);
    }
}

/// Reads a number in base ten.
pub fn read_decimal(digits: &str) -> (value: Option<usize>)
    ensures
        value == decimal_value(digits@),
{
    let length: usize = digits.unicode_len();
    if length == 0 {
        return None;
    }
    let mut value: usize = 0;
    let mut index: usize = 0;
    while index < length
        invariant
            index <= length == digits@.len(),
            all_digits(digits@.take(index as int)),
            value == digits_value(digits@.take(index as int)),
        decreases length - index,
    {
        let c: char = digits.get_char(index);
        if !(c >= '0' && c <= '9') {
            assert(!all_digits(digits@)) by {
                assert(digits@[index as int] == c);
            }
            return None;
        }
        let digit: usize = (c as u32 - '0' as u32) as usize;
        proof {
            let longer = digits@.take(index + 1);
            assert(longer.drop_last() =~= digits@.take(index as int));
            assert(longer.last() == c);
            assert(digits_value(longer) == value * 10 + digit);
            assert forall|i: int| 0 <= i < longer.len() implies '0' <= #[trigger] longer[i]
                && longer[i] <= '9' by {
                if i < index {
                    assert(longer[i] == digits@.take(index as int)[i]);
                }
            }
            if all_digits(digits@) {
                lemma_digits_value_grows(digits@, (index + 1) as nat);
            }
        }
        if value > (usize::MAX - digit) / 10 {
            return None;
        }
        value = value * 10 + digit;
        index += 1;
    }
    assert(digits@.take(length as int) =~= digits@);
    Some(value)
}

impl Meta {
    /// The name that the meta item starts with.
    pub open spec fn spec_path(self) -> String {
        match self {
            Meta::Path(path) => path,
            Meta::List(path, _) => path,
            Meta::NameValue(path) => path,
        }
    }

    /// The name that the meta item starts with.
    pub fn path(&self) -> (path: &String)
        ensures
            *path == self.spec_path(),
    {
        match self {
            Meta::Path(path) => path,
            Meta::List(path, _) => path,
            Meta::NameValue(path) => path,
        }
    }
}

/// Whether `path` is exactly the identifier `name`.
pub fn is_ident(path: &String, name: &str) -> (same: bool)
    ensures
        same == (path@ == name@),
{
    let wanted: String = String::from_str(name);
    *path == wanted
}

/// The bound that a `packed` entry asks for: 1 for the bare word, else the
/// value of the single integer literal in its brackets.
pub open spec fn packed_entry(meta: Meta) -> Result<usize, ReprErrorKind> {
    match meta {
        Meta::Path(_) => Ok(1usize),
        Meta::List(_, nested) => if nested@.len() != 1 {
            Err(ReprErrorKind::ExpectedExactlyOneValue)
        } else {
            match nested@[0] {
                NestedMeta::Lit(Lit::Int(digits)) => match decimal_value(digits@) {
                    Some(bound) => Ok(bound),
                    None => Err(ReprErrorKind::InvalidInteger),
                },
                NestedMeta::Lit(Lit::Other) => Err(ReprErrorKind::ExpectedIntegerLiteral),
                NestedMeta::Meta(_) => Err(ReprErrorKind::ExpectedLiteral),
            }
        },
        Meta::NameValue(_) => Err(ReprErrorKind::ExpectedPathOrList),
    }
}

/// The effect of one entry of `repr(..)`.
pub open spec fn repr_entry(state: ReprState, entry: NestedMeta) -> Result<
    ReprState,
    ReprErrorKind,
> {
    match entry {
        NestedMeta::Lit(_) => Err(ReprErrorKind::ExpectedMeta),
        NestedMeta::Meta(meta) => if meta.spec_path()@ == "C"@ {
            Ok(ReprState { is_c: true, packed: state.packed })
        } else if meta.spec_path()@ == "packed"@ {
            match packed_entry(meta) {
                Ok(bound) => Ok(ReprState { is_c: state.is_c, packed: Some(bound) }),
                Err(kind) => Err(kind),
            }
        } else if meta.spec_path()@ == "align"@ {
            Ok(state)
        } else {
            Err(ReprErrorKind::UnexpectedAttribute)
        },
    }
}

/// The effect of the first `count` entries of a `repr(..)` list, read in
/// order.  The first entry that is refused ends the reading.
pub open spec fn repr_entries(state: ReprState, entries: Seq<NestedMeta>, count: nat) -> Result<
    ReprState,
    (ReprErrorKind, nat),
>
    decreases count,
{
    if count == 0 {
        Ok(state)
    } else {
        match repr_entries(state, entries, (count - 1) as nat) {
            Err(error) => Err(error),
            Ok(before) => match repr_entry(before, entries[count - 1]) {
                Ok(after) => Ok(after),
                Err(kind) => Err((kind, (count - 1) as nat)),
            },
        }
    }
}

/// The effect of one attribute.  Attributes other than `repr` have none.
pub open spec fn repr_attribute(state: ReprState, attribute: Attribute) -> Result<
    ReprState,
    (ReprErrorKind, nat),
> {
    if attribute.path@ != "repr"@ {
        Ok(state)
    } else {
        match attribute.meta {
            None => Err((ReprErrorKind::InvalidMeta, 0nat)),
            Some(Meta::List(_, entries)) => repr_entries(state, entries@, entries@.len()),
            Some(_) => Err((ReprErrorKind::ExpectedList, 0nat)),
        }
    }
}

/// The effect of the first `count` attributes, read in order.
pub open spec fn repr_attributes(state: ReprState, attributes: Seq<Attribute>, count: nat) -> Result<
    ReprState,
    ReprError,
>
    decreases count,
{
    if count == 0 {
        Ok(state)
    } else {
        match repr_attributes(state, attributes, (count - 1) as nat) {
            Err(error) => Err(error),
            Ok(before) => match repr_attribute(before, attributes[count - 1]) {
                Ok(after) => Ok(after),
                Err((kind, item)) => Err(
                    ReprError { kind, attribute: (count - 1) as usize, item: item as usize },
                ),
            },
        }
    }
}

/// What the attributes of a struct say about its layout: the packing bound,
/// if there is one, provided that every `repr` attribute is understood and the
/// struct is `repr(C)`.
pub open spec fn repr_outcome(attributes: Seq<Attribute>) -> Result<Option<usize>, ReprError> {
    let start = ReprState { is_c: false, packed: None };
    match repr_attributes(start, attributes, attributes.len()) {
        Err(error) => Err(error),
        Ok(state) => if state.is_c {
            Ok(state.packed)
        } else {
            Err(
                ReprError {
                    kind: ReprErrorKind::MissingReprC,
                    attribute: attributes.len() as usize,
                    item: 0,
                },
            )
        },
    }
}

/// Once an entry has been refused, reading further entries changes nothing.
pub proof fn lemma_repr_entries_stops(
    state: ReprState,
    entries: Seq<NestedMeta>,
    failed: nat,
    count: nat,
)
    requires
        failed <= count,
        repr_entries(state, entries, failed) is Err,
    ensures
        repr_entries(state, entries, count) == repr_entries(state, entries, failed),
    decreases count,
{
    if failed < count {
        lemma_repr_entries_stops(state, entries, failed, (count - 1) as nat);
    }
}

/// Once an attribute has been refused, reading further attributes changes
/// nothing.
pub proof fn lemma_repr_attributes_stops(
    state: ReprState,
    attributes: Seq<Attribute>,
    failed: nat,
    count: nat,
)
    requires
        failed <= count,
        repr_attributes(state, attributes, failed) is Err,
    ensures
        repr_attributes(state, attributes, count) == repr_attributes(state, attributes, failed),
    decreases count,
{
    if failed < count {
        lemma_repr_attributes_stops(state, attributes, failed, (count - 1) as nat);
    }
}

/// Reads a `packed` entry.
fn check_packed(meta: &Meta) -> (bound: Result<usize, ReprErrorKind>)
    ensures
        bound == packed_entry(*meta),
{
    match meta {
        Meta::Path(_) => Ok(1),
        Meta::List(_, nested) => {
            if nested.len() != 1 {
                return Err(ReprErrorKind::ExpectedExactlyOneValue);
            }
            match &nested[0] {
                NestedMeta::Lit(Lit::Int(digits)) => match read_decimal(digits.as_str()) {
                    Some(bound) => Ok(bound),
                    None => Err(ReprErrorKind::InvalidInteger),
                },
                NestedMeta::Lit(Lit::Other) => Err(ReprErrorKind::ExpectedIntegerLiteral),
                NestedMeta::Meta(_) => Err(ReprErrorKind::ExpectedLiteral),
            }
        },
        Meta::NameValue(_) => Err(ReprErrorKind::ExpectedPathOrList),
    }
}

/// Reads one entry of `repr(..)`.
fn check_entry(state: ReprState, entry: &NestedMeta) -> (next: Result<ReprState, ReprErrorKind>)
    ensures
        next == repr_entry(state, *entry),
{
    match entry {
        NestedMeta::Lit(_) => Err(ReprErrorKind::ExpectedMeta),
        NestedMeta::Meta(meta) => {
            if is_ident(meta.path(), "C") {
                Ok(ReprState { is_c: true, packed: state.packed })
            } else if is_ident(meta.path(), "packed") {
                match check_packed(meta) {
                    Ok(bound) => Ok(ReprState { is_c: state.is_c, packed: Some(bound) }),
                    Err(kind) => Err(kind),
                }
            } else if is_ident(meta.path(), "align") {
                Ok(state)
            } else {
                Err(ReprErrorKind::UnexpectedAttribute)
            }
        },
    }
}

/// Reads the entries of one `repr(..)` list.
fn check_entries(state: ReprState, entries: &Vec<NestedMeta>) -> (next: Result<
    ReprState,
    (ReprErrorKind, usize),
>)
    ensures
        match next {
            Ok(after) => repr_entries(state, entries@, entries@.len()) == Ok::<
                ReprState,
                (ReprErrorKind, nat),
            >(after),
            Err((kind, item)) => repr_entries(state, entries@, entries@.len()) == Err::<
                ReprState,
                (ReprErrorKind, nat),
            >((kind, item as nat)),
        },
{
    let mut current: ReprState = state;
    let mut index: usize = 0;
    while index < entries.len()
        invariant
            index <= entries@.len(),
            repr_entries(state, entries@, index as nat) == Ok::<ReprState, (ReprErrorKind, nat)>(
                current,
            ),
        decreases entries@.len() - index,
    {
        match check_entry(current, &entries[index]) {
            Ok(after) => {
                current = after;
            },
            Err(kind) => {
                proof {
                    lemma_repr_entries_stops(
                        state,
                        entries@,
                        (index + 1) as nat,
                        entries@.len(),
                    );
                }
                return Err((kind, index));
            },
        }
        index += 1;
    }
    Ok(current)
}

/// Reads the layout directive from the attributes of a struct.
///
/// Attributes other than `repr` are passed over.  Each `repr` attribute must
/// be a list whose entries are `C`, `packed`, `packed(N)` or `align` in any
/// form.  The result is the packing bound of the last `packed` entry, 1 for
/// the bare word; it is `None` where the struct is not packed.  The first
/// entry that is not understood is reported with its place, and so is a
/// struct without `repr(C)`.
pub fn check_repr(attributes: &Vec<Attribute>) -> (packed: Result<Option<usize>, ReprError>)
    ensures
        packed == repr_outcome(attributes@),
{
    let start: ReprState = ReprState { is_c: false, packed: None };
    let mut current: ReprState = start;
    let mut index: usize = 0;
    while index < attributes.len()
        invariant
            index <= attributes@.len(),
            start == (ReprState { is_c: false, packed: None }),
            repr_attributes(start, attributes@, index as nat) == Ok::<ReprState, ReprError>(
                current,
            ),
        decreases attributes@.len() - index,
    {
        let attribute: &Attribute = &attributes[index];
        if is_ident(&attribute.path, "repr") {
            let step: Result<ReprState, (ReprErrorKind, usize)> = match &attribute.meta {
                None => Err((ReprErrorKind::InvalidMeta, 0)),
                Some(Meta::List(_, entries)) => check_entries(current, entries),
                Some(_) => Err((ReprErrorKind::ExpectedList, 0)),
            };
            match step {
                Ok(after) => {
                    current = after;
                },
                Err((kind, item)) => {
                    proof {
                        lemma_repr_attributes_stops(
                            start,
                            attributes@,
                            (index + 1) as nat,
                            attributes@.len(),
                        );
                    }
                    return Err(ReprError { kind, attribute: index, item });
                },
            }
        }
        index += 1;
    }
    if current.is_c {
        Ok(current.packed)
    } else {
        Err(ReprError { kind: ReprErrorKind::MissingReprC, attribute: attributes.len(), item: 0 })
    }
}

/// The alignment that an entry of `repr(..)` asks for: the value of the
/// single integer literal of `align(N)`.  Any other entry asks for none.
pub open spec fn align_entry(entry: NestedMeta) -> Option<usize> {
    match entry {
        NestedMeta::Meta(Meta::List(path, nested)) => if path@ == "align"@ && nested@.len() == 1 {
            match nested@[0] {
                NestedMeta::Lit(Lit::Int(digits)) => decimal_value(digits@),
                _ => None,
            }
        } else {
            None
        },
        _ => None,
    }
}

/// The higher of two alignments that may be absent.
pub open spec fn higher_align(one: Option<usize>, other: Option<usize>) -> Option<usize> {
    match (one, other) {
        (Some(a), Some(b)) => if a >= b {
            Some(a)
        } else {
            Some(b)
        },
        (Some(a), None) => Some(a),
        (None, other) => other,
    }
}

/// The highest alignment that the first `count` entries of a `repr(..)` list
/// ask for.
pub open spec fn align_entries(entries: Seq<NestedMeta>, count: nat) -> Option<usize>
    decreases count,
{
    if count == 0 {
        None
    } else {
        higher_align(
            align_entries(entries, (count - 1) as nat),
            align_entry(entries[count - 1]),
        )
    }
}

/// The highest alignment that an attribute asks for.  Only a `repr` list
/// asks for any.
pub open spec fn align_attribute(attribute: Attribute) -> Option<usize> {
    if attribute.path@ == "repr"@ {
        match attribute.meta {
            Some(Meta::List(_, entries)) => align_entries(entries@, entries@.len()),
            _ => None,
        }
    } else {
        None
    }
}

/// The highest alignment that the first `count` attributes ask for.
pub open spec fn repr_align(attributes: Seq<Attribute>, count: nat) -> Option<usize>
    decreases count,
{
    if count == 0 {
        None
    } else {
        higher_align(
            repr_align(attributes, (count - 1) as nat),
            align_attribute(attributes[count - 1]),
        )
    }
}

/// Reads what one entry of `repr(..)` says about the alignment.
fn entry_align(entry: &NestedMeta) -> (align: Option<usize>)
    ensures
        align == align_entry(*entry),
{
    match entry {
        NestedMeta::Meta(Meta::List(path, nested)) => {
            if is_ident(path, "align") && nested.len() == 1 {
                match &nested[0] {
                    NestedMeta::Lit(Lit::Int(digits)) => read_decimal(digits.as_str()),
                    _ => None,
                }
            } else {
                None
            }
        },
        _ => None,
    }
}

/// The higher of two alignments that may be absent.
fn higher(one: Option<usize>, other: Option<usize>) -> (align: Option<usize>)
    ensures
        align == higher_align(one, other),
{
    match (one, other) {
        (Some(a), Some(b)) => if a >= b {
            Some(a)
        } else {
            Some(b)
        },
        (Some(a), None) => Some(a),
        (None, other) => other,
    }
}

/// Reads the alignment that the attributes of a struct ask for the struct as
/// a whole: the highest `N` of the entries `align(N)` in its `repr`
/// attributes, and `None` where there is no such entry.  `check_repr` passes
/// these entries over, since they do not move the fields.
pub fn declared_align(attributes: &Vec<Attribute>) -> (align: Option<usize>)
    ensures
        align == repr_align(attributes@, attributes@.len()),
{
    let mut found: Option<usize> = None;
    let mut index: usize = 0;
    while index < attributes.len()
        invariant
            index <= attributes@.len(),
            found == repr_align(attributes@, index as nat),
        decreases attributes@.len() - index,
    {
        let attribute: &Attribute = &attributes[index];
        let mut asked: Option<usize> = None;
        if is_ident(&attribute.path, "repr") {
            match &attribute.meta {
                Some(Meta::List(_, entries)) => {
                    let mut item: usize = 0;
                    while item < entries.len()
                        invariant
                            item <= entries@.len(),
                            asked == align_entries(entries@, item as nat),
                        decreases entries@.len() - item,
                    {
                        asked = higher(asked, entry_align(&entries[item]));
                        item += 1;
                    }
                },
                _ => {},
            }
        }
        found = higher(found, asked);
        index += 1;
    }
    found
}

} // verus!
