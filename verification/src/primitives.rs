//! Values and algebraic types, and the bit-exact layout of the types.
//!
//! Sizes and offsets are counted in bits, so one scheme serves bit and byte
//! layouts alike.

use crate::ast::{no_info, Info};
use crate::errors::{TError, TErrorView};
use vstd::arithmetic::power::{lemma_pow0, lemma_pow_increases, lemma_pow_positive, pow};
use vstd::arithmetic::power2::{lemma2_to64, lemma_pow2_unfold, pow2};
use vstd::prelude::*;

verus! {

/// A size or an offset, in bits.
pub type Offset = i32;

/// A value or a type of the language.
#[derive(Debug, PartialEq, Eq, PartialOrd, Ord, Hash)]
pub enum Prim {
    Void(),
    Unit(),
    Bool(bool),
    I32(i32),
    Str(String),
    /// Named values, in the order in which they were given.
    Struct(Vec<(String, Prim)>),
    /// One of the member types.
    Union(TypeSet),
    /// All of the member types together.
    Product(TypeSet),
    /// A pointer to code, of the given width.
    StaticPointer(Offset),
    /// The inner type, found the given number of bits in.
    Padded(Offset, Box<Prim>),
    /// A locally unique number and the number of bits that hold it.
    Tag(Offset, Offset),
    /// A pointer of the given width to a value of the inner type.
    Pointer(Offset, Box<Prim>),
    Function { intros: Vec<(String, Prim)>, arguments: Box<Prim>, results: Box<Prim> },
    App { inner: Box<Prim>, arguments: Box<Prim> },
    WithEffect(Box<Prim>, Vec<String>),
    /// A type that is not known yet.
    Variable(String),
    /// A value that the language provides under the given name.
    BuiltIn(String),
}

/// A set of types, held in the order in which its members first arrived.
/// No member occurs twice.
#[derive(Debug, PartialEq, Eq, PartialOrd, Ord, Hash)]
pub struct TypeSet {
    members: Vec<Prim>,
}

/// The mathematical value of a [`Prim`].
pub ghost enum PrimView {
    Void,
    Unit,
    Bool(bool),
    I32(i32),
    Str(Seq<char>),
    Struct(Seq<(Seq<char>, PrimView)>),
    Union(Seq<PrimView>),
    Product(Seq<PrimView>),
    StaticPointer(Offset),
    Padded(Offset, Box<PrimView>),
    Tag(Offset, Offset),
    Pointer(Offset, Box<PrimView>),
    Function { intros: Seq<(Seq<char>, PrimView)>, arguments: Box<PrimView>, results: Box<PrimView> },
    App { inner: Box<PrimView>, arguments: Box<PrimView> },
    WithEffect(Box<PrimView>, Seq<Seq<char>>),
    Variable(Seq<char>),
    BuiltIn(Seq<char>),
}

/// The value of a value or type.
pub open spec fn prim_view(p: Prim) -> PrimView
    decreases p,
{
    match p {
        Prim::Void() => PrimView::Void,
        Prim::Unit() => PrimView::Unit,
        Prim::Bool(b) => PrimView::Bool(b),
        Prim::I32(n) => PrimView::I32(n),
        Prim::Str(s) => PrimView::Str(s@),
        Prim::Struct(fields) => PrimView::Struct(fields_view(fields@)),
        Prim::Union(set) => PrimView::Union(prims_view(set.items())),
        Prim::Product(set) => PrimView::Product(prims_view(set.items())),
        Prim::StaticPointer(bits) => PrimView::StaticPointer(bits),
        Prim::Padded(bits, inner) => PrimView::Padded(bits, Box::new(prim_view(*inner))),
        Prim::Tag(tag, bits) => PrimView::Tag(tag, bits),
        Prim::Pointer(bits, inner) => PrimView::Pointer(bits, Box::new(prim_view(*inner))),
        Prim::Function { intros, arguments, results } => PrimView::Function {
            intros: fields_view(intros@),
            arguments: Box::new(prim_view(*arguments)),
            results: Box::new(prim_view(*results)),
        },
        Prim::App { inner, arguments } => PrimView::App {
            inner: Box::new(prim_view(*inner)),
            arguments: Box::new(prim_view(*arguments)),
        },
        Prim::WithEffect(inner, effects) => PrimView::WithEffect(
            Box::new(prim_view(*inner)),
            names_view(effects@),
        ),
        Prim::Variable(name) => PrimView::Variable(name@),
        Prim::BuiltIn(name) => PrimView::BuiltIn(name@),
    }
}

/// The values of a sequence of types.
pub open spec fn prims_view(prims: Seq<Prim>) -> Seq<PrimView>
    decreases prims,
{
    Seq::new(
        prims.len(),
        |i: int|
            if 0 <= i < prims.len() {
                prim_view(prims[i])
            } else {
                PrimView::Void
            },
    )
}

/// The values of a sequence of named values.
pub open spec fn fields_view(fields: Seq<(String, Prim)>) -> Seq<(Seq<char>, PrimView)>
    decreases fields,
{
    Seq::new(
        fields.len(),
        |i: int|
            if 0 <= i < fields.len() {
                (fields[i].0@, prim_view(fields[i].1))
            } else {
                (Seq::empty(), PrimView::Void)
            },
    )
}

/// The texts of a sequence of strings.
pub open spec fn names_view(names: Seq<String>) -> Seq<Seq<char>> {
    Seq::new(names.len(), |i: int| names[i]@)
}

impl View for Prim {
    type V = PrimView;

    open spec fn view(&self) -> PrimView {
        prim_view(*self)
    }
}

impl TypeSet {
    /// The members, first arrival first.
    pub closed spec fn items(self) -> Seq<Prim> {
        self.members@
    }

    #[verifier::type_invariant]
    spec fn no_member_twice(self) -> bool {
        prims_view(self.members@).no_duplicates()
    }
}

impl View for TypeSet {
    type V = Seq<PrimView>;

    open spec fn view(&self) -> Seq<PrimView> {
        prims_view(self.items())
    }
}

/// A copy of a list of strings.
pub fn clone_names(names: &Vec<String>) -> (copy: Vec<String>)
    ensures
        names_view(copy@) == names_view(names@),
{
    let mut copy: Vec<String> = Vec::new();
    let mut i: usize = 0;
    while i < names.len()
        invariant
            i <= names.len(),
            copy.len() == i,
            forall|j: int| 0 <= j < i ==> copy[j]@ == names[j]@,
        decreases names.len() - i,
    {
        copy.push(names[i].clone());
        i += 1;
    }
    assert(names_view(copy@) =~= names_view(names@));
    copy
}

/// A copy of a list of named values.
pub fn clone_fields(fields: &Vec<(String, Prim)>) -> (copy: Vec<(String, Prim)>)
    ensures
        fields_view(copy@) == fields_view(fields@),
    decreases fields,
{
    let mut copy: Vec<(String, Prim)> = Vec::new();
    let mut i: usize = 0;
    while i < fields.len()
        invariant
            i <= fields.len(),
            copy.len() == i,
            forall|j: int| 0 <= j < i ==> copy[j].0@ == fields[j].0@ && copy[j].1@ == fields[j].1@,
        decreases fields.len() - i,
    {
        let value = clone_prim(&fields[i].1);
        copy.push((fields[i].0.clone(), value));
        i += 1;
    }
    assert(fields_view(copy@) =~= fields_view(fields@));
    copy
}

/// A copy of a list of types.
pub fn clone_prims(prims: &Vec<Prim>) -> (copy: Vec<Prim>)
    ensures
        prims_view(copy@) == prims_view(prims@),
    decreases prims,
{
    let mut copy: Vec<Prim> = Vec::new();
    let mut i: usize = 0;
    while i < prims.len()
        invariant
            i <= prims.len(),
            copy.len() == i,
            forall|j: int| 0 <= j < i ==> copy[j]@ == prims[j]@,
        decreases prims.len() - i,
    {
        copy.push(clone_prim(&prims[i]));
        i += 1;
    }
    assert(prims_view(copy@) =~= prims_view(prims@));
    copy
}

/// A copy of a set of types.
pub fn clone_type_set(set: &TypeSet) -> (copy: TypeSet)
    ensures
        copy@ == set@,
    decreases set,
{
    proof {
        use_type_invariant(set);
    }
    TypeSet { members: clone_prims(&set.members) }
}

/// A copy of a value or type.
pub fn clone_prim(p: &Prim) -> (copy: Prim)
    ensures
        copy@ == p@,
    decreases p,
{
    match p {
        Prim::Void() => Prim::Void(),
        Prim::Unit() => Prim::Unit(),
        Prim::Bool(b) => Prim::Bool(*b),
        Prim::I32(n) => Prim::I32(*n),
        Prim::Str(s) => Prim::Str(s.clone()),
        Prim::Struct(fields) => Prim::Struct(clone_fields(fields)),
        Prim::Union(set) => Prim::Union(clone_type_set(set)),
        Prim::Product(set) => Prim::Product(clone_type_set(set)),
        Prim::StaticPointer(bits) => Prim::StaticPointer(*bits),
        Prim::Padded(bits, inner) => Prim::Padded(*bits, Box::new(clone_prim(inner))),
        Prim::Tag(tag, bits) => Prim::Tag(*tag, *bits),
        Prim::Pointer(bits, inner) => Prim::Pointer(*bits, Box::new(clone_prim(inner))),
        Prim::Function { intros, arguments, results } => Prim::Function {
            intros: clone_fields(intros),
            arguments: Box::new(clone_prim(arguments)),
            results: Box::new(clone_prim(results)),
        },
        Prim::App { inner, arguments } => Prim::App {
            inner: Box::new(clone_prim(inner)),
            arguments: Box::new(clone_prim(arguments)),
        },
        Prim::WithEffect(inner, effects) => Prim::WithEffect(
            Box::new(clone_prim(inner)),
            clone_names(effects),
        ),
        Prim::Variable(name) => Prim::Variable(name.clone()),
        Prim::BuiltIn(name) => Prim::BuiltIn(name.clone()),
    }
}

impl Clone for Prim {
    fn clone(&self) -> (copy: Prim)
        ensures
            copy@ == self@,
    {
        clone_prim(self)
    }
}

impl Clone for TypeSet {
    fn clone(&self) -> (copy: TypeSet)
        ensures
            copy@ == self@,
    {
        clone_type_set(self)
    }
}

// ---------------------------------------------------------------------
// Equality
// ---------------------------------------------------------------------
fn names_eq(a: &Vec<String>, b: &Vec<String>) -> (same: bool)
    ensures
        same == (names_view(a@) == names_view(b@)),
{
    if a.len() != b.len() {
        assert(names_view(a@).len() != names_view(b@).len());
        return false;
    }
    let mut i: usize = 0;
    while i < a.len()
        invariant
            a.len() == b.len(),
            i <= a.len(),
            forall|j: int| 0 <= j < i ==> a[j]@ == b[j]@,
        decreases a.len() - i,
    {
        if a[i] != b[i] {
            assert(names_view(a@)[i as int] != names_view(b@)[i as int]);
            return false;
        }
        i += 1;
    }
    assert(names_view(a@) =~= names_view(b@));
    true
}

fn fields_eq(a: &Vec<(String, Prim)>, b: &Vec<(String, Prim)>) -> (same: bool)
    ensures
        same == (fields_view(a@) == fields_view(b@)),
    decreases a,
{
    if a.len() != b.len() {
        assert(fields_view(a@).len() != fields_view(b@).len());
        return false;
    }
    let mut i: usize = 0;
    while i < a.len()
        invariant
            a.len() == b.len(),
            i <= a.len(),
            forall|j: int| 0 <= j < i ==> fields_view(a@)[j] == fields_view(b@)[j],
        decreases a.len() - i,
    {
        if a[i].0 != b[i].0 || !prim_eq(&a[i].1, &b[i].1) {
            assert(fields_view(a@)[i as int] != fields_view(b@)[i as int]);
            return false;
        }
        i += 1;
    }
    assert(fields_view(a@) =~= fields_view(b@));
    true
}

fn prims_eq(a: &Vec<Prim>, b: &Vec<Prim>) -> (same: bool)
    ensures
        same == (prims_view(a@) == prims_view(b@)),
    decreases a,
{
    if a.len() != b.len() {
        assert(prims_view(a@).len() != prims_view(b@).len());
        return false;
    }
    let mut i: usize = 0;
    while i < a.len()
        invariant
            a.len() == b.len(),
            i <= a.len(),
            forall|j: int| 0 <= j < i ==> prims_view(a@)[j] == prims_view(b@)[j],
        decreases a.len() - i,
    {
        if !prim_eq(&a[i], &b[i]) {
            assert(prims_view(a@)[i as int] != prims_view(b@)[i as int]);
            return false;
        }
        i += 1;
    }
    assert(prims_view(a@) =~= prims_view(b@));
    true
}

/// Whether two values or types are the same.
pub fn prim_eq(a: &Prim, b: &Prim) -> (same: bool)
    ensures
        same == (a@ == b@),
    decreases a,
{
    match (a, b) {
        (Prim::Void(), Prim::Void()) => true,
        (Prim::Unit(), Prim::Unit()) => true,
        (Prim::Bool(x), Prim::Bool(y)) => *x == *y,
        (Prim::I32(x), Prim::I32(y)) => *x == *y,
        (Prim::Str(x), Prim::Str(y)) => *x == *y,
        (Prim::Struct(x), Prim::Struct(y)) => fields_eq(x, y),
        (Prim::Union(x), Prim::Union(y)) => prims_eq(&x.members, &y.members),
        (Prim::Product(x), Prim::Product(y)) => prims_eq(&x.members, &y.members),
        (Prim::StaticPointer(x), Prim::StaticPointer(y)) => *x == *y,
        (Prim::Padded(x, s), Prim::Padded(y, t)) => *x == *y && prim_eq(s, t),
        (Prim::Tag(x, m), Prim::Tag(y, n)) => *x == *y && *m == *n,
        (Prim::Pointer(x, s), Prim::Pointer(y, t)) => *x == *y && prim_eq(s, t),
        (
            Prim::Function { intros: i1, arguments: a1, results: r1 },
            Prim::Function { intros: i2, arguments: a2, results: r2 },
        ) => fields_eq(i1, i2) && prim_eq(a1, a2) && prim_eq(r1, r2),
        (Prim::App { inner: i1, arguments: a1 }, Prim::App { inner: i2, arguments: a2 }) => prim_eq(
            i1,
            i2,
        ) && prim_eq(a1, a2),
        (Prim::WithEffect(s, e1), Prim::WithEffect(t, e2)) => prim_eq(s, t) && names_eq(e1, e2),
        (Prim::Variable(x), Prim::Variable(y)) => *x == *y,
        (Prim::BuiltIn(x), Prim::BuiltIn(y)) => *x == *y,
        _ => false,
    }
}

// ---------------------------------------------------------------------
// Sets of types
// ---------------------------------------------------------------------
/// The members with `member` among them: it is added at the end unless it
/// is there.
pub open spec fn set_insert(members: Seq<PrimView>, member: PrimView) -> Seq<PrimView> {
    if members.contains(member) {
        members
    } else {
        members.push(member)
    }
}

/// The set that holds each of `members`, first to last.
pub open spec fn set_of(members: Seq<PrimView>) -> Seq<PrimView>
    decreases members.len(),
{
    if members.len() == 0 {
        members
    } else {
        set_insert(set_of(members.drop_last()), members.last())
    }
}


impl TypeSet {
    /// The set without members.
    pub fn new() -> (set: TypeSet)
        ensures
            set@ == Seq::<PrimView>::empty(),
    {
        let members: Vec<Prim> = Vec::new();
        assert(prims_view(members@) =~= Seq::<PrimView>::empty());
        TypeSet { members }
    }

    /// The number of members; no member occurs twice.
    pub fn len(&self) -> (n: usize)
        ensures
            n == self@.len(),
            self@.no_duplicates(),
    {
        proof {
            use_type_invariant(self);
        }
        self.members.len()
    }

    /// The member at `index`, counted in the order of arrival.
    pub fn get(&self, index: usize) -> (member: &Prim)
        requires
            index < self@.len(),
        ensures
            member@ == self@[index as int],
    {
        &self.members[index]
    }

    /// Whether the set holds `member`.
    pub fn contains(&self, member: &Prim) -> (held: bool)
        ensures
            held == self@.contains(member@),
    {
        let mut i: usize = 0;
        while i < self.members.len()
            invariant
                i <= self.members.len(),
                forall|j: int| 0 <= j < i ==> self@[j] != member@,
            decreases self.members.len() - i,
        {
            if prim_eq(&self.members[i], member) {
                assert(self@[i as int] == member@);
                return true;
            }
            i += 1;
        }
        false
    }

    /// Adds `member` unless the set holds it.
    pub fn insert(&mut self, member: Prim)
        ensures
            final(self)@ == set_insert(old(self)@, member@),
    {
        proof {
            use_type_invariant(&*self);
        }
        if !self.contains(&member) {
            let ghost before = self@;
            let mut members: Vec<Prim> = Vec::new();
            std::mem::swap(&mut members, &mut self.members);
            members.push(member);
            assert(prims_view(members@) =~= before.push(member@));
            self.members = members;
        }
    }

    /// The set that holds each of `members`.
    pub fn from_vec(members: Vec<Prim>) -> (set: TypeSet)
        ensures
            set@ == set_of(prims_view(members@)),
    {
        let ghost all = prims_view(members@);
        let mut set = TypeSet::new();
        let mut i: usize = 0;
        assert(all.take(0) =~= Seq::<PrimView>::empty());
        while i < members.len()
            invariant
                i <= members.len(),
                all == prims_view(members@),
                set@ == set_of(all.take(i as int)),
            decreases members.len() - i,
        {
            proof {
                assert(all.take(i as int + 1).drop_last() =~= all.take(i as int));
                assert(all.take(i as int + 1).last() == members[i as int]@);
            }
            set.insert(clone_prim(&members[i]));
            i += 1;
        }
        assert(all.take(i as int) =~= all);
        set
    }
}

// ---------------------------------------------------------------------
// Layout: the model
// ---------------------------------------------------------------------
/// A number of bits or of inhabitants, or the reason why there is none.
pub type Measure = Result<int, TErrorView>;

/// Whether a number can be held as an [`Offset`].
pub open spec fn fits(n: int) -> bool {
    i32::MIN <= n <= i32::MAX
}

/// The error of a layout that cannot be held in 32 bits.
pub open spec fn overflow() -> TErrorView {
    TErrorView::LayoutOverflow(no_info())
}

/// The number of inhabitants of a type. A union has as many as its members
/// together, a product as many as the product of those of its members; a
/// tag has one; a pointer and a padded type have those of the type they
/// hold. Members are counted first to last, in 32 bits.
pub open spec fn card_of(ty: PrimView) -> Measure
    decreases ty,
{
    match ty {
        PrimView::Union(members) => card_sum(members),
        PrimView::Product(members) => card_product(members),
        PrimView::Pointer(_, inner) => card_of(*inner),
        PrimView::Tag(_, _) => Ok(1),
        PrimView::Padded(_, inner) => card_of(*inner),
        PrimView::StaticPointer(_) => Err(TErrorView::StaticPointerCardinality(no_info())),
        _ => Err(TErrorView::UnknownCardOfAbstractType(ty, no_info())),
    }
}

/// The cardinalities of the members added up, first to last.
pub open spec fn card_sum(members: Seq<PrimView>) -> Measure
    decreases members,
{
    if members.len() == 0 {
        Ok(0)
    } else {
        match card_sum(members.drop_last()) {
            Err(e) => Err(e),
            Ok(sum) => match card_of(members.last()) {
                Err(e) => Err(e),
                Ok(card) => if fits(sum + card) {
                    Ok(sum + card)
                } else {
                    Err(overflow())
                },
            },
        }
    }
}

/// The cardinalities of the members multiplied, first to last.
pub open spec fn card_product(members: Seq<PrimView>) -> Measure
    decreases members,
{
    if members.len() == 0 {
        Ok(1)
    } else {
        match card_product(members.drop_last()) {
            Err(e) => Err(e),
            Ok(product) => match card_of(members.last()) {
                Err(e) => Err(e),
                Ok(card) => if fits(product * card) {
                    Ok(product * card)
                } else {
                    Err(overflow())
                },
            },
        }
    }
}

/// The number of bits that a value of a type takes. A union and a product
/// take as many as their largest member: the members of a record are
/// padded so that this is the size of them all in a row. A padded type
/// takes its padding and what it holds.
pub open spec fn size_of(ty: PrimView) -> Measure
    decreases ty,
{
    match ty {
        PrimView::Union(members) => size_max(members),
        PrimView::Product(members) => size_max(members),
        PrimView::Pointer(bits, _) => Ok(bits as int),
        PrimView::Tag(_, bits) => Ok(bits as int),
        PrimView::StaticPointer(bits) => Ok(bits as int),
        PrimView::Padded(bits, inner) => match size_of(*inner) {
            Err(e) => Err(e),
            Ok(size) => if fits(bits + size) {
                Ok(bits + size)
            } else {
                Err(overflow())
            },
        },
        PrimView::Variable(name) => Err(TErrorView::UnknownSizeOfVariableType(name, no_info())),
        _ => Err(TErrorView::UnknownSizeOfAbstractType(ty, no_info())),
    }
}

/// The largest size among the members, and zero if none is larger.
pub open spec fn size_max(members: Seq<PrimView>) -> Measure
    decreases members,
{
    if members.len() == 0 {
        Ok(0)
    } else {
        match size_max(members.drop_last()) {
            Err(e) => Err(e),
            Ok(largest) => match size_of(members.last()) {
                Err(e) => Err(e),
                Ok(size) => if largest <= size {
                    Ok(size)
                } else {
                    Ok(largest)
                },
            },
        }
    }
}

/// The least `bits` from `bits` on with `n <= power`, where `power` is two
/// to the `bits`.
pub open spec fn bits_from(n: int, bits: int, power: int) -> int
    decreases
        (if n > power {
            n - power
        } else {
            0
        }),
{
    if n <= power || power <= 0 {
        bits
    } else {
        bits_from(n, bits + 1, 2 * power)
    }
}

/// The least number of bits that tell `n` things apart.
pub open spec fn num_bits_of(n: int) -> int {
    bits_from(n, 0, 1)
}

/// Whether `ty` can be padded by `bits` in 32 bits.
pub open spec fn padding_fits(ty: PrimView, bits: int) -> bool {
    bits == 0 || match ty {
        PrimView::Padded(had, _) => fits(had + bits),
        _ => true,
    }
}

/// The type found `bits` further in: padding adds up, and no padding is
/// no change.
pub open spec fn padded_of(ty: PrimView, bits: Offset) -> PrimView {
    if bits == 0 {
        ty
    } else {
        match ty {
            PrimView::Padded(had, inner) => PrimView::Padded((had + bits) as Offset, inner),
            _ => PrimView::Padded(bits, Box::new(ty)),
        }
    }
}

/// The members of the record of `values` and the size of them all: each
/// value is padded by the sizes of those before it.
pub open spec fn record_layout(values: Seq<PrimView>) -> Result<(Seq<PrimView>, int), TErrorView>
    decreases values.len(),
{
    if values.len() == 0 {
        Ok((Seq::empty(), 0))
    } else {
        match record_layout(values.drop_last()) {
            Err(e) => Err(e),
            Ok((members, offset)) => match size_of(values.last()) {
                Err(e) => Err(e),
                Ok(size) => if !padding_fits(values.last(), offset) || !fits(offset + size) {
                    Err(overflow())
                } else {
                    Ok(
                        (
                            set_insert(members, padded_of(values.last(), offset as Offset)),
                            offset + size,
                        ),
                    )
                },
            },
        }
    }
}

/// The product of `values` in a row, without gaps.
pub open spec fn record_of(values: Seq<PrimView>) -> Result<PrimView, TErrorView> {
    match record_layout(values) {
        Err(e) => Err(e),
        Ok((members, _)) => Ok(PrimView::Product(members)),
    }
}

/// The type with no inhabitant.
pub open spec fn void_view() -> PrimView {
    PrimView::Union(Seq::empty())
}

/// The type with one inhabitant.
pub open spec fn unit_view() -> PrimView {
    PrimView::Product(Seq::empty())
}

/// The variant of a sum that stands for `value` under the number `tag`:
/// the tag alone for the unit type, else the record of the tag and the
/// value.
pub open spec fn variant_of(tag: Offset, tag_bits: Offset, value: PrimView) -> Result<
    PrimView,
    TErrorView,
> {
    if value == unit_view() {
        Ok(PrimView::Tag(tag, tag_bits))
    } else {
        record_of(seq![PrimView::Tag(tag, tag_bits), value])
    }
}

/// The variants of the first values of a sum whose tags take `tag_bits`.
pub open spec fn sum_variants(values: Seq<PrimView>, tag_bits: Offset) -> Result<
    Seq<PrimView>,
    TErrorView,
>
    decreases values.len(),
{
    if values.len() == 0 {
        Ok(Seq::empty())
    } else {
        match sum_variants(values.drop_last(), tag_bits) {
            Err(e) => Err(e),
            Ok(variants) => match variant_of(
                (values.len() - 1) as Offset,
                tag_bits,
                values.last(),
            ) {
                Err(e) => Err(e),
                Ok(variant) => Ok(set_insert(variants, variant)),
            },
        }
    }
}

/// The tagged union of `values`: each gets the number of its place as its
/// tag, and the tags take the least number of bits that tell the values
/// apart.
pub open spec fn sum_of(values: Seq<PrimView>) -> Result<PrimView, TErrorView> {
    if !fits(values.len() as int) {
        Err(overflow())
    } else {
        match sum_variants(values, num_bits_of(values.len() as int) as Offset) {
            Err(e) => Err(e),
            Ok(variants) => Ok(PrimView::Union(variants)),
        }
    }
}

/// The mathematical value of what a layout function returns.
pub open spec fn measured(r: Result<Offset, TError>, model: Measure) -> bool {
    match r {
        Ok(n) => model == Ok::<int, TErrorView>(n as int),
        Err(e) => model == Err::<int, TErrorView>(e@),
    }
}

/// The same for a function that returns a type.
pub open spec fn laid_out(r: Result<Prim, TError>, model: Result<PrimView, TErrorView>) -> bool {
    match r {
        Ok(ty) => model == Ok::<PrimView, TErrorView>(ty@),
        Err(e) => model == Err::<PrimView, TErrorView>(e@),
    }
}

proof fn lemma_card_sum_fails(members: Seq<PrimView>, n: int)
    requires
        0 <= n <= members.len(),
        card_sum(members.take(n)) is Err,
    ensures
        card_sum(members) == card_sum(members.take(n)),
    decreases members.len() - n,
{
    if n == members.len() {
        assert(members.take(n) =~= members);
    } else {
        assert(members.take(n + 1).drop_last() =~= members.take(n));
        lemma_card_sum_fails(members, n + 1);
    }
}

proof fn lemma_card_product_fails(members: Seq<PrimView>, n: int)
    requires
        0 <= n <= members.len(),
        card_product(members.take(n)) is Err,
    ensures
        card_product(members) == card_product(members.take(n)),
    decreases members.len() - n,
{
    if n == members.len() {
        assert(members.take(n) =~= members);
    } else {
        assert(members.take(n + 1).drop_last() =~= members.take(n));
        lemma_card_product_fails(members, n + 1);
    }
}

proof fn lemma_size_max_fails(members: Seq<PrimView>, n: int)
    requires
        0 <= n <= members.len(),
        size_max(members.take(n)) is Err,
    ensures
        size_max(members) == size_max(members.take(n)),
    decreases members.len() - n,
{
    if n == members.len() {
        assert(members.take(n) =~= members);
    } else {
        assert(members.take(n + 1).drop_last() =~= members.take(n));
        lemma_size_max_fails(members, n + 1);
    }
}

proof fn lemma_record_layout_fails(values: Seq<PrimView>, n: int)
    requires
        0 <= n <= values.len(),
        record_layout(values.take(n)) is Err,
    ensures
        record_layout(values) == record_layout(values.take(n)),
    decreases values.len() - n,
{
    if n == values.len() {
        assert(values.take(n) =~= values);
    } else {
        assert(values.take(n + 1).drop_last() =~= values.take(n));
        lemma_record_layout_fails(values, n + 1);
    }
}

proof fn lemma_sum_variants_fails(values: Seq<PrimView>, tag_bits: Offset, n: int)
    requires
        0 <= n <= values.len(),
        sum_variants(values.take(n), tag_bits) is Err,
    ensures
        sum_variants(values, tag_bits) == sum_variants(values.take(n), tag_bits),
    decreases values.len() - n,
{
    if n == values.len() {
        assert(values.take(n) =~= values);
    } else {
        assert(values.take(n + 1).drop_last() =~= values.take(n));
        lemma_sum_variants_fails(values, tag_bits, n + 1);
    }
}

// ---------------------------------------------------------------------
// Layout: the functions
// ---------------------------------------------------------------------
fn overflowed() -> (e: TError)
    ensures
        e@ == overflow(),
{
    TError::LayoutOverflow(Info::default())
}

/// Counts the inhabitants of a type.
pub fn card(ty: &Prim) -> (r: Result<Offset, TError>)
    ensures
        measured(r, card_of(ty@)),
    decreases ty,
{
    match ty {
        Prim::Union(set) => {
            let ghost all = prims_view(set.members@);
            let mut sum: Offset = 0;
            let mut i: usize = 0;
            assert(all.take(0) =~= Seq::<PrimView>::empty());
            while i < set.members.len()
                invariant
                    i <= set.members.len(),
                    ty == (Prim::Union(*set)),
                    all == prims_view(set.members@),
                    card_sum(all.take(i as int)) == Ok::<int, TErrorView>(sum as int),
                decreases set.members.len() - i,
            {
                proof {
                    assert(all.take(i as int + 1).drop_last() =~= all.take(i as int));
                    assert(all.take(i as int + 1).last() == set.members[i as int]@);
                }
                let member = match card(&set.members[i]) {
                    Ok(n) => n,
                    Err(e) => {
                        proof {
                            lemma_card_sum_fails(all, i as int + 1);
                        }
                        return Err(e);
                    },
                };
                let next = sum as i64 + member as i64;
                if next < i32::MIN as i64 || next > i32::MAX as i64 {
                    proof {
                        lemma_card_sum_fails(all, i as int + 1);
                    }
                    return Err(overflowed());
                }
                sum = next as Offset;
                i += 1;
            }
            assert(all.take(i as int) =~= all);
            Ok(sum)
        },
        Prim::Product(set) => {
            let ghost all = prims_view(set.members@);
            let mut product: Offset = 1;
            let mut i: usize = 0;
            assert(all.take(0) =~= Seq::<PrimView>::empty());
            while i < set.members.len()
                invariant
                    i <= set.members.len(),
                    ty == (Prim::Product(*set)),
                    all == prims_view(set.members@),
                    card_product(all.take(i as int)) == Ok::<int, TErrorView>(product as int),
                decreases set.members.len() - i,
            {
                proof {
                    assert(all.take(i as int + 1).drop_last() =~= all.take(i as int));
                    assert(all.take(i as int + 1).last() == set.members[i as int]@);
                }
                let member = match card(&set.members[i]) {
                    Ok(n) => n,
                    Err(e) => {
                        proof {
                            lemma_card_product_fails(all, i as int + 1);
                        }
                        return Err(e);
                    },
                };
                assert(-0x4000_0000_0000_0000 <= product * member <= 0x4000_0000_0000_0000)
                    by (nonlinear_arith)
                    requires
                        -0x8000_0000 <= product <= 0x7fff_ffff,
                        -0x8000_0000 <= member <= 0x7fff_ffff,
                ;
                let next = product as i64 * member as i64;
                if next < i32::MIN as i64 || next > i32::MAX as i64 {
                    proof {
                        lemma_card_product_fails(all, i as int + 1);
                    }
                    return Err(overflowed());
                }
                product = next as Offset;
                i += 1;
            }
            assert(all.take(i as int) =~= all);
            Ok(product)
        },
        Prim::Pointer(_, inner) => card(inner),
        Prim::Tag(_, _) => Ok(1),
        Prim::Padded(_, inner) => card(inner),
        Prim::StaticPointer(_) => Err(TError::StaticPointerCardinality(Info::default())),
        other => Err(TError::UnknownCardOfAbstractType(clone_prim(other), Info::default())),
    }
}

fn largest_size(ty: &Prim, members: &Vec<Prim>) -> (r: Result<Offset, TError>)
    requires
        decreases_to!(ty => members),
    ensures
        measured(r, size_max(prims_view(members@))),
    decreases ty, 0int,
{
    let ghost all = prims_view(members@);
    let mut largest: Offset = 0;
    let mut i: usize = 0;
    assert(all.take(0) =~= Seq::<PrimView>::empty());
    while i < members.len()
        invariant
            i <= members.len(),
            decreases_to!(ty => members),
            all == prims_view(members@),
            size_max(all.take(i as int)) == Ok::<int, TErrorView>(largest as int),
        decreases members.len() - i,
    {
        proof {
            assert(all.take(i as int + 1).drop_last() =~= all.take(i as int));
            assert(all.take(i as int + 1).last() == members[i as int]@);
        }
        let member = match size(&members[i]) {
            Ok(n) => n,
            Err(e) => {
                proof {
                    lemma_size_max_fails(all, i as int + 1);
                }
                return Err(e);
            },
        };
        if largest <= member {
            largest = member;
        }
        i += 1;
    }
    assert(all.take(i as int) =~= all);
    Ok(largest)
}

/// The number of bits that a value of a type takes.
pub fn size(ty: &Prim) -> (r: Result<Offset, TError>)
    ensures
        measured(r, size_of(ty@)),
    decreases ty, 1int,
{
    match ty {
        Prim::Union(set) => largest_size(ty, &set.members),
        Prim::Product(set) => largest_size(ty, &set.members),
        Prim::Pointer(bits, _) => Ok(*bits),
        Prim::Tag(_, bits) => Ok(*bits),
        Prim::StaticPointer(bits) => Ok(*bits),
        Prim::Padded(bits, inner) => {
            let inside = match size(inner) {
                Ok(n) => n,
                Err(e) => {
                    return Err(e);
                },
            };
            let whole = *bits as i64 + inside as i64;
            if whole < i32::MIN as i64 || whole > i32::MAX as i64 {
                return Err(overflowed());
            }
            Ok(whole as Offset)
        },
        Prim::Variable(name) => Err(
            TError::UnknownSizeOfVariableType(name.clone(), Info::default()),
        ),
        other => Err(TError::UnknownSizeOfAbstractType(clone_prim(other), Info::default())),
    }
}

/// The least number of bits that tell `n` things apart: the least `bits`
/// with `n` at most two to the `bits`.
pub fn num_bits(n: Offset) -> (bits: Offset)
    ensures
        bits == num_bits_of(n as int),
        0 <= bits <= 31,
        n <= pow2(bits as nat),
        bits > 0 ==> pow2((bits - 1) as nat) < n,
{
    let mut k: Offset = 0;
    let mut p: i64 = 1;
    proof {
        lemma2_to64();
    }
    while (n as i64) > p
        invariant
            0 <= k <= 31,
            p == pow2(k as nat),
            1 <= p,
            k > 0 ==> pow2((k - 1) as nat) < n,
            bits_from(n as int, k as int, p as int) == num_bits_of(n as int),
        decreases
            (if n > p {
                n - p
            } else {
                0
            }),
    {
        proof {
            lemma2_to64();
            lemma_pow2_unfold((k + 1) as nat);
            if k == 31 {
                assert(p == 0x8000_0000);
            }
        }
        k += 1;
        p = p * 2;
    }
    k
}

impl Prim {
    /// A pointer of eight bytes to a value of this type.
    pub fn ptr(self) -> (ty: Prim)
        ensures
            ty@ == PrimView::Pointer(64, Box::new(self@)),
    {
        Prim::Pointer(8 * byte_size(), Box::new(self))
    }

    /// The type found `size` bits further in; see [`padded_of`].
    pub fn padded(self, size: Offset) -> (ty: Prim)
        requires
            padding_fits(self@, size as int),
        ensures
            ty@ == padded_of(self@, size),
    {
        if size == 0 {
            return self;
        }
        match self {
            Prim::Padded(had, inner) => Prim::Padded(had + size, inner),
            other => Prim::Padded(size, Box::new(other)),
        }
    }

    /// Whether the type can be padded by `size` bits in 32 bits.
    pub fn can_pad(&self, size: Offset) -> (fitting: bool)
        ensures
            fitting == padding_fits(self@, size as int),
    {
        if size == 0 {
            return true;
        }
        match self {
            Prim::Padded(had, _) => {
                let whole = *had as i64 + size as i64;
                i32::MIN as i64 <= whole && whole <= i32::MAX as i64
            },
            _ => true,
        }
    }
}

/// The product of `values` in a row, without gaps; see [`record_of`].
pub fn record(values: Vec<Prim>) -> (r: Result<Prim, TError>)
    ensures
        laid_out(r, record_of(prims_view(values@))),
{
    let ghost all = prims_view(values@);
    let mut layout = TypeSet::new();
    let mut off: Offset = 0;
    let mut i: usize = 0;
    assert(all.take(0) =~= Seq::<PrimView>::empty());
    while i < values.len()
        invariant
            i <= values.len(),
            all == prims_view(values@),
            record_layout(all.take(i as int)) == Ok::<(Seq<PrimView>, int), TErrorView>(
                (layout@, off as int),
            ),
        decreases values.len() - i,
    {
        proof {
            assert(all.take(i as int + 1).drop_last() =~= all.take(i as int));
            assert(all.take(i as int + 1).last() == values[i as int]@);
        }
        let bits = match size(&values[i]) {
            Ok(n) => n,
            Err(e) => {
                proof {
                    lemma_record_layout_fails(all, i as int + 1);
                }
                return Err(e);
            },
        };
        let end = off as i64 + bits as i64;
        if !values[i].can_pad(off) || end < i32::MIN as i64 || end > i32::MAX as i64 {
            proof {
                lemma_record_layout_fails(all, i as int + 1);
            }
            return Err(overflowed());
        }
        layout.insert(clone_prim(&values[i]).padded(off));
        off = end as Offset;
        i += 1;
    }
    assert(all.take(i as int) =~= all);
    Ok(Prim::Product(layout))
}

/// The tagged union of `values`; see [`sum_of`].
pub fn sum(values: Vec<Prim>) -> (r: Result<Prim, TError>)
    ensures
        laid_out(r, sum_of(prims_view(values@))),
{
    let ghost all = prims_view(values@);
    if values.len() > i32::MAX as usize {
        return Err(overflowed());
    }
    let tag_bits = num_bits(values.len() as Offset);
    let unit = unit_type();
    let mut layout = TypeSet::new();
    let mut i: usize = 0;
    assert(all.take(0) =~= Seq::<PrimView>::empty());
    while i < values.len()
        invariant
            i <= values.len(),
            values.len() <= i32::MAX,
            all == prims_view(values@),
            unit@ == unit_view(),
            tag_bits == num_bits_of(values.len() as int),
            sum_variants(all.take(i as int), tag_bits) == Ok::<Seq<PrimView>, TErrorView>(
                layout@,
            ),
        decreases values.len() - i,
    {
        proof {
            assert(all.take(i as int + 1).drop_last() =~= all.take(i as int));
            assert(all.take(i as int + 1).last() == values[i as int]@);
        }
        let tag = Prim::Tag(i as Offset, tag_bits);
        let variant = if prim_eq(&values[i], &unit) {
            tag
        } else {
            let pair = vec![tag, clone_prim(&values[i])];
            assert(prims_view(pair@) =~= seq![PrimView::Tag(i as Offset, tag_bits), values[i as int]@]);
            match record(pair) {
                Ok(ty) => ty,
                Err(e) => {
                    proof {
                        assert(all.take(i as int + 1).len() == i + 1);
                        assert(variant_of(i as Offset, tag_bits, values[i as int]@) is Err);
                        assert(sum_variants(all.take(i as int + 1), tag_bits) is Err);
                        lemma_sum_variants_fails(all, tag_bits, i as int + 1);
                    }
                    return Err(e);
                },
            }
        };
        layout.insert(variant);
        i += 1;
    }
    assert(all.take(i as int) =~= all);
    Ok(Prim::Union(layout))
}

/// The type with no inhabitant: the union of nothing.
pub fn void_type() -> (ty: Prim)
    ensures
        ty@ == void_view(),
{
    Prim::Union(TypeSet::new())
}

/// The type with one inhabitant: the product of nothing.
pub fn unit_type() -> (ty: Prim)
    ensures
        ty@ == unit_view(),
{
    Prim::Product(TypeSet::new())
}

/// The number of bits in a byte.
pub fn byte_size() -> (bits: Offset)
    ensures
        bits == 8,
{
    8
}

/// A type that is not known yet.
pub fn variable(name: &str) -> (ty: Prim)
    ensures
        ty@ == PrimView::Variable(name@),
{
    Prim::Variable(String::from_str(name))
}

/// The type of numbers, which is not known yet.
pub fn number_type() -> (ty: Prim)
    ensures
        ty@ == PrimView::Variable("Number"@),
{
    variable("Number")
}

/// The type of types, which is not known yet.
pub fn type_type() -> (ty: Prim)
    ensures
        ty@ == PrimView::Variable("Type"@),
{
    variable("Type")
}

/// The literal of a 32-bit number.
pub fn int32(value: i32) -> (literal: Prim)
    ensures
        literal@ == PrimView::I32(value),
{
    Prim::I32(value)
}

/// The literal of a text.
pub fn string(text: &str) -> (literal: Prim)
    ensures
        literal@ == PrimView::Str(text@),
{
    Prim::Str(String::from_str(text))
}

// ---------------------------------------------------------------------
// Records of one type in a row, and the types made of them
// ---------------------------------------------------------------------
/// `count` times the type `ty`.
pub open spec fn repeated(ty: PrimView, count: nat) -> Seq<PrimView> {
    Seq::new(count, |i: int| ty)
}

/// The members of the record of `count` times the type `ty` of `size`
/// bits.
pub open spec fn row_of(ty: PrimView, size: int, count: nat) -> Seq<PrimView> {
    Seq::new(count, |i: int| padded_of(ty, (i * size) as Offset))
}

proof fn lemma_row_bounds(size: int, i: int, count: int)
    requires
        size > 0,
        0 <= i <= count,
        fits(count * size),
    ensures
        0 <= i * size <= count * size,
        fits(i * size),
        i < count ==> i * size + size <= count * size,
        i < count ==> (i + 1) * size == i * size + size,
{
    assert(0 <= i * size <= count * size) by (nonlinear_arith)
        requires
            size > 0,
            0 <= i <= count,
    ;
    if i < count {
        assert(i * size + size <= count * size && (i + 1) * size == i * size + size)
            by (nonlinear_arith)
            requires
                size > 0,
                0 <= i < count,
        ;
    }
}

/// The record of a type several times over: the copies stand in a row,
/// each padded by the sizes of those before it, and none of them is lost.
pub proof fn lemma_record_repeated(ty: PrimView, size: int, count: nat)
    requires
        size_of(ty) == Ok::<int, TErrorView>(size),
        size > 0,
        !(ty is Padded),
        fits(count * size),
    ensures
        record_layout(repeated(ty, count)) == Ok::<(Seq<PrimView>, int), TErrorView>(
            (row_of(ty, size, count), count * size),
        ),
    decreases count,
{
    let values = repeated(ty, count);
    if count == 0 {
        assert(row_of(ty, size, 0) =~= Seq::<PrimView>::empty());
        assert(values.len() == 0);
        assert(count * size == 0) by (nonlinear_arith)
            requires
                count == 0,
        ;
    } else {
        let fewer = (count - 1) as nat;
        lemma_row_bounds(size, fewer as int, count as int);
        assert(values.drop_last() =~= repeated(ty, fewer));
        lemma_record_repeated(ty, size, fewer);
        let members = row_of(ty, size, fewer);
        let offset = fewer * size;
        let member = padded_of(ty, offset as Offset);
        assert(values.last() == ty);
        assert forall|i: int| 0 <= i < members.len() implies members[i] != member by {
            lemma_row_bounds(size, i, count as int);
            assert(i * size != fewer * size) by (nonlinear_arith)
                requires
                    size > 0,
                    i != fewer,
            ;
        }
        assert(!members.contains(member));
        assert(members.push(member) =~= row_of(ty, size, count));
        assert(record_layout(values.drop_last()) == Ok::<(Seq<PrimView>, int), TErrorView>(
            (members, offset),
        ));
        assert(size_of(values.last()) == Ok::<int, TErrorView>(size));
        assert(padding_fits(values.last(), offset));
        assert(offset + size == count * size);
        assert(set_insert(members, padded_of(values.last(), offset as Offset)) == row_of(
            ty,
            size,
            count,
        ));
    }
}

/// The size of a record of one type several times over is the size of the
/// type that many times, although it is taken as a maximum.
pub proof fn lemma_row_size(ty: PrimView, size: int, count: nat)
    requires
        size_of(ty) == Ok::<int, TErrorView>(size),
        size > 0,
        !(ty is Padded),
        fits(count * size),
    ensures
        size_max(row_of(ty, size, count)) == Ok::<int, TErrorView>(count * size),
    decreases count,
{
    let members = row_of(ty, size, count);
    if count == 0 {
        assert(members.len() == 0);
        assert(count * size == 0) by (nonlinear_arith)
            requires
                count == 0,
        ;
    } else {
        let fewer = (count - 1) as nat;
        lemma_row_bounds(size, fewer as int, count as int);
        assert(members.drop_last() =~= row_of(ty, size, fewer));
        lemma_row_size(ty, size, fewer);
        let last = padded_of(ty, (fewer * size) as Offset);
        assert(members.last() == last);
        if fewer == 0 {
            assert(last == ty);
        } else {
            assert(fewer * size != 0) by (nonlinear_arith)
                requires
                    fewer > 0,
                    size > 0,
            ;
            assert(last == PrimView::Padded((fewer * size) as Offset, Box::new(ty)));
        }
        assert(size_of(last) == Ok::<int, TErrorView>(count * size));
    }
}

/// The cardinality of a record of one type several times over is the
/// cardinality of the type to that power.
pub proof fn lemma_row_card(ty: PrimView, size: int, card: int, count: nat)
    requires
        card_of(ty) == Ok::<int, TErrorView>(card),
        card >= 1,
        fits(pow(card, count)),
    ensures
        card_product(row_of(ty, size, count)) == Ok::<int, TErrorView>(pow(card, count)),
    decreases count,
{
    let members = row_of(ty, size, count);
    if count == 0 {
        lemma_pow0(card);
    } else {
        let fewer = (count - 1) as nat;
        assert(members.drop_last() =~= row_of(ty, size, fewer));
        lemma_pow_positive(card, fewer);
        lemma_pow_increases(card as nat, fewer, count);
        lemma_row_card(ty, size, card, fewer);
        assert(card_of(members.last()) == Ok::<int, TErrorView>(card));
        assert(pow(card, count) == card * pow(card, fewer)) by {
            reveal(pow);
        }
        assert(pow(card, fewer) * card == card * pow(card, fewer)) by (nonlinear_arith);
    }
}

/// The type of a bit: the sum of two unit types.
pub open spec fn bit_view() -> PrimView {
    PrimView::Union(seq![PrimView::Tag(0, 1), PrimView::Tag(1, 1)])
}

/// The type of a byte: eight bits in a row.
pub open spec fn byte_view() -> PrimView {
    PrimView::Product(row_of(bit_view(), 1, 8))
}

/// The type of a 32-bit number: four bytes in a row.
pub open spec fn i32_view() -> PrimView {
    PrimView::Product(row_of(byte_view(), 8, 4))
}

/// A bit is the sum of two unit types; it takes one bit and has two
/// inhabitants.
pub proof fn lemma_bit()
    ensures
        sum_of(seq![unit_view(), unit_view()]) == Ok::<PrimView, TErrorView>(bit_view()),
        size_of(bit_view()) == Ok::<int, TErrorView>(1),
        card_of(bit_view()) == Ok::<int, TErrorView>(2),
{
    reveal_with_fuel(bits_from, 3);
    let units = seq![unit_view(), unit_view()];
    assert(units.drop_last() =~= seq![unit_view()]);
    assert(units.drop_last().drop_last() =~= Seq::<PrimView>::empty());
    assert(sum_variants(Seq::<PrimView>::empty(), 1) == Ok::<Seq<PrimView>, TErrorView>(
        Seq::empty(),
    ));
    let first = seq![PrimView::Tag(0, 1)];
    assert(set_insert(Seq::<PrimView>::empty(), PrimView::Tag(0, 1)) =~= first);
    assert(sum_variants(seq![unit_view()], 1) == Ok::<Seq<PrimView>, TErrorView>(first));
    let both = seq![PrimView::Tag(0, 1), PrimView::Tag(1, 1)];
    assert(forall|i: int| 0 <= i < first.len() ==> first[i] != PrimView::Tag(1, 1));
    assert(set_insert(first, PrimView::Tag(1, 1)) =~= both);
    assert(sum_variants(units, 1) == Ok::<Seq<PrimView>, TErrorView>(both));
    assert(both.drop_last() =~= first);
    assert(first.drop_last() =~= Seq::<PrimView>::empty());
    assert(first.last() == PrimView::Tag(0, 1));
    assert(both.last() == PrimView::Tag(1, 1));
    assert(size_of(PrimView::Tag(0, 1)) == Ok::<int, TErrorView>(1));
    assert(size_of(PrimView::Tag(1, 1)) == Ok::<int, TErrorView>(1));
    assert(size_max(Seq::<PrimView>::empty()) == Ok::<int, TErrorView>(0));
    assert(size_max(first) == Ok::<int, TErrorView>(1));
    assert(size_max(both) == Ok::<int, TErrorView>(1));
    assert(card_of(PrimView::Tag(0, 1)) == Ok::<int, TErrorView>(1));
    assert(card_of(PrimView::Tag(1, 1)) == Ok::<int, TErrorView>(1));
    assert(card_sum(Seq::<PrimView>::empty()) == Ok::<int, TErrorView>(0));
    assert(card_sum(first) == Ok::<int, TErrorView>(1));
    assert(card_sum(both) == Ok::<int, TErrorView>(2));
}

/// A byte is the record of eight bits; it takes eight bits and has 256
/// inhabitants.
pub proof fn lemma_byte()
    ensures
        record_of(repeated(bit_view(), 8)) == Ok::<PrimView, TErrorView>(byte_view()),
        size_of(byte_view()) == Ok::<int, TErrorView>(8),
        card_of(byte_view()) == Ok::<int, TErrorView>(256),
{
    lemma_bit();
    lemma_record_repeated(bit_view(), 1, 8);
    lemma_row_size(bit_view(), 1, 8);
    assert(pow(2, 8) == 256) by {
        reveal_with_fuel(pow, 9);
    }
    lemma_row_card(bit_view(), 1, 2, 8);
}

/// A 32-bit number is the record of four bytes; it takes 32 bits.
pub proof fn lemma_i32()
    ensures
        record_of(repeated(byte_view(), 4)) == Ok::<PrimView, TErrorView>(i32_view()),
        size_of(i32_view()) == Ok::<int, TErrorView>(32),
{
    lemma_byte();
    lemma_record_repeated(byte_view(), 8, 4);
    lemma_row_size(byte_view(), 8, 4);
}

/// The type of a bit.
pub fn bit_type() -> (ty: Prim)
    ensures
        ty@ == bit_view(),
        sum_of(seq![unit_view(), unit_view()]) == Ok::<PrimView, TErrorView>(ty@),
        size_of(ty@) == Ok::<int, TErrorView>(1),
        card_of(ty@) == Ok::<int, TErrorView>(2),
{
    let units = vec![unit_type(), unit_type()];
    proof {
        assert(prims_view(units@) =~= seq![unit_view(), unit_view()]);
        lemma_bit();
    }
    match sum(units) {
        Ok(ty) => ty,
        Err(_) => void_type(),
    }
}

/// The type of a byte.
pub fn byte_type() -> (ty: Prim)
    ensures
        ty@ == byte_view(),
        record_of(repeated(bit_view(), 8)) == Ok::<PrimView, TErrorView>(ty@),
        size_of(ty@) == Ok::<int, TErrorView>(8),
        card_of(ty@) == Ok::<int, TErrorView>(256),
{
    let bits = vec![
        bit_type(),
        bit_type(),
        bit_type(),
        bit_type(),
        bit_type(),
        bit_type(),
        bit_type(),
        bit_type(),
    ];
    proof {
        assert(prims_view(bits@) =~= repeated(bit_view(), 8));
        lemma_byte();
    }
    match record(bits) {
        Ok(ty) => ty,
        Err(_) => void_type(),
    }
}

/// The type of a character: a byte.
pub fn char_type() -> (ty: Prim)
    ensures
        ty@ == byte_view(),
{
    byte_type()
}

/// The type of a text: a pointer of eight bytes to a character.
pub open spec fn string_view() -> PrimView {
    PrimView::Pointer(64, Box::new(byte_view()))
}

/// The type of a text.
pub fn string_type() -> (ty: Prim)
    ensures
        ty@ == string_view(),
{
    char_type().ptr()
}

/// The type of a 32-bit number.
pub fn i32_type() -> (ty: Prim)
    ensures
        ty@ == i32_view(),
        record_of(repeated(byte_view(), 4)) == Ok::<PrimView, TErrorView>(ty@),
        size_of(ty@) == Ok::<int, TErrorView>(32),
{
    let bytes = vec![byte_type(), byte_type(), byte_type(), byte_type()];
    proof {
        assert(prims_view(bytes@) =~= repeated(byte_view(), 4));
        lemma_i32();
    }
    match record(bytes) {
        Ok(ty) => ty,
        Err(_) => void_type(),
    }
}

// ---------------------------------------------------------------------
// Laws of the layout
// ---------------------------------------------------------------------
/// The cardinality of the product of two types is the product of their
/// cardinalities, where that can be held in 32 bits. The two types are
/// not the same: a set holds a type once.
pub proof fn lemma_product_cardinality(a: PrimView, b: PrimView, card_a: int, card_b: int)
    requires
        a != b,
        card_of(a) == Ok::<int, TErrorView>(card_a),
        card_of(b) == Ok::<int, TErrorView>(card_b),
        fits(card_a * card_b),
    ensures
        set_of(seq![a, b]) == seq![a, b],
        card_of(PrimView::Product(seq![a, b])) == Ok::<int, TErrorView>(card_a * card_b),
{
    let both = seq![a, b];
    let first = seq![a];
    assert(both.drop_last() =~= first);
    assert(first.drop_last() =~= Seq::<PrimView>::empty());
    assert(set_of(Seq::<PrimView>::empty()) =~= Seq::<PrimView>::empty());
    assert(set_insert(Seq::<PrimView>::empty(), a) =~= first);
    assert(set_of(first) == first);
    assert(forall|i: int| 0 <= i < first.len() ==> first[i] != b);
    assert(set_insert(first, b) =~= both);
    lemma_card_in_range(a);
    assert(first.last() == a);
    assert(both.last() == b);
    assert(card_product(Seq::<PrimView>::empty()) == Ok::<int, TErrorView>(1));
    assert(1 * card_a == card_a);
    assert(card_product(first) == Ok::<int, TErrorView>(card_a));
    assert(card_product(both) == Ok::<int, TErrorView>(card_a * card_b));
}

/// The cardinality of the union of two types is the sum of their
/// cardinalities, where that can be held in 32 bits. The two types are
/// not the same: a set holds a type once.
pub proof fn lemma_union_cardinality(a: PrimView, b: PrimView, card_a: int, card_b: int)
    requires
        a != b,
        card_of(a) == Ok::<int, TErrorView>(card_a),
        card_of(b) == Ok::<int, TErrorView>(card_b),
        fits(card_a + card_b),
    ensures
        set_of(seq![a, b]) == seq![a, b],
        card_of(PrimView::Union(seq![a, b])) == Ok::<int, TErrorView>(card_a + card_b),
{
    let both = seq![a, b];
    let first = seq![a];
    assert(both.drop_last() =~= first);
    assert(first.drop_last() =~= Seq::<PrimView>::empty());
    assert(set_of(Seq::<PrimView>::empty()) =~= Seq::<PrimView>::empty());
    assert(set_insert(Seq::<PrimView>::empty(), a) =~= first);
    assert(set_of(first) == first);
    assert(forall|i: int| 0 <= i < first.len() ==> first[i] != b);
    assert(set_insert(first, b) =~= both);
    lemma_card_in_range(a);
    assert(first.last() == a);
    assert(both.last() == b);
    assert(card_sum(Seq::<PrimView>::empty()) == Ok::<int, TErrorView>(0));
    assert(card_sum(first) == Ok::<int, TErrorView>(card_a));
    assert(card_sum(both) == Ok::<int, TErrorView>(card_a + card_b));
}

/// A cardinality is never negative and can be held in 32 bits.
pub proof fn lemma_card_in_range(ty: PrimView)
    ensures
        card_of(ty) matches Ok(card) ==> 0 <= card <= i32::MAX,
    decreases ty,
{
    match ty {
        PrimView::Union(members) => lemma_card_sum_in_range(members),
        PrimView::Product(members) => lemma_card_product_in_range(members),
        PrimView::Pointer(_, inner) => lemma_card_in_range(*inner),
        PrimView::Padded(_, inner) => lemma_card_in_range(*inner),
        _ => {},
    }
}

/// The same of a sum of cardinalities.
pub proof fn lemma_card_sum_in_range(members: Seq<PrimView>)
    ensures
        card_sum(members) matches Ok(card) ==> 0 <= card <= i32::MAX,
    decreases members,
{
    if members.len() > 0 {
        lemma_card_sum_in_range(members.drop_last());
        lemma_card_in_range(members.last());
    }
}

/// The same of a product of cardinalities.
pub proof fn lemma_card_product_in_range(members: Seq<PrimView>)
    ensures
        card_product(members) matches Ok(card) ==> 0 <= card <= i32::MAX,
    decreases members,
{
    if members.len() > 0 {
        lemma_card_product_in_range(members.drop_last());
        lemma_card_in_range(members.last());
        match (card_product(members.drop_last()), card_of(members.last())) {
            (Ok(product), Ok(card)) => {
                assert(0 <= product * card) by (nonlinear_arith)
                    requires
                        0 <= product,
                        0 <= card,
                ;
            },
            _ => {},
        }
    }
}

// ---------------------------------------------------------------------
// Named values
// ---------------------------------------------------------------------
/// Whether one of `fields` has the name `name`.
pub open spec fn names_field(fields: Seq<(Seq<char>, PrimView)>, name: Seq<char>) -> bool {
    exists|i: int| 0 <= i < fields.len() && (#[trigger] fields[i]).0 == name
}

/// Those of `left` whose name none of `right` has, in their order.
pub open spec fn unshadowed(
    left: Seq<(Seq<char>, PrimView)>,
    right: Seq<(Seq<char>, PrimView)>,
) -> Seq<(Seq<char>, PrimView)>
    decreases left.len(),
{
    if left.len() == 0 {
        left
    } else if names_field(right, left.last().0) {
        unshadowed(left.drop_last(), right)
    } else {
        unshadowed(left.drop_last(), right).push(left.last())
    }
}

/// The named values of `left` and `right` together: where both have a
/// name, the value of `right` stands.
pub open spec fn merged_fields(
    left: Seq<(Seq<char>, PrimView)>,
    right: Seq<(Seq<char>, PrimView)>,
) -> Seq<(Seq<char>, PrimView)> {
    unshadowed(left, right) + right
}

/// The value `left` with `right` merged into it: two structs are merged
/// name by name, any other value on the right becomes the field `it` of a
/// struct on the left, and a left side that is no struct gives way.
pub open spec fn merged(left: PrimView, right: PrimView) -> PrimView {
    match left {
        PrimView::Struct(fields) => match right {
            PrimView::Struct(more) => PrimView::Struct(merged_fields(fields, more)),
            _ => PrimView::Struct(merged_fields(fields, seq![("it"@, right)])),
        },
        _ => right,
    }
}

fn has_field(fields: &Vec<(String, Prim)>, name: &String) -> (held: bool)
    ensures
        held == names_field(fields_view(fields@), name@),
{
    let mut i: usize = 0;
    while i < fields.len()
        invariant
            i <= fields.len(),
            forall|j: int| 0 <= j < i ==> fields_view(fields@)[j].0 != name@,
        decreases fields.len() - i,
    {
        if fields[i].0 == *name {
            assert(fields_view(fields@)[i as int].0 == name@);
            return true;
        }
        i += 1;
    }
    false
}

/// Merges two lists of named values; see [`merged_fields`].
pub fn merge_vals(left: Vec<(String, Prim)>, right: Vec<(String, Prim)>) -> (items: Vec<
    (String, Prim),
>)
    ensures
        fields_view(items@) == merged_fields(fields_view(left@), fields_view(right@)),
{
    let ghost l = fields_view(left@);
    let ghost r = fields_view(right@);
    let mut items: Vec<(String, Prim)> = Vec::new();
    let mut i: usize = 0;
    assert(l.take(0) =~= Seq::<(Seq<char>, PrimView)>::empty());
    assert(fields_view(items@) =~= Seq::<(Seq<char>, PrimView)>::empty());
    while i < left.len()
        invariant
            i <= left.len(),
            l == fields_view(left@),
            r == fields_view(right@),
            fields_view(items@) == unshadowed(l.take(i as int), r),
        decreases left.len() - i,
    {
        let ghost had = fields_view(items@);
        proof {
            assert(l.take(i as int + 1).drop_last() =~= l.take(i as int));
            assert(l.take(i as int + 1).last() == l[i as int]);
        }
        if !has_field(&right, &left[i].0) {
            items.push((left[i].0.clone(), clone_prim(&left[i].1)));
            assert(fields_view(items@) =~= had.push(l[i as int]));
        }
        i += 1;
    }
    assert(l.take(i as int) =~= l);
    let ghost kept = fields_view(items@);
    let mut k: usize = 0;
    assert(r.take(0) =~= Seq::<(Seq<char>, PrimView)>::empty());
    assert(kept + r.take(0) =~= kept);
    while k < right.len()
        invariant
            k <= right.len(),
            r == fields_view(right@),
            fields_view(items@) == kept + r.take(k as int),
        decreases right.len() - k,
    {
        let ghost had = fields_view(items@);
        items.push((right[k].0.clone(), clone_prim(&right[k].1)));
        assert(fields_view(items@) =~= had.push(r[k as int]));
        assert(kept + r.take(k as int + 1) =~= (kept + r.take(k as int)).push(r[k as int]));
        k += 1;
    }
    assert(r.take(k as int) =~= r);
    items
}

impl Prim {
    /// Merges `other` into this value; see [`merged`].
    pub fn merge(self, other: Prim) -> (both: Prim)
        ensures
            both@ == merged(self@, other@),
    {
        match self {
            Prim::Struct(vals) => match other {
                Prim::Struct(o_vals) => Prim::Struct(merge_vals(vals, o_vals)),
                other => {
                    let it = vec![(String::from_str("it"), other)];
                    assert(fields_view(it@) =~= seq![("it"@, other@)]);
                    Prim::Struct(merge_vals(vals, it))
                },
            },
            _ => other,
        }
    }
}

// ---------------------------------------------------------------------
// The size of a record
// ---------------------------------------------------------------------
/// A padded type takes its padding and what it holds, however the padding
/// was put together.
pub proof fn lemma_padded_size(ty: PrimView, size: int, offset: int)
    requires
        size_of(ty) == Ok::<int, TErrorView>(size),
        fits(offset),
        fits(offset + size),
        padding_fits(ty, offset),
    ensures
        size_of(padded_of(ty, offset as Offset)) == Ok::<int, TErrorView>(offset + size),
{
    if offset != 0 {
        match ty {
            PrimView::Padded(had, inner) => {
                assert(size_of(*inner) is Ok);
                let inside = size_of(*inner)->Ok_0;
                assert(size == had + inside);
                assert(size_of(PrimView::Padded((had + offset) as Offset, inner)) == Ok::<
                    int,
                    TErrorView,
                >(had + offset + inside));
            },
            _ => {
                assert(size_of(PrimView::Padded(offset as Offset, Box::new(ty))) == Ok::<
                    int,
                    TErrorView,
                >(offset + size));
            },
        }
    }
}

/// No member is larger than the largest.
pub proof fn lemma_member_size(members: Seq<PrimView>, i: int)
    requires
        0 <= i < members.len(),
        size_max(members) is Ok,
    ensures
        size_of(members[i]) is Ok,
        size_of(members[i])->Ok_0 <= size_max(members)->Ok_0,
        0 <= size_max(members)->Ok_0,
    decreases members.len(),
{
    let front = members.drop_last();
    assert(size_max(front) is Ok);
    if i < front.len() {
        lemma_member_size(front, i);
        assert(front[i] == members[i]);
    } else {
        lemma_largest_nonnegative(front);
    }
}

/// The largest size is never negative.
pub proof fn lemma_largest_nonnegative(members: Seq<PrimView>)
    requires
        size_max(members) is Ok,
    ensures
        0 <= size_max(members)->Ok_0,
    decreases members.len(),
{
    if members.len() > 0 {
        lemma_largest_nonnegative(members.drop_last());
    }
}

/// The size of a record is the size of its values in a row. The size of
/// a product is taken as the largest of its members; in a record each
/// member is padded by the sizes of those before it, so the largest is
/// the last value that takes room, and it ends where all of them end.
/// This rests on no value having a negative size.
pub proof fn lemma_record_size(values: Seq<PrimView>)
    requires
        record_layout(values) is Ok,
        forall|i: int|
            0 <= i < values.len() ==> (size_of(#[trigger] values[i]) matches Ok(size) && 0
                <= size),
    ensures
        size_max(record_layout(values)->Ok_0.0) == Ok::<int, TErrorView>(
            record_layout(values)->Ok_0.1,
        ),
        0 <= record_layout(values)->Ok_0.1 <= i32::MAX,
        size_of(record_of(values)->Ok_0) == Ok::<int, TErrorView>(record_layout(values)->Ok_0.1),
    decreases values.len(),
{
    if values.len() > 0 {
        let front = values.drop_last();
        let value = values.last();
        assert(record_layout(front) is Ok);
        assert forall|i: int| 0 <= i < front.len() implies (size_of(
            #[trigger] front[i],
        ) matches Ok(size) && 0 <= size) by {
            assert(front[i] == values[i]);
        }
        lemma_record_size(front);
        let members = record_layout(front)->Ok_0.0;
        let offset = record_layout(front)->Ok_0.1;
        assert(value == values[values.len() - 1]);
        let size = size_of(value)->Ok_0;
        let member = padded_of(value, offset as Offset);
        lemma_padded_size(value, size, offset);
        if members.contains(member) {
            let i = choose|i: int| 0 <= i < members.len() && members[i] == member;
            lemma_member_size(members, i);
        } else {
            let longer = members.push(member);
            assert(longer.drop_last() =~= members);
            assert(longer.last() == member);
        }
    }
    let all = record_layout(values)->Ok_0.0;
    assert(size_of(PrimView::Product(all)) == size_max(all));
}

} // verus!
