//! The IR type system: types, their layout, type variables, substitution
//! and unification.

use crate::middleend::concurrent::future::{decimal, decimal_string};
use crate::name_table::{NameTable, TableKey};
use vstd::prelude::*;
use vstd::string::StringExecFns;

verus! {

/// A value expression that a dependent type or a value constraint refers
/// to, kept as its source text; it mentions no type variables.
pub struct Expression {
    pub source: String,
}

/// An IR type.
pub enum Type {
    Void,
    /// An integer of the given bit width.
    Integer(usize),
    Float,
    Double,
    Boolean,
    Char,
    String,
    Pointer(Box<Type>),
    /// A reference; the flag says whether it is mutable.
    Reference(Box<Type>, bool),
    Array(Box<Type>, usize),
    Vector(Box<Type>),
    Slice(Box<Type>),
    Struct(String, Vec<Type>),
    Function(Vec<Type>, Box<Type>),
    Union(Vec<Type>),
    Intersection(Vec<Type>),
    Generic(String, Vec<Type>),
    Meta(Box<Type>),
    Optional(Box<Type>),
    Result(Box<Type>, Box<Type>),
    Tuple(Vec<Type>),
    Trait(String),
    /// A type known by a base trait and further bounds.
    Existential(String, Vec<String>),
    /// A type that depends on a value.
    Dependent(String, Box<Expression>),
    /// A type variable of inference.
    TypeVar(String),
    Constrained(Box<Type>, Vec<TypeConstraint>),
    Recursive(String, Box<Type>),
    Unknown,
    Error,
}

/// A constraint on a type.
pub enum TypeConstraint {
    TraitBound(String),
    Equals(Box<Type>),
    SubType(Box<Type>),
    SuperType(Box<Type>),
    ValueConstraint(Box<Expression>),
    /// The fields or methods that the type must have.
    HasMembers(Vec<String>),
}

/// The operation of an IR instruction.
#[derive(Debug, Clone, PartialEq, Eq, Hash, Structural)]
pub enum OpCode {
    /// Allocates on the stack.
    Alloca,
    Load,
    Store,
    /// Computes the address of a struct or array element.
    GetElementPtr,
    Add,
    Sub,
    Mul,
    Div,
    Rem,
    Neg,
    And,
    Or,
    Xor,
    Not,
    Shl,
    Shr,
    BitAnd,
    BitOr,
    BitXor,
    BitNot,
    /// Integer comparison.
    Icmp,
    /// Floating-point comparison.
    Fcmp,
    Br,
    CondBr,
    Switch,
    Return,
    Call,
    Cast,
    /// The SSA phi function.
    Phi,
    Nop,
}

/// The predicate of a comparison.
#[derive(Debug, Clone, PartialEq, Eq, Hash, Structural)]
pub enum Predicate {
    Eq,
    Ne,
    /// Signed less than.
    Slt,
    Sle,
    Sgt,
    Sge,
    /// Unsigned less than.
    Ult,
    Ule,
    Ugt,
    Uge,
    /// Ordered equal.
    Oeq,
    One,
    Olt,
    Ole,
    Ogt,
    Oge,
    /// Unordered equal.
    Ueq,
    Une,
    Unlt,
    Unle,
    Ungt,
    Unge,
}

/// The value of a type.
pub enum TypeView {
    Void,
    Integer(usize),
    Float,
    Double,
    Boolean,
    Char,
    String,
    Pointer(Box<TypeView>),
    Reference(Box<TypeView>, bool),
    Array(Box<TypeView>, usize),
    Vector(Box<TypeView>),
    Slice(Box<TypeView>),
    Struct(Seq<char>, Seq<TypeView>),
    Function(Seq<TypeView>, Box<TypeView>),
    Union(Seq<TypeView>),
    Intersection(Seq<TypeView>),
    Generic(Seq<char>, Seq<TypeView>),
    Meta(Box<TypeView>),
    Optional(Box<TypeView>),
    Result(Box<TypeView>, Box<TypeView>),
    Tuple(Seq<TypeView>),
    Trait(Seq<char>),
    Existential(Seq<char>, Seq<Seq<char>>),
    Dependent(Seq<char>, Seq<char>),
    TypeVar(Seq<char>),
    Constrained(Box<TypeView>, Seq<ConstraintView>),
    Recursive(Seq<char>, Box<TypeView>),
    Unknown,
    Error,
}

/// The value of a type constraint.
pub enum ConstraintView {
    TraitBound(Seq<char>),
    Equals(Box<TypeView>),
    SubType(Box<TypeView>),
    SuperType(Box<TypeView>),
    ValueConstraint(Seq<char>),
    HasMembers(Seq<Seq<char>>),
}

/// The value of a type.
pub open spec fn type_view(t: Type) -> TypeView
    decreases t,
{
    match t {
        Type::Void => TypeView::Void,
        Type::Integer(b) => TypeView::Integer(b),
        Type::Float => TypeView::Float,
        Type::Double => TypeView::Double,
        Type::Boolean => TypeView::Boolean,
        Type::Char => TypeView::Char,
        Type::String => TypeView::String,
        Type::Pointer(a) => TypeView::Pointer(Box::new(type_view(*a))),
        Type::Reference(a, m) => TypeView::Reference(Box::new(type_view(*a)), m),
        Type::Array(a, n) => TypeView::Array(Box::new(type_view(*a)), n),
        Type::Vector(a) => TypeView::Vector(Box::new(type_view(*a))),
        Type::Slice(a) => TypeView::Slice(Box::new(type_view(*a))),
        Type::Struct(n, fs) => TypeView::Struct(n@, types_view(fs)),
        Type::Function(ps, r) => TypeView::Function(types_view(ps), Box::new(type_view(*r))),
        Type::Union(ts) => TypeView::Union(types_view(ts)),
        Type::Intersection(ts) => TypeView::Intersection(types_view(ts)),
        Type::Generic(n, ts) => TypeView::Generic(n@, types_view(ts)),
        Type::Meta(a) => TypeView::Meta(Box::new(type_view(*a))),
        Type::Optional(a) => TypeView::Optional(Box::new(type_view(*a))),
        Type::Result(a, b) => TypeView::Result(Box::new(type_view(*a)), Box::new(type_view(*b))),
        Type::Tuple(ts) => TypeView::Tuple(types_view(ts)),
        Type::Trait(n) => TypeView::Trait(n@),
        Type::Existential(n, bs) => TypeView::Existential(n@, bs@.map_values(|b: String| b@)),
        Type::Dependent(n, e) => TypeView::Dependent(n@, e.source@),
        Type::TypeVar(n) => TypeView::TypeVar(n@),
        Type::Constrained(a, cs) => TypeView::Constrained(Box::new(type_view(*a)), constraints_view(cs)),
        Type::Recursive(n, a) => TypeView::Recursive(n@, Box::new(type_view(*a))),
        Type::Unknown => TypeView::Unknown,
        Type::Error => TypeView::Error,
    }
}

/// The values of a list of types.
pub open spec fn types_view(v: Vec<Type>) -> Seq<TypeView>
    decreases v,
{
    Seq::new(v@.len(), |i: int| if 0 <= i < v@.len() { type_view(v@[i]) } else { TypeView::Error })
}

/// The values of a list of constraints.
pub open spec fn constraints_view(v: Vec<TypeConstraint>) -> Seq<ConstraintView>
    decreases v,
{
    Seq::new(
        v@.len(),
        |i: int| if 0 <= i < v@.len() { constraint_view(v@[i]) } else { ConstraintView::TraitBound(Seq::empty()) },
    )
}

/// The value of a type constraint.
pub open spec fn constraint_view(c: TypeConstraint) -> ConstraintView
    decreases c,
{
    match c {
        TypeConstraint::TraitBound(n) => ConstraintView::TraitBound(n@),
        TypeConstraint::Equals(t) => ConstraintView::Equals(Box::new(type_view(*t))),
        TypeConstraint::SubType(t) => ConstraintView::SubType(Box::new(type_view(*t))),
        TypeConstraint::SuperType(t) => ConstraintView::SuperType(Box::new(type_view(*t))),
        TypeConstraint::ValueConstraint(e) => ConstraintView::ValueConstraint(e.source@),
        TypeConstraint::HasMembers(ns) => ConstraintView::HasMembers(ns@.map_values(|n: String| n@)),
    }
}

impl Clone for Expression {
    fn clone(&self) -> (r: Self)
        ensures
            r.source@ == self.source@,
    {
        Expression { source: self.source.clone() }
    }
}

/// A copy of each type of the list.
fn clone_types(ts: &Vec<Type>) -> (r: Vec<Type>)
    ensures
        types_view(r) == types_view(*ts),
    decreases ts,
{
    let mut r: Vec<Type> = Vec::new();
    let mut i: usize = 0;
    while i < ts.len()
        invariant
            i <= ts@.len(),
            r@.len() == i,
            forall|k: int| 0 <= k < i ==> (#[trigger] r@[k])@ == ts@[k]@,
        decreases ts@.len() - i,
    {
        r.push(ts[i].clone());
        i = i + 1;
    }
    assert(types_view(r) =~= types_view(*ts));
    r
}

/// A copy of each name of the list.
fn clone_names(ns: &Vec<String>) -> (r: Vec<String>)
    ensures
        r@.len() == ns@.len(),
        forall|k: int| 0 <= k < ns@.len() ==> (#[trigger] r@[k])@ == ns@[k]@,
        r@.map_values(|n: String| n@) == ns@.map_values(|n: String| n@),
{
    let mut r: Vec<String> = Vec::new();
    let mut i: usize = 0;
    while i < ns.len()
        invariant
            i <= ns@.len(),
            r@.len() == i,
            forall|k: int| 0 <= k < i ==> (#[trigger] r@[k])@ == ns@[k]@,
        decreases ns@.len() - i,
    {
        r.push(ns[i].clone());
        i = i + 1;
    }
    assert(r@.map_values(|n: String| n@) =~= ns@.map_values(|n: String| n@));
    r
}

/// A copy of each constraint of the list.
fn clone_constraints(cs: &Vec<TypeConstraint>) -> (r: Vec<TypeConstraint>)
    ensures
        constraints_view(r) == constraints_view(*cs),
    decreases cs,
{
    let mut r: Vec<TypeConstraint> = Vec::new();
    let mut i: usize = 0;
    while i < cs.len()
        invariant
            i <= cs@.len(),
            r@.len() == i,
            forall|k: int| 0 <= k < i ==> (#[trigger] r@[k])@ == cs@[k]@,
        decreases cs@.len() - i,
    {
        r.push(cs[i].clone());
        i = i + 1;
    }
    assert(constraints_view(r) =~= constraints_view(*cs));
    r
}

impl Clone for TypeConstraint {
    fn clone(&self) -> (r: Self)
        ensures
            r@ == self@,
        decreases self,
    {
        match self {
            TypeConstraint::TraitBound(n) => TypeConstraint::TraitBound(n.clone()),
            TypeConstraint::Equals(t) => TypeConstraint::Equals(Box::new((**t).clone())),
            TypeConstraint::SubType(t) => TypeConstraint::SubType(Box::new((**t).clone())),
            TypeConstraint::SuperType(t) => TypeConstraint::SuperType(Box::new((**t).clone())),
            TypeConstraint::ValueConstraint(e) => TypeConstraint::ValueConstraint(
                Box::new((**e).clone()),
            ),
            TypeConstraint::HasMembers(ns) => TypeConstraint::HasMembers(clone_names(ns)),
        }
    }
}

impl Clone for Type {
    fn clone(&self) -> (r: Self)
        ensures
            r@ == self@,
        decreases self,
    {
        match self {
            Type::Void => Type::Void,
            Type::Integer(b) => Type::Integer(*b),
            Type::Float => Type::Float,
            Type::Double => Type::Double,
            Type::Boolean => Type::Boolean,
            Type::Char => Type::Char,
            Type::String => Type::String,
            Type::Pointer(a) => Type::Pointer(Box::new((**a).clone())),
            Type::Reference(a, m) => Type::Reference(Box::new((**a).clone()), *m),
            Type::Array(a, n) => Type::Array(Box::new((**a).clone()), *n),
            Type::Vector(a) => Type::Vector(Box::new((**a).clone())),
            Type::Slice(a) => Type::Slice(Box::new((**a).clone())),
            Type::Struct(n, fs) => Type::Struct(n.clone(), clone_types(fs)),
            Type::Function(ps, r) => Type::Function(clone_types(ps), Box::new((**r).clone())),
            Type::Union(ts) => Type::Union(clone_types(ts)),
            Type::Intersection(ts) => Type::Intersection(clone_types(ts)),
            Type::Generic(n, ts) => Type::Generic(n.clone(), clone_types(ts)),
            Type::Meta(a) => Type::Meta(Box::new((**a).clone())),
            Type::Optional(a) => Type::Optional(Box::new((**a).clone())),
            Type::Result(a, b) => Type::Result(
                Box::new((**a).clone()),
                Box::new((**b).clone()),
            ),
            Type::Tuple(ts) => Type::Tuple(clone_types(ts)),
            Type::Trait(n) => Type::Trait(n.clone()),
            Type::Existential(n, bs) => Type::Existential(n.clone(), clone_names(bs)),
            Type::Dependent(n, e) => Type::Dependent(n.clone(), Box::new((**e).clone())),
            Type::TypeVar(n) => Type::TypeVar(n.clone()),
            Type::Constrained(a, cs) => Type::Constrained(
                Box::new((**a).clone()),
                clone_constraints(cs),
            ),
            Type::Recursive(n, a) => Type::Recursive(n.clone(), Box::new((**a).clone())),
            Type::Unknown => Type::Unknown,
            Type::Error => Type::Error,
        }
    }
}

/// Whether two lists of names are equal.
fn same_names(a: &Vec<String>, b: &Vec<String>) -> (r: bool)
    ensures
        r == (a@.map_values(|n: String| n@) == b@.map_values(|n: String| n@)),
{
    if a.len() != b.len() {
        proof {
            assert(a@.map_values(|n: String| n@).len() != b@.map_values(|n: String| n@).len());
        }
        return false;
    }
    let mut i: usize = 0;
    while i < a.len()
        invariant
            a@.len() == b@.len(),
            i <= a@.len(),
            forall|k: int| 0 <= k < i ==> (#[trigger] a@[k])@ == b@[k]@,
        decreases a@.len() - i,
    {
        if a[i] != b[i] {
            proof {
                assert(a@.map_values(|n: String| n@)[i as int] != b@.map_values(|n: String| n@)[i as int]);
            }
            return false;
        }
        i = i + 1;
    }
    assert(a@.map_values(|n: String| n@) =~= b@.map_values(|n: String| n@));
    true
}

/// Whether two lists of types are equal.
fn same_types(a: &Vec<Type>, b: &Vec<Type>) -> (r: bool)
    ensures
        r == (types_view(*a) == types_view(*b)),
    decreases a,
{
    if a.len() != b.len() {
        proof {
            assert(types_view(*a).len() != types_view(*b).len());
        }
        return false;
    }
    let mut i: usize = 0;
    while i < a.len()
        invariant
            a@.len() == b@.len(),
            i <= a@.len(),
            forall|k: int| 0 <= k < i ==> (#[trigger] a@[k])@ == b@[k]@,
        decreases a@.len() - i,
    {
        if !a[i].same(&b[i]) {
            proof {
                assert(types_view(*a)[i as int] != types_view(*b)[i as int]);
            }
            return false;
        }
        i = i + 1;
    }
    assert(types_view(*a) =~= types_view(*b));
    true
}

/// Whether two lists of constraints are equal.
fn same_constraints(a: &Vec<TypeConstraint>, b: &Vec<TypeConstraint>) -> (r: bool)
    ensures
        r == (constraints_view(*a) == constraints_view(*b)),
    decreases a,
{
    if a.len() != b.len() {
        proof {
            assert(constraints_view(*a).len() != constraints_view(*b).len());
        }
        return false;
    }
    let mut i: usize = 0;
    while i < a.len()
        invariant
            a@.len() == b@.len(),
            i <= a@.len(),
            forall|k: int| 0 <= k < i ==> (#[trigger] a@[k])@ == b@[k]@,
        decreases a@.len() - i,
    {
        if !a[i].same(&b[i]) {
            proof {
                assert(constraints_view(*a)[i as int] != constraints_view(*b)[i as int]);
            }
            return false;
        }
        i = i + 1;
    }
    assert(constraints_view(*a) =~= constraints_view(*b));
    true
}

impl TypeConstraint {
    /// Whether two constraints are equal.
    pub fn same(&self, other: &TypeConstraint) -> (r: bool)
        ensures
            r == (self@ == other@),
        decreases self,
    {
        match (self, other) {
            (TypeConstraint::TraitBound(x), TypeConstraint::TraitBound(y)) => *x == *y,
            (TypeConstraint::Equals(x), TypeConstraint::Equals(y)) => x.same(y),
            (TypeConstraint::SubType(x), TypeConstraint::SubType(y)) => x.same(y),
            (TypeConstraint::SuperType(x), TypeConstraint::SuperType(y)) => x.same(y),
            (TypeConstraint::ValueConstraint(x), TypeConstraint::ValueConstraint(y)) => x.source
                == y.source,
            (TypeConstraint::HasMembers(x), TypeConstraint::HasMembers(y)) => same_names(x, y),
            _ => false,
        }
    }
}

impl Type {
    /// Whether two types are equal.
    pub fn same(&self, other: &Type) -> (r: bool)
        ensures
            r == (self@ == other@),
        decreases self,
    {
        match (self, other) {
            (Type::Void, Type::Void) => true,
            (Type::Integer(x), Type::Integer(y)) => *x == *y,
            (Type::Float, Type::Float) => true,
            (Type::Double, Type::Double) => true,
            (Type::Boolean, Type::Boolean) => true,
            (Type::Char, Type::Char) => true,
            (Type::String, Type::String) => true,
            (Type::Pointer(x), Type::Pointer(y)) => x.same(y),
            (Type::Reference(x, m), Type::Reference(y, n)) => *m == *n && x.same(y),
            (Type::Array(x, m), Type::Array(y, n)) => *m == *n && x.same(y),
            (Type::Vector(x), Type::Vector(y)) => x.same(y),
            (Type::Slice(x), Type::Slice(y)) => x.same(y),
            (Type::Struct(m, x), Type::Struct(n, y)) => *m == *n && same_types(x, y),
            (Type::Function(x, p), Type::Function(y, q)) => same_types(x, y) && p.same(q),
            (Type::Union(x), Type::Union(y)) => same_types(x, y),
            (Type::Intersection(x), Type::Intersection(y)) => same_types(x, y),
            (Type::Generic(m, x), Type::Generic(n, y)) => *m == *n && same_types(x, y),
            (Type::Meta(x), Type::Meta(y)) => x.same(y),
            (Type::Optional(x), Type::Optional(y)) => x.same(y),
            (Type::Result(x, p), Type::Result(y, q)) => x.same(y) && p.same(q),
            (Type::Tuple(x), Type::Tuple(y)) => same_types(x, y),
            (Type::Trait(x), Type::Trait(y)) => *x == *y,
            (Type::Existential(m, x), Type::Existential(n, y)) => *m == *n && same_names(x, y),
            (Type::Dependent(m, x), Type::Dependent(n, y)) => *m == *n && x.source == y.source,
            (Type::TypeVar(x), Type::TypeVar(y)) => *x == *y,
            (Type::Constrained(x, p), Type::Constrained(y, q)) => x.same(y) && same_constraints(p, q),
            (Type::Recursive(m, x), Type::Recursive(n, y)) => *m == *n && x.same(y),
            (Type::Unknown, Type::Unknown) => true,
            (Type::Error, Type::Error) => true,
            _ => false,
        }
    }
}

impl View for Type {
    type V = TypeView;

    open spec fn view(&self) -> TypeView {
        type_view(*self)
    }
}

impl View for TypeConstraint {
    type V = ConstraintView;

    open spec fn view(&self) -> ConstraintView {
        constraint_view(*self)
    }
}

/// Every type of the list is a value type.
pub open spec fn all_value_types(ts: Seq<TypeView>) -> bool
    decreases ts,
{
    if ts.len() == 0 {
        true
    } else {
        all_value_types(ts.subrange(0, ts.len() - 1)) && ts[ts.len() - 1].value_type()
    }
}

/// Every type of the list is concrete.
/// Every type that a constraint of the list equates or bounds by is
/// concrete.
pub open spec fn constraints_concrete(cs: Seq<ConstraintView>) -> bool
    decreases cs,
{
    if cs.len() == 0 {
        true
    } else {
        constraints_concrete(cs.subrange(0, cs.len() - 1)) && match cs[cs.len() - 1] {
            ConstraintView::Equals(t) => t.concrete(),
            ConstraintView::SubType(t) => t.concrete(),
            ConstraintView::SuperType(t) => t.concrete(),
            _ => true,
        }
    }
}

/// A constraint's own type, where it has one, is concrete.
pub open spec fn constraint_concrete(c: ConstraintView) -> bool {
    match c {
        ConstraintView::Equals(t) => t.concrete(),
        ConstraintView::SubType(t) => t.concrete(),
        ConstraintView::SuperType(t) => t.concrete(),
        _ => true,
    }
}

proof fn lemma_constraints_concrete(cs: Seq<ConstraintView>)
    ensures
        constraints_concrete(cs) == forall|i: int| 0 <= i < cs.len() ==> constraint_concrete(#[trigger] cs[i]),
    decreases cs.len(),
{
    if cs.len() > 0 {
        let p = cs.subrange(0, cs.len() - 1);
        lemma_constraints_concrete(p);
        assert forall|i: int| 0 <= i < p.len() implies p[i] == cs[i] by {}
    }
}

pub open spec fn all_concrete(ts: Seq<TypeView>) -> bool
    decreases ts,
{
    if ts.len() == 0 {
        true
    } else {
        all_concrete(ts.subrange(0, ts.len() - 1)) && ts[ts.len() - 1].concrete()
    }
}

proof fn lemma_all_value_types(ts: Seq<TypeView>)
    ensures
        all_value_types(ts) == forall|i: int| 0 <= i < ts.len() ==> (#[trigger] ts[i]).value_type(),
    decreases ts.len(),
{
    if ts.len() > 0 {
        let p = ts.subrange(0, ts.len() - 1);
        lemma_all_value_types(p);
        assert forall|i: int| 0 <= i < p.len() implies p[i] == ts[i] by {}
    }
}

proof fn lemma_all_concrete(ts: Seq<TypeView>)
    ensures
        all_concrete(ts) == forall|i: int| 0 <= i < ts.len() ==> (#[trigger] ts[i]).concrete(),
    decreases ts.len(),
{
    if ts.len() > 0 {
        let p = ts.subrange(0, ts.len() - 1);
        lemma_all_concrete(p);
        assert forall|i: int| 0 <= i < p.len() implies p[i] == ts[i] by {}
    }
}

/// `x` rounded up to a multiple of `a`.
pub open spec fn round_up(x: int, a: int) -> int {
    (x + a - 1) / a * a
}

/// The larger of two integers.
pub open spec fn max2(a: int, b: int) -> int {
    if a < b {
        b
    } else {
        a
    }
}

/// The largest alignment in the list, 0 for an empty list.
pub open spec fn fold_max_align(ts: Seq<TypeView>) -> int
    decreases ts,
{
    if ts.len() == 0 {
        0
    } else {
        max2(fold_max_align(ts.subrange(0, ts.len() - 1)), ts[ts.len() - 1].align())
    }
}

/// The largest alignment in the list, 1 for an empty list.
pub open spec fn max_align(ts: Seq<TypeView>) -> int {
    if ts.len() == 0 {
        1
    } else {
        fold_max_align(ts)
    }
}

/// The largest size in the list, 0 for an empty list.
pub open spec fn max_size(ts: Seq<TypeView>) -> int
    decreases ts,
{
    if ts.len() == 0 {
        0
    } else {
        max2(max_size(ts.subrange(0, ts.len() - 1)), ts[ts.len() - 1].size())
    }
}

/// Laying out the fields in order, each at the next multiple of its
/// alignment: the end of the last field and the largest alignment (at
/// least 1).
pub open spec fn record_layout(ts: Seq<TypeView>) -> (int, int)
    decreases ts,
{
    if ts.len() == 0 {
        (0, 1)
    } else {
        let prev = record_layout(ts.subrange(0, ts.len() - 1));
        let f = ts[ts.len() - 1];
        (round_up(prev.0, f.align()) + f.size(), max2(prev.1, f.align()))
    }
}

/// The size of a record with the given fields, padded to its alignment.
pub open spec fn record_size(ts: Seq<TypeView>) -> int {
    round_up(record_layout(ts).0, record_layout(ts).1)
}

/// Every alignment in the list can be computed.
pub open spec fn all_align_ok(ts: Seq<TypeView>) -> bool
    decreases ts,
{
    if ts.len() == 0 {
        true
    } else {
        all_align_ok(ts.subrange(0, ts.len() - 1)) && ts[ts.len() - 1].align_ok()
    }
}

/// Every size in the list can be computed.
pub open spec fn all_size_ok(ts: Seq<TypeView>) -> bool
    decreases ts,
{
    if ts.len() == 0 {
        true
    } else {
        all_size_ok(ts.subrange(0, ts.len() - 1)) && ts[ts.len() - 1].size_ok()
    }
}

/// The record layout of the fields can be computed without overflow or a
/// zero alignment.
pub open spec fn record_ok(ts: Seq<TypeView>) -> bool
    decreases ts,
{
    if ts.len() == 0 {
        true
    } else {
        let prev = record_layout(ts.subrange(0, ts.len() - 1));
        let f = ts[ts.len() - 1];
        &&& record_ok(ts.subrange(0, ts.len() - 1))
        &&& f.size_ok()
        &&& f.align_ok()
        &&& f.align() >= 1
        &&& prev.0 + f.align() <= usize::MAX
        &&& round_up(prev.0, f.align()) + f.size() <= usize::MAX
    }
}

proof fn lemma_all_align_ok(ts: Seq<TypeView>)
    ensures
        all_align_ok(ts) == forall|i: int| 0 <= i < ts.len() ==> (#[trigger] ts[i]).align_ok(),
    decreases ts.len(),
{
    if ts.len() > 0 {
        let p = ts.subrange(0, ts.len() - 1);
        lemma_all_align_ok(p);
        assert forall|i: int| 0 <= i < p.len() implies p[i] == ts[i] by {}
    }
}

proof fn lemma_all_size_ok(ts: Seq<TypeView>)
    ensures
        all_size_ok(ts) == forall|i: int| 0 <= i < ts.len() ==> (#[trigger] ts[i]).size_ok(),
    decreases ts.len(),
{
    if ts.len() > 0 {
        let p = ts.subrange(0, ts.len() - 1);
        lemma_all_size_ok(p);
        assert forall|i: int| 0 <= i < p.len() implies p[i] == ts[i] by {}
    }
}

/// A prefix one longer than another ends in the next element.
proof fn lemma_prefix_step<A>(ts: Seq<A>, i: int)
    requires
        0 <= i < ts.len(),
    ensures
        ts.subrange(0, i + 1).subrange(0, i) == ts.subrange(0, i),
        ts.subrange(0, i + 1).len() == i + 1,
        ts.subrange(0, i + 1)[i] == ts[i],
{
    assert(ts.subrange(0, i + 1).subrange(0, i) =~= ts.subrange(0, i));
}

/// Every prefix of a list whose record layout can be computed can be
/// laid out too.
proof fn lemma_record_ok_prefix(ts: Seq<TypeView>, i: int)
    requires
        record_ok(ts),
        0 <= i <= ts.len(),
    ensures
        record_ok(ts.subrange(0, i)),
    decreases ts.len(),
{
    if i == ts.len() {
        assert(ts.subrange(0, i) =~= ts);
    } else {
        let p = ts.subrange(0, ts.len() - 1);
        lemma_record_ok_prefix(p, i);
        assert(p.subrange(0, i) =~= ts.subrange(0, i));
    }
}

/// Rounding up to a multiple of `a` stays within `x + a - 1`.
proof fn lemma_round_up(x: int, a: int)
    requires
        x >= 0,
        a >= 1,
    ensures
        x <= round_up(x, a) <= x + a - 1,
{
    let y = x + a - 1;
    assert((y / a) * a <= y) by (nonlinear_arith)
        requires
            a >= 1,
            y >= 0,
    ;
    assert((y / a) * a > y - a) by (nonlinear_arith)
        requires
            a >= 1,
            y >= 0,
    ;
}

/// `x` rounded up to a multiple of `a`.
fn round_up_exec(x: usize, a: usize) -> (r: usize)
    requires
        a >= 1,
        x + a <= usize::MAX,
    ensures
        r == round_up(x as int, a as int),
        x <= r <= x + a - 1,
{
    proof {
        lemma_round_up(x as int, a as int);
    }
    (x + a - 1) / a * a
}

/// The names held in a list of strings.
pub open spec fn name_set(v: Seq<String>) -> Set<Seq<char>> {
    Set::new(|n: Seq<char>| exists|i: int| 0 <= i < v.len() && (#[trigger] v[i])@ == n)
}

/// No name occurs twice in the list.
pub open spec fn distinct_names(v: Seq<String>) -> bool {
    forall|i: int, j: int| 0 <= i < v.len() && 0 <= j < v.len() && i != j ==> v[i]@ != v[j]@
}

/// The type variables that occur in the types of the list.
pub open spec fn ftv_list(ts: Seq<TypeView>) -> Set<Seq<char>>
    decreases ts,
{
    if ts.len() == 0 {
        Set::empty()
    } else {
        ftv_list(ts.subrange(0, ts.len() - 1)).union(ts[ts.len() - 1].ftv())
    }
}

/// The type variables that occur in the types that the constraints equate
/// the type with or bound it by.
pub open spec fn ftv_constraints(cs: Seq<ConstraintView>) -> Set<Seq<char>>
    decreases cs,
{
    if cs.len() == 0 {
        Set::empty()
    } else {
        let rest = ftv_constraints(cs.subrange(0, cs.len() - 1));
        match cs[cs.len() - 1] {
            ConstraintView::Equals(t) => rest.union(t.ftv()),
            ConstraintView::SubType(t) => rest.union(t.ftv()),
            ConstraintView::SuperType(t) => rest.union(t.ftv()),
            _ => rest,
        }
    }
}

/// The free type variables of the types of the list.
pub open spec fn fv_list(ts: Seq<TypeView>) -> Set<Seq<char>>
    decreases ts,
{
    if ts.len() == 0 {
        Set::empty()
    } else {
        fv_list(ts.subrange(0, ts.len() - 1)).union(ts[ts.len() - 1].fv())
    }
}

/// The free type variables of the types that the constraints equate the
/// type with or bound it by.
pub open spec fn fv_constraints(cs: Seq<ConstraintView>) -> Set<Seq<char>>
    decreases cs,
{
    Set::new(
        |x: Seq<char>|
            exists|i: int|
                0 <= i < cs.len() && match #[trigger] cs[i] {
                    ConstraintView::Equals(t) => t.fv().contains(x),
                    ConstraintView::SubType(t) => t.fv().contains(x),
                    ConstraintView::SuperType(t) => t.fv().contains(x),
                    _ => false,
                },
    )
}

/// Whether no recursive type occurs in the types of the list.
pub open spec fn binder_free_list(ts: Seq<TypeView>) -> bool
    decreases ts,
{
    if ts.len() == 0 {
        true
    } else {
        binder_free_list(ts.subrange(0, ts.len() - 1)) && ts[ts.len() - 1].binder_free()
    }
}

/// Whether no recursive type occurs in the types that the constraints
/// equate the type with or bound it by.
pub open spec fn binder_free_constraints(cs: Seq<ConstraintView>) -> bool
    decreases cs,
{
    if cs.len() == 0 {
        true
    } else {
        binder_free_constraints(cs.subrange(0, cs.len() - 1)) && match cs[cs.len() - 1] {
            ConstraintView::Equals(t) => t.binder_free(),
            ConstraintView::SubType(t) => t.binder_free(),
            ConstraintView::SuperType(t) => t.binder_free(),
            _ => true,
        }
    }
}

/// Whether no recursive type occurs in the types that `m` binds.
pub open spec fn values_binder_free(m: Map<Seq<char>, TypeView>) -> bool {
    forall|k: Seq<char>| #[trigger] m.dom().contains(k) ==> m[k].binder_free()
}

/// The substitution that applying `s` and then `c` amounts to.
pub open spec fn followed_by(s: Map<Seq<char>, TypeView>, c: Map<Seq<char>, TypeView>) -> Map<Seq<char>, TypeView> {
    Map::new(
        |k: Seq<char>| s.dom().contains(k) || c.dom().contains(k),
        |k: Seq<char>| if s.dom().contains(k) {
            s[k].subst(c)
        } else {
            c[k]
        },
    )
}

/// The free type variables of the types that `m` binds.
pub open spec fn range_fv(m: Map<Seq<char>, TypeView>) -> Set<Seq<char>> {
    Set::new(|x: Seq<char>| exists|k: Seq<char>| m.dom().contains(k) && #[trigger] m[k].fv().contains(x))
}

/// The types of the list with `m` substituted for their type variables.
pub open spec fn subst_list(ts: Seq<TypeView>, m: Map<Seq<char>, TypeView>) -> Seq<TypeView>
    decreases ts,
{
    Seq::new(ts.len(), |i: int| if 0 <= i < ts.len() { ts[i].subst(m) } else { TypeView::Error })
}

/// The constraints of the list with `m` substituted for the type variables
/// of the types they equate or bound by.
pub open spec fn subst_constraints(cs: Seq<ConstraintView>, m: Map<Seq<char>, TypeView>) -> Seq<
    ConstraintView,
>
    decreases cs,
{
    Seq::new(
        cs.len(),
        |i: int|
            if 0 <= i < cs.len() {
                match cs[i] {
                    ConstraintView::Equals(t) => ConstraintView::Equals(Box::new(t.subst(m))),
                    ConstraintView::SubType(t) => ConstraintView::SubType(Box::new(t.subst(m))),
                    ConstraintView::SuperType(t) => ConstraintView::SuperType(Box::new(t.subst(m))),
                    c => c,
                }
            } else {
                ConstraintView::TraitBound(Seq::empty())
            },
    )
}

/// The substitution that a table of types holds, without the names in
/// `hidden`.
pub open spec fn subst_map(subs: NameTable<Type>, hidden: Set<Seq<char>>) -> Map<Seq<char>, TypeView> {
    Map::new(
        |k: Seq<char>| !hidden.contains(k) && subs.lookup(k) is Some,
        |k: Seq<char>| subs.lookup(k)->0@,
    )
}

/// Why two types do not unify.
pub enum UnifyError {
    /// The type variable occurs in the type it would stand for.
    RecursiveType(String, Type),
    /// A mutable and an immutable reference.
    ReferenceMutability,
    /// Arrays of different sizes.
    ArraySize,
    /// Structs of different names or field counts.
    StructMismatch,
    /// Tuples of different lengths.
    TupleLength,
    /// Functions with different parameter counts.
    FunctionArity,
    /// Generic types of different names or argument counts.
    GenericMismatch,
    /// Types of different kinds.
    Mismatch(Type, Type),
    /// The substitution found leaves the two types different (written with
    /// it applied).
    NotEqualized(Type, Type),
    /// Unification went deeper than its step bound.
    TooDeep,
}

/// The value of a unification error.
pub enum UnifyErrorView {
    RecursiveType(Seq<char>, TypeView),
    ReferenceMutability,
    ArraySize,
    StructMismatch,
    TupleLength,
    FunctionArity,
    GenericMismatch,
    Mismatch(TypeView, TypeView),
    NotEqualized(TypeView, TypeView),
    TooDeep,
}

impl View for UnifyError {
    type V = UnifyErrorView;

    open spec fn view(&self) -> UnifyErrorView {
        match self {
            UnifyError::RecursiveType(n, t) => UnifyErrorView::RecursiveType(n@, t@),
            UnifyError::ReferenceMutability => UnifyErrorView::ReferenceMutability,
            UnifyError::ArraySize => UnifyErrorView::ArraySize,
            UnifyError::StructMismatch => UnifyErrorView::StructMismatch,
            UnifyError::TupleLength => UnifyErrorView::TupleLength,
            UnifyError::FunctionArity => UnifyErrorView::FunctionArity,
            UnifyError::GenericMismatch => UnifyErrorView::GenericMismatch,
            UnifyError::Mismatch(a, b) => UnifyErrorView::Mismatch(a@, b@),
            UnifyError::NotEqualized(a, b) => UnifyErrorView::NotEqualized(a@, b@),
            UnifyError::TooDeep => UnifyErrorView::TooDeep,
        }
    }
}

/// Where unification ends: with the substitution it built, with an error,
/// or out of steps.
pub enum UnifyOutcome {
    Unified(Map<Seq<char>, TypeView>),
    Failed(UnifyErrorView),
    OutOfSteps,
}

/// Unifying `a` with `b` under the substitution `s`, in at most `fuel`
/// nested steps. A variable that is bound is unified through what it is
/// bound to; an unbound one is bound unless it occurs in the other type.
pub open spec fn unify_steps(a: TypeView, b: TypeView, s: Map<Seq<char>, TypeView>, fuel: nat) -> UnifyOutcome
    decreases fuel, 0nat,
{
    if fuel == 0 {
        UnifyOutcome::OutOfSteps
    } else if a == b {
        UnifyOutcome::Unified(s)
    } else {
        let f = (fuel - 1) as nat;
        match (a, b) {
            (TypeView::TypeVar(n), _) => if s.contains_key(n) {
                unify_steps(s[n], b, s, f)
            } else {
                bind_outcome(s, n, b.subst(s))
            },
            (_, TypeView::TypeVar(n)) => if s.contains_key(n) {
                unify_steps(a, s[n], s, f)
            } else {
                bind_outcome(s, n, a.subst(s))
            },
            (TypeView::Pointer(x), TypeView::Pointer(y)) => unify_steps(*x, *y, s, f),
            (TypeView::Reference(x, m), TypeView::Reference(y, n)) => if m == n {
                unify_steps(*x, *y, s, f)
            } else {
                UnifyOutcome::Failed(UnifyErrorView::ReferenceMutability)
            },
            (TypeView::Array(x, m), TypeView::Array(y, n)) => if m == n {
                unify_steps(*x, *y, s, f)
            } else {
                UnifyOutcome::Failed(UnifyErrorView::ArraySize)
            },
            (TypeView::Vector(x), TypeView::Vector(y)) => unify_steps(*x, *y, s, f),
            (TypeView::Slice(x), TypeView::Slice(y)) => unify_steps(*x, *y, s, f),
            (TypeView::Optional(x), TypeView::Optional(y)) => unify_steps(*x, *y, s, f),
            (TypeView::Meta(x), TypeView::Meta(y)) => unify_steps(*x, *y, s, f),
            (TypeView::Result(x, p), TypeView::Result(y, q)) => match unify_steps(*x, *y, s, f) {
                UnifyOutcome::Unified(s1) => unify_steps(*p, *q, s1, f),
                other => other,
            },
            (TypeView::Struct(m, xs), TypeView::Struct(n, ys)) => if m != n || xs.len() != ys.len() {
                UnifyOutcome::Failed(UnifyErrorView::StructMismatch)
            } else {
                unify_all(xs, ys, s, f)
            },
            (TypeView::Tuple(xs), TypeView::Tuple(ys)) => if xs.len() != ys.len() {
                UnifyOutcome::Failed(UnifyErrorView::TupleLength)
            } else {
                unify_all(xs, ys, s, f)
            },
            (TypeView::Function(xs, p), TypeView::Function(ys, q)) => if xs.len() != ys.len() {
                UnifyOutcome::Failed(UnifyErrorView::FunctionArity)
            } else {
                match unify_all(xs, ys, s, f) {
                    UnifyOutcome::Unified(s1) => unify_steps(*p, *q, s1, f),
                    other => other,
                }
            },
            (TypeView::Generic(m, xs), TypeView::Generic(n, ys)) => if m != n || xs.len() != ys.len() {
                UnifyOutcome::Failed(UnifyErrorView::GenericMismatch)
            } else {
                unify_all(xs, ys, s, f)
            },
            _ => UnifyOutcome::Failed(UnifyErrorView::Mismatch(a, b)),
        }
    }
}

/// Unifying the types of two lists pairwise, from the first, in at most
/// `fuel` nested steps each.
pub open spec fn unify_all(xs: Seq<TypeView>, ys: Seq<TypeView>, s: Map<Seq<char>, TypeView>, fuel: nat) -> UnifyOutcome
    decreases fuel, xs.len() + 1,
{
    if xs.len() == 0 || ys.len() == 0 {
        UnifyOutcome::Unified(s)
    } else {
        match unify_steps(xs[0], ys[0], s, fuel) {
            UnifyOutcome::Unified(s1) => unify_all(xs.drop_first(), ys.drop_first(), s1, fuel),
            other => other,
        }
    }
}

/// `s` extended by binding `n` to `t`, with `t` put for `n` in what `s`
/// binds already.
pub open spec fn compose(s: Map<Seq<char>, TypeView>, n: Seq<char>, t: TypeView) -> Map<Seq<char>, TypeView> {
    Map::new(
        |k: Seq<char>| s.contains_key(k) || k == n,
        |k: Seq<char>| if k == n {
            t
        } else {
            s[k].subst(Map::empty().insert(n, t))
        },
    )
}

/// Binding the unbound variable `n` to `t`, a type with the substitution
/// already applied: nothing to do when `t` is `n` itself, an error when `n`
/// occurs in `t`, the composed substitution otherwise.
pub open spec fn bind_outcome(s: Map<Seq<char>, TypeView>, n: Seq<char>, t: TypeView) -> UnifyOutcome {
    if t == TypeView::TypeVar(n) {
        UnifyOutcome::Unified(s)
    } else if t.ftv().contains(n) {
        UnifyOutcome::Failed(UnifyErrorView::RecursiveType(n, t))
    } else {
        UnifyOutcome::Unified(compose(s, n, t))
    }
}

/// The step bound of unification.
pub open spec fn unify_fuel() -> nat {
    usize::MAX as nat
}

/// Where unification of `a` with `b` ends: the substitution it builds when
/// that makes the two types equal, an error otherwise.
pub open spec fn unify_outcome(a: TypeView, b: TypeView) -> UnifyOutcome {
    match unify_steps(a, b, Map::empty(), unify_fuel()) {
        UnifyOutcome::Unified(m) => if a.subst(m) == b.subst(m) {
            UnifyOutcome::Unified(m)
        } else {
            UnifyOutcome::Failed(UnifyErrorView::NotEqualized(a.subst(m), b.subst(m)))
        },
        UnifyOutcome::Failed(e) => UnifyOutcome::Failed(e),
        UnifyOutcome::OutOfSteps => UnifyOutcome::Failed(UnifyErrorView::TooDeep),
    }
}

/// The type variables of each type of a list are among those of the list.
proof fn lemma_ftv_list_member(ts: Seq<TypeView>, i: int)
    requires
        0 <= i < ts.len(),
    ensures
        ts[i].ftv().subset_of(ftv_list(ts)),
    decreases ts.len(),
{
    if i < ts.len() - 1 {
        let p = ts.subrange(0, ts.len() - 1);
        lemma_ftv_list_member(p, i);
        assert(p[i] == ts[i]);
    }
}

/// The type variables of each equated or bounding type of a list of
/// constraints are among those of the list.
proof fn lemma_ftv_constraints_member(cs: Seq<ConstraintView>, i: int)
    requires
        0 <= i < cs.len(),
    ensures
        match cs[i] {
            ConstraintView::Equals(t) => t.ftv().subset_of(ftv_constraints(cs)),
            ConstraintView::SubType(t) => t.ftv().subset_of(ftv_constraints(cs)),
            ConstraintView::SuperType(t) => t.ftv().subset_of(ftv_constraints(cs)),
            _ => true,
        },
    decreases cs.len(),
{
    if i < cs.len() - 1 {
        let p = cs.subrange(0, cs.len() - 1);
        lemma_ftv_constraints_member(p, i);
        assert(p[i] == cs[i]);
    }
}

/// Substituting for variables that do not occur in a type leaves it as it
/// is.
pub proof fn lemma_subst_outside_ftv(t: TypeView, m: Map<Seq<char>, TypeView>)
    requires
        t.ftv().disjoint(m.dom()),
    ensures
        t.subst(m) == t,
    decreases t,
{
    match t {
        TypeView::Pointer(a) => lemma_subst_outside_ftv(*a, m),
        TypeView::Reference(a, _) => lemma_subst_outside_ftv(*a, m),
        TypeView::Array(a, _) => lemma_subst_outside_ftv(*a, m),
        TypeView::Vector(a) => lemma_subst_outside_ftv(*a, m),
        TypeView::Slice(a) => lemma_subst_outside_ftv(*a, m),
        TypeView::Optional(a) => lemma_subst_outside_ftv(*a, m),
        TypeView::Meta(a) => lemma_subst_outside_ftv(*a, m),
        TypeView::Result(a, b) => {
            assert forall|x: Seq<char>| a.ftv().contains(x) implies !m.dom().contains(x) by {
                assert(t.ftv().contains(x));
            }
            assert forall|x: Seq<char>| b.ftv().contains(x) implies !m.dom().contains(x) by {
                assert(t.ftv().contains(x));
            }
            lemma_subst_outside_ftv(*a, m);
            lemma_subst_outside_ftv(*b, m);
        },
        TypeView::Struct(_, ts) => lemma_subst_list_outside_ftv(ts, m),
        TypeView::Tuple(ts) => lemma_subst_list_outside_ftv(ts, m),
        TypeView::Union(ts) => lemma_subst_list_outside_ftv(ts, m),
        TypeView::Intersection(ts) => lemma_subst_list_outside_ftv(ts, m),
        TypeView::Generic(_, ts) => lemma_subst_list_outside_ftv(ts, m),
        TypeView::Function(ps, r) => {
            assert forall|x: Seq<char>| ftv_list(ps).contains(x) implies !m.dom().contains(x) by {
                assert(t.ftv().contains(x));
            }
            assert forall|x: Seq<char>| r.ftv().contains(x) implies !m.dom().contains(x) by {
                assert(t.ftv().contains(x));
            }
            lemma_subst_list_outside_ftv(ps, m);
            lemma_subst_outside_ftv(*r, m);
        },
        TypeView::Constrained(a, cs) => {
            assert forall|x: Seq<char>| a.ftv().contains(x) implies !m.dom().contains(x) by {
                assert(t.ftv().contains(x));
            }
            assert forall|x: Seq<char>| ftv_constraints(cs).contains(x) implies !m.dom().contains(x) by {
                assert(t.ftv().contains(x));
            }
            lemma_subst_outside_ftv(*a, m);
            lemma_subst_constraints_outside_ftv(cs, m);
        },
        TypeView::Recursive(n, a) => {
            assert forall|x: Seq<char>| a.ftv().contains(x) implies !m.remove(n).dom().contains(x) by {
                assert(t.ftv().contains(x));
            }
            lemma_subst_outside_ftv(*a, m.remove(n));
        },
        _ => {},
    }
}

proof fn lemma_subst_list_outside_ftv(ts: Seq<TypeView>, m: Map<Seq<char>, TypeView>)
    requires
        ftv_list(ts).disjoint(m.dom()),
    ensures
        subst_list(ts, m) == ts,
    decreases ts,
{
    assert forall|i: int| 0 <= i < ts.len() implies subst_list(ts, m)[i] == ts[i] by {
        lemma_ftv_list_member(ts, i);
        assert forall|x: Seq<char>| ts[i].ftv().contains(x) implies !m.dom().contains(x) by {
            assert(ftv_list(ts).contains(x));
        }
        lemma_subst_outside_ftv(ts[i], m);
    }
    assert(subst_list(ts, m) =~= ts);
}

proof fn lemma_subst_constraints_outside_ftv(cs: Seq<ConstraintView>, m: Map<Seq<char>, TypeView>)
    requires
        ftv_constraints(cs).disjoint(m.dom()),
    ensures
        subst_constraints(cs, m) == cs,
    decreases cs,
{
    assert forall|i: int| 0 <= i < cs.len() implies subst_constraints(cs, m)[i] == cs[i] by {
        lemma_ftv_constraints_member(cs, i);
        match cs[i] {
            ConstraintView::Equals(t) => {
                assert forall|x: Seq<char>| t.ftv().contains(x) implies !m.dom().contains(x) by {
                    assert(ftv_constraints(cs).contains(x));
                }
                lemma_subst_outside_ftv(*t, m);
            },
            ConstraintView::SubType(t) => {
                assert forall|x: Seq<char>| t.ftv().contains(x) implies !m.dom().contains(x) by {
                    assert(ftv_constraints(cs).contains(x));
                }
                lemma_subst_outside_ftv(*t, m);
            },
            ConstraintView::SuperType(t) => {
                assert forall|x: Seq<char>| t.ftv().contains(x) implies !m.dom().contains(x) by {
                    assert(ftv_constraints(cs).contains(x));
                }
                lemma_subst_outside_ftv(*t, m);
            },
            _ => {},
        }
    }
    assert(subst_constraints(cs, m) =~= cs);
}

/// A concrete type has no type variables.
pub proof fn lemma_concrete_no_type_vars(t: TypeView)
    requires
        t.concrete(),
    ensures
        t.ftv() == Set::<Seq<char>>::empty(),
    decreases t,
{
    match t {
        TypeView::Pointer(a) => lemma_concrete_no_type_vars(*a),
        TypeView::Reference(a, _) => lemma_concrete_no_type_vars(*a),
        TypeView::Array(a, _) => lemma_concrete_no_type_vars(*a),
        TypeView::Vector(a) => lemma_concrete_no_type_vars(*a),
        TypeView::Slice(a) => lemma_concrete_no_type_vars(*a),
        TypeView::Optional(a) => lemma_concrete_no_type_vars(*a),
        TypeView::Meta(a) => lemma_concrete_no_type_vars(*a),
        TypeView::Recursive(_, a) => lemma_concrete_no_type_vars(*a),
        TypeView::Result(a, b) => {
            lemma_concrete_no_type_vars(*a);
            lemma_concrete_no_type_vars(*b);
            assert(t.ftv() =~= Set::<Seq<char>>::empty());
        },
        TypeView::Struct(_, ts) => lemma_concrete_list_no_type_vars(ts),
        TypeView::Tuple(ts) => lemma_concrete_list_no_type_vars(ts),
        TypeView::Union(ts) => lemma_concrete_list_no_type_vars(ts),
        TypeView::Intersection(ts) => lemma_concrete_list_no_type_vars(ts),
        TypeView::Function(ps, r) => {
            lemma_concrete_list_no_type_vars(ps);
            lemma_concrete_no_type_vars(*r);
            assert(t.ftv() =~= Set::<Seq<char>>::empty());
        },
        TypeView::Constrained(a, cs) => {
            lemma_concrete_no_type_vars(*a);
            lemma_concrete_constraints_no_type_vars(cs);
            assert(t.ftv() =~= Set::<Seq<char>>::empty());
        },
        _ => {
            assert(t.ftv() =~= Set::<Seq<char>>::empty());
        },
    }
}

proof fn lemma_concrete_list_no_type_vars(ts: Seq<TypeView>)
    requires
        all_concrete(ts),
    ensures
        ftv_list(ts) == Set::<Seq<char>>::empty(),
    decreases ts,
{
    if ts.len() > 0 {
        lemma_concrete_list_no_type_vars(ts.subrange(0, ts.len() - 1));
        lemma_concrete_no_type_vars(ts[ts.len() - 1]);
        assert(ftv_list(ts) =~= Set::<Seq<char>>::empty());
    }
}

proof fn lemma_concrete_constraints_no_type_vars(cs: Seq<ConstraintView>)
    requires
        constraints_concrete(cs),
    ensures
        ftv_constraints(cs) == Set::<Seq<char>>::empty(),
    decreases cs,
{
    if cs.len() > 0 {
        lemma_concrete_constraints_no_type_vars(cs.subrange(0, cs.len() - 1));
        match cs[cs.len() - 1] {
            ConstraintView::Equals(x) => lemma_concrete_no_type_vars(*x),
            ConstraintView::SubType(x) => lemma_concrete_no_type_vars(*x),
            ConstraintView::SuperType(x) => lemma_concrete_no_type_vars(*x),
            _ => {},
        }
        assert(ftv_constraints(cs) =~= Set::<Seq<char>>::empty());
    }
}

/// A type unifies with itself at once, binding nothing.
pub proof fn lemma_unify_reflexive(t: TypeView)
    ensures
        unify_outcome(t, t) == UnifyOutcome::Unified(Map::<Seq<char>, TypeView>::empty()),
{
    let m = Map::<Seq<char>, TypeView>::empty();
    assert(unify_steps(t, t, m, unify_fuel()) == UnifyOutcome::Unified(m));
}

/// A type variable unifies with a type it does not occur in by being bound
/// to it.
pub proof fn lemma_unify_variable(n: Seq<char>, t: TypeView)
    requires
        !t.ftv().contains(n),
    ensures
        unify_outcome(TypeView::TypeVar(n), t) == UnifyOutcome::Unified(
            Map::<Seq<char>, TypeView>::empty().insert(n, t),
        ),
{
    let a = TypeView::TypeVar(n);
    let e = Map::<Seq<char>, TypeView>::empty();
    assert(a != t) by {
        if a == t {
            assert(t.ftv().contains(n));
        }
    }
    lemma_subst_outside_ftv(t, e);
    let m = e.insert(n, t);
    assert(compose(e, n, t) =~= m);
    assert(unify_steps(a, t, e, unify_fuel()) == UnifyOutcome::Unified(m));
    assert(a.subst(m) == t);
    assert(t.ftv().disjoint(m.dom())) by {
        assert(m.dom() =~= set![n]);
    }
    lemma_subst_outside_ftv(t, m);
}

/// A type variable does not unify with another type it occurs in.
pub proof fn lemma_unify_occurs(n: Seq<char>, t: TypeView)
    requires
        t.ftv().contains(n),
        t != TypeView::TypeVar(n),
    ensures
        unify_outcome(TypeView::TypeVar(n), t) == UnifyOutcome::Failed(UnifyErrorView::RecursiveType(n, t)),
{
    let e = Map::<Seq<char>, TypeView>::empty();
    lemma_subst_outside_ftv(t, e);
    assert(unify_steps(TypeView::TypeVar(n), t, e, unify_fuel()) == UnifyOutcome::Failed(
        UnifyErrorView::RecursiveType(n, t),
    ));
}

/// Whether `a` and `b` are built by the same constructor, one whose parts
/// unification goes into.
pub open spec fn same_compound(a: TypeView, b: TypeView) -> bool {
    ||| a is Pointer && b is Pointer
    ||| a is Reference && b is Reference
    ||| a is Array && b is Array
    ||| a is Vector && b is Vector
    ||| a is Slice && b is Slice
    ||| a is Optional && b is Optional
    ||| a is Meta && b is Meta
    ||| a is Result && b is Result
    ||| a is Struct && b is Struct
    ||| a is Tuple && b is Tuple
    ||| a is Function && b is Function
    ||| a is Generic && b is Generic
}

/// Two different types, neither a type variable, that are not built by the
/// same compound constructor (different constructors, or different leaf
/// types such as integers of two widths) do not unify: the error names both.
pub proof fn lemma_unify_mismatch(a: TypeView, b: TypeView)
    requires
        a != b,
        !(a is TypeVar),
        !(b is TypeVar),
        !same_compound(a, b),
    ensures
        unify_outcome(a, b) == UnifyOutcome::Failed(UnifyErrorView::Mismatch(a, b)),
{
    assert(unify_steps(a, b, Map::empty(), unify_fuel()) == UnifyOutcome::Failed(UnifyErrorView::Mismatch(a, b)));
}

/// Whatever unification returns as a substitution makes the two types
/// equal.
pub proof fn lemma_unify_equalizes(a: TypeView, b: TypeView)
    ensures
        unify_outcome(a, b) matches UnifyOutcome::Unified(m) ==> a.subst(m) == b.subst(m),
{
}

/// What it takes for a variable to be free in a list of types.
proof fn lemma_fv_list_has(ts: Seq<TypeView>, x: Seq<char>)
    ensures
        fv_list(ts).contains(x) <==> exists|i: int| 0 <= i < ts.len() && #[trigger] ts[i].fv().contains(x),
    decreases ts.len(),
{
    if ts.len() > 0 {
        let p = ts.subrange(0, ts.len() - 1);
        lemma_fv_list_has(p, x);
        if fv_list(ts).contains(x) {
            if p.len() > 0 && fv_list(p).contains(x) {
                let i = choose|i: int| 0 <= i < p.len() && #[trigger] p[i].fv().contains(x);
                assert(ts[i] == p[i]);
            } else {
                assert(ts[ts.len() - 1].fv().contains(x));
            }
        }
        if exists|i: int| 0 <= i < ts.len() && #[trigger] ts[i].fv().contains(x) {
            let i = choose|i: int| 0 <= i < ts.len() && #[trigger] ts[i].fv().contains(x);
            if i < ts.len() - 1 {
                assert(p[i] == ts[i]);
                assert(p[i].fv().contains(x));
            }
        }
    }
}

/// What it takes for a variable to be free in a list of constraints.
proof fn lemma_fv_constraints_has(cs: Seq<ConstraintView>, x: Seq<char>)
    ensures
        fv_constraints(cs).contains(x) <==> exists|i: int|
            0 <= i < cs.len() && match #[trigger] cs[i] {
                ConstraintView::Equals(t) => t.fv().contains(x),
                ConstraintView::SubType(t) => t.fv().contains(x),
                ConstraintView::SuperType(t) => t.fv().contains(x),
                _ => false,
            },
{
}

/// The free type variables of a type are among its type variables.
pub proof fn lemma_fv_in_ftv(t: TypeView)
    ensures
        t.fv().subset_of(t.ftv()),
    decreases t,
{
    match t {
        TypeView::Pointer(a) => lemma_fv_in_ftv(*a),
        TypeView::Reference(a, _) => lemma_fv_in_ftv(*a),
        TypeView::Array(a, _) => lemma_fv_in_ftv(*a),
        TypeView::Vector(a) => lemma_fv_in_ftv(*a),
        TypeView::Slice(a) => lemma_fv_in_ftv(*a),
        TypeView::Optional(a) => lemma_fv_in_ftv(*a),
        TypeView::Meta(a) => lemma_fv_in_ftv(*a),
        TypeView::Result(a, b) => {
            lemma_fv_in_ftv(*a);
            lemma_fv_in_ftv(*b);
        },
        TypeView::Struct(_, ts) => lemma_fv_list_in_ftv(ts),
        TypeView::Tuple(ts) => lemma_fv_list_in_ftv(ts),
        TypeView::Union(ts) => lemma_fv_list_in_ftv(ts),
        TypeView::Intersection(ts) => lemma_fv_list_in_ftv(ts),
        TypeView::Generic(_, ts) => lemma_fv_list_in_ftv(ts),
        TypeView::Function(ps, r) => {
            lemma_fv_list_in_ftv(ps);
            lemma_fv_in_ftv(*r);
        },
        TypeView::Constrained(a, cs) => {
            lemma_fv_in_ftv(*a);
            lemma_fv_constraints_in_ftv(cs);
        },
        TypeView::Recursive(_, a) => lemma_fv_in_ftv(*a),
        _ => {},
    }
}

proof fn lemma_fv_list_in_ftv(ts: Seq<TypeView>)
    ensures
        fv_list(ts).subset_of(ftv_list(ts)),
    decreases ts,
{
    assert forall|x: Seq<char>| fv_list(ts).contains(x) implies ftv_list(ts).contains(x) by {
        lemma_fv_list_has(ts, x);
        let i = choose|i: int| 0 <= i < ts.len() && #[trigger] ts[i].fv().contains(x);
        lemma_fv_in_ftv(ts[i]);
        lemma_ftv_list_member(ts, i);
    }
}

proof fn lemma_fv_constraints_in_ftv(cs: Seq<ConstraintView>)
    ensures
        fv_constraints(cs).subset_of(ftv_constraints(cs)),
    decreases cs,
{
    assert forall|x: Seq<char>| fv_constraints(cs).contains(x) implies ftv_constraints(cs).contains(x) by {
        let i = choose|i: int|
            0 <= i < cs.len() && match #[trigger] cs[i] {
                ConstraintView::Equals(t) => t.fv().contains(x),
                ConstraintView::SubType(t) => t.fv().contains(x),
                ConstraintView::SuperType(t) => t.fv().contains(x),
                _ => false,
            };
        lemma_ftv_constraints_member(cs, i);
        match cs[i] {
            ConstraintView::Equals(t) => lemma_fv_in_ftv(*t),
            ConstraintView::SubType(t) => lemma_fv_in_ftv(*t),
            ConstraintView::SuperType(t) => lemma_fv_in_ftv(*t),
            _ => {},
        }
    }
}

/// Substituting for variables that do not occur free in a type leaves it
/// as it is.
pub proof fn lemma_subst_outside_fv(t: TypeView, m: Map<Seq<char>, TypeView>)
    requires
        t.fv().disjoint(m.dom()),
    ensures
        t.subst(m) == t,
    decreases t,
{
    match t {
        TypeView::Pointer(a) => lemma_subst_outside_fv(*a, m),
        TypeView::Reference(a, _) => lemma_subst_outside_fv(*a, m),
        TypeView::Array(a, _) => lemma_subst_outside_fv(*a, m),
        TypeView::Vector(a) => lemma_subst_outside_fv(*a, m),
        TypeView::Slice(a) => lemma_subst_outside_fv(*a, m),
        TypeView::Optional(a) => lemma_subst_outside_fv(*a, m),
        TypeView::Meta(a) => lemma_subst_outside_fv(*a, m),
        TypeView::Result(a, b) => {
            lemma_subst_outside_fv(*a, m);
            lemma_subst_outside_fv(*b, m);
        },
        TypeView::Struct(_, ts) => lemma_subst_list_outside_fv(ts, m),
        TypeView::Tuple(ts) => lemma_subst_list_outside_fv(ts, m),
        TypeView::Union(ts) => lemma_subst_list_outside_fv(ts, m),
        TypeView::Intersection(ts) => lemma_subst_list_outside_fv(ts, m),
        TypeView::Generic(_, ts) => lemma_subst_list_outside_fv(ts, m),
        TypeView::Function(ps, r) => {
            lemma_subst_list_outside_fv(ps, m);
            lemma_subst_outside_fv(*r, m);
        },
        TypeView::Constrained(a, cs) => {
            lemma_subst_outside_fv(*a, m);
            lemma_subst_constraints_outside_fv(cs, m);
        },
        TypeView::Recursive(n, a) => {
            assert forall|x: Seq<char>| a.fv().contains(x) implies !m.remove(n).dom().contains(x) by {
                if x != n {
                    assert(t.fv().contains(x));
                }
            }
            lemma_subst_outside_fv(*a, m.remove(n));
        },
        _ => {},
    }
}

proof fn lemma_subst_list_outside_fv(ts: Seq<TypeView>, m: Map<Seq<char>, TypeView>)
    requires
        fv_list(ts).disjoint(m.dom()),
    ensures
        subst_list(ts, m) == ts,
    decreases ts,
{
    assert forall|i: int| 0 <= i < ts.len() implies subst_list(ts, m)[i] == ts[i] by {
        assert forall|x: Seq<char>| ts[i].fv().contains(x) implies !m.dom().contains(x) by {
            lemma_fv_list_has(ts, x);
        }
        lemma_subst_outside_fv(ts[i], m);
    }
    assert(subst_list(ts, m) =~= ts);
}

proof fn lemma_subst_constraints_outside_fv(cs: Seq<ConstraintView>, m: Map<Seq<char>, TypeView>)
    requires
        fv_constraints(cs).disjoint(m.dom()),
    ensures
        subst_constraints(cs, m) == cs,
    decreases cs,
{
    assert forall|i: int| 0 <= i < cs.len() implies subst_constraints(cs, m)[i] == cs[i] by {
        match cs[i] {
            ConstraintView::Equals(t) => {
                assert forall|x: Seq<char>| t.fv().contains(x) implies !m.dom().contains(x) by {
                    assert(fv_constraints(cs).contains(x));
                }
                lemma_subst_outside_fv(*t, m);
            },
            ConstraintView::SubType(t) => {
                assert forall|x: Seq<char>| t.fv().contains(x) implies !m.dom().contains(x) by {
                    assert(fv_constraints(cs).contains(x));
                }
                lemma_subst_outside_fv(*t, m);
            },
            ConstraintView::SuperType(t) => {
                assert forall|x: Seq<char>| t.fv().contains(x) implies !m.dom().contains(x) by {
                    assert(fv_constraints(cs).contains(x));
                }
                lemma_subst_outside_fv(*t, m);
            },
            _ => {},
        }
    }
    assert(subst_constraints(cs, m) =~= cs);
}

/// A variable free in a type that a substitution binds is free in its
/// range.
proof fn lemma_range_fv_has(m: Map<Seq<char>, TypeView>, k: Seq<char>, x: Seq<char>)
    requires
        m.dom().contains(k),
        m[k].fv().contains(x),
    ensures
        range_fv(m).contains(x),
{
}

/// A variable free in a type after a substitution was free in it before
/// and not substituted, or is free in a type that the substitution binds.
pub proof fn lemma_fv_subst(t: TypeView, m: Map<Seq<char>, TypeView>)
    ensures
        forall|x: Seq<char>|
            #[trigger] t.subst(m).fv().contains(x) ==> (t.fv().contains(x) && !m.dom().contains(x))
                || range_fv(m).contains(x),
    decreases t,
{
    match t {
        TypeView::TypeVar(n) => {
            if m.contains_key(n) {
                assert forall|x: Seq<char>| #[trigger] t.subst(m).fv().contains(x) implies range_fv(m).contains(
                    x,
                ) by {
                    assert(t.subst(m) == m[n]);
                    lemma_range_fv_has(m, n, x);
                }
            } else {
                assert forall|x: Seq<char>| #[trigger] t.subst(m).fv().contains(x) implies t.fv().contains(x)
                    && !m.dom().contains(x) by {
                    assert(t.subst(m) == t);
                    assert(set![n].contains(x));
                    assert(x == n);
                }
            }
        },
        TypeView::Pointer(a) => {
            lemma_fv_subst(*a, m);
            assert(t.subst(m).fv() == a.subst(m).fv());
            assert(t.fv() == a.fv());
        },
        TypeView::Reference(a, _) => {
            lemma_fv_subst(*a, m);
            assert(t.subst(m).fv() == a.subst(m).fv());
            assert(t.fv() == a.fv());
        },
        TypeView::Array(a, _) => {
            lemma_fv_subst(*a, m);
            assert(t.subst(m).fv() == a.subst(m).fv());
            assert(t.fv() == a.fv());
        },
        TypeView::Vector(a) => {
            lemma_fv_subst(*a, m);
            assert(t.subst(m).fv() == a.subst(m).fv());
            assert(t.fv() == a.fv());
        },
        TypeView::Slice(a) => {
            lemma_fv_subst(*a, m);
            assert(t.subst(m).fv() == a.subst(m).fv());
            assert(t.fv() == a.fv());
        },
        TypeView::Optional(a) => {
            lemma_fv_subst(*a, m);
            assert(t.subst(m).fv() == a.subst(m).fv());
            assert(t.fv() == a.fv());
        },
        TypeView::Meta(a) => {
            lemma_fv_subst(*a, m);
            assert(t.subst(m).fv() == a.subst(m).fv());
            assert(t.fv() == a.fv());
        },
        TypeView::Result(a, b) => {
            lemma_fv_subst(*a, m);
            lemma_fv_subst(*b, m);
            assert(t.subst(m).fv() == a.subst(m).fv().union(b.subst(m).fv()));
            assert(t.fv() == a.fv().union(b.fv()));
        },
        TypeView::Struct(_, ts) => {
            lemma_fv_subst_list(ts, m);
            assert(t.subst(m).fv() == fv_list(subst_list(ts, m)));
            assert(t.fv() == fv_list(ts));
        },
        TypeView::Tuple(ts) => {
            lemma_fv_subst_list(ts, m);
            assert(t.subst(m).fv() == fv_list(subst_list(ts, m)));
            assert(t.fv() == fv_list(ts));
        },
        TypeView::Union(ts) => {
            lemma_fv_subst_list(ts, m);
            assert(t.subst(m).fv() == fv_list(subst_list(ts, m)));
            assert(t.fv() == fv_list(ts));
        },
        TypeView::Intersection(ts) => {
            lemma_fv_subst_list(ts, m);
            assert(t.subst(m).fv() == fv_list(subst_list(ts, m)));
            assert(t.fv() == fv_list(ts));
        },
        TypeView::Generic(_, ts) => {
            lemma_fv_subst_list(ts, m);
            assert(t.subst(m).fv() == fv_list(subst_list(ts, m)));
            assert(t.fv() == fv_list(ts));
        },
        TypeView::Function(ps, r) => {
            lemma_fv_subst_list(ps, m);
            lemma_fv_subst(*r, m);
            assert(t.subst(m).fv() == fv_list(subst_list(ps, m)).union(r.subst(m).fv()));
            assert(t.fv() == fv_list(ps).union(r.fv()));
        },
        TypeView::Constrained(a, cs) => {
            lemma_fv_subst(*a, m);
            lemma_fv_subst_constraints(cs, m);
            assert(t.subst(m).fv() == a.subst(m).fv().union(fv_constraints(subst_constraints(cs, m))));
            assert(t.fv() == a.fv().union(fv_constraints(cs)));
        },
        TypeView::Recursive(n, a) => {
            let m1 = m.remove(n);
            lemma_fv_subst(*a, m1);
            assert forall|x: Seq<char>| #[trigger] t.subst(m).fv().contains(x) implies (t.fv().contains(x)
                && !m.dom().contains(x)) || range_fv(m).contains(x) by {
                assert(a.subst(m1).fv().contains(x) && x != n);
                if range_fv(m1).contains(x) {
                    let k = choose|k: Seq<char>| m1.dom().contains(k) && #[trigger] m1[k].fv().contains(x);
                    assert(m[k].fv().contains(x));
                }
            }
        },
        _ => {},
    }
}

proof fn lemma_fv_subst_list(ts: Seq<TypeView>, m: Map<Seq<char>, TypeView>)
    ensures
        forall|x: Seq<char>|
            #[trigger] fv_list(subst_list(ts, m)).contains(x) ==> (fv_list(ts).contains(x) && !m.dom().contains(
                x,
            )) || range_fv(m).contains(x),
    decreases ts,
{
    assert forall|x: Seq<char>| #[trigger] fv_list(subst_list(ts, m)).contains(x) implies (fv_list(ts).contains(x)
        && !m.dom().contains(x)) || range_fv(m).contains(x) by {
        let us = subst_list(ts, m);
        lemma_fv_list_has(us, x);
        let i = choose|i: int| 0 <= i < us.len() && #[trigger] us[i].fv().contains(x);
        assert(us[i] == ts[i].subst(m));
        lemma_fv_subst(ts[i], m);
        assert(ts[i].subst(m).fv().contains(x));
        lemma_fv_list_has(ts, x);
    }
}

proof fn lemma_fv_subst_constraints(cs: Seq<ConstraintView>, m: Map<Seq<char>, TypeView>)
    ensures
        forall|x: Seq<char>|
            #[trigger] fv_constraints(subst_constraints(cs, m)).contains(x) ==> (fv_constraints(cs).contains(x)
                && !m.dom().contains(x)) || range_fv(m).contains(x),
    decreases cs,
{
    assert forall|x: Seq<char>| #[trigger] fv_constraints(subst_constraints(cs, m)).contains(x) implies (
    fv_constraints(cs).contains(x) && !m.dom().contains(x)) || range_fv(m).contains(x) by {
        let us = subst_constraints(cs, m);
        lemma_fv_constraints_has(us, x);
        lemma_fv_constraints_has(cs, x);
        let i = choose|i: int|
            0 <= i < us.len() && match #[trigger] us[i] {
                ConstraintView::Equals(t) => t.fv().contains(x),
                ConstraintView::SubType(t) => t.fv().contains(x),
                ConstraintView::SuperType(t) => t.fv().contains(x),
                _ => false,
            };
        match cs[i] {
            ConstraintView::Equals(t) => {
                lemma_fv_subst(*t, m);
                assert(t.subst(m).fv().contains(x));
            },
            ConstraintView::SubType(t) => {
                lemma_fv_subst(*t, m);
                assert(t.subst(m).fv().contains(x));
            },
            ConstraintView::SuperType(t) => {
                lemma_fv_subst(*t, m);
                assert(t.subst(m).fv().contains(x));
            },
            _ => {},
        }
    }
}

/// No type that `s` binds has a free variable that `s` binds.
pub open spec fn resolved(s: Map<Seq<char>, TypeView>) -> bool {
    range_fv(s).disjoint(s.dom())
}

/// A resolved substitution leaves no variable it binds free in what it
/// gives.
proof fn lemma_subst_resolved(b: TypeView, s: Map<Seq<char>, TypeView>)
    requires
        resolved(s),
    ensures
        b.subst(s).fv().disjoint(s.dom()),
{
    lemma_fv_subst(b, s);
    assert forall|x: Seq<char>| b.subst(s).fv().contains(x) implies !s.dom().contains(x) by {
        if range_fv(s).contains(x) {
        }
    }
}

/// Binding a new variable to a type free of the bound variables keeps a
/// substitution resolved.
proof fn lemma_compose_resolved(s: Map<Seq<char>, TypeView>, n: Seq<char>, t: TypeView)
    requires
        resolved(s),
        !s.dom().contains(n),
        t.fv().disjoint(s.dom()),
        !t.fv().contains(n),
    ensures
        resolved(compose(s, n, t)),
{
    let c = compose(s, n, t);
    let e = Map::<Seq<char>, TypeView>::empty().insert(n, t);
    assert(c.dom() =~= s.dom().insert(n));
    assert forall|x: Seq<char>| range_fv(c).contains(x) implies !c.dom().contains(x) by {
        let k = choose|k: Seq<char>| c.dom().contains(k) && #[trigger] c[k].fv().contains(x);
        if k == n {
            assert(c[k] == t);
        } else {
            assert(c[k] == s[k].subst(e));
            lemma_fv_subst(s[k], e);
            assert(s[k].subst(e).fv().contains(x));
            if range_fv(e).contains(x) {
                let k2 = choose|k2: Seq<char>| e.dom().contains(k2) && #[trigger] e[k2].fv().contains(x);
                assert(k2 == n);
            } else {
                lemma_range_fv_has(s, k, x);
            }
        }
    }
}

/// Binding a variable during unification keeps the substitution resolved.
proof fn lemma_bind_resolved(s: Map<Seq<char>, TypeView>, n: Seq<char>, b: TypeView)
    requires
        resolved(s),
        !s.dom().contains(n),
    ensures
        bind_outcome(s, n, b.subst(s)) matches UnifyOutcome::Unified(m) ==> resolved(m),
{
    let t = b.subst(s);
    if t != TypeView::TypeVar(n) && !t.ftv().contains(n) {
        lemma_subst_resolved(b, s);
        lemma_fv_in_ftv(t);
        lemma_compose_resolved(s, n, t);
    }
}

/// Unification keeps the substitution it extends resolved.
proof fn lemma_unify_steps_resolved(a: TypeView, b: TypeView, s: Map<Seq<char>, TypeView>, fuel: nat)
    requires
        resolved(s),
    ensures
        unify_steps(a, b, s, fuel) matches UnifyOutcome::Unified(m) ==> resolved(m),
    decreases fuel, 0nat,
{
    if fuel > 0 && a != b {
        let f = (fuel - 1) as nat;
        match (a, b) {
            (TypeView::TypeVar(n), _) => if s.contains_key(n) {
                lemma_unify_steps_resolved(s[n], b, s, f);
            } else {
                lemma_bind_resolved(s, n, b);
            },
            (_, TypeView::TypeVar(n)) => if s.contains_key(n) {
                lemma_unify_steps_resolved(a, s[n], s, f);
            } else {
                lemma_bind_resolved(s, n, a);
            },
            (TypeView::Pointer(x), TypeView::Pointer(y)) => lemma_unify_steps_resolved(*x, *y, s, f),
            (TypeView::Reference(x, _), TypeView::Reference(y, _)) => lemma_unify_steps_resolved(*x, *y, s, f),
            (TypeView::Array(x, _), TypeView::Array(y, _)) => lemma_unify_steps_resolved(*x, *y, s, f),
            (TypeView::Vector(x), TypeView::Vector(y)) => lemma_unify_steps_resolved(*x, *y, s, f),
            (TypeView::Slice(x), TypeView::Slice(y)) => lemma_unify_steps_resolved(*x, *y, s, f),
            (TypeView::Optional(x), TypeView::Optional(y)) => lemma_unify_steps_resolved(*x, *y, s, f),
            (TypeView::Meta(x), TypeView::Meta(y)) => lemma_unify_steps_resolved(*x, *y, s, f),
            (TypeView::Result(x, p), TypeView::Result(y, q)) => {
                lemma_unify_steps_resolved(*x, *y, s, f);
                if let UnifyOutcome::Unified(s1) = unify_steps(*x, *y, s, f) {
                    lemma_unify_steps_resolved(*p, *q, s1, f);
                }
            },
            (TypeView::Struct(_, xs), TypeView::Struct(_, ys)) => lemma_unify_all_resolved(xs, ys, s, f),
            (TypeView::Tuple(xs), TypeView::Tuple(ys)) => lemma_unify_all_resolved(xs, ys, s, f),
            (TypeView::Function(xs, p), TypeView::Function(ys, q)) => {
                lemma_unify_all_resolved(xs, ys, s, f);
                if let UnifyOutcome::Unified(s1) = unify_all(xs, ys, s, f) {
                    lemma_unify_steps_resolved(*p, *q, s1, f);
                }
            },
            (TypeView::Generic(_, xs), TypeView::Generic(_, ys)) => lemma_unify_all_resolved(xs, ys, s, f),
            _ => {},
        }
    }
}

proof fn lemma_unify_all_resolved(xs: Seq<TypeView>, ys: Seq<TypeView>, s: Map<Seq<char>, TypeView>, fuel: nat)
    requires
        resolved(s),
    ensures
        unify_all(xs, ys, s, fuel) matches UnifyOutcome::Unified(m) ==> resolved(m),
    decreases fuel, xs.len() + 1,
{
    if xs.len() > 0 && ys.len() > 0 {
        lemma_unify_steps_resolved(xs[0], ys[0], s, fuel);
        if let UnifyOutcome::Unified(s1) = unify_steps(xs[0], ys[0], s, fuel) {
            lemma_unify_all_resolved(xs.drop_first(), ys.drop_first(), s1, fuel);
        }
    }
}

/// The substitution that unification returns is idempotent: no type it
/// binds has a free variable it binds, so applying it twice to any type is
/// applying it once.
pub proof fn lemma_unify_idempotent(a: TypeView, b: TypeView, t: TypeView)
    ensures
        unify_outcome(a, b) matches UnifyOutcome::Unified(m) ==> {
            &&& forall|k: Seq<char>| #[trigger] m.dom().contains(k) ==> m[k].subst(m) == m[k]
            &&& t.subst(m).subst(m) == t.subst(m)
        },
{
    let e = Map::<Seq<char>, TypeView>::empty();
    assert(range_fv(e) =~= Set::<Seq<char>>::empty());
    lemma_unify_steps_resolved(a, b, e, unify_fuel());
    if let UnifyOutcome::Unified(m) = unify_outcome(a, b) {
        assert(resolved(m));
        assert forall|k: Seq<char>| #[trigger] m.dom().contains(k) implies m[k].subst(m) == m[k] by {
            assert forall|x: Seq<char>| m[k].fv().contains(x) implies !m.dom().contains(x) by {
                lemma_range_fv_has(m, k, x);
            }
            lemma_subst_outside_fv(m[k], m);
        }
        lemma_subst_resolved(t, m);
        lemma_subst_outside_fv(t.subst(m), m);
    }
}

/// A list is free of recursive types exactly when each of its types is.
proof fn lemma_binder_free_list(ts: Seq<TypeView>)
    ensures
        binder_free_list(ts) <==> forall|i: int| 0 <= i < ts.len() ==> #[trigger] ts[i].binder_free(),
    decreases ts.len(),
{
    if ts.len() > 0 {
        let p = ts.subrange(0, ts.len() - 1);
        lemma_binder_free_list(p);
        if binder_free_list(ts) {
            assert forall|i: int| 0 <= i < ts.len() implies #[trigger] ts[i].binder_free() by {
                if i < ts.len() - 1 {
                    assert(p[i] == ts[i]);
                }
            }
        }
        if forall|i: int| 0 <= i < ts.len() ==> #[trigger] ts[i].binder_free() {
            assert forall|i: int| 0 <= i < p.len() implies #[trigger] p[i].binder_free() by {
                assert(p[i] == ts[i]);
            }
            assert(ts[ts.len() - 1].binder_free());
        }
    }
}

/// Whether no recursive type occurs in the type that a constraint equates
/// the type with or bounds it by.
pub open spec fn constraint_binder_free(c: ConstraintView) -> bool {
    match c {
        ConstraintView::Equals(t) => t.binder_free(),
        ConstraintView::SubType(t) => t.binder_free(),
        ConstraintView::SuperType(t) => t.binder_free(),
        _ => true,
    }
}

/// A constraint list is free of recursive types exactly when each of its
/// constraints is.
proof fn lemma_binder_free_constraints(cs: Seq<ConstraintView>)
    ensures
        binder_free_constraints(cs) <==> forall|i: int|
            0 <= i < cs.len() ==> constraint_binder_free(#[trigger] cs[i]),
    decreases cs.len(),
{
    if cs.len() > 0 {
        let p = cs.subrange(0, cs.len() - 1);
        lemma_binder_free_constraints(p);
        if binder_free_constraints(cs) {
            assert forall|i: int| 0 <= i < cs.len() implies constraint_binder_free(#[trigger] cs[i]) by {
                if i < cs.len() - 1 {
                    assert(p[i] == cs[i]);
                }
            }
        }
        if forall|i: int| 0 <= i < cs.len() ==> constraint_binder_free(#[trigger] cs[i]) {
            assert forall|i: int| 0 <= i < p.len() implies constraint_binder_free(#[trigger] p[i]) by {
                assert(p[i] == cs[i]);
            }
            assert(constraint_binder_free(cs[cs.len() - 1]));
        }
    }
}

/// Substituting types free of recursive types keeps a type free of them.
pub proof fn lemma_subst_binder_free(t: TypeView, m: Map<Seq<char>, TypeView>)
    requires
        t.binder_free(),
        values_binder_free(m),
    ensures
        t.subst(m).binder_free(),
    decreases t,
{
    match t {
        TypeView::TypeVar(n) => {
            if m.contains_key(n) {
                assert(m.dom().contains(n));
            }
        },
        TypeView::Pointer(a) => lemma_subst_binder_free(*a, m),
        TypeView::Reference(a, _) => lemma_subst_binder_free(*a, m),
        TypeView::Array(a, _) => lemma_subst_binder_free(*a, m),
        TypeView::Vector(a) => lemma_subst_binder_free(*a, m),
        TypeView::Slice(a) => lemma_subst_binder_free(*a, m),
        TypeView::Optional(a) => lemma_subst_binder_free(*a, m),
        TypeView::Meta(a) => lemma_subst_binder_free(*a, m),
        TypeView::Result(a, b) => {
            lemma_subst_binder_free(*a, m);
            lemma_subst_binder_free(*b, m);
        },
        TypeView::Struct(_, ts) => lemma_subst_list_binder_free(ts, m),
        TypeView::Tuple(ts) => lemma_subst_list_binder_free(ts, m),
        TypeView::Union(ts) => lemma_subst_list_binder_free(ts, m),
        TypeView::Intersection(ts) => lemma_subst_list_binder_free(ts, m),
        TypeView::Generic(_, ts) => lemma_subst_list_binder_free(ts, m),
        TypeView::Function(ps, r) => {
            lemma_subst_list_binder_free(ps, m);
            lemma_subst_binder_free(*r, m);
        },
        TypeView::Constrained(a, cs) => {
            lemma_subst_binder_free(*a, m);
            lemma_subst_constraints_binder_free(cs, m);
        },
        _ => {},
    }
}

proof fn lemma_subst_list_binder_free(ts: Seq<TypeView>, m: Map<Seq<char>, TypeView>)
    requires
        binder_free_list(ts),
        values_binder_free(m),
    ensures
        binder_free_list(subst_list(ts, m)),
    decreases ts,
{
    lemma_binder_free_list(ts);
    let us = subst_list(ts, m);
    assert forall|i: int| 0 <= i < us.len() implies #[trigger] us[i].binder_free() by {
        lemma_subst_binder_free(ts[i], m);
    }
    lemma_binder_free_list(us);
}

proof fn lemma_subst_constraints_binder_free(cs: Seq<ConstraintView>, m: Map<Seq<char>, TypeView>)
    requires
        binder_free_constraints(cs),
        values_binder_free(m),
    ensures
        binder_free_constraints(subst_constraints(cs, m)),
    decreases cs,
{
    lemma_binder_free_constraints(cs);
    let us = subst_constraints(cs, m);
    assert forall|i: int| 0 <= i < us.len() implies constraint_binder_free(#[trigger] us[i]) by {
        assert(constraint_binder_free(cs[i]));
        match cs[i] {
            ConstraintView::Equals(t) => lemma_subst_binder_free(*t, m),
            ConstraintView::SubType(t) => lemma_subst_binder_free(*t, m),
            ConstraintView::SuperType(t) => lemma_subst_binder_free(*t, m),
            _ => {},
        }
    }
    lemma_binder_free_constraints(us);
}

/// Whether `m1` and `m2` bind the same variables of `vs`, to the same types.
pub open spec fn agree_on(m1: Map<Seq<char>, TypeView>, m2: Map<Seq<char>, TypeView>, vs: Set<Seq<char>>) -> bool {
    forall|x: Seq<char>|
        #[trigger] vs.contains(x) ==> m1.dom().contains(x) == m2.dom().contains(x) && (m1.dom().contains(x)
            ==> m1[x] == m2[x])
}

/// Substitutions that agree on a set of variables agree on each part of it.
proof fn lemma_agree_sub(
    m1: Map<Seq<char>, TypeView>,
    m2: Map<Seq<char>, TypeView>,
    big: Set<Seq<char>>,
    small: Set<Seq<char>>,
)
    requires
        agree_on(m1, m2, big),
        small.subset_of(big),
    ensures
        agree_on(m1, m2, small),
{
    assert forall|x: Seq<char>| #[trigger] small.contains(x) implies m1.dom().contains(x) == m2.dom().contains(x)
        && (m1.dom().contains(x) ==> m1[x] == m2[x]) by {
        assert(big.contains(x));
    }
}

/// Two substitutions that agree on the free variables of a type give it the
/// same result.
pub proof fn lemma_subst_agree(w: TypeView, m1: Map<Seq<char>, TypeView>, m2: Map<Seq<char>, TypeView>)
    requires
        agree_on(m1, m2, w.fv()),
    ensures
        w.subst(m1) == w.subst(m2),
    decreases w,
{
    match w {
        TypeView::TypeVar(n) => {
            assert(w.fv().contains(n));
        },
        TypeView::Pointer(a) => {
            assert(w.fv() == a.fv());
            lemma_subst_agree(*a, m1, m2);
        },
        TypeView::Reference(a, _) => {
            assert(w.fv() == a.fv());
            lemma_subst_agree(*a, m1, m2);
        },
        TypeView::Array(a, _) => {
            assert(w.fv() == a.fv());
            lemma_subst_agree(*a, m1, m2);
        },
        TypeView::Vector(a) => {
            assert(w.fv() == a.fv());
            lemma_subst_agree(*a, m1, m2);
        },
        TypeView::Slice(a) => {
            assert(w.fv() == a.fv());
            lemma_subst_agree(*a, m1, m2);
        },
        TypeView::Optional(a) => {
            assert(w.fv() == a.fv());
            lemma_subst_agree(*a, m1, m2);
        },
        TypeView::Meta(a) => {
            assert(w.fv() == a.fv());
            lemma_subst_agree(*a, m1, m2);
        },
        TypeView::Result(a, b) => {
            assert(w.fv() == a.fv().union(b.fv()));
            lemma_agree_sub(m1, m2, w.fv(), a.fv());
            lemma_agree_sub(m1, m2, w.fv(), b.fv());
            lemma_subst_agree(*a, m1, m2);
            lemma_subst_agree(*b, m1, m2);
        },
        TypeView::Struct(_, ts) => {
            assert(w.fv() == fv_list(ts));
            lemma_subst_list_agree(ts, m1, m2);
        },
        TypeView::Tuple(ts) => {
            assert(w.fv() == fv_list(ts));
            lemma_subst_list_agree(ts, m1, m2);
        },
        TypeView::Union(ts) => {
            assert(w.fv() == fv_list(ts));
            lemma_subst_list_agree(ts, m1, m2);
        },
        TypeView::Intersection(ts) => {
            assert(w.fv() == fv_list(ts));
            lemma_subst_list_agree(ts, m1, m2);
        },
        TypeView::Generic(_, ts) => {
            assert(w.fv() == fv_list(ts));
            lemma_subst_list_agree(ts, m1, m2);
        },
        TypeView::Function(ps, r) => {
            assert(w.fv() == fv_list(ps).union(r.fv()));
            lemma_agree_sub(m1, m2, w.fv(), fv_list(ps));
            lemma_agree_sub(m1, m2, w.fv(), r.fv());
            lemma_subst_list_agree(ps, m1, m2);
            lemma_subst_agree(*r, m1, m2);
        },
        TypeView::Constrained(a, cs) => {
            assert(w.fv() == a.fv().union(fv_constraints(cs)));
            lemma_agree_sub(m1, m2, w.fv(), a.fv());
            lemma_agree_sub(m1, m2, w.fv(), fv_constraints(cs));
            lemma_subst_agree(*a, m1, m2);
            lemma_subst_constraints_agree(cs, m1, m2);
        },
        TypeView::Recursive(n, a) => {
            assert(w.fv() == a.fv().remove(n));
            assert forall|x: Seq<char>| #[trigger] a.fv().contains(x) implies m1.remove(n).dom().contains(x)
                == m2.remove(n).dom().contains(x) && (m1.remove(n).dom().contains(x) ==> m1.remove(n)[x]
                == m2.remove(n)[x]) by {
                if x != n {
                    assert(w.fv().contains(x));
                }
            }
            lemma_subst_agree(*a, m1.remove(n), m2.remove(n));
        },
        _ => {},
    }
}

proof fn lemma_subst_list_agree(ts: Seq<TypeView>, m1: Map<Seq<char>, TypeView>, m2: Map<Seq<char>, TypeView>)
    requires
        agree_on(m1, m2, fv_list(ts)),
    ensures
        subst_list(ts, m1) == subst_list(ts, m2),
    decreases ts,
{
    assert forall|i: int| 0 <= i < ts.len() implies subst_list(ts, m1)[i] == subst_list(ts, m2)[i] by {
        assert forall|x: Seq<char>| #[trigger] ts[i].fv().contains(x) implies fv_list(ts).contains(x) by {
            lemma_fv_list_has(ts, x);
        }
        lemma_subst_agree(ts[i], m1, m2);
    }
    assert(subst_list(ts, m1) =~= subst_list(ts, m2));
}

proof fn lemma_subst_constraints_agree(
    cs: Seq<ConstraintView>,
    m1: Map<Seq<char>, TypeView>,
    m2: Map<Seq<char>, TypeView>,
)
    requires
        agree_on(m1, m2, fv_constraints(cs)),
    ensures
        subst_constraints(cs, m1) == subst_constraints(cs, m2),
    decreases cs,
{
    assert forall|i: int| 0 <= i < cs.len() implies subst_constraints(cs, m1)[i] == subst_constraints(cs, m2)[i] by {
        match cs[i] {
            ConstraintView::Equals(t) => {
                assert forall|x: Seq<char>| #[trigger] t.fv().contains(x) implies fv_constraints(cs).contains(x) by {
                    lemma_fv_constraints_has(cs, x);
                }
                lemma_subst_agree(*t, m1, m2);
            },
            ConstraintView::SubType(t) => {
                assert forall|x: Seq<char>| #[trigger] t.fv().contains(x) implies fv_constraints(cs).contains(x) by {
                    lemma_fv_constraints_has(cs, x);
                }
                lemma_subst_agree(*t, m1, m2);
            },
            ConstraintView::SuperType(t) => {
                assert forall|x: Seq<char>| #[trigger] t.fv().contains(x) implies fv_constraints(cs).contains(x) by {
                    lemma_fv_constraints_has(cs, x);
                }
                lemma_subst_agree(*t, m1, m2);
            },
            _ => {},
        }
    }
    assert(subst_constraints(cs, m1) =~= subst_constraints(cs, m2));
}

/// On a type free of recursive types, applying `s` and then `c` is
/// applying their sequence.
pub proof fn lemma_subst_followed(u: TypeView, s: Map<Seq<char>, TypeView>, c: Map<Seq<char>, TypeView>)
    requires
        u.binder_free(),
    ensures
        u.subst(s).subst(c) == u.subst(followed_by(s, c)),
    decreases u,
{
    let f = followed_by(s, c);
    match u {
        TypeView::TypeVar(v) => {
            if s.contains_key(v) {
                assert(f.dom().contains(v));
            } else if c.contains_key(v) {
                assert(f.dom().contains(v));
            } else {
                assert(!f.dom().contains(v));
            }
        },
        TypeView::Pointer(a) => lemma_subst_followed(*a, s, c),
        TypeView::Reference(a, _) => lemma_subst_followed(*a, s, c),
        TypeView::Array(a, _) => lemma_subst_followed(*a, s, c),
        TypeView::Vector(a) => lemma_subst_followed(*a, s, c),
        TypeView::Slice(a) => lemma_subst_followed(*a, s, c),
        TypeView::Optional(a) => lemma_subst_followed(*a, s, c),
        TypeView::Meta(a) => lemma_subst_followed(*a, s, c),
        TypeView::Result(a, b) => {
            lemma_subst_followed(*a, s, c);
            lemma_subst_followed(*b, s, c);
        },
        TypeView::Struct(_, ts) => lemma_subst_list_followed(ts, s, c),
        TypeView::Tuple(ts) => lemma_subst_list_followed(ts, s, c),
        TypeView::Union(ts) => lemma_subst_list_followed(ts, s, c),
        TypeView::Intersection(ts) => lemma_subst_list_followed(ts, s, c),
        TypeView::Generic(_, ts) => lemma_subst_list_followed(ts, s, c),
        TypeView::Function(ps, r) => {
            lemma_subst_list_followed(ps, s, c);
            lemma_subst_followed(*r, s, c);
        },
        TypeView::Constrained(a, cs) => {
            lemma_subst_followed(*a, s, c);
            lemma_subst_constraints_followed(cs, s, c);
        },
        _ => {},
    }
}

proof fn lemma_subst_list_followed(ts: Seq<TypeView>, s: Map<Seq<char>, TypeView>, c: Map<Seq<char>, TypeView>)
    requires
        binder_free_list(ts),
    ensures
        subst_list(subst_list(ts, s), c) == subst_list(ts, followed_by(s, c)),
    decreases ts,
{
    lemma_binder_free_list(ts);
    assert forall|i: int| 0 <= i < ts.len() implies subst_list(subst_list(ts, s), c)[i] == subst_list(
        ts,
        followed_by(s, c),
    )[i] by {
        assert(ts[i].binder_free());
        lemma_subst_followed(ts[i], s, c);
    }
    assert(subst_list(subst_list(ts, s), c) =~= subst_list(ts, followed_by(s, c)));
}

proof fn lemma_subst_constraints_followed(
    cs: Seq<ConstraintView>,
    s: Map<Seq<char>, TypeView>,
    c: Map<Seq<char>, TypeView>,
)
    requires
        binder_free_constraints(cs),
    ensures
        subst_constraints(subst_constraints(cs, s), c) == subst_constraints(cs, followed_by(s, c)),
    decreases cs,
{
    lemma_binder_free_constraints(cs);
    assert forall|i: int| 0 <= i < cs.len() implies subst_constraints(subst_constraints(cs, s), c)[i]
        == subst_constraints(cs, followed_by(s, c))[i] by {
        assert(constraint_binder_free(cs[i]));
        match cs[i] {
            ConstraintView::Equals(t) => lemma_subst_followed(*t, s, c),
            ConstraintView::SubType(t) => lemma_subst_followed(*t, s, c),
            ConstraintView::SuperType(t) => lemma_subst_followed(*t, s, c),
            _ => {},
        }
    }
    assert(subst_constraints(subst_constraints(cs, s), c) =~= subst_constraints(cs, followed_by(s, c)));
}

/// Whether applying `s` and then `m` is applying `m` alone.
pub open spec fn absorbs(s: Map<Seq<char>, TypeView>, m: Map<Seq<char>, TypeView>) -> bool {
    followed_by(s, m) == m
}

/// A resolved substitution absorbs itself.
proof fn lemma_absorbs_self(s: Map<Seq<char>, TypeView>)
    requires
        resolved(s),
    ensures
        absorbs(s, s),
{
    assert forall|k: Seq<char>| #[trigger] s.dom().contains(k) implies s[k].subst(s) == s[k] by {
        assert forall|x: Seq<char>| s[k].fv().contains(x) implies !s.dom().contains(x) by {
            lemma_range_fv_has(s, k, x);
        }
        lemma_subst_outside_fv(s[k], s);
    }
    assert(followed_by(s, s) =~= s);
}

/// Binding a new variable absorbs the substitution it extends.
proof fn lemma_absorbs_compose(s: Map<Seq<char>, TypeView>, n: Seq<char>, t: TypeView)
    requires
        resolved(s),
        !s.dom().contains(n),
        t.fv().disjoint(s.dom()),
    ensures
        absorbs(s, compose(s, n, t)),
{
    let c = compose(s, n, t);
    let e = Map::<Seq<char>, TypeView>::empty().insert(n, t);
    assert forall|k: Seq<char>| #[trigger] s.dom().contains(k) implies s[k].subst(c) == c[k] by {
        assert forall|x: Seq<char>| #[trigger] s[k].fv().contains(x) implies c.dom().contains(x) == e.dom().contains(
            x,
        ) && (c.dom().contains(x) ==> c[x] == e[x]) by {
            lemma_range_fv_has(s, k, x);
        }
        lemma_subst_agree(s[k], c, e);
    }
    assert(followed_by(s, c) =~= c);
}

/// Absorbing goes through a chain of substitutions.
proof fn lemma_absorbs_trans(s: Map<Seq<char>, TypeView>, m1: Map<Seq<char>, TypeView>, m2: Map<Seq<char>, TypeView>)
    requires
        absorbs(s, m1),
        absorbs(m1, m2),
        values_binder_free(s),
    ensures
        absorbs(s, m2),
{
    assert forall|k: Seq<char>| #[trigger] s.dom().contains(k) implies m2.dom().contains(k) && s[k].subst(m2)
        == m2[k] by {
        assert(followed_by(s, m1).dom().contains(k));
        assert(m1.dom().contains(k));
        assert(followed_by(m1, m2).dom().contains(k));
        assert(m1[k] == s[k].subst(m1));
        assert(m2[k] == m1[k].subst(m2));
        lemma_subst_followed(s[k], m1, m2);
    }
    assert(followed_by(s, m2) =~= m2);
}

/// What a substitution absorbs changes nothing before it.
proof fn lemma_transport(u: TypeView, s: Map<Seq<char>, TypeView>, m: Map<Seq<char>, TypeView>)
    requires
        absorbs(s, m),
        u.binder_free(),
    ensures
        u.subst(s).subst(m) == u.subst(m),
{
    lemma_subst_followed(u, s, m);
}

/// A variable bound before stays bound to what absorbs its old binding.
proof fn lemma_absorbs_at(s: Map<Seq<char>, TypeView>, m: Map<Seq<char>, TypeView>, n: Seq<char>)
    requires
        absorbs(s, m),
        s.dom().contains(n),
    ensures
        m.dom().contains(n),
        m[n] == s[n].subst(m),
{
    assert(followed_by(s, m).dom().contains(n));
}

/// Binding a variable during unification makes the variable and the type
/// facing it equal, and keeps what was found before.
proof fn lemma_bind_sound(s: Map<Seq<char>, TypeView>, n: Seq<char>, b: TypeView)
    requires
        resolved(s),
        values_binder_free(s),
        b.binder_free(),
        !s.dom().contains(n),
    ensures
        bind_outcome(s, n, b.subst(s)) matches UnifyOutcome::Unified(m) ==> {
            &&& values_binder_free(m)
            &&& absorbs(s, m)
            &&& TypeView::TypeVar(n).subst(m) == b.subst(m)
        },
{
    let t = b.subst(s);
    if t == TypeView::TypeVar(n) {
        lemma_absorbs_self(s);
    } else if !t.ftv().contains(n) {
        let c = compose(s, n, t);
        let e = Map::<Seq<char>, TypeView>::empty().insert(n, t);
        lemma_subst_resolved(b, s);
        lemma_fv_in_ftv(t);
        lemma_subst_binder_free(b, s);
        assert forall|k: Seq<char>| #[trigger] c.dom().contains(k) implies c[k].binder_free() by {
            if k != n {
                lemma_subst_binder_free(s[k], e);
            }
        }
        lemma_absorbs_compose(s, n, t);
        lemma_transport(b, s, c);
        assert(t.fv().disjoint(c.dom())) by {
            assert(c.dom() =~= s.dom().insert(n));
        }
        lemma_subst_outside_fv(t, c);
        assert(c.dom().contains(n));
    }
}

/// When unification of types free of recursive types succeeds, the
/// substitution makes them equal and absorbs the one it started from.
proof fn lemma_unify_steps_sound(a: TypeView, b: TypeView, s: Map<Seq<char>, TypeView>, fuel: nat)
    requires
        resolved(s),
        values_binder_free(s),
        a.binder_free(),
        b.binder_free(),
    ensures
        unify_steps(a, b, s, fuel) matches UnifyOutcome::Unified(m) ==> {
            &&& values_binder_free(m)
            &&& absorbs(s, m)
            &&& a.subst(m) == b.subst(m)
        },
    decreases fuel, 0nat,
{
    if fuel > 0 {
        if a == b {
            lemma_absorbs_self(s);
        } else {
            let f = (fuel - 1) as nat;
            match (a, b) {
                (TypeView::TypeVar(n), _) => if s.contains_key(n) {
                    lemma_unify_steps_sound(s[n], b, s, f);
                    if let UnifyOutcome::Unified(m) = unify_steps(s[n], b, s, f) {
                        lemma_absorbs_at(s, m, n);
                    }
                } else {
                    lemma_bind_sound(s, n, b);
                },
                (_, TypeView::TypeVar(n)) => if s.contains_key(n) {
                    lemma_unify_steps_sound(a, s[n], s, f);
                    if let UnifyOutcome::Unified(m) = unify_steps(a, s[n], s, f) {
                        lemma_absorbs_at(s, m, n);
                    }
                } else {
                    lemma_bind_sound(s, n, a);
                },
                (TypeView::Pointer(x), TypeView::Pointer(y)) => lemma_unify_steps_sound(*x, *y, s, f),
                (TypeView::Reference(x, _), TypeView::Reference(y, _)) => lemma_unify_steps_sound(*x, *y, s, f),
                (TypeView::Array(x, _), TypeView::Array(y, _)) => lemma_unify_steps_sound(*x, *y, s, f),
                (TypeView::Vector(x), TypeView::Vector(y)) => lemma_unify_steps_sound(*x, *y, s, f),
                (TypeView::Slice(x), TypeView::Slice(y)) => lemma_unify_steps_sound(*x, *y, s, f),
                (TypeView::Optional(x), TypeView::Optional(y)) => lemma_unify_steps_sound(*x, *y, s, f),
                (TypeView::Meta(x), TypeView::Meta(y)) => lemma_unify_steps_sound(*x, *y, s, f),
                (TypeView::Result(x, p), TypeView::Result(y, q)) => {
                    lemma_unify_steps_sound(*x, *y, s, f);
                    lemma_unify_steps_resolved(*x, *y, s, f);
                    if let UnifyOutcome::Unified(m1) = unify_steps(*x, *y, s, f) {
                        lemma_unify_steps_sound(*p, *q, m1, f);
                        if let UnifyOutcome::Unified(m2) = unify_steps(*p, *q, m1, f) {
                            lemma_transport(*x, m1, m2);
                            lemma_transport(*y, m1, m2);
                            lemma_absorbs_trans(s, m1, m2);
                        }
                    }
                },
                (TypeView::Struct(_, xs), TypeView::Struct(_, ys)) => lemma_unify_all_sound(xs, ys, s, f),
                (TypeView::Tuple(xs), TypeView::Tuple(ys)) => lemma_unify_all_sound(xs, ys, s, f),
                (TypeView::Function(xs, p), TypeView::Function(ys, q)) => {
                    lemma_unify_all_sound(xs, ys, s, f);
                    lemma_unify_all_resolved(xs, ys, s, f);
                    if let UnifyOutcome::Unified(m1) = unify_all(xs, ys, s, f) {
                        lemma_unify_steps_sound(*p, *q, m1, f);
                        if let UnifyOutcome::Unified(m2) = unify_steps(*p, *q, m1, f) {
                            lemma_subst_list_followed(xs, m1, m2);
                            lemma_subst_list_followed(ys, m1, m2);
                            lemma_absorbs_trans(s, m1, m2);
                        }
                    }
                },
                (TypeView::Generic(_, xs), TypeView::Generic(_, ys)) => lemma_unify_all_sound(xs, ys, s, f),
                _ => {},
            }
        }
    }
}

proof fn lemma_unify_all_sound(xs: Seq<TypeView>, ys: Seq<TypeView>, s: Map<Seq<char>, TypeView>, fuel: nat)
    requires
        resolved(s),
        values_binder_free(s),
        binder_free_list(xs),
        binder_free_list(ys),
    ensures
        unify_all(xs, ys, s, fuel) matches UnifyOutcome::Unified(m) ==> {
            &&& values_binder_free(m)
            &&& absorbs(s, m)
            &&& xs.len() == ys.len() ==> subst_list(xs, m) == subst_list(ys, m)
        },
    decreases fuel, xs.len() + 1,
{
    if xs.len() == 0 || ys.len() == 0 {
        lemma_absorbs_self(s);
        assert(xs.len() == ys.len() ==> subst_list(xs, s) =~= subst_list(ys, s));
    } else {
        lemma_binder_free_list(xs);
        lemma_binder_free_list(ys);
        let xr = xs.drop_first();
        let yr = ys.drop_first();
        assert forall|i: int| 0 <= i < xr.len() implies #[trigger] xr[i].binder_free() by {
            assert(xr[i] == xs[i + 1]);
        }
        assert forall|i: int| 0 <= i < yr.len() implies #[trigger] yr[i].binder_free() by {
            assert(yr[i] == ys[i + 1]);
        }
        lemma_binder_free_list(xr);
        lemma_binder_free_list(yr);
        lemma_unify_steps_sound(xs[0], ys[0], s, fuel);
        lemma_unify_steps_resolved(xs[0], ys[0], s, fuel);
        if let UnifyOutcome::Unified(s1) = unify_steps(xs[0], ys[0], s, fuel) {
            lemma_unify_all_sound(xr, yr, s1, fuel);
            if let UnifyOutcome::Unified(m) = unify_all(xr, yr, s1, fuel) {
                lemma_absorbs_trans(s, s1, m);
                if xs.len() == ys.len() {
                    lemma_transport(xs[0], s1, m);
                    lemma_transport(ys[0], s1, m);
                    assert forall|i: int| 0 <= i < xs.len() implies subst_list(xs, m)[i] == subst_list(ys, m)[i] by {
                        if i > 0 {
                            assert(xs[i] == xr[i - 1] && ys[i] == yr[i - 1]);
                            assert(subst_list(xr, m)[i - 1] == subst_list(yr, m)[i - 1]);
                        }
                    }
                    assert(subst_list(xs, m) =~= subst_list(ys, m));
                }
            }
        }
    }
}

/// Unifying types in which no recursive type occurs never ends with a
/// substitution that leaves them different: where the unification steps
/// find a substitution, it makes the two types equal, and unification
/// returns it.
pub proof fn lemma_unify_sound(a: TypeView, b: TypeView)
    requires
        a.binder_free(),
        b.binder_free(),
    ensures
        unify_steps(a, b, Map::empty(), unify_fuel()) matches UnifyOutcome::Unified(m) ==> a.subst(m) == b.subst(
            m,
        ) && unify_outcome(a, b) == UnifyOutcome::Unified(m),
{
    let e = Map::<Seq<char>, TypeView>::empty();
    assert(range_fv(e) =~= Set::<Seq<char>>::empty());
    lemma_unify_steps_sound(a, b, e, unify_fuel());
}

/// More steps change nothing once unification has ended within fewer.
proof fn lemma_steps_fuel(a: TypeView, b: TypeView, s: Map<Seq<char>, TypeView>, f: nat)
    ensures
        !(unify_steps(a, b, s, f) is OutOfSteps) ==> unify_steps(a, b, s, f + 1) == unify_steps(a, b, s, f),
    decreases f, 0nat,
{
    if f > 0 && a != b {
        let g = (f - 1) as nat;
        match (a, b) {
            (TypeView::TypeVar(n), _) => if s.contains_key(n) {
                lemma_steps_fuel(s[n], b, s, g);
            },
            (_, TypeView::TypeVar(n)) => if s.contains_key(n) {
                lemma_steps_fuel(a, s[n], s, g);
            },
            (TypeView::Pointer(x), TypeView::Pointer(y)) => lemma_steps_fuel(*x, *y, s, g),
            (TypeView::Reference(x, _), TypeView::Reference(y, _)) => lemma_steps_fuel(*x, *y, s, g),
            (TypeView::Array(x, _), TypeView::Array(y, _)) => lemma_steps_fuel(*x, *y, s, g),
            (TypeView::Vector(x), TypeView::Vector(y)) => lemma_steps_fuel(*x, *y, s, g),
            (TypeView::Slice(x), TypeView::Slice(y)) => lemma_steps_fuel(*x, *y, s, g),
            (TypeView::Optional(x), TypeView::Optional(y)) => lemma_steps_fuel(*x, *y, s, g),
            (TypeView::Meta(x), TypeView::Meta(y)) => lemma_steps_fuel(*x, *y, s, g),
            (TypeView::Result(x, p), TypeView::Result(y, q)) => {
                lemma_steps_fuel(*x, *y, s, g);
                if let UnifyOutcome::Unified(s1) = unify_steps(*x, *y, s, g) {
                    lemma_steps_fuel(*p, *q, s1, g);
                }
            },
            (TypeView::Struct(_, xs), TypeView::Struct(_, ys)) => lemma_all_fuel(xs, ys, s, g),
            (TypeView::Tuple(xs), TypeView::Tuple(ys)) => lemma_all_fuel(xs, ys, s, g),
            (TypeView::Function(xs, p), TypeView::Function(ys, q)) => {
                lemma_all_fuel(xs, ys, s, g);
                if let UnifyOutcome::Unified(s1) = unify_all(xs, ys, s, g) {
                    lemma_steps_fuel(*p, *q, s1, g);
                }
            },
            (TypeView::Generic(_, xs), TypeView::Generic(_, ys)) => lemma_all_fuel(xs, ys, s, g),
            _ => {},
        }
    }
}

proof fn lemma_all_fuel(xs: Seq<TypeView>, ys: Seq<TypeView>, s: Map<Seq<char>, TypeView>, f: nat)
    ensures
        !(unify_all(xs, ys, s, f) is OutOfSteps) ==> unify_all(xs, ys, s, f + 1) == unify_all(xs, ys, s, f),
    decreases f, xs.len() + 1,
{
    if xs.len() > 0 && ys.len() > 0 {
        lemma_steps_fuel(xs[0], ys[0], s, f);
        if let UnifyOutcome::Unified(s1) = unify_steps(xs[0], ys[0], s, f) {
            lemma_all_fuel(xs.drop_first(), ys.drop_first(), s1, f);
        }
    }
}

/// The unification steps never end by finding types left unequal: that
/// check comes after them.
proof fn lemma_steps_no_unequal(a: TypeView, b: TypeView, s: Map<Seq<char>, TypeView>, f: nat)
    ensures
        !(unify_steps(a, b, s, f) matches UnifyOutcome::Failed(UnifyErrorView::NotEqualized(_, _))),
    decreases f, 0nat,
{
    if f > 0 && a != b {
        let g = (f - 1) as nat;
        match (a, b) {
            (TypeView::TypeVar(n), _) => if s.contains_key(n) {
                lemma_steps_no_unequal(s[n], b, s, g);
            },
            (_, TypeView::TypeVar(n)) => if s.contains_key(n) {
                lemma_steps_no_unequal(a, s[n], s, g);
            },
            (TypeView::Pointer(x), TypeView::Pointer(y)) => lemma_steps_no_unequal(*x, *y, s, g),
            (TypeView::Reference(x, _), TypeView::Reference(y, _)) => lemma_steps_no_unequal(*x, *y, s, g),
            (TypeView::Array(x, _), TypeView::Array(y, _)) => lemma_steps_no_unequal(*x, *y, s, g),
            (TypeView::Vector(x), TypeView::Vector(y)) => lemma_steps_no_unequal(*x, *y, s, g),
            (TypeView::Slice(x), TypeView::Slice(y)) => lemma_steps_no_unequal(*x, *y, s, g),
            (TypeView::Optional(x), TypeView::Optional(y)) => lemma_steps_no_unequal(*x, *y, s, g),
            (TypeView::Meta(x), TypeView::Meta(y)) => lemma_steps_no_unequal(*x, *y, s, g),
            (TypeView::Result(x, p), TypeView::Result(y, q)) => {
                lemma_steps_no_unequal(*x, *y, s, g);
                if let UnifyOutcome::Unified(s1) = unify_steps(*x, *y, s, g) {
                    lemma_steps_no_unequal(*p, *q, s1, g);
                }
            },
            (TypeView::Struct(_, xs), TypeView::Struct(_, ys)) => lemma_all_no_unequal(xs, ys, s, g),
            (TypeView::Tuple(xs), TypeView::Tuple(ys)) => lemma_all_no_unequal(xs, ys, s, g),
            (TypeView::Function(xs, p), TypeView::Function(ys, q)) => {
                lemma_all_no_unequal(xs, ys, s, g);
                if let UnifyOutcome::Unified(s1) = unify_all(xs, ys, s, g) {
                    lemma_steps_no_unequal(*p, *q, s1, g);
                }
            },
            (TypeView::Generic(_, xs), TypeView::Generic(_, ys)) => lemma_all_no_unequal(xs, ys, s, g),
            _ => {},
        }
    }
}

proof fn lemma_all_no_unequal(xs: Seq<TypeView>, ys: Seq<TypeView>, s: Map<Seq<char>, TypeView>, f: nat)
    ensures
        !(unify_all(xs, ys, s, f) matches UnifyOutcome::Failed(UnifyErrorView::NotEqualized(_, _))),
    decreases f, xs.len() + 1,
{
    if xs.len() > 0 && ys.len() > 0 {
        lemma_steps_no_unequal(xs[0], ys[0], s, f);
        if let UnifyOutcome::Unified(s1) = unify_steps(xs[0], ys[0], s, f) {
            lemma_all_no_unequal(xs.drop_first(), ys.drop_first(), s1, f);
        }
    }
}

/// How unifying two types built around `a` and `b` by the same wrapper
/// ends, from how unifying `a` and `b` themselves ends: the wrapper is put
/// around the types an error names where they were substituted.
pub open spec fn wrapped_outcome(o: UnifyOutcome, wrap: spec_fn(TypeView) -> TypeView) -> UnifyOutcome {
    match o {
        UnifyOutcome::Failed(UnifyErrorView::NotEqualized(x, y)) => UnifyOutcome::Failed(
            UnifyErrorView::NotEqualized(wrap(x), wrap(y)),
        ),
        other => other,
    }
}

/// Unifying two types made by one wrapper from `a` and `b` ends as unifying
/// `a` and `b` does, when the outer step is the first and the rest of the
/// step budget is enough.
proof fn lemma_unify_wrapped(
    a: TypeView,
    b: TypeView,
    wa: TypeView,
    wb: TypeView,
    wrap: spec_fn(TypeView) -> TypeView,
)
    requires
        wa == wrap(a),
        wb == wrap(b),
        a != b ==> wa != wb,
        forall|m: Map<Seq<char>, TypeView>| #[trigger] wa.subst(m) == wrap(a.subst(m)) && wb.subst(m) == wrap(b.subst(m)),
        forall|x: TypeView, y: TypeView| #[trigger] wrap(x) == #[trigger] wrap(y) ==> x == y,
        a != b ==> unify_steps(wa, wb, Map::empty(), unify_fuel()) == unify_steps(
            a,
            b,
            Map::empty(),
            (unify_fuel() - 1) as nat,
        ),
        unify_outcome(wa, wb) != UnifyOutcome::Failed(UnifyErrorView::TooDeep),
    ensures
        unify_outcome(wa, wb) == wrapped_outcome(unify_outcome(a, b), wrap),
{
    let e = Map::<Seq<char>, TypeView>::empty();
    let g = (unify_fuel() - 1) as nat;
    if a == b {
        assert(unify_steps(a, b, e, unify_fuel()) == UnifyOutcome::Unified(e));
        assert(unify_steps(wa, wb, e, unify_fuel()) == UnifyOutcome::Unified(e));
    } else {
        lemma_steps_fuel(a, b, e, g);
        lemma_steps_no_unequal(a, b, e, g);
        assert(g + 1 == unify_fuel());
        match unify_steps(a, b, e, g) {
            UnifyOutcome::Unified(m) => {
                assert(wa.subst(m) == wrap(a.subst(m)) && wb.subst(m) == wrap(b.subst(m)));
                if a.subst(m) != b.subst(m) {
                    assert(wrap(a.subst(m)) != wrap(b.subst(m)));
                }
            },
            _ => {},
        }
    }
}

/// Unification is complete on pointers: unifying the two ends as
/// unifying what they are built from does (an error that names the types
/// found unequal names them built up again), unless it runs out of steps.
pub proof fn lemma_unify_pointer(a: TypeView, b: TypeView)
    ensures
        unify_outcome(TypeView::Pointer(Box::new(a)), TypeView::Pointer(Box::new(b))) != UnifyOutcome::Failed(UnifyErrorView::TooDeep) ==> unify_outcome(
            TypeView::Pointer(Box::new(a)),
            TypeView::Pointer(Box::new(b)),
        ) == wrapped_outcome(unify_outcome(a, b), |t: TypeView| TypeView::Pointer(Box::new(t))),
{
    let wrap = |t: TypeView| TypeView::Pointer(Box::new(t));
    if unify_outcome(TypeView::Pointer(Box::new(a)), TypeView::Pointer(Box::new(b))) != UnifyOutcome::Failed(UnifyErrorView::TooDeep) {
        lemma_unify_wrapped(a, b, TypeView::Pointer(Box::new(a)), TypeView::Pointer(Box::new(b)), wrap);
    }
}

/// Unification is complete on references of the same mutability: unifying the two ends as
/// unifying what they are built from does (an error that names the types
/// found unequal names them built up again), unless it runs out of steps.
pub proof fn lemma_unify_reference(a: TypeView, b: TypeView, mu: bool)
    ensures
        unify_outcome(TypeView::Reference(Box::new(a), mu), TypeView::Reference(Box::new(b), mu)) != UnifyOutcome::Failed(UnifyErrorView::TooDeep) ==> unify_outcome(
            TypeView::Reference(Box::new(a), mu),
            TypeView::Reference(Box::new(b), mu),
        ) == wrapped_outcome(unify_outcome(a, b), |t: TypeView| TypeView::Reference(Box::new(t), mu)),
{
    let wrap = |t: TypeView| TypeView::Reference(Box::new(t), mu);
    if unify_outcome(TypeView::Reference(Box::new(a), mu), TypeView::Reference(Box::new(b), mu)) != UnifyOutcome::Failed(UnifyErrorView::TooDeep) {
        lemma_unify_wrapped(a, b, TypeView::Reference(Box::new(a), mu), TypeView::Reference(Box::new(b), mu), wrap);
    }
}

/// Unification is complete on arrays of the same length: unifying the two ends as
/// unifying what they are built from does (an error that names the types
/// found unequal names them built up again), unless it runs out of steps.
pub proof fn lemma_unify_array(a: TypeView, b: TypeView, len: usize)
    ensures
        unify_outcome(TypeView::Array(Box::new(a), len), TypeView::Array(Box::new(b), len)) != UnifyOutcome::Failed(UnifyErrorView::TooDeep) ==> unify_outcome(
            TypeView::Array(Box::new(a), len),
            TypeView::Array(Box::new(b), len),
        ) == wrapped_outcome(unify_outcome(a, b), |t: TypeView| TypeView::Array(Box::new(t), len)),
{
    let wrap = |t: TypeView| TypeView::Array(Box::new(t), len);
    if unify_outcome(TypeView::Array(Box::new(a), len), TypeView::Array(Box::new(b), len)) != UnifyOutcome::Failed(UnifyErrorView::TooDeep) {
        lemma_unify_wrapped(a, b, TypeView::Array(Box::new(a), len), TypeView::Array(Box::new(b), len), wrap);
    }
}

/// Unification is complete on vectors: unifying the two ends as
/// unifying what they are built from does (an error that names the types
/// found unequal names them built up again), unless it runs out of steps.
pub proof fn lemma_unify_vector(a: TypeView, b: TypeView)
    ensures
        unify_outcome(TypeView::Vector(Box::new(a)), TypeView::Vector(Box::new(b))) != UnifyOutcome::Failed(UnifyErrorView::TooDeep) ==> unify_outcome(
            TypeView::Vector(Box::new(a)),
            TypeView::Vector(Box::new(b)),
        ) == wrapped_outcome(unify_outcome(a, b), |t: TypeView| TypeView::Vector(Box::new(t))),
{
    let wrap = |t: TypeView| TypeView::Vector(Box::new(t));
    if unify_outcome(TypeView::Vector(Box::new(a)), TypeView::Vector(Box::new(b))) != UnifyOutcome::Failed(UnifyErrorView::TooDeep) {
        lemma_unify_wrapped(a, b, TypeView::Vector(Box::new(a)), TypeView::Vector(Box::new(b)), wrap);
    }
}

/// Unification is complete on slices: unifying the two ends as
/// unifying what they are built from does (an error that names the types
/// found unequal names them built up again), unless it runs out of steps.
pub proof fn lemma_unify_slice(a: TypeView, b: TypeView)
    ensures
        unify_outcome(TypeView::Slice(Box::new(a)), TypeView::Slice(Box::new(b))) != UnifyOutcome::Failed(UnifyErrorView::TooDeep) ==> unify_outcome(
            TypeView::Slice(Box::new(a)),
            TypeView::Slice(Box::new(b)),
        ) == wrapped_outcome(unify_outcome(a, b), |t: TypeView| TypeView::Slice(Box::new(t))),
{
    let wrap = |t: TypeView| TypeView::Slice(Box::new(t));
    if unify_outcome(TypeView::Slice(Box::new(a)), TypeView::Slice(Box::new(b))) != UnifyOutcome::Failed(UnifyErrorView::TooDeep) {
        lemma_unify_wrapped(a, b, TypeView::Slice(Box::new(a)), TypeView::Slice(Box::new(b)), wrap);
    }
}

/// Unification is complete on optional types: unifying the two ends as
/// unifying what they are built from does (an error that names the types
/// found unequal names them built up again), unless it runs out of steps.
pub proof fn lemma_unify_optional(a: TypeView, b: TypeView)
    ensures
        unify_outcome(TypeView::Optional(Box::new(a)), TypeView::Optional(Box::new(b))) != UnifyOutcome::Failed(UnifyErrorView::TooDeep) ==> unify_outcome(
            TypeView::Optional(Box::new(a)),
            TypeView::Optional(Box::new(b)),
        ) == wrapped_outcome(unify_outcome(a, b), |t: TypeView| TypeView::Optional(Box::new(t))),
{
    let wrap = |t: TypeView| TypeView::Optional(Box::new(t));
    if unify_outcome(TypeView::Optional(Box::new(a)), TypeView::Optional(Box::new(b))) != UnifyOutcome::Failed(UnifyErrorView::TooDeep) {
        lemma_unify_wrapped(a, b, TypeView::Optional(Box::new(a)), TypeView::Optional(Box::new(b)), wrap);
    }
}

/// Unification is complete on type-of types: unifying the two ends as
/// unifying what they are built from does (an error that names the types
/// found unequal names them built up again), unless it runs out of steps.
pub proof fn lemma_unify_meta(a: TypeView, b: TypeView)
    ensures
        unify_outcome(TypeView::Meta(Box::new(a)), TypeView::Meta(Box::new(b))) != UnifyOutcome::Failed(UnifyErrorView::TooDeep) ==> unify_outcome(
            TypeView::Meta(Box::new(a)),
            TypeView::Meta(Box::new(b)),
        ) == wrapped_outcome(unify_outcome(a, b), |t: TypeView| TypeView::Meta(Box::new(t))),
{
    let wrap = |t: TypeView| TypeView::Meta(Box::new(t));
    if unify_outcome(TypeView::Meta(Box::new(a)), TypeView::Meta(Box::new(b))) != UnifyOutcome::Failed(UnifyErrorView::TooDeep) {
        lemma_unify_wrapped(a, b, TypeView::Meta(Box::new(a)), TypeView::Meta(Box::new(b)), wrap);
    }
}

/// Unification is complete on one-element tuples: unifying the two ends as
/// unifying what they are built from does (an error that names the types
/// found unequal names them built up again), unless it runs out of steps.
pub proof fn lemma_unify_tuple(a: TypeView, b: TypeView)
    ensures
        unify_outcome(TypeView::Tuple(seq![a]), TypeView::Tuple(seq![b])) != UnifyOutcome::Failed(UnifyErrorView::TooDeep) ==> unify_outcome(
            TypeView::Tuple(seq![a]),
            TypeView::Tuple(seq![b]),
        ) == wrapped_outcome(unify_outcome(a, b), |t: TypeView| TypeView::Tuple(seq![t])),
{
    let wrap = |t: TypeView| TypeView::Tuple(seq![t]);
    assert forall|m: Map<Seq<char>, TypeView>| #[trigger] (TypeView::Tuple(seq![a])).subst(m) == (TypeView::Tuple(seq![a.subst(m)])) by {
        assert(subst_list(seq![a], m) =~= seq![a.subst(m)]);
    }
    assert forall|m: Map<Seq<char>, TypeView>| #[trigger] (TypeView::Tuple(seq![b])).subst(m) == (TypeView::Tuple(seq![b.subst(m)])) by {
        assert(subst_list(seq![b], m) =~= seq![b.subst(m)]);
    }
    assert forall|x: TypeView, y: TypeView| #[trigger] wrap(x) == #[trigger] wrap(y) implies x == y by {
        if wrap(x) == wrap(y) {
            assert(seq![x][0] == seq![y][0]);
        }
    }
    if a != b {
        assert(seq![a][0] != seq![b][0]);
        assert(seq![a].drop_first() =~= Seq::<TypeView>::empty());
        assert(seq![b].drop_first() =~= Seq::<TypeView>::empty());
        let e = Map::<Seq<char>, TypeView>::empty();
        let g = (unify_fuel() - 1) as nat;
        assert(unify_steps(TypeView::Tuple(seq![a]), TypeView::Tuple(seq![b]), e, unify_fuel()) == unify_all(seq![a], seq![b], e, g));
        if let UnifyOutcome::Unified(s1) = unify_steps(a, b, e, g) {
            assert(unify_all(seq![a].drop_first(), seq![b].drop_first(), s1, g) == UnifyOutcome::Unified(s1));
        }
    }
    if unify_outcome(TypeView::Tuple(seq![a]), TypeView::Tuple(seq![b])) != UnifyOutcome::Failed(UnifyErrorView::TooDeep) {
        lemma_unify_wrapped(a, b, TypeView::Tuple(seq![a]), TypeView::Tuple(seq![b]), wrap);
    }
}

/// Unification is complete on structs of one field with the same name: unifying the two ends as
/// unifying what they are built from does (an error that names the types
/// found unequal names them built up again), unless it runs out of steps.
pub proof fn lemma_unify_struct(a: TypeView, b: TypeView, name: Seq<char>)
    ensures
        unify_outcome(TypeView::Struct(name, seq![a]), TypeView::Struct(name, seq![b])) != UnifyOutcome::Failed(UnifyErrorView::TooDeep) ==> unify_outcome(
            TypeView::Struct(name, seq![a]),
            TypeView::Struct(name, seq![b]),
        ) == wrapped_outcome(unify_outcome(a, b), |t: TypeView| TypeView::Struct(name, seq![t])),
{
    let wrap = |t: TypeView| TypeView::Struct(name, seq![t]);
    assert forall|m: Map<Seq<char>, TypeView>| #[trigger] (TypeView::Struct(name, seq![a])).subst(m) == (TypeView::Struct(name, seq![a.subst(m)])) by {
        assert(subst_list(seq![a], m) =~= seq![a.subst(m)]);
    }
    assert forall|m: Map<Seq<char>, TypeView>| #[trigger] (TypeView::Struct(name, seq![b])).subst(m) == (TypeView::Struct(name, seq![b.subst(m)])) by {
        assert(subst_list(seq![b], m) =~= seq![b.subst(m)]);
    }
    assert forall|x: TypeView, y: TypeView| #[trigger] wrap(x) == #[trigger] wrap(y) implies x == y by {
        if wrap(x) == wrap(y) {
            assert(seq![x][0] == seq![y][0]);
        }
    }
    if a != b {
        assert(seq![a][0] != seq![b][0]);
        assert(seq![a].drop_first() =~= Seq::<TypeView>::empty());
        assert(seq![b].drop_first() =~= Seq::<TypeView>::empty());
        let e = Map::<Seq<char>, TypeView>::empty();
        let g = (unify_fuel() - 1) as nat;
        assert(unify_steps(TypeView::Struct(name, seq![a]), TypeView::Struct(name, seq![b]), e, unify_fuel()) == unify_all(seq![a], seq![b], e, g));
        if let UnifyOutcome::Unified(s1) = unify_steps(a, b, e, g) {
            assert(unify_all(seq![a].drop_first(), seq![b].drop_first(), s1, g) == UnifyOutcome::Unified(s1));
        }
    }
    if unify_outcome(TypeView::Struct(name, seq![a]), TypeView::Struct(name, seq![b])) != UnifyOutcome::Failed(UnifyErrorView::TooDeep) {
        lemma_unify_wrapped(a, b, TypeView::Struct(name, seq![a]), TypeView::Struct(name, seq![b]), wrap);
    }
}

/// Unification is complete on generic types of one parameter with the same name: unifying the two ends as
/// unifying what they are built from does (an error that names the types
/// found unequal names them built up again), unless it runs out of steps.
pub proof fn lemma_unify_generic(a: TypeView, b: TypeView, name: Seq<char>)
    ensures
        unify_outcome(TypeView::Generic(name, seq![a]), TypeView::Generic(name, seq![b])) != UnifyOutcome::Failed(UnifyErrorView::TooDeep) ==> unify_outcome(
            TypeView::Generic(name, seq![a]),
            TypeView::Generic(name, seq![b]),
        ) == wrapped_outcome(unify_outcome(a, b), |t: TypeView| TypeView::Generic(name, seq![t])),
{
    let wrap = |t: TypeView| TypeView::Generic(name, seq![t]);
    assert forall|m: Map<Seq<char>, TypeView>| #[trigger] (TypeView::Generic(name, seq![a])).subst(m) == (TypeView::Generic(name, seq![a.subst(m)])) by {
        assert(subst_list(seq![a], m) =~= seq![a.subst(m)]);
    }
    assert forall|m: Map<Seq<char>, TypeView>| #[trigger] (TypeView::Generic(name, seq![b])).subst(m) == (TypeView::Generic(name, seq![b.subst(m)])) by {
        assert(subst_list(seq![b], m) =~= seq![b.subst(m)]);
    }
    assert forall|x: TypeView, y: TypeView| #[trigger] wrap(x) == #[trigger] wrap(y) implies x == y by {
        if wrap(x) == wrap(y) {
            assert(seq![x][0] == seq![y][0]);
        }
    }
    if a != b {
        assert(seq![a][0] != seq![b][0]);
        assert(seq![a].drop_first() =~= Seq::<TypeView>::empty());
        assert(seq![b].drop_first() =~= Seq::<TypeView>::empty());
        let e = Map::<Seq<char>, TypeView>::empty();
        let g = (unify_fuel() - 1) as nat;
        assert(unify_steps(TypeView::Generic(name, seq![a]), TypeView::Generic(name, seq![b]), e, unify_fuel()) == unify_all(seq![a], seq![b], e, g));
        if let UnifyOutcome::Unified(s1) = unify_steps(a, b, e, g) {
            assert(unify_all(seq![a].drop_first(), seq![b].drop_first(), s1, g) == UnifyOutcome::Unified(s1));
        }
    }
    if unify_outcome(TypeView::Generic(name, seq![a]), TypeView::Generic(name, seq![b])) != UnifyOutcome::Failed(UnifyErrorView::TooDeep) {
        lemma_unify_wrapped(a, b, TypeView::Generic(name, seq![a]), TypeView::Generic(name, seq![b]), wrap);
    }
}

/// Unification is complete on function types without parameters, by their result: unifying the two ends as
/// unifying what they are built from does (an error that names the types
/// found unequal names them built up again), unless it runs out of steps.
pub proof fn lemma_unify_function(a: TypeView, b: TypeView)
    ensures
        unify_outcome(TypeView::Function(Seq::empty(), Box::new(a)), TypeView::Function(Seq::empty(), Box::new(b))) != UnifyOutcome::Failed(UnifyErrorView::TooDeep) ==> unify_outcome(
            TypeView::Function(Seq::empty(), Box::new(a)),
            TypeView::Function(Seq::empty(), Box::new(b)),
        ) == wrapped_outcome(unify_outcome(a, b), |t: TypeView| TypeView::Function(Seq::empty(), Box::new(t))),
{
    let wrap = |t: TypeView| TypeView::Function(Seq::empty(), Box::new(t));
    assert forall|m: Map<Seq<char>, TypeView>| #[trigger] (TypeView::Function(Seq::empty(), Box::new(a))).subst(m)
        == (TypeView::Function(Seq::empty(), Box::new(a.subst(m)))) by {
        assert(subst_list(Seq::<TypeView>::empty(), m) =~= Seq::<TypeView>::empty());
    }
    assert forall|m: Map<Seq<char>, TypeView>| #[trigger] (TypeView::Function(Seq::empty(), Box::new(b))).subst(m)
        == (TypeView::Function(Seq::empty(), Box::new(b.subst(m)))) by {
        assert(subst_list(Seq::<TypeView>::empty(), m) =~= Seq::<TypeView>::empty());
    }
    if a != b {
        let e = Map::<Seq<char>, TypeView>::empty();
        let g = (unify_fuel() - 1) as nat;
        assert(unify_all(Seq::<TypeView>::empty(), Seq::<TypeView>::empty(), e, g) == UnifyOutcome::Unified(e));
    }
    if unify_outcome(TypeView::Function(Seq::empty(), Box::new(a)), TypeView::Function(Seq::empty(), Box::new(b))) != UnifyOutcome::Failed(UnifyErrorView::TooDeep) {
        lemma_unify_wrapped(a, b, TypeView::Function(Seq::empty(), Box::new(a)), TypeView::Function(Seq::empty(), Box::new(b)), wrap);
    }
}

/// Unification is complete on result types with the same closed error type, by their value type: unifying the two ends as
/// unifying what they are built from does (an error that names the types
/// found unequal names them built up again), unless it runs out of steps.
pub proof fn lemma_unify_result(a: TypeView, b: TypeView, c: TypeView)
    requires
        c.ftv().is_empty(),
    ensures
        unify_outcome(TypeView::Result(Box::new(a), Box::new(c)), TypeView::Result(Box::new(b), Box::new(c))) != UnifyOutcome::Failed(UnifyErrorView::TooDeep) ==> unify_outcome(
            TypeView::Result(Box::new(a), Box::new(c)),
            TypeView::Result(Box::new(b), Box::new(c)),
        ) == wrapped_outcome(unify_outcome(a, b), |t: TypeView| TypeView::Result(Box::new(t), Box::new(c))),
{
    let wrap = |t: TypeView| TypeView::Result(Box::new(t), Box::new(c));
    assert forall|m: Map<Seq<char>, TypeView>| #[trigger] (TypeView::Result(Box::new(a), Box::new(c))).subst(m) == (TypeView::Result(Box::new(a.subst(m)), Box::new(c))) by {
        assert(c.ftv().disjoint(m.dom()));
        lemma_subst_outside_ftv(c, m);
    }
    assert forall|m: Map<Seq<char>, TypeView>| #[trigger] (TypeView::Result(Box::new(b), Box::new(c))).subst(m) == (TypeView::Result(Box::new(b.subst(m)), Box::new(c))) by {
        assert(c.ftv().disjoint(m.dom()));
        lemma_subst_outside_ftv(c, m);
    }
    if a != b {
        let e = Map::<Seq<char>, TypeView>::empty();
        let g = (unify_fuel() - 1) as nat;
        if let UnifyOutcome::Unified(s1) = unify_steps(a, b, e, g) {
            assert(unify_steps(c, c, s1, g) == UnifyOutcome::Unified(s1));
        }
    }
    if unify_outcome(TypeView::Result(Box::new(a), Box::new(c)), TypeView::Result(Box::new(b), Box::new(c))) != UnifyOutcome::Failed(UnifyErrorView::TooDeep) {
        lemma_unify_wrapped(a, b, TypeView::Result(Box::new(a), Box::new(c)), TypeView::Result(Box::new(b), Box::new(c)), wrap);
    }
}

/// Unification fails on types of the same compound kind whose shapes
/// differ, with the error that names the difference: references of
/// different mutability, arrays of different lengths, structs or generic
/// types of different names or numbers of parts, tuples or function types
/// with different numbers of parts.
pub proof fn lemma_unify_shape_errors(
    a: TypeView,
    b: TypeView,
    m1: bool,
    m2: bool,
    n1: usize,
    n2: usize,
    s1: Seq<char>,
    s2: Seq<char>,
    xs: Seq<TypeView>,
    ys: Seq<TypeView>,
)
    ensures
        m1 != m2 ==> unify_outcome(TypeView::Reference(Box::new(a), m1), TypeView::Reference(Box::new(b), m2))
            == UnifyOutcome::Failed(UnifyErrorView::ReferenceMutability),
        n1 != n2 ==> unify_outcome(TypeView::Array(Box::new(a), n1), TypeView::Array(Box::new(b), n2))
            == UnifyOutcome::Failed(UnifyErrorView::ArraySize),
        s1 != s2 || xs.len() != ys.len() ==> unify_outcome(TypeView::Struct(s1, xs), TypeView::Struct(s2, ys))
            == UnifyOutcome::Failed(UnifyErrorView::StructMismatch),
        s1 != s2 || xs.len() != ys.len() ==> unify_outcome(TypeView::Generic(s1, xs), TypeView::Generic(s2, ys))
            == UnifyOutcome::Failed(UnifyErrorView::GenericMismatch),
        xs.len() != ys.len() ==> unify_outcome(TypeView::Tuple(xs), TypeView::Tuple(ys)) == UnifyOutcome::Failed(
            UnifyErrorView::TupleLength,
        ),
        xs.len() != ys.len() ==> unify_outcome(
            TypeView::Function(xs, Box::new(a)),
            TypeView::Function(ys, Box::new(b)),
        ) == UnifyOutcome::Failed(UnifyErrorView::FunctionArity),
{
    let e = Map::<Seq<char>, TypeView>::empty();
    let f = unify_fuel();
    if m1 != m2 {
        assert(unify_steps(TypeView::Reference(Box::new(a), m1), TypeView::Reference(Box::new(b), m2), e, f)
            == UnifyOutcome::Failed(UnifyErrorView::ReferenceMutability));
    }
    if n1 != n2 {
        assert(unify_steps(TypeView::Array(Box::new(a), n1), TypeView::Array(Box::new(b), n2), e, f)
            == UnifyOutcome::Failed(UnifyErrorView::ArraySize));
    }
    if s1 != s2 || xs.len() != ys.len() {
        assert(unify_steps(TypeView::Struct(s1, xs), TypeView::Struct(s2, ys), e, f) == UnifyOutcome::Failed(
            UnifyErrorView::StructMismatch,
        ));
        assert(unify_steps(TypeView::Generic(s1, xs), TypeView::Generic(s2, ys), e, f) == UnifyOutcome::Failed(
            UnifyErrorView::GenericMismatch,
        ));
    }
    if xs.len() != ys.len() {
        assert(unify_steps(TypeView::Tuple(xs), TypeView::Tuple(ys), e, f) == UnifyOutcome::Failed(
            UnifyErrorView::TupleLength,
        ));
        assert(unify_steps(TypeView::Function(xs, Box::new(a)), TypeView::Function(ys, Box::new(b)), e, f)
            == UnifyOutcome::Failed(UnifyErrorView::FunctionArity));
    }
}

/// How the text of a type is made from the texts of its parts.
pub proof fn lemma_text_forms(a: TypeView, b: TypeView, n: usize, name: Seq<char>)
    ensures
        TypeView::Pointer(Box::new(a)).text() == a.text() + "*"@,
        TypeView::Reference(Box::new(a), true).text() == "&mut "@ + a.text(),
        TypeView::Reference(Box::new(a), false).text() == "&"@ + a.text(),
        TypeView::Array(Box::new(a), n).text() == "["@ + decimal(n as nat) + " x "@ + a.text() + "]"@,
        TypeView::Vector(Box::new(a)).text() == "vector<"@ + a.text() + ">"@,
        TypeView::Slice(Box::new(a)).text() == "slice<"@ + a.text() + ">"@,
        TypeView::Meta(Box::new(a)).text() == "type<"@ + a.text() + ">"@,
        TypeView::Optional(Box::new(a)).text() == a.text() + "?"@,
        TypeView::Result(Box::new(a), Box::new(b)).text() == "Result<"@ + a.text() + ", "@ + b.text() + ">"@,
        TypeView::Struct(name, seq![a]).text() == "struct "@ + name,
        TypeView::Trait(name).text() == "dyn "@ + name,
        TypeView::TypeVar(name).text() == name,
        TypeView::Integer(n).text() == "i"@ + decimal(n as nat),
        TypeView::Recursive(name, Box::new(a)).text() == "rec "@ + name + ". "@ + a.text(),
{
}

/// How the layout of a type follows from that of its parts: an integer
/// takes the bytes its bits need; an array holds its elements side by side
/// with their alignment; an optional or result adds a tag byte after its
/// payload and pads to the payload's alignment; a union adds a four-byte tag
/// after its largest member.
pub proof fn lemma_layout_forms(a: TypeView, b: TypeView, n: usize, bits: usize)
    ensures
        bits + 7 <= usize::MAX ==> {
            let s = TypeView::Integer(bits).size();
            &&& s * 8 >= bits
            &&& s * 8 < bits + 8
        },
        TypeView::Array(Box::new(a), n).size() == a.size() * n,
        TypeView::Array(Box::new(a), n).align() == a.align(),
        TypeView::Optional(Box::new(a)).size_ok() ==> {
            let s = TypeView::Optional(Box::new(a)).size();
            &&& TypeView::Optional(Box::new(a)).align() == a.align()
            &&& s % a.align() == 0
            &&& a.size() + 1 <= s < a.size() + 1 + a.align()
        },
        TypeView::Result(Box::new(a), Box::new(b)).size_ok() ==> {
            let s = TypeView::Result(Box::new(a), Box::new(b)).size();
            let al = TypeView::Result(Box::new(a), Box::new(b)).align();
            &&& al >= a.align() && al >= b.align()
            &&& (al == a.align() || al == b.align())
            &&& s % al == 0
            &&& s >= a.size() + 1 && s >= b.size() + 1
            &&& (s < a.size() + 1 + al || s < b.size() + 1 + al)
        },
{
    if bits + 7 <= usize::MAX {
        let s = TypeView::Integer(bits).size();
        assert(s == (bits + 7) / 8);
        assert(s * 8 >= bits && s * 8 < bits + 8) by (nonlinear_arith)
            requires
                s == (bits + 7) / 8,
                bits >= 0,
        ;
    }
    if TypeView::Optional(Box::new(a)).size_ok() {
        lemma_size_nonneg(a);
        lemma_round_up(a.size() + 1, a.align());
        lemma_round_up_multiple(a.size() + 1, a.align());
    }
    if TypeView::Result(Box::new(a), Box::new(b)).size_ok() {
        lemma_size_nonneg(a);
        lemma_size_nonneg(b);
        let al = max2(a.align(), b.align());
        lemma_round_up(max2(a.size(), b.size()) + 1, al);
        lemma_round_up_multiple(max2(a.size(), b.size()) + 1, al);
    }
}

/// The largest size of a list is that of one of its types (0 for none), and
/// no type of the list is larger.
proof fn lemma_max_size_is_max(ts: Seq<TypeView>)
    ensures
        forall|k: int| 0 <= k < ts.len() ==> (#[trigger] ts[k]).size() <= max_size(ts),
        ts.len() > 0 ==> exists|k: int| 0 <= k < ts.len() && (#[trigger] ts[k]).size() == max_size(ts) || max_size(
            ts,
        ) == 0,
    decreases ts.len(),
{
    if ts.len() > 0 {
        let n = ts.len() as int;
        let p = ts.subrange(0, n - 1);
        lemma_max_size_is_max(p);
        assert(max_size(ts) == max2(max_size(p), ts[n - 1].size()));
        assert forall|k: int| 0 <= k < n implies (#[trigger] ts[k]).size() <= max_size(ts) by {
            if k < n - 1 {
                assert(p[k] == ts[k]);
            }
        }
        if max_size(ts) != ts[n - 1].size() && max_size(ts) != 0 {
            let k = choose|k: int| 0 <= k < p.len() && (#[trigger] p[k]).size() == max_size(p);
            assert(p[k] == ts[k]);
        }
    }
}

/// A union holds its largest member followed by a four-byte tag, padded to
/// the largest alignment of its members (1 with none).
pub proof fn lemma_union_layout(ts: Seq<TypeView>)
    requires
        TypeView::Union(ts).size_ok(),
    ensures
        ({
            let u = TypeView::Union(ts);
            &&& forall|k: int| 0 <= k < ts.len() ==> (#[trigger] ts[k]).size() + 4 <= u.size()
            &&& forall|k: int| 0 <= k < ts.len() ==> (#[trigger] ts[k]).align() <= u.align()
            &&& ts.len() == 0 ==> u.align() == 1 && u.size() == 4
            &&& ts.len() > 0 ==> exists|k: int| 0 <= k < ts.len() && (#[trigger] ts[k]).align() == u.align()
            &&& u.size() % u.align() == 0
            &&& u.size() < max_size(ts) + 4 + u.align()
            &&& (forall|k: int| 0 <= k < ts.len() ==> (#[trigger] ts[k]).size() <= max_size(ts))
            &&& (ts.len() == 0 || max_size(ts) == 0 || exists|k: int|
                0 <= k < ts.len() && (#[trigger] ts[k]).size() == max_size(ts))
        }),
{
    lemma_max_size_is_max(ts);
    lemma_max_size_nonneg(ts);
    lemma_round_up(max_size(ts) + 4, max_align(ts));
    lemma_round_up_multiple(max_size(ts) + 4, max_align(ts));
    if ts.len() > 0 {
        lemma_fold_max_align_is_max_any(ts);
    } else {
        assert(max_size(ts) == 0);
        assert(round_up(4, 1) == 4);
    }
}

/// The largest alignment of a non-empty list is that of one of its types,
/// and no type of the list has a larger one (alignments taken as they are).
proof fn lemma_fold_max_align_is_max_any(ts: Seq<TypeView>)
    requires
        ts.len() > 0,
    ensures
        forall|k: int| 0 <= k < ts.len() ==> (#[trigger] ts[k]).align() <= fold_max_align(ts),
        exists|k: int| 0 <= k < ts.len() && (#[trigger] ts[k]).align() == fold_max_align(ts) || fold_max_align(ts)
            == 0,
    decreases ts.len(),
{
    let n = ts.len() as int;
    let p = ts.subrange(0, n - 1);
    assert(fold_max_align(ts) == max2(fold_max_align(p), ts[n - 1].align()));
    if n > 1 {
        lemma_fold_max_align_is_max_any(p);
        if fold_max_align(ts) != ts[n - 1].align() && fold_max_align(ts) != 0 {
            let k = choose|k: int| 0 <= k < p.len() && (#[trigger] p[k]).align() == fold_max_align(p);
            assert(p[k] == ts[k]);
        }
    } else {
        assert(fold_max_align(p) == 0);
    }
    assert forall|k: int| 0 <= k < n implies (#[trigger] ts[k]).align() <= fold_max_align(ts) by {
        if k < n - 1 {
            assert(p[k] == ts[k]);
        }
    }
}

/// A rounded-up value is a multiple of what it was rounded to.
proof fn lemma_round_up_multiple(x: int, a: int)
    requires
        a >= 1,
    ensures
        round_up(x, a) % a == 0,
{
    vstd::arithmetic::div_mod::lemma_mod_multiples_basic((x + a - 1) / a, a);
}

/// Every alignment that can be computed lies between 0 and 8.
pub proof fn lemma_align_bounded(t: TypeView)
    requires
        t.align_ok(),
    ensures
        0 <= t.align() <= 8,
    decreases t,
{
    match t {
        TypeView::Array(e, _) => lemma_align_bounded(*e),
        TypeView::Vector(e) => lemma_align_bounded(*e),
        TypeView::Struct(_, fs) => lemma_fold_max_align_bounded(fs),
        TypeView::Union(ts) => lemma_fold_max_align_bounded(ts),
        TypeView::Tuple(ts) => lemma_fold_max_align_bounded(ts),
        TypeView::Optional(a) => lemma_align_bounded(*a),
        TypeView::Result(a, b) => {
            lemma_align_bounded(*a);
            lemma_align_bounded(*b);
        },
        TypeView::Constrained(a, _) => lemma_align_bounded(*a),
        TypeView::Recursive(_, a) => lemma_align_bounded(*a),
        _ => {},
    }
}

proof fn lemma_fold_max_align_bounded(ts: Seq<TypeView>)
    requires
        all_align_ok(ts),
    ensures
        0 <= fold_max_align(ts) <= 8,
    decreases ts,
{
    if ts.len() > 0 {
        lemma_fold_max_align_bounded(ts.subrange(0, ts.len() - 1));
        lemma_align_bounded(ts[ts.len() - 1]);
    }
}

/// The largest alignment of a record layout is that of its fields, when
/// each is at least 1.
proof fn lemma_record_align(ts: Seq<TypeView>)
    requires
        record_ok(ts),
    ensures
        record_layout(ts).1 == max_align(ts),
        record_layout(ts).1 >= 1,
    decreases ts.len(),
{
    if ts.len() > 0 {
        let p = ts.subrange(0, ts.len() - 1);
        let a = ts[ts.len() - 1].align();
        assert(a >= 1);
        lemma_record_align(p);
        assert(record_layout(ts).1 == max2(record_layout(p).1, a));
        assert(fold_max_align(ts) == max2(fold_max_align(p), a));
        if p.len() == 0 {
            assert(record_layout(p).1 == 1);
            assert(fold_max_align(p) == 0);
        }
    }
}

/// Whether every integer type whose width the alignment depends on has a
/// width of at least one bit.
pub open spec fn widths_positive(t: TypeView) -> bool
    decreases t,
{
    match t {
        TypeView::Integer(bits) => bits >= 1,
        TypeView::Array(e, _) => widths_positive(*e),
        TypeView::Struct(_, fs) => all_widths_positive(fs),
        TypeView::Union(ts) => all_widths_positive(ts),
        TypeView::Tuple(ts) => all_widths_positive(ts),
        TypeView::Optional(a) => widths_positive(*a),
        TypeView::Result(a, b) => widths_positive(*a) && widths_positive(*b),
        TypeView::Constrained(a, _) => widths_positive(*a),
        TypeView::Recursive(_, a) => widths_positive(*a),
        _ => true,
    }
}

/// Whether `widths_positive` holds of every type of the list.
pub open spec fn all_widths_positive(ts: Seq<TypeView>) -> bool
    decreases ts,
{
    if ts.len() == 0 {
        true
    } else {
        all_widths_positive(ts.subrange(0, ts.len() - 1)) && widths_positive(ts[ts.len() - 1])
    }
}

/// The alignment of a type lies between 1 and 8 bytes when no integer type
/// it depends on is zero bits wide (a zero-bit integer has alignment 0).
pub proof fn lemma_align_positive(t: TypeView)
    requires
        t.align_ok(),
        widths_positive(t),
    ensures
        1 <= t.align() <= 8,
    decreases t,
{
    lemma_align_bounded(t);
    match t {
        TypeView::Array(e, _) => lemma_align_positive(*e),
        TypeView::Struct(_, fs) => if fs.len() > 0 {
            lemma_fold_max_align_positive(fs);
        },
        TypeView::Union(ts) => if ts.len() > 0 {
            lemma_fold_max_align_positive(ts);
        },
        TypeView::Tuple(ts) => if ts.len() > 0 {
            lemma_fold_max_align_positive(ts);
        },
        TypeView::Optional(a) => lemma_align_positive(*a),
        TypeView::Result(a, b) => {
            lemma_align_positive(*a);
            lemma_align_positive(*b);
        },
        TypeView::Constrained(a, _) => lemma_align_positive(*a),
        TypeView::Recursive(_, a) => lemma_align_positive(*a),
        _ => {},
    }
}

proof fn lemma_fold_max_align_positive(ts: Seq<TypeView>)
    requires
        all_align_ok(ts),
        all_widths_positive(ts),
        ts.len() > 0,
    ensures
        fold_max_align(ts) >= 1,
    decreases ts,
{
    lemma_align_positive(ts[ts.len() - 1]);
    if ts.len() > 1 {
        lemma_fold_max_align_positive(ts.subrange(0, ts.len() - 1));
    }
}

/// Appending a type to a list appends the separator and its text to the
/// list's text.
proof fn lemma_join_push(ts: Seq<TypeView>, x: TypeView, sep: Seq<char>)
    ensures
        join_types(ts.push(x), sep) == if ts.len() == 0 {
            x.text()
        } else {
            join_types(ts, sep) + sep + x.text()
        },
{
    assert(ts.push(x).subrange(0, ts.len() as int) =~= ts);
}

/// The text of a tuple: with no types, the opening and closing parts alone; with one type, its
/// text inside; one more type adds the separator ", " and its text before
/// the closing part.
pub proof fn lemma_tuple_text(ts: Seq<TypeView>, x: TypeView)
    ensures
        TypeView::Tuple(Seq::<TypeView>::empty()).text() == "("@ + ")"@,
        TypeView::Tuple(seq![x]).text() == "("@ + x.text() + ")"@,
        ts.len() > 0 ==> TypeView::Tuple(ts.push(x)).text() == "("@ + join_types(ts, ", "@) + ", "@ + x.text() + ")"@,
        ts.len() > 0 ==> TypeView::Tuple(ts.push(x)).text() == TypeView::Tuple(ts).text().subrange(
            0,
            TypeView::Tuple(ts).text().len() - (")"@).len(),
        ) + ", "@ + x.text() + ")"@,
{
    lemma_join_push(Seq::<TypeView>::empty(), x, ", "@);
    assert(Seq::<TypeView>::empty().push(x) =~= seq![x]);
    assert(join_types(Seq::<TypeView>::empty(), ", "@) =~= Seq::<char>::empty());
    lemma_join_push(ts, x, ", "@);
    let pre = "("@ + join_types(ts, ", "@);
    assert((pre + ")"@).subrange(0, (pre + ")"@).len() - (")"@).len()) =~= pre);
}

/// The text of a union: with no types, the opening and closing parts alone; with one type, its
/// text inside; one more type adds the separator " | " and its text before
/// the closing part.
pub proof fn lemma_union_text(ts: Seq<TypeView>, x: TypeView)
    ensures
        TypeView::Union(Seq::<TypeView>::empty()).text() == "("@ + ")"@,
        TypeView::Union(seq![x]).text() == "("@ + x.text() + ")"@,
        ts.len() > 0 ==> TypeView::Union(ts.push(x)).text() == "("@ + join_types(ts, " | "@) + " | "@ + x.text() + ")"@,
        ts.len() > 0 ==> TypeView::Union(ts.push(x)).text() == TypeView::Union(ts).text().subrange(
            0,
            TypeView::Union(ts).text().len() - (")"@).len(),
        ) + " | "@ + x.text() + ")"@,
{
    lemma_join_push(Seq::<TypeView>::empty(), x, " | "@);
    assert(Seq::<TypeView>::empty().push(x) =~= seq![x]);
    assert(join_types(Seq::<TypeView>::empty(), " | "@) =~= Seq::<char>::empty());
    lemma_join_push(ts, x, " | "@);
    let pre = "("@ + join_types(ts, " | "@);
    assert((pre + ")"@).subrange(0, (pre + ")"@).len() - (")"@).len()) =~= pre);
}

/// The text of an intersection: with no types, the opening and closing parts alone; with one type, its
/// text inside; one more type adds the separator " & " and its text before
/// the closing part.
pub proof fn lemma_intersection_text(ts: Seq<TypeView>, x: TypeView)
    ensures
        TypeView::Intersection(Seq::<TypeView>::empty()).text() == "("@ + ")"@,
        TypeView::Intersection(seq![x]).text() == "("@ + x.text() + ")"@,
        ts.len() > 0 ==> TypeView::Intersection(ts.push(x)).text() == "("@ + join_types(ts, " & "@) + " & "@ + x.text() + ")"@,
        ts.len() > 0 ==> TypeView::Intersection(ts.push(x)).text() == TypeView::Intersection(ts).text().subrange(
            0,
            TypeView::Intersection(ts).text().len() - (")"@).len(),
        ) + " & "@ + x.text() + ")"@,
{
    lemma_join_push(Seq::<TypeView>::empty(), x, " & "@);
    assert(Seq::<TypeView>::empty().push(x) =~= seq![x]);
    assert(join_types(Seq::<TypeView>::empty(), " & "@) =~= Seq::<char>::empty());
    lemma_join_push(ts, x, " & "@);
    let pre = "("@ + join_types(ts, " & "@);
    assert((pre + ")"@).subrange(0, (pre + ")"@).len() - (")"@).len()) =~= pre);
}

/// The text of a generic type: with no types, the opening and closing parts alone; with one type, its
/// text inside; one more type adds the separator ", " and its text before
/// the closing part.
pub proof fn lemma_generic_text(ts: Seq<TypeView>, x: TypeView, n: Seq<char>)
    ensures
        TypeView::Generic(n, Seq::<TypeView>::empty()).text() == n + "<"@ + ">"@,
        TypeView::Generic(n, seq![x]).text() == n + "<"@ + x.text() + ">"@,
        ts.len() > 0 ==> TypeView::Generic(n, ts.push(x)).text() == n + "<"@ + join_types(ts, ", "@) + ", "@ + x.text() + ">"@,
        ts.len() > 0 ==> TypeView::Generic(n, ts.push(x)).text() == TypeView::Generic(n, ts).text().subrange(
            0,
            TypeView::Generic(n, ts).text().len() - (">"@).len(),
        ) + ", "@ + x.text() + ">"@,
{
    lemma_join_push(Seq::<TypeView>::empty(), x, ", "@);
    assert(Seq::<TypeView>::empty().push(x) =~= seq![x]);
    assert(join_types(Seq::<TypeView>::empty(), ", "@) =~= Seq::<char>::empty());
    lemma_join_push(ts, x, ", "@);
    let pre = n + "<"@ + join_types(ts, ", "@);
    assert((pre + ">"@).subrange(0, (pre + ">"@).len() - (">"@).len()) =~= pre);
}

/// The text of a function type: with no types, the opening and closing parts alone; with one type, its
/// text inside; one more type adds the separator ", " and its text before
/// the closing part.
pub proof fn lemma_function_text(ts: Seq<TypeView>, x: TypeView, r: TypeView)
    ensures
        TypeView::Function(Seq::<TypeView>::empty(), Box::new(r)).text() == "fn("@ + ") -> "@ + r.text(),
        TypeView::Function(seq![x], Box::new(r)).text() == "fn("@ + x.text() + ") -> "@ + r.text(),
        ts.len() > 0 ==> TypeView::Function(ts.push(x), Box::new(r)).text() == "fn("@ + join_types(ts, ", "@) + ", "@ + x.text() + ") -> "@ + r.text(),
        ts.len() > 0 ==> TypeView::Function(ts.push(x), Box::new(r)).text() == TypeView::Function(ts, Box::new(r)).text().subrange(
            0,
            TypeView::Function(ts, Box::new(r)).text().len() - (") -> "@ + r.text()).len(),
        ) + ", "@ + x.text() + ") -> "@ + r.text(),
{
    lemma_join_push(Seq::<TypeView>::empty(), x, ", "@);
    assert(Seq::<TypeView>::empty().push(x) =~= seq![x]);
    assert(join_types(Seq::<TypeView>::empty(), ", "@) =~= Seq::<char>::empty());
    lemma_join_push(ts, x, ", "@);
    let pre = "fn("@ + join_types(ts, ", "@);
    assert((pre + ") -> "@ + r.text()).subrange(0, (pre + ") -> "@ + r.text()).len() - (") -> "@ + r.text()).len()) =~= pre);
}

/// Rounding a size up to a positive alignment stays at or above it.
proof fn lemma_round_up_nonneg(x: int, a: int)
    requires
        x >= 0,
        a >= 1,
    ensures
        round_up(x, a) >= x,
{
    lemma_round_up(x, a);
}

/// The largest size of a list is at least 0.
proof fn lemma_max_size_nonneg(ts: Seq<TypeView>)
    ensures
        max_size(ts) >= 0,
    decreases ts.len(),
{
    if ts.len() > 0 {
        lemma_max_size_nonneg(ts.subrange(0, ts.len() - 1));
    }
}

/// A size that can be computed is not negative.
proof fn lemma_size_nonneg(t: TypeView)
    requires
        t.size_ok(),
    ensures
        t.size() >= 0,
    decreases t,
{
    match t {
        TypeView::Array(e, n) => {
            lemma_size_nonneg(*e);
            let s = e.size();
            assert(s * (n as int) >= 0) by (nonlinear_arith)
                requires
                    s >= 0,
                    n >= 0,
            ;
        },
        TypeView::Struct(_, fs) => {
            lemma_record_layout_nonneg(fs);
            lemma_round_up_nonneg(record_layout(fs).0, record_layout(fs).1);
        },
        TypeView::Tuple(fs) => {
            lemma_record_layout_nonneg(fs);
            lemma_round_up_nonneg(record_layout(fs).0, record_layout(fs).1);
        },
        TypeView::Union(ts) => {
            lemma_max_size_nonneg(ts);
            lemma_round_up_nonneg(max_size(ts) + 4, max_align(ts));
        },
        TypeView::Optional(a) => {
            lemma_size_nonneg(*a);
            lemma_round_up_nonneg(a.size() + 1, a.align());
        },
        TypeView::Result(a, b) => {
            lemma_size_nonneg(*a);
            lemma_size_nonneg(*b);
            lemma_round_up_nonneg(max2(a.size(), b.size()) + 1, max2(a.align(), b.align()));
        },
        TypeView::Constrained(a, _) => lemma_size_nonneg(*a),
        TypeView::Recursive(_, a) => lemma_size_nonneg(*a),
        _ => {},
    }
}

/// The end of a record layout is not negative, and its alignment is at
/// least 1.
proof fn lemma_record_layout_nonneg(ts: Seq<TypeView>)
    requires
        record_ok(ts),
    ensures
        record_layout(ts).0 >= 0,
        record_layout(ts).1 >= 1,
    decreases ts,
{
    if ts.len() > 0 {
        let p = ts.subrange(0, ts.len() - 1);
        let f = ts[ts.len() - 1];
        lemma_record_layout_nonneg(p);
        lemma_size_nonneg(f);
        lemma_round_up_nonneg(record_layout(p).0, f.align());
    }
}

/// Where each field of a record starts: the end of the field before,
/// rounded up to the field's own alignment.
spec fn field_offsets(ts: Seq<TypeView>) -> Seq<int>
    decreases ts.len(),
{
    if ts.len() == 0 {
        Seq::empty()
    } else {
        let p = ts.subrange(0, ts.len() - 1);
        field_offsets(p).push(round_up(record_layout(p).0, ts[ts.len() - 1].align()))
    }
}

proof fn lemma_field_offsets(ts: Seq<TypeView>)
    requires
        record_ok(ts),
    ensures
        field_offsets(ts).len() == ts.len(),
        forall|k: int|
            0 <= k < ts.len() ==> {
                &&& #[trigger] field_offsets(ts)[k] == round_up(record_layout(ts.subrange(0, k)).0, ts[k].align())
                &&& record_layout(ts.subrange(0, k + 1)).0 == field_offsets(ts)[k] + ts[k].size()
                &&& record_layout(ts.subrange(0, k)).0 >= 0
                &&& ts[k].align() >= 1
                &&& ts[k].size() >= 0
            },
    decreases ts.len(),
{
    if ts.len() > 0 {
        let n = ts.len() as int;
        let p = ts.subrange(0, n - 1);
        lemma_field_offsets(p);
        lemma_record_layout_nonneg(p);
        lemma_size_nonneg(ts[n - 1]);
        assert(ts.subrange(0, n) =~= ts);
        assert forall|k: int| 0 <= k < n implies {
            &&& #[trigger] field_offsets(ts)[k] == round_up(record_layout(ts.subrange(0, k)).0, ts[k].align())
            &&& record_layout(ts.subrange(0, k + 1)).0 == field_offsets(ts)[k] + ts[k].size()
            &&& record_layout(ts.subrange(0, k)).0 >= 0
            &&& ts[k].align() >= 1
            &&& ts[k].size() >= 0
        } by {
            if k < n - 1 {
                assert(p.subrange(0, k) =~= ts.subrange(0, k));
                assert(p.subrange(0, k + 1) =~= ts.subrange(0, k + 1));
                assert(p[k] == ts[k]);
                assert(field_offsets(ts)[k] == field_offsets(p)[k]);
            } else {
                assert(ts.subrange(0, k) =~= p);
            }
        }
    }
}

/// The largest alignment of a non-empty list is that of one of its types,
/// and no type of the list has a larger one.
proof fn lemma_fold_max_align_is_max(ts: Seq<TypeView>)
    requires
        forall|k: int| 0 <= k < ts.len() ==> (#[trigger] ts[k]).align() >= 1,
    ensures
        forall|k: int| 0 <= k < ts.len() ==> (#[trigger] ts[k]).align() <= fold_max_align(ts),
        ts.len() > 0 ==> exists|k: int| 0 <= k < ts.len() && (#[trigger] ts[k]).align() == fold_max_align(ts),
    decreases ts.len(),
{
    if ts.len() > 0 {
        let n = ts.len() as int;
        let p = ts.subrange(0, n - 1);
        assert forall|k: int| 0 <= k < p.len() implies (#[trigger] p[k]).align() >= 1 by {
            assert(p[k] == ts[k]);
        }
        lemma_fold_max_align_is_max(p);
        assert forall|k: int| 0 <= k < n implies (#[trigger] ts[k]).align() <= fold_max_align(ts) by {
            if k < n - 1 {
                assert(p[k] == ts[k]);
            }
        }
        assert(fold_max_align(ts) == max2(fold_max_align(p), ts[n - 1].align()));
        if fold_max_align(ts) == ts[n - 1].align() {
        } else {
            assert(p.len() > 0);
            let k = choose|k: int| 0 <= k < p.len() && (#[trigger] p[k]).align() == fold_max_align(p);
            assert(p[k] == ts[k]);
        }
    }
}

/// Whether a record of the fields `fs`, of the given size and alignment,
/// lays them out in order: each field starts at the first multiple of its
/// alignment at or after the end of the field before it (the first at 0),
/// the alignment is the largest of the fields' (1 with no fields), and the
/// size is the end of the last field rounded up to the alignment.
pub open spec fn fields_laid_out(fs: Seq<TypeView>, size: int, align: int) -> bool {
    exists|offs: Seq<int>|
        #![trigger offs.len()]
        {
            &&& offs.len() == fs.len()
            &&& forall|k: int|
                0 <= k < fs.len() ==> {
                    let start = if k == 0 {
                        0
                    } else {
                        offs[k - 1] + fs[k - 1].size()
                    };
                    &&& (#[trigger] offs[k]) % fs[k].align() == 0
                    &&& start <= offs[k] < start + fs[k].align()
                }
            &&& forall|k: int| 0 <= k < fs.len() ==> (#[trigger] fs[k]).align() <= align
            &&& fs.len() == 0 ==> align == 1 && size == 0
            &&& fs.len() > 0 ==> {
                let end = offs[fs.len() - 1] + fs[fs.len() - 1].size();
                &&& exists|k: int| 0 <= k < fs.len() && (#[trigger] fs[k]).align() == align
                &&& size % align == 0
                &&& end <= size < end + align
            }
        }
}

/// Field `k` of a record starts at the first multiple of its alignment at
/// or after the end of the field before it.
proof fn lemma_offset_at(fs: Seq<TypeView>, k: int)
    requires
        record_ok(fs),
        0 <= k < fs.len(),
    ensures
        fs[k].align() >= 1,
        field_offsets(fs)[k] % fs[k].align() == 0,
        (if k == 0 {
            0
        } else {
            field_offsets(fs)[k - 1] + fs[k - 1].size()
        }) <= field_offsets(fs)[k] < (if k == 0 {
            0
        } else {
            field_offsets(fs)[k - 1] + fs[k - 1].size()
        }) + fs[k].align(),
{
    lemma_field_offsets(fs);
    let offs = field_offsets(fs);
    assert(offs[k] == round_up(record_layout(fs.subrange(0, k)).0, fs[k].align()));
    let x = record_layout(fs.subrange(0, k)).0;
    if k == 0 {
        assert(fs.subrange(0, 0) =~= Seq::<TypeView>::empty());
    } else {
        assert(offs[k - 1] == field_offsets(fs)[k - 1]);
        assert(record_layout(fs.subrange(0, (k - 1) + 1)).0 == offs[k - 1] + fs[k - 1].size());
    }
    lemma_round_up(x, fs[k].align());
    lemma_round_up_multiple(x, fs[k].align());
}

/// The size of a record with fields is the end of its last field rounded
/// up to its alignment, the largest of its fields'.
proof fn lemma_record_end(fs: Seq<TypeView>)
    requires
        record_ok(fs),
        fs.len() > 0,
    ensures
        ({
            let end = field_offsets(fs)[fs.len() - 1] + fs[fs.len() - 1].size();
            let size = round_up(record_layout(fs).0, record_layout(fs).1);
            &&& record_layout(fs).1 == fold_max_align(fs)
            &&& size % fold_max_align(fs) == 0
            &&& end <= size < end + fold_max_align(fs)
        }),
{
    let n = fs.len() as int;
    lemma_field_offsets(fs);
    lemma_record_align(fs);
    lemma_record_layout_nonneg(fs);
    assert(fs.subrange(0, n) =~= fs);
    assert(field_offsets(fs)[n - 1] == field_offsets(fs)[n - 1]);
    assert(record_layout(fs.subrange(0, (n - 1) + 1)).0 == field_offsets(fs)[n - 1] + fs[n - 1].size());
    lemma_round_up(record_layout(fs).0, record_layout(fs).1);
    lemma_round_up_multiple(record_layout(fs).0, record_layout(fs).1);
}

/// A struct or tuple lays its fields out in order, each at the first
/// multiple of its alignment after the field before, and is as large as the
/// end of its last field rounded up to its alignment, the largest of its
/// fields'.
pub proof fn lemma_record_layout_law(name: Seq<char>, fs: Seq<TypeView>)
    requires
        TypeView::Struct(name, fs).size_ok(),
    ensures
        fields_laid_out(fs, TypeView::Struct(name, fs).size(), TypeView::Struct(name, fs).align()),
        fields_laid_out(fs, TypeView::Tuple(fs).size(), TypeView::Tuple(fs).align()),
{
    let offs = field_offsets(fs);
    lemma_field_offsets(fs);
    let size = round_up(record_layout(fs).0, record_layout(fs).1);
    let align = if fs.len() == 0 {
        1
    } else {
        fold_max_align(fs)
    };
    assert forall|k: int| 0 <= k < fs.len() implies {
        let start = if k == 0 {
            0
        } else {
            offs[k - 1] + fs[k - 1].size()
        };
        &&& (#[trigger] offs[k]) % fs[k].align() == 0
        &&& start <= offs[k] < start + fs[k].align()
    } by {
        lemma_offset_at(fs, k);
    }
    assert forall|k: int| 0 <= k < fs.len() implies (#[trigger] fs[k]).align() >= 1 by {
        lemma_offset_at(fs, k);
    }
    lemma_fold_max_align_is_max(fs);
    if fs.len() > 0 {
        lemma_record_end(fs);
    } else {
        assert(record_layout(fs) == (0int, 1int));
    }
    assert(TypeView::Struct(name, fs).size() == size && TypeView::Struct(name, fs).align() == align);
    assert(TypeView::Tuple(fs).size() == size && TypeView::Tuple(fs).align() == align);
    assert(offs.len() == fs.len());
    assert(fields_laid_out(fs, size, align));
}

/// A struct, tuple, union, optional or result is padded to a multiple of
/// its alignment.
pub proof fn lemma_padded_size(t: TypeView)
    requires
        t.size_ok(),
        t.align_ok(),
        t is Struct || t is Tuple || t is Union || t is Optional || t is Result,
    ensures
        t.align() >= 1,
        t.size() % t.align() == 0,
{
    match t {
        TypeView::Struct(_, fs) => {
            lemma_record_align(fs);
            lemma_round_up_multiple(record_layout(fs).0, record_layout(fs).1);
        },
        TypeView::Tuple(fs) => {
            lemma_record_align(fs);
            lemma_round_up_multiple(record_layout(fs).0, record_layout(fs).1);
        },
        TypeView::Union(ts) => lemma_round_up_multiple(max_size(ts) + 4, max_align(ts)),
        TypeView::Optional(a) => lemma_round_up_multiple(a.size() + 1, a.align()),
        TypeView::Result(a, b) => lemma_round_up_multiple(
            max2(a.size(), b.size()) + 1,
            max2(a.align(), b.align()),
        ),
        _ => {},
    }
}

/// The types of the list written out, `sep` between them.
pub open spec fn join_types(ts: Seq<TypeView>, sep: Seq<char>) -> Seq<char>
    decreases ts,
{
    if ts.len() == 0 {
        Seq::empty()
    } else if ts.len() == 1 {
        ts[0].text()
    } else {
        join_types(ts.subrange(0, ts.len() - 1), sep) + sep + ts[ts.len() - 1].text()
    }
}

/// The names of the list, `sep` between them.
pub open spec fn join_names(ns: Seq<Seq<char>>, sep: Seq<char>) -> Seq<char>
    decreases ns.len(),
{
    if ns.len() == 0 {
        Seq::empty()
    } else if ns.len() == 1 {
        ns[0]
    } else {
        join_names(ns.subrange(0, ns.len() - 1), sep) + sep + ns[ns.len() - 1]
    }
}

/// The constraints of the list written out, a comma between them.
pub open spec fn join_constraints(cs: Seq<ConstraintView>) -> Seq<char>
    decreases cs,
{
    if cs.len() == 0 {
        Seq::empty()
    } else if cs.len() == 1 {
        constraint_text(cs[0])
    } else {
        join_constraints(cs.subrange(0, cs.len() - 1)) + ", "@ + constraint_text(cs[cs.len() - 1])
    }
}

/// How a constraint is written.
pub open spec fn constraint_text(c: ConstraintView) -> Seq<char>
    decreases c,
{
    match c {
        ConstraintView::TraitBound(n) => ": "@ + n,
        ConstraintView::Equals(t) => "= "@ + t.text(),
        ConstraintView::SubType(t) => "<: "@ + t.text(),
        ConstraintView::SuperType(t) => ">: "@ + t.text(),
        ConstraintView::ValueConstraint(e) => "| "@ + e,
        ConstraintView::HasMembers(ns) => "{ "@ + join_names(ns, ", "@) + " }"@,
    }
}

impl TypeView {
    /// How the type is written.
    pub open spec fn text(self) -> Seq<char>
        decreases self,
    {
        match self {
            TypeView::Void => "void"@,
            TypeView::Integer(b) => "i"@ + decimal(b as nat),
            TypeView::Float => "float"@,
            TypeView::Double => "double"@,
            TypeView::Boolean => "bool"@,
            TypeView::Char => "char"@,
            TypeView::String => "string"@,
            TypeView::Pointer(a) => a.text() + "*"@,
            TypeView::Reference(a, m) => if m {
                "&mut "@ + a.text()
            } else {
                "&"@ + a.text()
            },
            TypeView::Array(e, n) => "["@ + decimal(n as nat) + " x "@ + e.text() + "]"@,
            TypeView::Vector(e) => "vector<"@ + e.text() + ">"@,
            TypeView::Slice(e) => "slice<"@ + e.text() + ">"@,
            TypeView::Struct(n, _) => "struct "@ + n,
            TypeView::Function(ps, r) => "fn("@ + join_types(ps, ", "@) + ") -> "@ + r.text(),
            TypeView::Union(ts) => "("@ + join_types(ts, " | "@) + ")"@,
            TypeView::Intersection(ts) => "("@ + join_types(ts, " & "@) + ")"@,
            TypeView::Generic(n, ts) => n + "<"@ + join_types(ts, ", "@) + ">"@,
            TypeView::Meta(a) => "type<"@ + a.text() + ">"@,
            TypeView::Optional(a) => a.text() + "?"@,
            TypeView::Unknown => "unknown"@,
            TypeView::Result(a, b) => "Result<"@ + a.text() + ", "@ + b.text() + ">"@,
            TypeView::Tuple(ts) => "("@ + join_types(ts, ", "@) + ")"@,
            TypeView::Trait(n) => "dyn "@ + n,
            TypeView::Existential(n, bs) => "impl "@ + n + " + "@ + join_names(bs, " + "@),
            TypeView::Dependent(n, e) => n + "["@ + e + "]"@,
            TypeView::TypeVar(n) => n,
            TypeView::Constrained(a, cs) => a.text() + " where "@ + join_constraints(cs),
            TypeView::Recursive(n, a) => "rec "@ + n + ". "@ + a.text(),
            TypeView::Error => "<error-type>"@,
        }
    }
    /// The type with `m` substituted for its type variables. A recursive
    /// type's own name is not substituted inside it; a dependent type's
    /// expression has no type variables.
    pub open spec fn subst(self, m: Map<Seq<char>, TypeView>) -> TypeView
        decreases self,
    {
        match self {
            TypeView::TypeVar(n) => if m.contains_key(n) {
                m[n]
            } else {
                self
            },
            TypeView::Pointer(a) => TypeView::Pointer(Box::new(a.subst(m))),
            TypeView::Reference(a, mu) => TypeView::Reference(Box::new(a.subst(m)), mu),
            TypeView::Array(a, n) => TypeView::Array(Box::new(a.subst(m)), n),
            TypeView::Vector(a) => TypeView::Vector(Box::new(a.subst(m))),
            TypeView::Slice(a) => TypeView::Slice(Box::new(a.subst(m))),
            TypeView::Optional(a) => TypeView::Optional(Box::new(a.subst(m))),
            TypeView::Meta(a) => TypeView::Meta(Box::new(a.subst(m))),
            TypeView::Result(a, b) => TypeView::Result(Box::new(a.subst(m)), Box::new(b.subst(m))),
            TypeView::Struct(n, ts) => TypeView::Struct(n, subst_list(ts, m)),
            TypeView::Tuple(ts) => TypeView::Tuple(subst_list(ts, m)),
            TypeView::Union(ts) => TypeView::Union(subst_list(ts, m)),
            TypeView::Intersection(ts) => TypeView::Intersection(subst_list(ts, m)),
            TypeView::Function(ps, r) => TypeView::Function(subst_list(ps, m), Box::new(r.subst(m))),
            TypeView::Generic(n, ts) => TypeView::Generic(n, subst_list(ts, m)),
            TypeView::Constrained(a, cs) => TypeView::Constrained(
                Box::new(a.subst(m)),
                subst_constraints(cs, m),
            ),
            TypeView::Recursive(n, a) => TypeView::Recursive(n, Box::new(a.subst(m.remove(n)))),
            _ => self,
        }
    }
    /// The type variables that occur in the type. The variable that a
    /// recursive type binds is not set apart.
    pub open spec fn ftv(self) -> Set<Seq<char>>
        decreases self,
    {
        match self {
            TypeView::TypeVar(n) => set![n],
            TypeView::Pointer(a) => a.ftv(),
            TypeView::Reference(a, _) => a.ftv(),
            TypeView::Array(a, _) => a.ftv(),
            TypeView::Vector(a) => a.ftv(),
            TypeView::Slice(a) => a.ftv(),
            TypeView::Optional(a) => a.ftv(),
            TypeView::Meta(a) => a.ftv(),
            TypeView::Result(a, b) => a.ftv().union(b.ftv()),
            TypeView::Struct(_, ts) => ftv_list(ts),
            TypeView::Tuple(ts) => ftv_list(ts),
            TypeView::Union(ts) => ftv_list(ts),
            TypeView::Intersection(ts) => ftv_list(ts),
            TypeView::Generic(_, ts) => ftv_list(ts),
            TypeView::Function(ps, r) => ftv_list(ps).union(r.ftv()),
            TypeView::Constrained(a, cs) => a.ftv().union(ftv_constraints(cs)),
            TypeView::Recursive(_, a) => a.ftv(),
            _ => Set::empty(),
        }
    }
    /// Whether no recursive type occurs in the type.
    pub open spec fn binder_free(self) -> bool
        decreases self,
    {
        match self {
            TypeView::Pointer(a) => a.binder_free(),
            TypeView::Reference(a, _) => a.binder_free(),
            TypeView::Array(a, _) => a.binder_free(),
            TypeView::Vector(a) => a.binder_free(),
            TypeView::Slice(a) => a.binder_free(),
            TypeView::Optional(a) => a.binder_free(),
            TypeView::Meta(a) => a.binder_free(),
            TypeView::Result(a, b) => a.binder_free() && b.binder_free(),
            TypeView::Struct(_, ts) => binder_free_list(ts),
            TypeView::Tuple(ts) => binder_free_list(ts),
            TypeView::Union(ts) => binder_free_list(ts),
            TypeView::Intersection(ts) => binder_free_list(ts),
            TypeView::Generic(_, ts) => binder_free_list(ts),
            TypeView::Function(ps, r) => binder_free_list(ps) && r.binder_free(),
            TypeView::Constrained(a, cs) => a.binder_free() && binder_free_constraints(cs),
            TypeView::Recursive(_, _) => false,
            _ => true,
        }
    }

    /// The type variables that occur free in the type: those that no
    /// recursive type around them binds.
    pub open spec fn fv(self) -> Set<Seq<char>>
        decreases self,
    {
        match self {
            TypeView::TypeVar(n) => set![n],
            TypeView::Pointer(a) => a.fv(),
            TypeView::Reference(a, _) => a.fv(),
            TypeView::Array(a, _) => a.fv(),
            TypeView::Vector(a) => a.fv(),
            TypeView::Slice(a) => a.fv(),
            TypeView::Optional(a) => a.fv(),
            TypeView::Meta(a) => a.fv(),
            TypeView::Result(a, b) => a.fv().union(b.fv()),
            TypeView::Struct(_, ts) => fv_list(ts),
            TypeView::Tuple(ts) => fv_list(ts),
            TypeView::Union(ts) => fv_list(ts),
            TypeView::Intersection(ts) => fv_list(ts),
            TypeView::Generic(_, ts) => fv_list(ts),
            TypeView::Function(ps, r) => fv_list(ps).union(r.fv()),
            TypeView::Constrained(a, cs) => a.fv().union(fv_constraints(cs)),
            TypeView::Recursive(n, a) => a.fv().remove(n),
            _ => Set::empty(),
        }
    }

    /// The alignment of the type in bytes.
    pub open spec fn align(self) -> int
        decreases self,
    {
        match self {
            TypeView::Void => 1,
            TypeView::Integer(bits) => if (bits + 7) / 8 > 8 {
                8
            } else {
                (bits + 7) / 8
            },
            TypeView::Float => 4,
            TypeView::Double => 8,
            TypeView::Boolean => 1,
            TypeView::Char => 4,
            TypeView::String => 8,
            TypeView::Pointer(_) => 8,
            TypeView::Reference(_, _) => 8,
            TypeView::Array(e, _) => e.align(),
            TypeView::Vector(e) => max2(8, e.align()),
            TypeView::Slice(_) => 8,
            TypeView::Struct(_, fs) => if fs.len() == 0 {
                1
            } else {
                fold_max_align(fs)
            },
            TypeView::Function(_, _) => 8,
            TypeView::Union(ts) => if ts.len() == 0 {
                1
            } else {
                fold_max_align(ts)
            },
            TypeView::Intersection(_) => 8,
            TypeView::Generic(_, _) => 8,
            TypeView::Meta(_) => 8,
            TypeView::Optional(a) => a.align(),
            TypeView::Result(a, b) => max2(a.align(), b.align()),
            TypeView::Tuple(ts) => if ts.len() == 0 {
                1
            } else {
                fold_max_align(ts)
            },
            TypeView::Trait(_) => 8,
            TypeView::Existential(_, _) => 8,
            TypeView::Dependent(_, _) => 8,
            TypeView::TypeVar(_) => 1,
            TypeView::Constrained(a, _) => a.align(),
            TypeView::Recursive(_, a) => a.align(),
            TypeView::Unknown => 1,
            TypeView::Error => 1,
        }
    }

    /// The alignment can be computed without overflow.
    pub open spec fn align_ok(self) -> bool
        decreases self,
    {
        match self {
            TypeView::Integer(bits) => bits + 7 <= usize::MAX,
            TypeView::Array(e, _) => e.align_ok(),
            TypeView::Vector(e) => e.align_ok(),
            TypeView::Struct(_, fs) => all_align_ok(fs),
            TypeView::Union(ts) => all_align_ok(ts),
            TypeView::Tuple(ts) => all_align_ok(ts),
            TypeView::Optional(a) => a.align_ok(),
            TypeView::Result(a, b) => a.align_ok() && b.align_ok(),
            TypeView::Constrained(a, _) => a.align_ok(),
            TypeView::Recursive(_, a) => a.align_ok(),
            _ => true,
        }
    }

    /// The size of the type in bytes, with the padding that alignment asks
    /// for and the tags of unions, optionals and results.
    pub open spec fn size(self) -> int
        decreases self,
    {
        match self {
            TypeView::Void => 0,
            TypeView::Integer(bits) => (bits + 7) / 8,
            TypeView::Float => 4,
            TypeView::Double => 8,
            TypeView::Boolean => 1,
            TypeView::Char => 4,
            TypeView::String => 16,
            TypeView::Pointer(_) => 8,
            TypeView::Reference(_, _) => 8,
            TypeView::Array(e, n) => e.size() * n,
            TypeView::Vector(_) => 24,
            TypeView::Slice(_) => 16,
            TypeView::Struct(_, fs) => round_up(record_layout(fs).0, record_layout(fs).1),
            TypeView::Function(_, _) => 16,
            TypeView::Union(ts) => round_up(max_size(ts) + 4, max_align(ts)),
            TypeView::Intersection(_) => 16,
            TypeView::Generic(_, _) => 8,
            TypeView::Meta(_) => 8,
            TypeView::Optional(a) => round_up(a.size() + 1, a.align()),
            TypeView::Result(a, b) => round_up(max2(a.size(), b.size()) + 1, max2(a.align(), b.align())),
            TypeView::Tuple(ts) => round_up(record_layout(ts).0, record_layout(ts).1),
            TypeView::Trait(_) => 16,
            TypeView::Existential(_, _) => 16,
            TypeView::Dependent(_, _) => 8,
            TypeView::TypeVar(_) => 0,
            TypeView::Constrained(a, _) => a.size(),
            TypeView::Recursive(_, a) => a.size(),
            TypeView::Unknown => 0,
            TypeView::Error => 0,
        }
    }

    /// The size can be computed without overflow or a zero alignment.
    pub open spec fn size_ok(self) -> bool
        decreases self,
    {
        match self {
            TypeView::Integer(bits) => bits + 7 <= usize::MAX,
            TypeView::Array(e, n) => e.size_ok() && e.size() * n <= usize::MAX,
            TypeView::Struct(_, fs) => record_ok(fs) && record_layout(fs).0 + record_layout(fs).1
                <= usize::MAX,
            TypeView::Tuple(fs) => record_ok(fs) && record_layout(fs).0 + record_layout(fs).1
                <= usize::MAX,
            TypeView::Union(ts) => {
                &&& all_size_ok(ts)
                &&& all_align_ok(ts)
                &&& max_align(ts) >= 1
                &&& max_size(ts) + 4 + max_align(ts) <= usize::MAX
            },
            TypeView::Optional(a) => {
                &&& a.size_ok()
                &&& a.align_ok()
                &&& a.align() >= 1
                &&& a.size() + 1 + a.align() <= usize::MAX
            },
            TypeView::Result(a, b) => {
                &&& a.size_ok()
                &&& b.size_ok()
                &&& a.align_ok()
                &&& b.align_ok()
                &&& max2(a.align(), b.align()) >= 1
                &&& max2(a.size(), b.size()) + 1 + max2(a.align(), b.align()) <= usize::MAX
            },
            TypeView::Constrained(a, _) => a.size_ok(),
            TypeView::Recursive(_, a) => a.size_ok(),
            _ => true,
        }
    }

    /// A value type: one held by value, not behind a reference.
    pub open spec fn value_type(self) -> bool
        decreases self,
    {
        match self {
            TypeView::Void | TypeView::Integer(_) | TypeView::Float | TypeView::Double
            | TypeView::Boolean | TypeView::Char => true,
            TypeView::Optional(a) => a.value_type(),
            TypeView::Result(a, b) => a.value_type() && b.value_type(),
            TypeView::Tuple(ts) => all_value_types(ts),
            TypeView::Constrained(a, _) => a.value_type(),
            _ => false,
        }
    }

    /// A concrete type: one with no type variable, generic type or
    /// dependent type in it (constraints aside).
    pub open spec fn concrete(self) -> bool
        decreases self,
    {
        match self {
            TypeView::TypeVar(_) | TypeView::Generic(_, _) | TypeView::Dependent(_, _) => false,
            TypeView::Pointer(a) => a.concrete(),
            TypeView::Reference(a, _) => a.concrete(),
            TypeView::Array(a, _) => a.concrete(),
            TypeView::Vector(a) => a.concrete(),
            TypeView::Slice(a) => a.concrete(),
            TypeView::Optional(a) => a.concrete(),
            TypeView::Meta(a) => a.concrete(),
            TypeView::Constrained(a, cs) => a.concrete() && constraints_concrete(cs),
            TypeView::Recursive(_, a) => a.concrete(),
            TypeView::Result(a, b) => a.concrete() && b.concrete(),
            TypeView::Struct(_, ts) => all_concrete(ts),
            TypeView::Tuple(ts) => all_concrete(ts),
            TypeView::Union(ts) => all_concrete(ts),
            TypeView::Intersection(ts) => all_concrete(ts),
            TypeView::Function(ps, r) => r.concrete() && all_concrete(ps),
            _ => true,
        }
    }
}

impl Type {
    /// The largest alignment among the types, 1 when there are none.
    fn max_alignment(ts: &Vec<Type>) -> (r: usize)
        requires
            all_align_ok(types_view(*ts)),
        ensures
            r == max_align(types_view(*ts)),
        decreases ts,
    {
        let ghost tv = types_view(*ts);
        proof {
            lemma_all_align_ok(tv);
        }
        if ts.len() == 0 {
            return 1;
        }
        let mut m: usize = 0;
        let mut i: usize = 0;
        while i < ts.len()
            invariant
                tv == types_view(*ts),
                tv.len() == ts@.len(),
                forall|k: int| 0 <= k < tv.len() ==> (#[trigger] tv[k]).align_ok(),
                i <= ts@.len(),
                m == fold_max_align(tv.subrange(0, i as int)),
            decreases ts@.len() - i,
        {
            assert(tv[i as int] == ts@[i as int]@);
            let a = ts[i].alignment();
            proof {
                lemma_prefix_step(tv, i as int);
            }
            if m < a {
                m = a;
            }
            i = i + 1;
        }
        assert(tv.subrange(0, tv.len() as int) =~= tv);
        m
    }

    /// The alignment of the type in bytes.
    pub fn alignment(&self) -> (r: usize)
        requires
            self@.align_ok(),
        ensures
            r == self@.align(),
        decreases self,
    {
        match self {
            Type::Void => 1,
            Type::Integer(bits) => {
                let bytes = (*bits + 7) / 8;
                if bytes > 8 {
                    8
                } else {
                    bytes
                }
            },
            Type::Float => 4,
            Type::Double => 8,
            Type::Boolean => 1,
            Type::Char => 4,
            Type::String => 8,
            Type::Pointer(_) => 8,
            Type::Reference(_, _) => 8,
            Type::Array(e, _) => e.alignment(),
            Type::Vector(e) => {
                let a = e.alignment();
                if 8 < a {
                    a
                } else {
                    8
                }
            },
            Type::Slice(_) => 8,
            Type::Struct(_, fs) => Type::max_alignment(fs),
            Type::Function(_, _) => 8,
            Type::Union(ts) => Type::max_alignment(ts),
            Type::Intersection(_) => 8,
            Type::Generic(_, _) => 8,
            Type::Meta(_) => 8,
            Type::Optional(a) => a.alignment(),
            Type::Result(a, b) => {
                let x = a.alignment();
                let y = b.alignment();
                if x < y {
                    y
                } else {
                    x
                }
            },
            Type::Tuple(ts) => Type::max_alignment(ts),
            Type::Trait(_) => 8,
            Type::Existential(_, _) => 8,
            Type::Dependent(_, _) => 8,
            Type::TypeVar(_) => 1,
            Type::Constrained(a, _) => a.alignment(),
            Type::Recursive(_, a) => a.alignment(),
            Type::Unknown => 1,
            Type::Error => 1,
        }
    }

    /// The largest size among the types, 0 when there are none.
    fn max_size_of(ts: &Vec<Type>) -> (r: usize)
        requires
            all_size_ok(types_view(*ts)),
        ensures
            r == max_size(types_view(*ts)),
        decreases ts,
    {
        let ghost tv = types_view(*ts);
        proof {
            lemma_all_size_ok(tv);
        }
        let mut m: usize = 0;
        let mut i: usize = 0;
        while i < ts.len()
            invariant
                tv == types_view(*ts),
                tv.len() == ts@.len(),
                forall|k: int| 0 <= k < tv.len() ==> (#[trigger] tv[k]).size_ok(),
                i <= ts@.len(),
                m == max_size(tv.subrange(0, i as int)),
            decreases ts@.len() - i,
        {
            assert(tv[i as int] == ts@[i as int]@);
            let a = ts[i].size();
            proof {
                lemma_prefix_step(tv, i as int);
            }
            if m < a {
                m = a;
            }
            i = i + 1;
        }
        assert(tv.subrange(0, tv.len() as int) =~= tv);
        m
    }

    /// The size of a record with the given fields, each placed at the next
    /// multiple of its alignment and the whole padded to the largest one.
    fn record_size_of(ts: &Vec<Type>) -> (r: usize)
        requires
            record_ok(types_view(*ts)),
            record_layout(types_view(*ts)).0 + record_layout(types_view(*ts)).1 <= usize::MAX,
        ensures
            r == record_size(types_view(*ts)),
        decreases ts,
    {
        let ghost tv = types_view(*ts);
        let mut total: usize = 0;
        let mut max_align: usize = 1;
        let mut i: usize = 0;
        while i < ts.len()
            invariant
                tv == types_view(*ts),
                tv.len() == ts@.len(),
                record_ok(tv),
                i <= ts@.len(),
                (total as int, max_align as int) == record_layout(tv.subrange(0, i as int)),
            decreases ts@.len() - i,
        {
            assert(tv[i as int] == ts@[i as int]@);
            proof {
                lemma_prefix_step(tv, i as int);
                lemma_record_ok_prefix(tv, i + 1);
            }
            let field_size = ts[i].size();
            let field_align = ts[i].alignment();
            total = round_up_exec(total, field_align) + field_size;
            if max_align < field_align {
                max_align = field_align;
            }
            i = i + 1;
        }
        assert(tv.subrange(0, tv.len() as int) =~= tv);
        round_up_exec(total, max_align)
    }

    /// The size of the type in bytes, with the padding that alignment asks
    /// for and the tags of unions, optionals and results.
    pub fn size(&self) -> (r: usize)
        requires
            self@.size_ok(),
        ensures
            r == self@.size(),
        decreases self,
    {
        match self {
            Type::Void => 0,
            Type::Integer(bits) => (*bits + 7) / 8,
            Type::Float => 4,
            Type::Double => 8,
            Type::Boolean => 1,
            Type::Char => 4,
            Type::String => 16,
            Type::Pointer(_) => 8,
            Type::Reference(_, _) => 8,
            Type::Array(e, n) => e.size() * *n,
            Type::Vector(_) => 24,
            Type::Slice(_) => 16,
            Type::Struct(_, fs) => Type::record_size_of(fs),
            Type::Function(_, _) => 16,
            Type::Union(ts) => {
                let max_size = Type::max_size_of(ts);
                let max_align = Type::max_alignment(ts);
                round_up_exec(max_size + 4, max_align)
            },
            Type::Intersection(_) => 16,
            Type::Generic(_, _) => 8,
            Type::Meta(_) => 8,
            Type::Optional(a) => {
                let inner_size = a.size();
                let inner_align = a.alignment();
                round_up_exec(inner_size + 1, inner_align)
            },
            Type::Result(a, b) => {
                let ok_size = a.size();
                let err_size = b.size();
                let max_size = if ok_size < err_size {
                    err_size
                } else {
                    ok_size
                };
                let ok_align = a.alignment();
                let err_align = b.alignment();
                let max_align = if ok_align < err_align {
                    err_align
                } else {
                    ok_align
                };
                round_up_exec(max_size + 1, max_align)
            },
            Type::Tuple(ts) => Type::record_size_of(ts),
            Type::Trait(_) => 16,
            Type::Existential(_, _) => 16,
            Type::Dependent(_, _) => 8,
            Type::TypeVar(_) => 0,
            Type::Constrained(a, _) => a.size(),
            Type::Recursive(_, a) => a.size(),
            Type::Unknown => 0,
            Type::Error => 0,
        }
    }

    /// Adds `name` to `vars` unless it is there.
    fn add_name(vars: &mut Vec<String>, name: &String)
        requires
            distinct_names(old(vars)@),
        ensures
            distinct_names(final(vars)@),
            name_set(final(vars)@) == name_set(old(vars)@).insert(name@),
    {
        let mut i: usize = 0;
        while i < vars.len()
            invariant
                i <= vars@.len(),
                vars@ == old(vars)@,
                distinct_names(vars@),
                forall|k: int| 0 <= k < i ==> (#[trigger] vars@[k])@ != name@,
            decreases vars@.len() - i,
        {
            if vars[i] == *name {
                proof {
                    assert(name_set(vars@).contains(name@));
                    assert(name_set(vars@) =~= name_set(vars@).insert(name@));
                }
                return;
            }
            i = i + 1;
        }
        let ghost v0 = vars@;
        vars.push(name.clone());
        proof {
            assert(vars@[v0.len() as int]@ == name@);
            assert forall|a: int, b: int|
                0 <= a < vars@.len() && 0 <= b < vars@.len() && a != b implies vars@[a]@ != vars@[b]@ by {
                if a < v0.len() && b < v0.len() {
                    assert(vars@[a] == v0[a] && vars@[b] == v0[b]);
                } else if a < v0.len() {
                    assert(vars@[a] == v0[a]);
                } else {
                    assert(vars@[b] == v0[b]);
                }
            }
            assert forall|n: Seq<char>| #[trigger] name_set(vars@).contains(n) <==> name_set(v0).insert(name@).contains(n) by {
                if name_set(vars@).contains(n) {
                    let k = choose|k: int| 0 <= k < vars@.len() && (#[trigger] vars@[k])@ == n;
                    if k < v0.len() {
                        assert(v0[k]@ == n);
                    }
                }
                if name_set(v0).contains(n) {
                    let k = choose|k: int| 0 <= k < v0.len() && (#[trigger] v0[k])@ == n;
                    assert(vars@[k]@ == n);
                }
            }
            assert(name_set(vars@) =~= name_set(v0).insert(name@));
        }
    }

    /// Adds the type variables of the types to `vars`.
    fn collect_list_type_vars(ts: &Vec<Type>, vars: &mut Vec<String>)
        requires
            distinct_names(old(vars)@),
        ensures
            distinct_names(final(vars)@),
            name_set(final(vars)@) == name_set(old(vars)@).union(ftv_list(types_view(*ts))),
        decreases ts,
    {
        let ghost tv = types_view(*ts);
        let ghost v0 = vars@;
        let mut i: usize = 0;
        while i < ts.len()
            invariant
                tv == types_view(*ts),
                tv.len() == ts@.len(),
                i <= ts@.len(),
                distinct_names(vars@),
                name_set(vars@) == name_set(v0).union(ftv_list(tv.subrange(0, i as int))),
            decreases ts@.len() - i,
        {
            assert(tv[i as int] == ts@[i as int]@);
            proof {
                lemma_prefix_step(tv, i as int);
            }
            ts[i].collect_type_vars(vars);
            proof {
                assert(name_set(vars@) =~= name_set(v0).union(ftv_list(tv.subrange(0, i + 1))));
            }
            i = i + 1;
        }
        assert(tv.subrange(0, tv.len() as int) =~= tv);
    }

    /// Adds to `vars` the type variables of the types that the constraints
    /// equate the type with or bound it by.
    fn collect_constraint_type_vars(cs: &Vec<TypeConstraint>, vars: &mut Vec<String>)
        requires
            distinct_names(old(vars)@),
        ensures
            distinct_names(final(vars)@),
            name_set(final(vars)@) == name_set(old(vars)@).union(ftv_constraints(constraints_view(*cs))),
        decreases cs,
    {
        let ghost cv = constraints_view(*cs);
        let ghost v0 = vars@;
        let mut i: usize = 0;
        while i < cs.len()
            invariant
                cv == constraints_view(*cs),
                cv.len() == cs@.len(),
                i <= cs@.len(),
                distinct_names(vars@),
                name_set(vars@) == name_set(v0).union(ftv_constraints(cv.subrange(0, i as int))),
            decreases cs@.len() - i,
        {
            assert(cv[i as int] == cs@[i as int]@);
            proof {
                lemma_prefix_step(cv, i as int);
            }
            match &cs[i] {
                TypeConstraint::Equals(t) => t.collect_type_vars(vars),
                TypeConstraint::SubType(t) => t.collect_type_vars(vars),
                TypeConstraint::SuperType(t) => t.collect_type_vars(vars),
                _ => {},
            }
            proof {
                assert(name_set(vars@) =~= name_set(v0).union(ftv_constraints(cv.subrange(0, i + 1))));
            }
            i = i + 1;
        }
        assert(cv.subrange(0, cv.len() as int) =~= cv);
    }

    /// Adds the type variables of the type to `vars`.
    fn collect_type_vars(&self, vars: &mut Vec<String>)
        requires
            distinct_names(old(vars)@),
        ensures
            distinct_names(final(vars)@),
            name_set(final(vars)@) == name_set(old(vars)@).union(self@.ftv()),
        decreases self,
    {
        let ghost v0 = vars@;
        match self {
            Type::TypeVar(n) => {
                Type::add_name(vars, n);
            },
            Type::Pointer(a) => a.collect_type_vars(vars),
            Type::Reference(a, _) => a.collect_type_vars(vars),
            Type::Array(a, _) => a.collect_type_vars(vars),
            Type::Vector(a) => a.collect_type_vars(vars),
            Type::Slice(a) => a.collect_type_vars(vars),
            Type::Optional(a) => a.collect_type_vars(vars),
            Type::Meta(a) => a.collect_type_vars(vars),
            Type::Result(a, b) => {
                a.collect_type_vars(vars);
                b.collect_type_vars(vars);
            },
            Type::Struct(_, ts) => Type::collect_list_type_vars(ts, vars),
            Type::Tuple(ts) => Type::collect_list_type_vars(ts, vars),
            Type::Union(ts) => Type::collect_list_type_vars(ts, vars),
            Type::Intersection(ts) => Type::collect_list_type_vars(ts, vars),
            Type::Generic(_, ts) => Type::collect_list_type_vars(ts, vars),
            Type::Function(ps, r) => {
                Type::collect_list_type_vars(ps, vars);
                r.collect_type_vars(vars);
            },
            Type::Constrained(a, cs) => {
                a.collect_type_vars(vars);
                Type::collect_constraint_type_vars(cs, vars);
            },
            Type::Recursive(_, a) => a.collect_type_vars(vars),
            _ => {},
        }
        proof {
            assert(name_set(vars@) =~= name_set(v0).union(self@.ftv()));
        }
    }

    /// The type variables that occur in the type, each once. The variable
    /// that a recursive type binds is not set apart.
    pub fn free_type_vars(&self) -> (r: Vec<String>)
        ensures
            distinct_names(r@),
            name_set(r@) == self@.ftv(),
    {
        let mut vars: Vec<String> = Vec::new();
        proof {
            assert(name_set(vars@) =~= Set::<Seq<char>>::empty());
        }
        self.collect_type_vars(&mut vars);
        proof {
            assert(name_set(vars@) =~= self@.ftv());
        }
        vars
    }

    /// Whether `n` is among the names.
    fn contains_name(ns: &Vec<String>, n: &String) -> (r: bool)
        ensures
            r == name_set(ns@).contains(n@),
    {
        let mut i: usize = 0;
        while i < ns.len()
            invariant
                i <= ns@.len(),
                forall|k: int| 0 <= k < i ==> (#[trigger] ns@[k])@ != n@,
            decreases ns@.len() - i,
        {
            if ns[i] == *n {
                return true;
            }
            i = i + 1;
        }
        false
    }

    /// The types with the table's types substituted for their type
    /// variables, the names in `hidden` aside.
    fn substitute_list(ts: &Vec<Type>, subs: &NameTable<Type>, hidden: &Vec<String>) -> (r: Vec<Type>)
        requires
            subs.wf(),
        ensures
            types_view(r) == subst_list(types_view(*ts), subst_map(*subs, name_set(hidden@))),
        decreases ts,
    {
        let ghost m = subst_map(*subs, name_set(hidden@));
        let mut r: Vec<Type> = Vec::new();
        let mut i: usize = 0;
        while i < ts.len()
            invariant
                subs.wf(),
                m == subst_map(*subs, name_set(hidden@)),
                i <= ts@.len(),
                r@.len() == i,
                forall|k: int| 0 <= k < i ==> (#[trigger] r@[k])@ == ts@[k]@.subst(m),
            decreases ts@.len() - i,
        {
            r.push(ts[i].substitute_under(subs, hidden));
            i = i + 1;
        }
        assert(types_view(r) =~= subst_list(types_view(*ts), m));
        r
    }

    /// The constraints with the table's types substituted for the type
    /// variables of the types they equate or bound by, the names in
    /// `hidden` aside.
    fn substitute_constraints(cs: &Vec<TypeConstraint>, subs: &NameTable<Type>, hidden: &Vec<String>) -> (r: Vec<
        TypeConstraint,
    >)
        requires
            subs.wf(),
        ensures
            constraints_view(r) == subst_constraints(constraints_view(*cs), subst_map(*subs, name_set(hidden@))),
        decreases cs,
    {
        let ghost m = subst_map(*subs, name_set(hidden@));
        let ghost cv = constraints_view(*cs);
        let mut r: Vec<TypeConstraint> = Vec::new();
        let mut i: usize = 0;
        while i < cs.len()
            invariant
                subs.wf(),
                m == subst_map(*subs, name_set(hidden@)),
                cv == constraints_view(*cs),
                i <= cs@.len(),
                r@.len() == i,
                forall|k: int| 0 <= k < i ==> (#[trigger] r@[k])@ == subst_constraints(cv, m)[k],
            decreases cs@.len() - i,
        {
            assert(cv[i as int] == cs@[i as int]@);
            let c = match &cs[i] {
                TypeConstraint::Equals(t) => TypeConstraint::Equals(Box::new(t.substitute_under(subs, hidden))),
                TypeConstraint::SubType(t) => TypeConstraint::SubType(Box::new(t.substitute_under(subs, hidden))),
                TypeConstraint::SuperType(t) => TypeConstraint::SuperType(
                    Box::new(t.substitute_under(subs, hidden)),
                ),
                other => other.clone(),
            };
            r.push(c);
            i = i + 1;
        }
        assert(constraints_view(r) =~= subst_constraints(cv, m));
        r
    }

    /// The type with the table's types substituted for its type variables,
    /// the names in `hidden` aside.
    fn substitute_under(&self, subs: &NameTable<Type>, hidden: &Vec<String>) -> (r: Type)
        requires
            subs.wf(),
        ensures
            r@ == self@.subst(subst_map(*subs, name_set(hidden@))),
        decreases self,
    {
        match self {
            Type::TypeVar(name) => {
                if !Type::contains_name(hidden, name) {
                    if let Some(ty) = subs.get(name) {
                        return ty.clone();
                    }
                }
                self.clone()
            },
            Type::Pointer(a) => Type::Pointer(Box::new(a.substitute_under(subs, hidden))),
            Type::Reference(a, m) => Type::Reference(Box::new(a.substitute_under(subs, hidden)), *m),
            Type::Array(a, n) => Type::Array(Box::new(a.substitute_under(subs, hidden)), *n),
            Type::Vector(a) => Type::Vector(Box::new(a.substitute_under(subs, hidden))),
            Type::Slice(a) => Type::Slice(Box::new(a.substitute_under(subs, hidden))),
            Type::Optional(a) => Type::Optional(Box::new(a.substitute_under(subs, hidden))),
            Type::Meta(a) => Type::Meta(Box::new(a.substitute_under(subs, hidden))),
            Type::Result(a, b) => Type::Result(
                Box::new(a.substitute_under(subs, hidden)),
                Box::new(b.substitute_under(subs, hidden)),
            ),
            Type::Struct(n, fs) => Type::Struct(n.clone(), Type::substitute_list(fs, subs, hidden)),
            Type::Tuple(ts) => Type::Tuple(Type::substitute_list(ts, subs, hidden)),
            Type::Union(ts) => Type::Union(Type::substitute_list(ts, subs, hidden)),
            Type::Intersection(ts) => Type::Intersection(Type::substitute_list(ts, subs, hidden)),
            Type::Function(ps, r) => Type::Function(
                Type::substitute_list(ps, subs, hidden),
                Box::new(r.substitute_under(subs, hidden)),
            ),
            Type::Generic(n, ts) => Type::Generic(n.clone(), Type::substitute_list(ts, subs, hidden)),
            Type::Constrained(a, cs) => Type::Constrained(
                Box::new(a.substitute_under(subs, hidden)),
                Type::substitute_constraints(cs, subs, hidden),
            ),
            Type::Recursive(n, a) => {
                let mut inner_hidden = clone_names(hidden);
                let ghost ih0 = inner_hidden@;
                inner_hidden.push(n.clone());
                proof {
                    let h = name_set(hidden@);
                    assert forall|k: int| 0 <= k < hidden@.len() implies (#[trigger] inner_hidden@[k])@
                        == hidden@[k]@ by {
                        assert(inner_hidden@[k] == ih0[k]);
                    }
                    assert forall|x: Seq<char>| #[trigger] name_set(inner_hidden@).contains(x) <==> h.insert(n@).contains(x) by {
                        if name_set(inner_hidden@).contains(x) {
                            let k = choose|k: int| 0 <= k < inner_hidden@.len() && (#[trigger] inner_hidden@[k])@ == x;
                            if k < hidden@.len() {
                                assert(hidden@[k]@ == x);
                            }
                        }
                        if h.contains(x) {
                            let k = choose|k: int| 0 <= k < hidden@.len() && (#[trigger] hidden@[k])@ == x;
                            assert(inner_hidden@[k]@ == x);
                        }
                        if x == n@ {
                            assert(inner_hidden@[hidden@.len() as int]@ == x);
                        }
                    }
                    assert(name_set(inner_hidden@) =~= h.insert(n@));
                    assert(subst_map(*subs, h.insert(n@)) =~= subst_map(*subs, h).remove(n@));
                }
                Type::Recursive(n.clone(), Box::new(a.substitute_under(subs, &inner_hidden)))
            },
            Type::Dependent(n, e) => Type::Dependent(n.clone(), Box::new((**e).clone())),
            _ => self.clone(),
        }
    }

    /// The type with the table's types substituted for its type variables.
    /// Inside a recursive type its own name is not substituted.
    pub fn substitute(&self, substitutions: &NameTable<Type>) -> (r: Type)
        requires
            substitutions.wf(),
        ensures
            r@ == self@.subst(subst_map(*substitutions, Set::empty())),
    {
        let hidden: Vec<String> = Vec::new();
        proof {
            assert(name_set(hidden@) =~= Set::<Seq<char>>::empty());
        }
        self.substitute_under(substitutions, &hidden)
    }

    /// Binds the unbound `name` to `t`, putting `t` for `name` in what the
    /// table binds already.
    fn compose_binding(subs: &mut NameTable<Type>, name: &String, t: &Type)
        requires
            old(subs).wf(),
            !subst_map(*old(subs), Set::empty()).contains_key(name@),
        ensures
            final(subs).wf(),
            subst_map(*final(subs), Set::empty()) == compose(subst_map(*old(subs), Set::empty()), name@, t@),
    {
        let ghost m0 = subst_map(*old(subs), Set::empty());
        let ghost theta = Map::<Seq<char>, TypeView>::empty().insert(name@, t@);
        let mut single: NameTable<Type> = NameTable::new();
        single.insert(name.clone(), t.clone());
        proof {
            assert(subst_map(single, Set::empty()) =~= theta);
        }
        let keys = subs.keys();
        let mut i: usize = 0;
        while i < keys.len()
            invariant
                subs.wf(),
                single.wf(),
                subst_map(single, Set::empty()) == theta,
                m0 == subst_map(*old(subs), Set::empty()),
                i <= keys@.len(),
                forall|a: int, b: int|
                    0 <= a < keys@.len() && 0 <= b < keys@.len() && a != b ==> keys@[a]@ != keys@[b]@,
                forall|k: Seq<char>| m0.contains_key(k) <==> exists|q: int| 0 <= q < keys@.len() && keys@[q]@ == k,
                forall|k: Seq<char>| #[trigger] subs.lookup(k) is Some <==> m0.contains_key(k),
                forall|k: Seq<char>|
                    #[trigger] subs.lookup(k) is Some ==> subs.lookup(k)->0@ == if exists|q: int|
                        0 <= q < i && keys@[q]@ == k {
                        m0[k].subst(theta)
                    } else {
                        m0[k]
                    },
            decreases keys@.len() - i,
        {
            let ghost ki = keys@[i as int]@;
            assert(subs.lookup(ki) is Some) by {
                assert(m0.contains_key(ki));
            }
            let v = match subs.get(&keys[i]) {
                Some(v) => v.clone(),
                None => Type::Error,
            };
            proof {
                assert(!exists|q: int| 0 <= q < i && keys@[q]@ == ki) by {
                    if exists|q: int| 0 <= q < i && keys@[q]@ == ki {
                        let q = choose|q: int| 0 <= q < i && keys@[q]@ == ki;
                        assert(q != i);
                    }
                }
                assert(v@ == m0[ki]);
            }
            let nv = v.substitute(&single);
            let ghost before = *subs;
            subs.insert(keys[i].copy_key(), nv);
            proof {
                assert forall|k: Seq<char>| #[trigger] subs.lookup(k) is Some implies subs.lookup(k)->0@
                    == if exists|q: int| 0 <= q < i + 1 && keys@[q]@ == k {
                    m0[k].subst(theta)
                } else {
                    m0[k]
                } by {
                    if k == ki {
                    } else {
                        assert(subs.lookup(k) == before.lookup(k));
                        if exists|q: int| 0 <= q < i + 1 && keys@[q]@ == k {
                            let q = choose|q: int| 0 <= q < i + 1 && keys@[q]@ == k;
                            assert(q != i);
                        }
                    }
                }
            }
            i = i + 1;
        }
        let ghost mid = *subs;
        subs.insert(name.clone(), t.clone());
        proof {
            assert forall|k: Seq<char>| #[trigger] subst_map(*subs, Set::empty()).contains_key(k) <==> compose(
                m0,
                name@,
                t@,
            ).contains_key(k) by {
                if k != name@ {
                    assert(subs.lookup(k) == mid.lookup(k));
                }
            }
            assert forall|k: Seq<char>| #[trigger] subst_map(*subs, Set::empty()).contains_key(k) implies subst_map(
                *subs,
                Set::empty(),
            )[k] == compose(m0, name@, t@)[k] by {
                if k != name@ {
                    assert(subs.lookup(k) == mid.lookup(k));
                    assert(m0.contains_key(k));
                    let q = choose|q: int| 0 <= q < keys@.len() && keys@[q]@ == k;
                    assert(exists|q2: int| 0 <= q2 < keys@.len() && keys@[q2]@ == k);
                }
            }
            assert(subst_map(*subs, Set::empty()) =~= compose(m0, name@, t@));
        }
    }

    /// Binds the unbound `name` to `ty` with the table applied to it,
    /// unless that is `name` itself; fails when `name` occurs in it.
    fn bind_variable(subs: &mut NameTable<Type>, name: &String, ty: &Type) -> (r: Result<(), UnifyError>)
        requires
            old(subs).wf(),
            !subst_map(*old(subs), Set::empty()).contains_key(name@),
        ensures
            final(subs).wf(),
            match r {
                Ok(()) => bind_outcome(
                    subst_map(*old(subs), Set::empty()),
                    name@,
                    ty@.subst(subst_map(*old(subs), Set::empty())),
                ) == UnifyOutcome::Unified(subst_map(*final(subs), Set::empty())),
                Err(e) => bind_outcome(
                    subst_map(*old(subs), Set::empty()),
                    name@,
                    ty@.subst(subst_map(*old(subs), Set::empty())),
                ) == UnifyOutcome::Failed(e@),
            },
    {
        let resolved = ty.substitute(subs);
        let var = Type::TypeVar(name.clone());
        if resolved.same(&var) {
            return Ok(());
        }
        let vars = resolved.free_type_vars();
        if Type::contains_name(&vars, name) {
            Err(UnifyError::RecursiveType(name.clone(), resolved))
        } else {
            Type::compose_binding(subs, name, &resolved);
            Ok(())
        }
    }

    /// Unifies the types of two lists of equal length pairwise, from the
    /// first, extending `subs`.
    fn unify_list(xs: &Vec<Type>, ys: &Vec<Type>, subs: &mut NameTable<Type>, fuel: usize) -> (r: Result<
        (),
        UnifyError,
    >)
        requires
            old(subs).wf(),
            xs@.len() == ys@.len(),
        ensures
            final(subs).wf(),
            match r {
                Ok(()) => unify_all(types_view(*xs), types_view(*ys), subst_map(*old(subs), Set::empty()), fuel as nat)
                    == UnifyOutcome::Unified(subst_map(*final(subs), Set::empty())),
                Err(e) => unify_all(types_view(*xs), types_view(*ys), subst_map(*old(subs), Set::empty()), fuel as nat)
                    == UnifyOutcome::Failed(e@) || (unify_all(
                    types_view(*xs),
                    types_view(*ys),
                    subst_map(*old(subs), Set::empty()),
                    fuel as nat,
                ) is OutOfSteps && e is TooDeep),
            },
        decreases fuel, xs@.len() + 1,
    {
        let ghost tx = types_view(*xs);
        let ghost ty = types_view(*ys);
        let ghost whole = unify_all(tx, ty, subst_map(*old(subs), Set::empty()), fuel as nat);
        let n = xs.len();
        let mut i: usize = 0;
        proof {
            assert(tx.subrange(0, n as int) =~= tx);
            assert(ty.subrange(0, n as int) =~= ty);
        }
        while i < n
            invariant
                n == xs@.len(),
                n == ys@.len(),
                tx == types_view(*xs),
                ty == types_view(*ys),
                i <= n,
                subs.wf(),
                whole == unify_all(tx, ty, subst_map(*old(subs), Set::empty()), fuel as nat),
                whole == unify_all(
                    tx.subrange(i as int, n as int),
                    ty.subrange(i as int, n as int),
                    subst_map(*subs, Set::empty()),
                    fuel as nat,
                ),
            decreases n - i,
        {
            let ghost rx = tx.subrange(i as int, n as int);
            let ghost ry = ty.subrange(i as int, n as int);
            assert(rx[0] == xs@[i as int]@ && ry[0] == ys@[i as int]@);
            match xs[i].unify_with(&ys[i], subs, fuel) {
                Ok(()) => {},
                Err(e) => {
                    return Err(e);
                },
            }
            proof {
                assert(rx.drop_first() =~= tx.subrange(i + 1, n as int));
                assert(ry.drop_first() =~= ty.subrange(i + 1, n as int));
            }
            i = i + 1;
        }
        Ok(())
    }

    /// Unifies the type with `other`, extending `subs`, in at most `fuel`
    /// nested steps.
    fn unify_with(&self, other: &Type, subs: &mut NameTable<Type>, fuel: usize) -> (r: Result<(), UnifyError>)
        requires
            old(subs).wf(),
        ensures
            final(subs).wf(),
            match r {
                Ok(()) => unify_steps(self@, other@, subst_map(*old(subs), Set::empty()), fuel as nat)
                    == UnifyOutcome::Unified(subst_map(*final(subs), Set::empty())),
                Err(e) => unify_steps(self@, other@, subst_map(*old(subs), Set::empty()), fuel as nat)
                    == UnifyOutcome::Failed(e@) || (unify_steps(
                    self@,
                    other@,
                    subst_map(*old(subs), Set::empty()),
                    fuel as nat,
                ) is OutOfSteps && e is TooDeep),
            },
        decreases fuel, 0nat,
    {
        if fuel == 0 {
            return Err(UnifyError::TooDeep);
        }
        if self.same(other) {
            return Ok(());
        }
        let f = fuel - 1;
        match (self, other) {
            (Type::TypeVar(name), _) => {
                let bound = match subs.get(name) {
                    Some(existing) => Some(existing.clone()),
                    None => None,
                };
                match bound {
                    Some(existing) => existing.unify_with(other, subs, f),
                    None => Type::bind_variable(subs, name, other),
                }
            },
            (_, Type::TypeVar(name)) => {
                let bound = match subs.get(name) {
                    Some(existing) => Some(existing.clone()),
                    None => None,
                };
                match bound {
                    Some(existing) => self.unify_with(&existing, subs, f),
                    None => Type::bind_variable(subs, name, self),
                }
            },
            (Type::Pointer(x), Type::Pointer(y)) => x.unify_with(y, subs, f),
            (Type::Reference(x, m), Type::Reference(y, n)) => {
                if *m == *n {
                    x.unify_with(y, subs, f)
                } else {
                    Err(UnifyError::ReferenceMutability)
                }
            },
            (Type::Array(x, m), Type::Array(y, n)) => {
                if *m == *n {
                    x.unify_with(y, subs, f)
                } else {
                    Err(UnifyError::ArraySize)
                }
            },
            (Type::Vector(x), Type::Vector(y)) => x.unify_with(y, subs, f),
            (Type::Slice(x), Type::Slice(y)) => x.unify_with(y, subs, f),
            (Type::Optional(x), Type::Optional(y)) => x.unify_with(y, subs, f),
            (Type::Meta(x), Type::Meta(y)) => x.unify_with(y, subs, f),
            (Type::Result(x, p), Type::Result(y, q)) => {
                match x.unify_with(y, subs, f) {
                    Ok(()) => p.unify_with(q, subs, f),
                    Err(e) => Err(e),
                }
            },
            (Type::Struct(m, xs), Type::Struct(n, ys)) => {
                if *m != *n || xs.len() != ys.len() {
                    Err(UnifyError::StructMismatch)
                } else {
                    proof {
                        let s0 = subst_map(*subs, Set::empty());
                        assert(unify_steps(self@, other@, s0, fuel as nat) == unify_all(
                            types_view(*xs),
                            types_view(*ys),
                            s0,
                            f as nat,
                        ));
                    }
                    Type::unify_list(xs, ys, subs, f)
                }
            },
            (Type::Tuple(xs), Type::Tuple(ys)) => {
                if xs.len() != ys.len() {
                    Err(UnifyError::TupleLength)
                } else {
                    proof {
                        let s0 = subst_map(*subs, Set::empty());
                        assert(unify_steps(self@, other@, s0, fuel as nat) == unify_all(
                            types_view(*xs),
                            types_view(*ys),
                            s0,
                            f as nat,
                        ));
                    }
                    Type::unify_list(xs, ys, subs, f)
                }
            },
            (Type::Function(xs, p), Type::Function(ys, q)) => {
                if xs.len() != ys.len() {
                    Err(UnifyError::FunctionArity)
                } else {
                    let ghost s0 = subst_map(*subs, Set::empty());
                    proof {
                        assert(unify_steps(self@, other@, s0, fuel as nat) == match unify_all(
                            types_view(*xs),
                            types_view(*ys),
                            s0,
                            f as nat,
                        ) {
                            UnifyOutcome::Unified(s1) => unify_steps(p@, q@, s1, f as nat),
                            other => other,
                        });
                    }
                    match Type::unify_list(xs, ys, subs, f) {
                        Ok(()) => p.unify_with(q, subs, f),
                        Err(e) => Err(e),
                    }
                }
            },
            (Type::Generic(m, xs), Type::Generic(n, ys)) => {
                if *m != *n || xs.len() != ys.len() {
                    Err(UnifyError::GenericMismatch)
                } else {
                    proof {
                        let s0 = subst_map(*subs, Set::empty());
                        assert(unify_steps(self@, other@, s0, fuel as nat) == unify_all(
                            types_view(*xs),
                            types_view(*ys),
                            s0,
                            f as nat,
                        ));
                    }
                    Type::unify_list(xs, ys, subs, f)
                }
            },
            _ => Err(UnifyError::Mismatch(self.clone(), other.clone())),
        }
    }

    /// A substitution that makes the type and `other` equal, built by
    /// unifying them: a variable met is resolved through what it is bound
    /// to, and an unbound one is bound to the type facing it with the
    /// substitution applied (and that binding put into the earlier ones),
    /// unless it occurs in it. The substitution is checked to make the two
    /// types equal before it is returned.
    pub fn unify(&self, other: &Type) -> (r: Result<NameTable<Type>, UnifyError>)
        ensures
            match r {
                Ok(t) => t.wf() && unify_outcome(self@, other@) == UnifyOutcome::Unified(
                    subst_map(t, Set::empty()),
                ),
                Err(e) => unify_outcome(self@, other@) == UnifyOutcome::Failed(e@),
            },
            r matches Ok(t) ==> self@.subst(subst_map(t, Set::empty())) == other@.subst(
                subst_map(t, Set::empty()),
            ),
    {
        let mut subs: NameTable<Type> = NameTable::new();
        proof {
            assert(subst_map(subs, Set::empty()) =~= Map::empty());
        }
        match self.unify_with(other, &mut subs, usize::MAX) {
            Ok(()) => {
                let a = self.substitute(&subs);
                let b = other.substitute(&subs);
                if a.same(&b) {
                    Ok(subs)
                } else {
                    Err(UnifyError::NotEqualized(a, b))
                }
            },
            Err(e) => Err(e),
        }
    }

    /// Writes the types of the list, `sep` between them.
    fn write_types(out: &mut String, ts: &Vec<Type>, sep: &str)
        ensures
            final(out)@ == old(out)@ + join_types(types_view(*ts), sep@),
        decreases ts,
    {
        let ghost o0 = out@;
        let ghost tv = types_view(*ts);
        let mut i: usize = 0;
        while i < ts.len()
            invariant
                tv == types_view(*ts),
                tv.len() == ts@.len(),
                i <= ts@.len(),
                out@ == o0 + join_types(tv.subrange(0, i as int), sep@),
            decreases ts@.len() - i,
        {
            assert(tv[i as int] == ts@[i as int]@);
            proof {
                lemma_prefix_step(tv, i as int);
            }
            let ghost before = out@;
            if i > 0 {
                out.append(sep);
            }
            ts[i].write_text(out);
            proof {
                if i == 0 {
                    assert(out@ =~= o0 + join_types(tv.subrange(0, 1), sep@));
                } else {
                    assert(out@ =~= o0 + join_types(tv.subrange(0, i + 1), sep@));
                }
            }
            i = i + 1;
        }
        assert(tv.subrange(0, tv.len() as int) =~= tv);
    }

    /// Writes the names of the list, `sep` between them.
    fn write_names(out: &mut String, ns: &Vec<String>, sep: &str)
        ensures
            final(out)@ == old(out)@ + join_names(ns@.map_values(|n: String| n@), sep@),
    {
        let ghost o0 = out@;
        let ghost nv = ns@.map_values(|n: String| n@);
        let mut i: usize = 0;
        while i < ns.len()
            invariant
                nv == ns@.map_values(|n: String| n@),
                nv.len() == ns@.len(),
                i <= ns@.len(),
                out@ == o0 + join_names(nv.subrange(0, i as int), sep@),
            decreases ns@.len() - i,
        {
            assert(nv[i as int] == ns@[i as int]@);
            proof {
                lemma_prefix_step(nv, i as int);
            }
            if i > 0 {
                out.append(sep);
            }
            out.append(ns[i].as_str());
            proof {
                if i == 0 {
                    assert(out@ =~= o0 + join_names(nv.subrange(0, 1), sep@));
                } else {
                    assert(out@ =~= o0 + join_names(nv.subrange(0, i + 1), sep@));
                }
            }
            i = i + 1;
        }
        assert(nv.subrange(0, nv.len() as int) =~= nv);
    }

    /// Writes a constraint.
    fn write_constraint(out: &mut String, c: &TypeConstraint)
        ensures
            final(out)@ == old(out)@ + constraint_text(c@),
        decreases c,
    {
        let ghost o0 = out@;
        match c {
            TypeConstraint::TraitBound(n) => {
                out.append(": ");
                out.append(n.as_str());
            },
            TypeConstraint::Equals(t) => {
                out.append("= ");
                t.write_text(out);
            },
            TypeConstraint::SubType(t) => {
                out.append("<: ");
                t.write_text(out);
            },
            TypeConstraint::SuperType(t) => {
                out.append(">: ");
                t.write_text(out);
            },
            TypeConstraint::ValueConstraint(e) => {
                out.append("| ");
                out.append(e.source.as_str());
            },
            TypeConstraint::HasMembers(ns) => {
                out.append("{ ");
                Type::write_names(out, ns, ", ");
                out.append(" }");
            },
        }
        assert(out@ =~= o0 + constraint_text(c@));
    }

    /// Writes the constraints of the list, a comma between them.
    fn write_constraints(out: &mut String, cs: &Vec<TypeConstraint>)
        ensures
            final(out)@ == old(out)@ + join_constraints(constraints_view(*cs)),
        decreases cs,
    {
        let ghost o0 = out@;
        let ghost cv = constraints_view(*cs);
        let mut i: usize = 0;
        while i < cs.len()
            invariant
                cv == constraints_view(*cs),
                cv.len() == cs@.len(),
                i <= cs@.len(),
                out@ == o0 + join_constraints(cv.subrange(0, i as int)),
            decreases cs@.len() - i,
        {
            assert(cv[i as int] == cs@[i as int]@);
            proof {
                lemma_prefix_step(cv, i as int);
            }
            if i > 0 {
                out.append(", ");
            }
            Type::write_constraint(out, &cs[i]);
            proof {
                if i == 0 {
                    assert(out@ =~= o0 + join_constraints(cv.subrange(0, 1)));
                } else {
                    assert(out@ =~= o0 + join_constraints(cv.subrange(0, i + 1)));
                }
            }
            i = i + 1;
        }
        assert(cv.subrange(0, cv.len() as int) =~= cv);
    }

    /// Writes the type.
    fn write_text(&self, out: &mut String)
        ensures
            final(out)@ == old(out)@ + self@.text(),
        decreases self,
    {
        let ghost o0 = out@;
        match self {
            Type::Void => out.append("void"),
            Type::Integer(b) => {
                out.append("i");
                let d = decimal_string(*b);
                out.append(d.as_str());
            },
            Type::Float => out.append("float"),
            Type::Double => out.append("double"),
            Type::Boolean => out.append("bool"),
            Type::Char => out.append("char"),
            Type::String => out.append("string"),
            Type::Pointer(a) => {
                a.write_text(out);
                out.append("*");
            },
            Type::Reference(a, m) => {
                if *m {
                    out.append("&mut ");
                } else {
                    out.append("&");
                }
                a.write_text(out);
            },
            Type::Array(e, n) => {
                out.append("[");
                let d = decimal_string(*n);
                out.append(d.as_str());
                out.append(" x ");
                e.write_text(out);
                out.append("]");
            },
            Type::Vector(e) => {
                out.append("vector<");
                e.write_text(out);
                out.append(">");
            },
            Type::Slice(e) => {
                out.append("slice<");
                e.write_text(out);
                out.append(">");
            },
            Type::Struct(n, _) => {
                out.append("struct ");
                out.append(n.as_str());
            },
            Type::Function(ps, r) => {
                out.append("fn(");
                Type::write_types(out, ps, ", ");
                out.append(") -> ");
                r.write_text(out);
            },
            Type::Union(ts) => {
                out.append("(");
                Type::write_types(out, ts, " | ");
                out.append(")");
            },
            Type::Intersection(ts) => {
                out.append("(");
                Type::write_types(out, ts, " & ");
                out.append(")");
            },
            Type::Generic(n, ts) => {
                out.append(n.as_str());
                out.append("<");
                Type::write_types(out, ts, ", ");
                out.append(">");
            },
            Type::Meta(a) => {
                out.append("type<");
                a.write_text(out);
                out.append(">");
            },
            Type::Optional(a) => {
                a.write_text(out);
                out.append("?");
            },
            Type::Unknown => out.append("unknown"),
            Type::Result(a, b) => {
                out.append("Result<");
                a.write_text(out);
                out.append(", ");
                b.write_text(out);
                out.append(">");
            },
            Type::Tuple(ts) => {
                out.append("(");
                Type::write_types(out, ts, ", ");
                out.append(")");
            },
            Type::Trait(n) => {
                out.append("dyn ");
                out.append(n.as_str());
            },
            Type::Existential(n, bs) => {
                out.append("impl ");
                out.append(n.as_str());
                out.append(" + ");
                Type::write_names(out, bs, " + ");
            },
            Type::Dependent(n, e) => {
                out.append(n.as_str());
                out.append("[");
                out.append(e.source.as_str());
                out.append("]");
            },
            Type::TypeVar(n) => out.append(n.as_str()),
            Type::Constrained(a, cs) => {
                a.write_text(out);
                out.append(" where ");
                Type::write_constraints(out, cs);
            },
            Type::Recursive(n, a) => {
                out.append("rec ");
                out.append(n.as_str());
                out.append(". ");
                a.write_text(out);
            },
            Type::Error => out.append("<error-type>"),
        }
        assert(out@ =~= o0 + self@.text());
    }

    /// How the type is written: `i32`, `&mut T`, `[4 x i8]`,
    /// `fn(i32, bool) -> void`, `Result<T, E>`, `rec L. L?` and so on. A
    /// struct is written by its name alone.
    pub fn to_string(&self) -> (r: String)
        ensures
            r@ == self@.text(),
    {
        let mut out = String::from_str("");
        proof {
            reveal_strlit("");
        }
        self.write_text(&mut out);
        proof {
            assert(out@ =~= self@.text());
        }
        out
    }

    /// Whether every type in the list is held by value.
    fn all_value_types(ts: &Vec<Type>) -> (r: bool)
        ensures
            r == all_value_types(types_view(*ts)),
        decreases ts,
    {
        let mut i: usize = 0;
        while i < ts.len()
            invariant
                i <= ts@.len(),
                forall|k: int| 0 <= k < i ==> (#[trigger] types_view(*ts)[k]).value_type(),
            decreases ts@.len() - i,
        {
            assert(types_view(*ts)[i as int] == ts@[i as int]@);
            if !ts[i].is_value_type() {
                proof {
                    lemma_all_value_types(types_view(*ts));
                }
                return false;
            }
            i = i + 1;
        }
        proof {
            lemma_all_value_types(types_view(*ts));
        }
        true
    }

    /// Whether the type is held by value.
    pub fn is_value_type(&self) -> (r: bool)
        ensures
            r == self@.value_type(),
        decreases self,
    {
        match self {
            Type::Void => true,
            Type::Integer(_) => true,
            Type::Float => true,
            Type::Double => true,
            Type::Boolean => true,
            Type::Char => true,
            Type::Optional(a) => a.is_value_type(),
            Type::Result(a, b) => a.is_value_type() && b.is_value_type(),
            Type::Tuple(ts) => Type::all_value_types(ts),
            Type::Constrained(a, _) => a.is_value_type(),
            _ => false,
        }
    }

    /// Whether a value of the type may be null.
    pub fn is_nullable(&self) -> (r: bool)
        ensures
            r == (self@ is Optional || self@ is Pointer || self@ is Unknown),
    {
        match self {
            Type::Optional(_) | Type::Pointer(_) | Type::Unknown => true,
            _ => false,
        }
    }

    /// Whether the type is numeric.
    pub fn is_numeric(&self) -> (r: bool)
        ensures
            r == (self@ is Integer || self@ is Float || self@ is Double),
    {
        match self {
            Type::Integer(_) | Type::Float | Type::Double => true,
            _ => false,
        }
    }

    /// Whether the type is an integer type.
    pub fn is_integer(&self) -> (r: bool)
        ensures
            r == self@ is Integer,
    {
        match self {
            Type::Integer(_) => true,
            _ => false,
        }
    }

    /// Whether the type is a floating-point type.
    pub fn is_floating_point(&self) -> (r: bool)
        ensures
            r == (self@ is Float || self@ is Double),
    {
        match self {
            Type::Float | Type::Double => true,
            _ => false,
        }
    }

    /// Whether the type is a reference.
    pub fn is_reference_type(&self) -> (r: bool)
        ensures
            r == self@ is Reference,
    {
        match self {
            Type::Reference(_, _) => true,
            _ => false,
        }
    }

    /// Whether the type is a mutable reference.
    pub fn is_mutable_reference(&self) -> (r: bool)
        ensures
            r == (self@ matches TypeView::Reference(_, m) && m),
    {
        match self {
            Type::Reference(_, m) => *m,
            _ => false,
        }
    }

    /// Whether the type is a trait object or an existential type.
    pub fn is_trait(&self) -> (r: bool)
        ensures
            r == (self@ is Trait || self@ is Existential),
    {
        match self {
            Type::Trait(_) | Type::Existential(_, _) => true,
            _ => false,
        }
    }

    /// Whether the type depends on a value.
    pub fn is_dependent(&self) -> (r: bool)
        ensures
            r == self@ is Dependent,
    {
        match self {
            Type::Dependent(_, _) => true,
            _ => false,
        }
    }

    /// Whether the type is generic or a type variable.
    pub fn is_polymorphic(&self) -> (r: bool)
        ensures
            r == (self@ is Generic || self@ is TypeVar),
    {
        match self {
            Type::Generic(_, _) | Type::TypeVar(_) => true,
            _ => false,
        }
    }

    /// Whether the type is a recursive type.
    pub fn is_recursive(&self) -> (r: bool)
        ensures
            r == self@ is Recursive,
    {
        match self {
            Type::Recursive(_, _) => true,
            _ => false,
        }
    }

    /// Whether every type that the constraints equate or bound by is
    /// concrete.
    fn constraints_concrete(cs: &Vec<TypeConstraint>) -> (r: bool)
        ensures
            r == constraints_concrete(constraints_view(*cs)),
        decreases cs,
    {
        let ghost cv = constraints_view(*cs);
        proof {
            lemma_constraints_concrete(cv);
        }
        let mut i: usize = 0;
        while i < cs.len()
            invariant
                cv == constraints_view(*cs),
                cv.len() == cs@.len(),
                i <= cs@.len(),
                forall|k: int| 0 <= k < i ==> constraint_concrete(#[trigger] cv[k]),
                constraints_concrete(cv) == forall|k: int| 0 <= k < cv.len() ==> constraint_concrete(#[trigger] cv[k]),
            decreases cs@.len() - i,
        {
            assert(cv[i as int] == cs@[i as int]@);
            let ok = match &cs[i] {
                TypeConstraint::Equals(t) => t.is_concrete(),
                TypeConstraint::SubType(t) => t.is_concrete(),
                TypeConstraint::SuperType(t) => t.is_concrete(),
                _ => true,
            };
            if !ok {
                return false;
            }
            i = i + 1;
        }
        true
    }

    /// Whether every type in the list is concrete.
    fn all_concrete(ts: &Vec<Type>) -> (r: bool)
        ensures
            r == all_concrete(types_view(*ts)),
        decreases ts,
    {
        let mut i: usize = 0;
        while i < ts.len()
            invariant
                i <= ts@.len(),
                forall|k: int| 0 <= k < i ==> (#[trigger] types_view(*ts)[k]).concrete(),
            decreases ts@.len() - i,
        {
            assert(types_view(*ts)[i as int] == ts@[i as int]@);
            if !ts[i].is_concrete() {
                proof {
                    lemma_all_concrete(types_view(*ts));
                }
                return false;
            }
            i = i + 1;
        }
        proof {
            lemma_all_concrete(types_view(*ts));
        }
        true
    }

    /// Whether the type has no type variable, generic type or dependent type
    /// in it.
    pub fn is_concrete(&self) -> (r: bool)
        ensures
            r == self@.concrete(),
        decreases self,
    {
        match self {
            Type::TypeVar(_) | Type::Generic(_, _) | Type::Dependent(_, _) => false,
            Type::Pointer(a) => a.is_concrete(),
            Type::Reference(a, _) => a.is_concrete(),
            Type::Array(a, _) => a.is_concrete(),
            Type::Vector(a) => a.is_concrete(),
            Type::Slice(a) => a.is_concrete(),
            Type::Optional(a) => a.is_concrete(),
            Type::Meta(a) => a.is_concrete(),
            Type::Constrained(a, cs) => a.is_concrete() && Type::constraints_concrete(cs),
            Type::Recursive(_, a) => a.is_concrete(),
            Type::Result(a, b) => a.is_concrete() && b.is_concrete(),
            Type::Struct(_, ts) => Type::all_concrete(ts),
            Type::Tuple(ts) => Type::all_concrete(ts),
            Type::Union(ts) => Type::all_concrete(ts),
            Type::Intersection(ts) => Type::all_concrete(ts),
            Type::Function(ps, r) => r.is_concrete() && Type::all_concrete(ps),
            Type::Void | Type::Integer(_) | Type::Float | Type::Double | Type::Boolean | Type::Char
            | Type::String | Type::Trait(_) | Type::Existential(_, _) | Type::Unknown
            | Type::Error => true,
        }
    }
}

} // verus!
