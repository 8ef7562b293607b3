use swiftlight_compiler::middleend::ir::representation::{Expression, Type, TypeConstraint, UnifyError};
use swiftlight_compiler::name_table::NameTable;

fn integer(bits: usize) -> Type {
    Type::Integer(bits)
}

fn var(name: &str) -> Type {
    Type::TypeVar(name.to_string())
}

#[test]
fn integer_size_and_alignment() {
    assert_eq!(integer(32).size(), 4);
    assert_eq!(integer(32).alignment(), 4);
    assert_eq!(integer(1).size(), 1);
    assert_eq!(integer(128).size(), 16);
    assert_eq!(integer(128).alignment(), 8);
    assert_eq!(integer(0).size(), 0);
    assert_eq!(integer(0).alignment(), 0);
}

#[test]
fn fixed_sizes() {
    assert_eq!(Type::Void.size(), 0);
    assert_eq!(Type::Void.alignment(), 1);
    assert_eq!(Type::String.size(), 16);
    assert_eq!(Type::String.alignment(), 8);
    assert_eq!(Type::Char.size(), 4);
    assert_eq!(Type::Boolean.size(), 1);
    assert_eq!(Type::Pointer(Box::new(integer(8))).size(), 8);
    assert_eq!(Type::Vector(Box::new(integer(8))).size(), 24);
    assert_eq!(Type::Slice(Box::new(integer(8))).size(), 16);
    assert_eq!(Type::Function(vec![], Box::new(Type::Void)).size(), 16);
    assert_eq!(var("T").size(), 0);
    assert_eq!(var("T").alignment(), 1);
}

#[test]
fn array_size_multiplies() {
    let a = Type::Array(Box::new(integer(32)), 10);
    assert_eq!(a.size(), 40);
    assert_eq!(a.alignment(), 4);
}

#[test]
fn struct_fields_are_aligned_and_padded() {
    let s = Type::Struct("P".to_string(), vec![integer(8), integer(32)]);
    assert_eq!(s.size(), 8);
    assert_eq!(s.alignment(), 4);
    let t = Type::Tuple(vec![Type::Boolean, Type::Double]);
    assert_eq!(t.size(), 16);
    assert_eq!(t.alignment(), 8);
    let u = Type::Struct("P".to_string(), vec![integer(64), integer(8)]);
    assert_eq!(u.size(), 16);
    let empty = Type::Tuple(vec![]);
    assert_eq!(empty.size(), 0);
    assert_eq!(empty.alignment(), 1);
}

#[test]
fn tagged_types_add_a_tag() {
    assert_eq!(Type::Optional(Box::new(integer(32))).size(), 8);
    assert_eq!(Type::Result(Box::new(integer(8)), Box::new(integer(64))).size(), 16);
    assert_eq!(Type::Union(vec![integer(8), integer(16)]).size(), 6);
    assert_eq!(Type::Union(vec![]).size(), 4);
}

#[test]
fn vector_alignment_is_at_least_eight() {
    assert_eq!(Type::Vector(Box::new(integer(8))).alignment(), 8);
    assert_eq!(Type::Vector(Box::new(integer(128))).alignment(), 8);
}

#[test]
fn kind_predicates() {
    assert!(integer(32).is_numeric());
    assert!(integer(32).is_integer());
    assert!(!Type::Float.is_integer());
    assert!(Type::Double.is_floating_point());
    assert!(Type::Optional(Box::new(integer(8))).is_nullable());
    assert!(Type::Unknown.is_nullable());
    assert!(!integer(8).is_nullable());
    assert!(Type::Reference(Box::new(integer(8)), true).is_mutable_reference());
    assert!(!Type::Reference(Box::new(integer(8)), false).is_mutable_reference());
    assert!(Type::Reference(Box::new(integer(8)), false).is_reference_type());
    assert!(Type::Trait("Show".to_string()).is_trait());
    assert!(Type::Existential("Show".to_string(), vec![]).is_trait());
    assert!(var("T").is_polymorphic());
    assert!(Type::Recursive("L".to_string(), Box::new(integer(8))).is_recursive());
    let dep = Type::Dependent("n".to_string(), Box::new(Expression { source: "n > 0".to_string() }));
    assert!(dep.is_dependent());
}

#[test]
fn value_types() {
    assert!(Type::Tuple(vec![integer(32), Type::Boolean]).is_value_type());
    assert!(!Type::Tuple(vec![integer(32), Type::String]).is_value_type());
    assert!(Type::Optional(Box::new(Type::Char)).is_value_type());
    assert!(!Type::Struct("S".to_string(), vec![]).is_value_type());
    assert!(Type::Result(Box::new(integer(8)), Box::new(Type::Boolean)).is_value_type());
}

#[test]
fn concrete_types() {
    assert!(!Type::Pointer(Box::new(var("T"))).is_concrete());
    assert!(Type::Function(vec![integer(32)], Box::new(Type::Boolean)).is_concrete());
    assert!(!Type::Function(vec![var("T")], Box::new(Type::Boolean)).is_concrete());
    assert!(!Type::Generic("Vec".to_string(), vec![integer(8)]).is_concrete());
    assert!(Type::Tuple(vec![]).is_concrete());
    let bound = Type::Constrained(
        Box::new(integer(32)),
        vec![TypeConstraint::Equals(Box::new(var("C")))],
    );
    assert!(!bound.is_concrete());
    let closed = Type::Constrained(
        Box::new(integer(32)),
        vec![TypeConstraint::Equals(Box::new(integer(32)))],
    );
    assert!(closed.is_concrete());
}

#[test]
fn free_type_variables_once_each() {
    let f = Type::Function(vec![var("T"), var("U")], Box::new(var("T")));
    let vars = f.free_type_vars();
    assert_eq!(vars.len(), 2);
    assert!(vars.contains(&"T".to_string()));
    assert!(vars.contains(&"U".to_string()));
    let c = Type::Constrained(
        Box::new(integer(8)),
        vec![TypeConstraint::Equals(Box::new(var("V"))), TypeConstraint::TraitBound("X".to_string())],
    );
    assert_eq!(c.free_type_vars(), vec!["V".to_string()]);
    assert!(integer(8).free_type_vars().is_empty());
}

#[test]
fn substitution_replaces_variables() {
    let mut subs: NameTable<Type> = NameTable::new();
    subs.insert("T".to_string(), integer(32));
    let t = Type::Pointer(Box::new(var("T")));
    assert!(t.substitute(&subs).same(&Type::Pointer(Box::new(integer(32)))));
    let u = var("U");
    assert!(u.substitute(&subs).same(&var("U")));
}

#[test]
fn substitution_skips_recursive_binder() {
    let mut subs: NameTable<Type> = NameTable::new();
    subs.insert("T".to_string(), integer(32));
    let r = Type::Recursive("T".to_string(), Box::new(Type::Tuple(vec![var("T"), var("S")])));
    let expected = Type::Recursive("T".to_string(), Box::new(Type::Tuple(vec![var("T"), var("S")])));
    assert!(r.substitute(&subs).same(&expected));
}

#[test]
fn substitution_without_bindings_changes_nothing() {
    let subs: NameTable<Type> = NameTable::new();
    let t = Type::Function(vec![var("A")], Box::new(Type::Optional(Box::new(var("B")))));
    assert!(t.substitute(&subs).same(&t));
}

#[test]
fn unify_binds_variable() {
    let subs = var("T").unify(&integer(32)).ok().unwrap();
    assert!(subs.get(&"T".to_string()).unwrap().same(&integer(32)));
}

#[test]
fn unify_is_reflexive() {
    let t = Type::Tuple(vec![var("T"), integer(8)]);
    let subs = t.unify(&t).ok().unwrap();
    assert!(subs.get(&"T".to_string()).is_none());
}

#[test]
fn unify_binds_both_sides() {
    let a = Type::Tuple(vec![var("T"), Type::Boolean]);
    let b = Type::Tuple(vec![integer(32), var("U")]);
    let subs = a.unify(&b).ok().unwrap();
    assert!(subs.get(&"T".to_string()).unwrap().same(&integer(32)));
    assert!(subs.get(&"U".to_string()).unwrap().same(&Type::Boolean));
}

#[test]
fn unify_uses_earlier_binding() {
    let a = Type::Tuple(vec![var("T"), var("T")]);
    let b = Type::Tuple(vec![integer(32), Type::Boolean]);
    match a.unify(&b) {
        Err(UnifyError::Mismatch(x, y)) => {
            assert!(x.same(&integer(32)));
            assert!(y.same(&Type::Boolean));
        }
        _ => panic!("expected a mismatch"),
    }
}

#[test]
fn unify_resolves_bindings() {
    let a = Type::Tuple(vec![var("A"), var("B")]);
    let b = Type::Tuple(vec![var("B"), integer(32)]);
    let subs = a.unify(&b).ok().unwrap();
    assert!(subs.get(&"A".to_string()).unwrap().same(&integer(32)));
    assert!(subs.get(&"B".to_string()).unwrap().same(&integer(32)));
    assert!(a.substitute(&subs).same(&b.substitute(&subs)));
    let once = a.substitute(&subs);
    assert!(once.substitute(&subs).same(&once));
}

#[test]
fn unify_goes_through_bound_variables() {
    let a = Type::Tuple(vec![var("A"), var("B"), var("A")]);
    let b = Type::Tuple(vec![var("B"), var("A"), integer(32)]);
    let subs = a.unify(&b).ok().unwrap();
    assert!(subs.get(&"A".to_string()).unwrap().same(&integer(32)));
    assert!(subs.get(&"B".to_string()).unwrap().same(&integer(32)));
    assert!(a.substitute(&subs).same(&b.substitute(&subs)));
}

#[test]
fn unify_occurs_check() {
    let t = Type::Pointer(Box::new(var("T")));
    match var("T").unify(&t) {
        Err(UnifyError::RecursiveType(name, ty)) => {
            assert_eq!(name, "T".to_string());
            assert!(ty.same(&t));
        }
        _ => panic!("expected the occurs check to fail"),
    }
}

#[test]
fn unify_errors() {
    let r1 = Type::Reference(Box::new(integer(8)), true);
    let r2 = Type::Reference(Box::new(integer(8)), false);
    assert!(matches!(r1.unify(&r2), Err(UnifyError::ReferenceMutability)));
    let a1 = Type::Array(Box::new(integer(8)), 2);
    let a2 = Type::Array(Box::new(integer(8)), 3);
    assert!(matches!(a1.unify(&a2), Err(UnifyError::ArraySize)));
    let s1 = Type::Struct("A".to_string(), vec![]);
    let s2 = Type::Struct("B".to_string(), vec![]);
    assert!(matches!(s1.unify(&s2), Err(UnifyError::StructMismatch)));
    let t1 = Type::Tuple(vec![integer(8)]);
    let t2 = Type::Tuple(vec![]);
    assert!(matches!(t1.unify(&t2), Err(UnifyError::TupleLength)));
    let f1 = Type::Function(vec![integer(8)], Box::new(Type::Void));
    let f2 = Type::Function(vec![], Box::new(Type::Void));
    assert!(matches!(f1.unify(&f2), Err(UnifyError::FunctionArity)));
    let g1 = Type::Generic("Vec".to_string(), vec![integer(8)]);
    let g2 = Type::Generic("Box".to_string(), vec![integer(8)]);
    assert!(matches!(g1.unify(&g2), Err(UnifyError::GenericMismatch)));
    assert!(matches!(integer(8).unify(&Type::Boolean), Err(UnifyError::Mismatch(_, _))));
}

#[test]
fn equality_of_types() {
    assert!(integer(8).same(&integer(8)));
    assert!(!integer(8).same(&integer(16)));
    let a = Type::Struct("S".to_string(), vec![integer(8), var("T")]);
    let b = Type::Struct("S".to_string(), vec![integer(8), var("T")]);
    assert!(a.same(&b));
    assert!(a.same(&a.clone()));
}

#[test]
fn types_are_written_out() {
    assert_eq!(integer(32).to_string(), "i32");
    assert_eq!(Type::Pointer(Box::new(Type::Char)).to_string(), "char*");
    assert_eq!(Type::Reference(Box::new(integer(8)), true).to_string(), "&mut i8");
    assert_eq!(Type::Reference(Box::new(integer(8)), false).to_string(), "&i8");
    assert_eq!(Type::Array(Box::new(integer(8)), 4).to_string(), "[4 x i8]");
    assert_eq!(Type::Vector(Box::new(Type::Boolean)).to_string(), "vector<bool>");
    assert_eq!(Type::Struct("Point".to_string(), vec![integer(8)]).to_string(), "struct Point");
    assert_eq!(
        Type::Function(vec![integer(32), Type::Boolean], Box::new(Type::Void)).to_string(),
        "fn(i32, bool) -> void"
    );
    assert_eq!(Type::Union(vec![integer(8), Type::Float]).to_string(), "(i8 | float)");
    assert_eq!(Type::Intersection(vec![var("A"), var("B")]).to_string(), "(A & B)");
    assert_eq!(Type::Generic("Map".to_string(), vec![Type::String, integer(64)]).to_string(), "Map<string, i64>");
    assert_eq!(Type::Optional(Box::new(Type::Double)).to_string(), "double?");
    assert_eq!(
        Type::Result(Box::new(integer(32)), Box::new(Type::String)).to_string(),
        "Result<i32, string>"
    );
    assert_eq!(Type::Tuple(vec![]).to_string(), "()");
    assert_eq!(Type::Trait("Show".to_string()).to_string(), "dyn Show");
    assert_eq!(
        Type::Existential("Iterator".to_string(), vec!["Send".to_string(), "Sync".to_string()]).to_string(),
        "impl Iterator + Send + Sync"
    );
    assert_eq!(
        Type::Dependent("Vec".to_string(), Box::new(Expression { source: "n".to_string() })).to_string(),
        "Vec[n]"
    );
    assert_eq!(
        Type::Recursive("L".to_string(), Box::new(Type::Optional(Box::new(var("L"))))).to_string(),
        "rec L. L?"
    );
    assert_eq!(Type::Meta(Box::new(Type::Unknown)).to_string(), "type<unknown>");
    assert_eq!(Type::Error.to_string(), "<error-type>");
}

#[test]
fn constrained_types_are_written_with_their_constraints() {
    let c = Type::Constrained(
        Box::new(var("T")),
        vec![
            TypeConstraint::TraitBound("Ord".to_string()),
            TypeConstraint::SubType(Box::new(integer(64))),
            TypeConstraint::HasMembers(vec!["len".to_string(), "get".to_string()]),
        ],
    );
    assert_eq!(c.to_string(), "T where : Ord, <: i64, { len, get }");
}
