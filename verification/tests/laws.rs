use kirl_semantic_analyzer::HIRType;
use kirl_semantic_analyzer::HIRType::{
    AnonymousStruct, Array, Function, GenericsTypeArgument, Infer, Named, Or, Tuple, Unreachable,
};

fn samples() -> Vec<HIRType> {
    vec![
        Infer,
        Unreachable,
        GenericsTypeArgument(2),
        Named { path: vec!["Number".to_string()], generics_arguments: vec![Infer] },
        Tuple(vec![Infer, Tuple(vec![])]),
        Array(Box::new(Tuple(vec![]))),
        Function { arguments: vec![Infer], result: Box::new(Tuple(vec![])) },
        AnonymousStruct(vec![("a".to_string(), Infer), ("b".to_string(), Tuple(vec![]))]),
        Or(vec![Tuple(vec![]), Tuple(vec![Tuple(vec![])])]),
    ]
}

#[test]
fn test_is_a_reflexive_on_samples() {
    for t in samples() {
        assert!(t.is_a(&t), "{} should be a subtype of itself", t.to_string());
    }
}

#[test]
fn test_infer_is_universal() {
    for t in samples() {
        assert!(Infer.is_a(&t));
        assert!(t.is_a(&Infer));
    }
}

#[test]
fn test_unreachable_is_bottom() {
    for t in samples() {
        assert!(Unreachable.is_a(&t));
    }
    let number = Named { path: vec!["Number".to_string()], generics_arguments: vec![] };
    assert!(!number.is_a(&Unreachable));
    assert!(!Tuple(vec![]).is_a(&Unreachable));
    assert!(!Array(Box::new(Infer)).is_a(&Unreachable));
    // `Infer` still satisfies `Unreachable`, as it satisfies every type.
    assert!(Infer.is_a(&Unreachable));
}

#[test]
fn test_tuple_width_subtyping() {
    let x = Named { path: vec!["X".to_string()], generics_arguments: vec![] };
    assert!(Tuple(vec![x.clone(), x.clone()]).is_a(&Tuple(vec![x.clone()])));
    assert!(!Tuple(vec![x.clone()]).is_a(&Tuple(vec![x.clone(), x.clone()])));
}

#[test]
fn test_or_introduction_and_elimination() {
    let a = Named { path: vec!["A".to_string()], generics_arguments: vec![] };
    let b = Named { path: vec!["B".to_string()], generics_arguments: vec![] };
    let c = Named { path: vec!["C".to_string()], generics_arguments: vec![] };
    let union = Or(vec![a.clone(), b.clone()]);
    // A type is below a union exactly when some component is above it.
    assert!(a.is_a(&union));
    assert!(b.is_a(&union));
    assert!(!c.is_a(&union));
    // A union is below a type exactly when every component is.
    assert!(Or(vec![a.clone(), a.clone()]).is_a(&a));
    assert!(!union.is_a(&a));
}

#[test]
fn test_function_variance() {
    let narrow = Tuple(vec![Tuple(vec![]), Tuple(vec![])]);
    let wide = Tuple(vec![Tuple(vec![])]);
    // `narrow` is a subtype of `wide` by tuple width.
    assert!(narrow.is_a(&wide));
    // Arguments are contravariant: a function taking the wider argument
    // stands where one taking the narrower is expected.
    let takes_wide = Function { arguments: vec![wide.clone()], result: Box::new(Tuple(vec![])) };
    let takes_narrow = Function { arguments: vec![narrow.clone()], result: Box::new(Tuple(vec![])) };
    assert!(takes_wide.is_a(&takes_narrow));
    assert!(!takes_narrow.is_a(&takes_wide));
    // Results are covariant.
    let returns_narrow = Function { arguments: vec![], result: Box::new(narrow.clone()) };
    let returns_wide = Function { arguments: vec![], result: Box::new(wide.clone()) };
    assert!(returns_narrow.is_a(&returns_wide));
    assert!(!returns_wide.is_a(&returns_narrow));
}

#[test]
fn test_normalize_idempotent_on_samples() {
    for t in samples() {
        let once = t.into_normalized();
        let twice = once.clone().into_normalized();
        assert_eq!(twice, once);
    }
    let nested = Or(vec![
        Or(vec![Tuple(vec![]), Unreachable]),
        Or(vec![Tuple(vec![Tuple(vec![])]), Tuple(vec![])]),
    ]);
    let once = nested.into_normalized();
    assert_eq!(once.clone().into_normalized(), once);
}

#[test]
fn test_normalize_preserves_meaning_on_samples() {
    for t in samples() {
        let normalized = t.clone().into_normalized();
        assert!(normalized.is_a(&t));
        assert!(t.is_a(&normalized));
    }
}

#[test]
fn test_or_normalizes_to_sorted_dedup_form() {
    let a = Named { path: vec!["A".to_string()], generics_arguments: vec![] };
    let b = Named { path: vec!["B".to_string()], generics_arguments: vec![] };
    assert_eq!(
        Or(vec![b.clone(), a.clone(), b.clone(), a.clone()]).into_normalized(),
        Or(vec![a.clone(), b.clone()])
    );
    assert_eq!(Or(vec![a.clone(), a.clone()]).into_normalized(), a.clone());
    assert_eq!(Or(vec![a.clone(), Unreachable]).into_normalized(), a.clone());
}

#[test]
fn test_apply_composes_with_recursion() {
    let x = Named { path: vec!["X".to_string()], generics_arguments: vec![] };
    let args = [x.clone()];
    let children = vec![GenericsTypeArgument(0), Tuple(vec![GenericsTypeArgument(0)])];
    let applied_children: Vec<HIRType> = children
        .iter()
        .map(|c| c.apply_generics_type_argument(&args).unwrap())
        .collect();
    assert_eq!(
        Tuple(children.clone()).apply_generics_type_argument(&args),
        Some(Tuple(applied_children.clone()))
    );
    assert_eq!(
        Or(children.clone()).apply_generics_type_argument(&args),
        Some(Or(applied_children))
    );
    assert_eq!(
        Array(Box::new(GenericsTypeArgument(0))).apply_generics_type_argument(&args),
        Some(Array(Box::new(x.clone())))
    );
}
