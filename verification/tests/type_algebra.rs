use kirl_semantic_analyzer::HIRType;
use kirl_semantic_analyzer::HIRType::{AnonymousStruct, Array, Function, Infer, Named, Or, Tuple, Unreachable};

#[test]
fn test_type_is_a() {
    assert!(Infer.is_a(&Infer));
    assert!(Infer.is_a(&Named { path: vec!["Number".to_string()], generics_arguments: vec![] }));
    assert!(Named { path: vec!["Number".to_string()], generics_arguments: vec![] }.is_a(&Infer));

    assert!(Named { path: vec!["Number".to_string()], generics_arguments: vec![] }.is_a(&Named { path: vec!["Number".to_string()], generics_arguments: vec![] }));
    assert!(!Named { path: vec!["Number".to_string()], generics_arguments: vec![] }.is_a(&Named { path: vec!["String".to_string()], generics_arguments: vec![] }));

    assert!(Tuple(vec![]).is_a(&Tuple(vec![])));
    assert!(Tuple(vec![Tuple(vec![]), Tuple(vec![])]).is_a(&Tuple(vec![Tuple(vec![]), Tuple(vec![])])));
    assert!(Tuple(vec![Tuple(vec![]), Tuple(vec![])]).is_a(&Tuple(vec![Tuple(vec![])])));
    assert!(!Tuple(vec![Tuple(vec![])]).is_a(&Tuple(vec![Tuple(vec![]), Tuple(vec![])])));

    assert!(Array(Box::new(Tuple(vec![Tuple(vec![])]))).is_a(&Array(Box::new(Tuple(vec![])))));
    assert!(!Array(Box::new(Tuple(vec![]))).is_a(&Array(Box::new(Tuple(vec![Tuple(vec![])])))));

    assert!(Function {
        arguments: vec![Tuple(vec![])],
        result: Box::new(Tuple(vec![Tuple(vec![])])),
    }
        .is_a(&Function {
            arguments: vec![Tuple(vec![Tuple(vec![])])],
            result: Box::new(Tuple(vec![])),
        }));
    assert!(!Function {
        arguments: vec![Tuple(vec![]), Tuple(vec![])],
        result: Box::new(Tuple(vec![Tuple(vec![])])),
    }
        .is_a(&Function {
            arguments: vec![Tuple(vec![Tuple(vec![])])],
            result: Box::new(Tuple(vec![])),
        }));

    assert!(AnonymousStruct(vec![("a".to_string(), Tuple(vec![Tuple(vec![])])), ("b".to_string(), Tuple(vec![]))]).is_a(&AnonymousStruct(vec![("a".to_string(), Tuple(vec![]))])));
    assert!(!AnonymousStruct(vec![("a".to_string(), Tuple(vec![]))]).is_a(&AnonymousStruct(vec![("a".to_string(), Tuple(vec![Tuple(vec![])])), ("b".to_string(), Tuple(vec![]))])));

    assert!(Or(vec![Tuple(vec![Tuple(vec![])]), Tuple(vec![Tuple(vec![]), Tuple(vec![])])]).is_a(&Tuple(vec![Tuple(vec![])])));
    assert!(Tuple(vec![Tuple(vec![]), Tuple(vec![])]).is_a(&Or(vec![Tuple(vec![Tuple(vec![]), Tuple(vec![])]), Tuple(vec![Tuple(vec![])])])));
    assert!(Or(vec![Tuple(vec![]), Tuple(vec![Tuple(vec![])]), Tuple(vec![Tuple(vec![Tuple(vec![]), Tuple(vec![])])])]).is_a(&Or(vec![Tuple(vec![]), Tuple(vec![Tuple(vec![])])])));
}

#[test]
fn test_type_normalize() {
    assert_eq!(Or(vec![Tuple(vec![]), Tuple(vec![])]).into_normalized(), Tuple(vec![]));
    assert_eq!(Or(vec![Tuple(vec![]), Tuple(vec![Tuple(vec![])])]).into_normalized(), Or(vec![Tuple(vec![Tuple(vec![])]), Tuple(vec![])]).into_normalized());
}

#[test]
fn test_type_member_type() {
    assert_eq!(AnonymousStruct(vec![("a".to_string(), Tuple(vec![Tuple(vec![])])), ("b".to_string(), Tuple(vec![]))]).member_type("a"), Some(Tuple(vec![Tuple(vec![])])));
    assert_eq!(AnonymousStruct(vec![("a".to_string(), Tuple(vec![Tuple(vec![])])), ("b".to_string(), Tuple(vec![]))]).member_type("b"), Some(Tuple(vec![])));
    assert_eq!(Tuple(vec![]).member_type("a"), None);
    assert_eq!(
        Or(vec![AnonymousStruct(vec![("a".to_string(), Tuple(vec![Tuple(vec![])]))]), AnonymousStruct(vec![("a".to_string(), Tuple(vec![]))])]).member_type("a").map(HIRType::into_normalized),
        Some(Or(vec![Tuple(vec![]), Tuple(vec![Tuple(vec![])])]))
    );
    assert_eq!(Or(vec![AnonymousStruct(vec![("a".to_string(), Tuple(vec![Tuple(vec![])]))]), Tuple(vec![])]).member_type("a"), None);
}

#[test]
fn test_type_tuple_item_type() {
    assert_eq!(Tuple(vec![Tuple(vec![])]).tuple_item_type(0), Some(Tuple(vec![])));
    assert_eq!(Tuple(vec![Tuple(vec![]), Tuple(vec![Tuple(vec![])])]).tuple_item_type(1), Some(Tuple(vec![Tuple(vec![])])));
    assert_eq!(Tuple(vec![Tuple(vec![])]).tuple_item_type(1), None);
    assert_eq!(Or(vec![Tuple(vec![Tuple(vec![Tuple(vec![])])]), Tuple(vec![Tuple(vec![])])]).tuple_item_type(0).map(HIRType::into_normalized), Some(Or(vec![Tuple(vec![]), Tuple(vec![Tuple(vec![])])])));
    assert_eq!(Or(vec![Tuple(vec![Tuple(vec![])]), Tuple(vec![])]).tuple_item_type(0), None);
}

#[test]
fn test_type_has_member() {
    assert!(AnonymousStruct(vec![("a".to_string(), Tuple(vec![Tuple(vec![])])), ("b".to_string(), Tuple(vec![]))]).has_member("a"));
    assert!(AnonymousStruct(vec![("a".to_string(), Tuple(vec![Tuple(vec![])])), ("b".to_string(), Tuple(vec![]))]).has_member("b"));
    assert!(!Tuple(vec![]).has_member("a"));
    assert!(Or(vec![AnonymousStruct(vec![("a".to_string(), Tuple(vec![Tuple(vec![])]))]), AnonymousStruct(vec![("a".to_string(), Tuple(vec![]))])]).has_member("a"));
    assert!(!Or(vec![AnonymousStruct(vec![("a".to_string(), Tuple(vec![Tuple(vec![])]))]), Tuple(vec![])]).has_member("a"));
}

#[test]
fn test_type_has_tuple_item() {
    assert!(Tuple(vec![Tuple(vec![])]).has_tuple_item(0));
    assert!(Tuple(vec![Tuple(vec![]), Tuple(vec![Tuple(vec![])])]).has_tuple_item(1));
    assert!(!Tuple(vec![Tuple(vec![])]).has_tuple_item(1));
    assert!(Or(vec![Tuple(vec![Tuple(vec![Tuple(vec![])])]), Tuple(vec![Tuple(vec![])])]).has_tuple_item(0));
    assert!(!Or(vec![Tuple(vec![Tuple(vec![])]), Tuple(vec![])]).has_tuple_item(0));
}

#[test]
fn test_type_intersect_to() {
    let tuple0 = Tuple(vec![]);
    let tuple1 = Tuple(vec![tuple0.clone()]);
    let tuple2 = Tuple(vec![tuple0.clone(), tuple0.clone()]);
    assert_eq!(Infer.intersect_to(&Named { path: vec!["Number".to_string()], generics_arguments: vec![] }), Named { path: vec!["Number".to_string()], generics_arguments: vec![] });
    assert_eq!(tuple0.intersect_to(&Named { path: vec!["Number".to_string()], generics_arguments: vec![] }), tuple0);
    assert_eq!(Array(Box::new(Infer)).intersect_to(&Or(vec![Array(Box::new(tuple0.clone())), Array(Box::new(tuple1.clone())), tuple0.clone(), tuple1.clone()])), Array(Box::new(Or(vec![tuple0.clone(), tuple1.clone()]))));
    assert_eq!(
        Tuple(vec![Infer, Infer]).intersect_to(&Or(vec![Tuple(vec![tuple0.clone(), tuple0.clone()]), Tuple(vec![tuple1.clone(), tuple1.clone(), tuple2.clone()]), Tuple(vec![tuple2.clone()])])),
        Tuple(vec![Or(vec![tuple0.clone(), tuple1.clone()]), Or(vec![tuple0.clone(), tuple1.clone()])])
    );
    assert_eq!(
        AnonymousStruct(vec![("a".to_string(), Infer), ("b".to_string(), tuple0.clone())]).intersect_to(&Or(vec![
            AnonymousStruct(vec![("a".to_string(), tuple0.clone()), ("b".to_string(), tuple1.clone())]),
            AnonymousStruct(vec![("a".to_string(), tuple1.clone()), ("b".to_string(), tuple0.clone())]),
            AnonymousStruct(vec![("b".to_string(), tuple1.clone())]),
            tuple0.clone(),
        ])),
        AnonymousStruct(vec![("a".to_string(), Or(vec![tuple0.clone(), tuple1.clone()])), ("b".to_string(), tuple0.clone())])
    );
}

#[test]
fn test_type_possibility_assignable_to() {
    let tuple0 = Tuple(vec![]);
    let tuple1 = Tuple(vec![tuple0.clone()]);
    let tuple2 = Tuple(vec![tuple0.clone(), tuple0.clone()]);
    assert!(Infer.possibility_assignable_to(&Infer));
    assert!(Infer.possibility_assignable_to(&tuple0));
    assert!(tuple0.possibility_assignable_to(&Infer));

    assert!(tuple0.possibility_assignable_to(&tuple1));
    assert!(tuple1.possibility_assignable_to(&tuple2));
    assert!(!tuple1.possibility_assignable_to(&Tuple(vec![Array(Box::new(tuple0.clone()))])));

    assert!(Array(Box::new(tuple1.clone())).possibility_assignable_to(&Array(Box::new(tuple0.clone()))));
    assert!(Array(Box::new(tuple1.clone())).possibility_assignable_to(&Array(Box::new(tuple1.clone()))));
    assert!(Array(Box::new(tuple1.clone())).possibility_assignable_to(&Array(Box::new(tuple2.clone()))));

    assert!(tuple1.possibility_assignable_to(&Or(vec![tuple1.clone(), tuple2.clone()])));
    assert!(Or(vec![tuple1.clone(), tuple2.clone()]).possibility_assignable_to(&tuple1));
    assert!(tuple1.possibility_assignable_to(&Or(vec![tuple0.clone(), tuple2.clone()])));
    assert!(Or(vec![tuple0.clone(), tuple2.clone()]).possibility_assignable_to(&tuple1));

    assert!(AnonymousStruct(vec![("a".to_string(), tuple0.clone())]).possibility_assignable_to(&AnonymousStruct(vec![("a".to_string(), tuple0.clone()), ("b".to_string(), tuple0.clone())])));
    assert!(!AnonymousStruct(vec![("a".to_string(), tuple0.clone())]).possibility_assignable_to(&AnonymousStruct(vec![("a".to_string(), Array(Box::new(tuple0.clone()))), ("b".to_string(), tuple0.clone())])));
    assert!(AnonymousStruct(vec![("a".to_string(), tuple0.clone()), ("b".to_string(), tuple1.clone())]).possibility_assignable_to(&AnonymousStruct(vec![("a".to_string(), tuple0.clone()), ("b".to_string(), tuple0.clone())])));
    assert!(AnonymousStruct(vec![("a".to_string(), tuple0.clone()), ("b".to_string(), tuple1.clone())]).possibility_assignable_to(&Or(vec![AnonymousStruct(vec![("a".to_string(), tuple0.clone()), ("b".to_string(), tuple0.clone())]), tuple0.clone()])));
    assert!(tuple2.possibility_assignable_to(&Or(vec![AnonymousStruct(vec![("a".to_string(), tuple0.clone()), ("b".to_string(), tuple0.clone())]), tuple0.clone()])));
}

#[test]
fn test_intersect_to_keeps_unwitnessed_positions_empty() {
    let a = Named { path: vec!["A".to_string()], generics_arguments: vec![] };
    // The only candidate tuple is too short to witness the source, so every
    // position of the result is an empty union.
    assert_eq!(
        Tuple(vec![Infer, Infer]).intersect_to(&Or(vec![Tuple(vec![a.clone()])])),
        Tuple(vec![Or(vec![]), Or(vec![])])
    );
}
