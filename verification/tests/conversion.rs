use kirl_semantic_analyzer::{HIRStatement, HIRStatementList, SearchPaths};
use kirl_semantic_analyzer::{
    collect_top_level_item_with_imports, AnonymousStructType, CharacterPosition, Function,
    FunctionType, HIRType, HIRTypeConvertError, ImportPath, KirlTopLevelStatement, NamedType,
    Pattern, PositionRange, Statement, StatementItem, StatementReachable, Struct, StructName, Type,
};

fn span() -> PositionRange {
    PositionRange {
        start: CharacterPosition { line: 0, column: 0 },
        end: CharacterPosition { line: 0, column: 0 },
    }
}

#[test]
fn test_convert_surface_types() {
    assert_eq!(HIRType::try_from(&Type::Unit), Ok(HIRType::Tuple(vec![])));
    assert_eq!(HIRType::try_from(&Type::Unreachable(span())), Ok(HIRType::Unreachable));
    let named = Type::NamedType(NamedType {
        position: span(),
        path: vec!["Number".to_string()],
        generics_arguments: vec![],
    });
    assert_eq!(
        HIRType::try_from(&named),
        Ok(HIRType::Named { path: vec!["Number".to_string()], generics_arguments: vec![] })
    );
    let tuple = Type::Tuple(span(), vec![Type::Unit, Type::Unreachable(span())]);
    assert_eq!(
        HIRType::try_from(&tuple),
        Ok(HIRType::Tuple(vec![HIRType::Tuple(vec![]), HIRType::Unreachable]))
    );
    let array = Type::Array(span(), Box::new(Type::Unit));
    assert_eq!(HIRType::try_from(&array), Ok(HIRType::Array(Box::new(HIRType::Tuple(vec![])))));
    let function = Type::Function(FunctionType {
        position: span(),
        argument: vec![Type::Unit],
        result: Box::new(Type::Unreachable(span())),
    });
    assert_eq!(
        HIRType::try_from(&function),
        Ok(HIRType::Function {
            arguments: vec![HIRType::Tuple(vec![])],
            result: Box::new(HIRType::Unreachable),
        })
    );
    let union = Type::Or(span(), vec![Type::Unit, Type::Unreachable(span())]);
    assert_eq!(
        HIRType::try_from(&union),
        Ok(HIRType::Or(vec![HIRType::Tuple(vec![]), HIRType::Unreachable]))
    );
}

#[test]
fn test_convert_orders_members_by_name() {
    let anonymous = Type::AnonymousStruct(AnonymousStructType {
        position: span(),
        members: vec![("b".to_string(), Type::Unreachable(span())), ("a".to_string(), Type::Unit)],
    });
    assert_eq!(
        HIRType::try_from(&anonymous),
        Ok(HIRType::AnonymousStruct(vec![
            ("a".to_string(), HIRType::Tuple(vec![])),
            ("b".to_string(), HIRType::Unreachable),
        ]))
    );
}

#[test]
fn test_convert_duplicated_member() {
    let anonymous = Type::AnonymousStruct(AnonymousStructType {
        position: span(),
        members: vec![("a".to_string(), Type::Unit), ("a".to_string(), Type::Unit)],
    });
    assert_eq!(
        HIRType::try_from(&anonymous),
        Err(HIRTypeConvertError::DuplicatedMember("a".to_string()))
    );
    let nested = Type::Tuple(
        span(),
        vec![Type::AnonymousStruct(AnonymousStructType {
            position: span(),
            members: vec![
                ("x".to_string(), Type::Unit),
                ("y".to_string(), Type::Unit),
                ("x".to_string(), Type::Unit),
            ],
        })],
    );
    assert_eq!(
        HIRType::try_from(&nested),
        Err(HIRTypeConvertError::DuplicatedMember("x".to_string()))
    );
}

#[test]
fn test_convert_variable_pattern_is_infer() {
    assert_eq!(HIRType::try_from_pattern(&Pattern::Variable("x".to_string())), Ok(HIRType::Infer));
    let tuple = Pattern::Tuple(vec![
        Pattern::Variable("x".to_string()),
        Pattern::Variable("y".to_string()),
    ]);
    assert_eq!(
        HIRType::try_from_pattern(&tuple),
        Ok(HIRType::Tuple(vec![HIRType::Infer, HIRType::Infer]))
    );
    let named = Pattern::Struct(
        StructName::Named(NamedType {
            position: span(),
            path: vec!["Point".to_string()],
            generics_arguments: vec![],
        }),
        vec![("x".to_string(), Pattern::Variable("x".to_string()))],
    );
    assert_eq!(
        HIRType::try_from_pattern(&named),
        Ok(HIRType::Named { path: vec!["Point".to_string()], generics_arguments: vec![] })
    );
    let anonymous = Pattern::Struct(
        StructName::Anonymous,
        vec![
            ("value".to_string(), Pattern::Variable("v".to_string())),
            ("value".to_string(), Pattern::Variable("w".to_string())),
        ],
    );
    assert_eq!(
        HIRType::try_from_pattern(&anonymous),
        Err(HIRTypeConvertError::DuplicatedMember("value".to_string()))
    );
}

fn plain_statement(item: StatementItem) -> KirlTopLevelStatement {
    KirlTopLevelStatement::Statement((span(), Statement { position: span(), statement: item }))
}

fn struct_definition(name: &str) -> Struct {
    Struct { position: span(), name: name.to_string(), members: vec![] }
}

fn function_definition(name: &str) -> Function {
    Function {
        position: span(),
        name: name.to_string(),
        arguments: vec![],
        return_type: Type::Unit,
    }
}

#[test]
fn test_collect_top_level_item_with_imports() {
    let input = vec![
        plain_statement(StatementItem::Import(ImportPath::Item("array".to_string()))),
        KirlTopLevelStatement::StructDefinition((span(), struct_definition("S"))),
        plain_statement(StatementItem::Expression),
        plain_statement(StatementItem::Import(ImportPath::Item("deque".to_string()))),
        KirlTopLevelStatement::FunctionDefinition((span(), function_definition("f"))),
    ];
    let collected = collect_top_level_item_with_imports(input);
    assert_eq!(collected.statements.len(), 3);
    assert_eq!(
        collected.statements[0].statement,
        StatementItem::Import(ImportPath::Item("array".to_string()))
    );
    assert_eq!(collected.statements[1].statement, StatementItem::Expression);
    assert_eq!(collected.structs.len(), 1);
    assert_eq!(collected.structs[0].item, struct_definition("S"));
    assert_eq!(
        collected.structs[0].import,
        ImportPath::List(vec![ImportPath::Item("array".to_string())])
    );
    assert_eq!(collected.functions.len(), 1);
    assert_eq!(collected.functions[0].item, function_definition("f"));
    assert_eq!(
        collected.functions[0].import,
        ImportPath::List(vec![
            ImportPath::Item("array".to_string()),
            ImportPath::Item("deque".to_string()),
        ])
    );
}

#[test]
fn test_statement_reachable_combine() {
    let mut flag = StatementReachable::UnreachableByReturn;
    flag.combine(StatementReachable::Reachable);
    assert_eq!(flag, StatementReachable::Reachable);

    let mut flag = StatementReachable::Reachable;
    flag.combine(StatementReachable::UnreachableByBreak(Some("x".to_string())));
    assert_eq!(flag, StatementReachable::Reachable);

    let mut flag = StatementReachable::UnreachableByBreak(Some("x".to_string()));
    flag.combine(StatementReachable::UnreachableByBreak(Some("y".to_string())));
    assert_eq!(flag, StatementReachable::UnreachableByBreak(None));

    let mut flag = StatementReachable::UnreachableByReturn;
    flag.combine(StatementReachable::UnreachableByBreak(Some("x".to_string())));
    assert_eq!(flag, StatementReachable::UnreachableByBreak(None));

    let mut flag = StatementReachable::UnreachableByReturn;
    flag.combine(StatementReachable::UnreachableByReturn);
    assert_eq!(flag, StatementReachable::UnreachableByReturn);
}

#[test]
fn test_apply_generics_type_argument() {
    let number = HIRType::Named { path: vec!["Number".to_string()], generics_arguments: vec![] };
    assert_eq!(
        HIRType::GenericsTypeArgument(0).apply_generics_type_argument(&[number.clone()]),
        Some(number.clone())
    );
    assert_eq!(HIRType::GenericsTypeArgument(1).apply_generics_type_argument(&[number.clone()]), None);
    let composite = HIRType::Tuple(vec![
        HIRType::GenericsTypeArgument(0),
        HIRType::Array(Box::new(HIRType::GenericsTypeArgument(1))),
    ]);
    assert_eq!(
        composite.apply_generics_type_argument(&[number.clone(), HIRType::Infer]),
        Some(HIRType::Tuple(vec![number.clone(), HIRType::Array(Box::new(HIRType::Infer))]))
    );
    assert_eq!(composite.apply_generics_type_argument(&[number.clone()]), None);
    assert_eq!(HIRType::Infer.apply_generics_type_argument(&[]), Some(HIRType::Infer));
    assert_eq!(HIRType::Unreachable.apply_generics_type_argument(&[]), Some(HIRType::Unreachable));
}

#[test]
fn test_infer_temporary_materializes_infer() {
    assert_eq!(HIRType::Infer.infer_temporary(), HIRType::Tuple(vec![]));
    let nested = HIRType::Named { path: vec!["Option".to_string()], generics_arguments: vec![HIRType::Infer] };
    assert_eq!(
        nested.infer_temporary(),
        HIRType::Named { path: vec!["Option".to_string()], generics_arguments: vec![HIRType::Tuple(vec![])] }
    );
    let composite = HIRType::Function { arguments: vec![HIRType::Infer], result: Box::new(HIRType::Infer) };
    assert_eq!(
        composite.infer_temporary(),
        HIRType::Function { arguments: vec![HIRType::Tuple(vec![])], result: Box::new(HIRType::Tuple(vec![])) }
    );
}

#[test]
fn test_normalize_edges() {
    // A union of a value with itself and with `HIRType::Unreachable` collapses.
    assert_eq!(HIRType::Or(vec![HIRType::Tuple(vec![]), HIRType::Unreachable]).into_normalized(), HIRType::Tuple(vec![]));
    assert_eq!(HIRType::Or(vec![HIRType::Unreachable]).into_normalized(), HIRType::Unreachable);
    assert_eq!(HIRType::Or(vec![]).into_normalized(), HIRType::Or(vec![]));
    // Nested unions flatten and deduplicate.
    assert_eq!(
        HIRType::Or(vec![HIRType::Or(vec![HIRType::Tuple(vec![]), HIRType::Unreachable]), HIRType::Tuple(vec![])]).into_normalized(),
        HIRType::Tuple(vec![])
    );
    // Children of other composites are normalized in place.
    assert_eq!(
        HIRType::Named {
            path: vec!["Option".to_string()],
            generics_arguments: vec![HIRType::Or(vec![HIRType::Tuple(vec![]), HIRType::Tuple(vec![])])],
        }
            .into_normalized(),
        HIRType::Named { path: vec!["Option".to_string()], generics_arguments: vec![HIRType::Tuple(vec![])] }
    );
    // In-place normalization matches the by-value form.
    let mut value = HIRType::Or(vec![HIRType::Tuple(vec![]), HIRType::Tuple(vec![])]);
    value.normalize();
    assert_eq!(value, HIRType::Tuple(vec![]));
}

#[test]
fn test_convert_error_message() {
    let error = HIRTypeConvertError::DuplicatedMember("a".to_string());
    assert_eq!(error.to_string(), "member \"a\" is duplicated.");
}

#[test]
fn test_statement_list_round_trip() {
    let statements: Vec<HIRStatement<SearchPaths>> = vec![HIRStatement::Unreachable];
    let list = HIRStatementList::from(statements);
    assert_eq!(list, HIRStatementList(vec![HIRStatement::Unreachable]));
    let back: Vec<HIRStatement<SearchPaths>> = Vec::from(list);
    assert_eq!(back, vec![HIRStatement::Unreachable]);
}
