use kirl_semantic_analyzer::HIRType::{AnonymousStruct, Array, Function, GenericsTypeArgument, Infer, Named, Or, Tuple, Unreachable};
use kirl_semantic_analyzer::{
    get_ordinal, statements_to_string, HIRExpression, HIRStatement, HIRType, Immediate, ItemId,
    PositionRange, CharacterPosition, ReferenceAccess, ResolvedItems, SearchPaths, Variable,
};

fn span() -> PositionRange {
    PositionRange {
        start: CharacterPosition { line: 0, column: 0 },
        end: CharacterPosition { line: 0, column: 0 },
    }
}

#[test]
fn test_type_to_string_spellings() {
    assert_eq!(Infer.to_string(), "$Infer");
    assert_eq!(Unreachable.to_string(), "!");
    assert_eq!(GenericsTypeArgument(3).to_string(), "$T3");
    assert_eq!(GenericsTypeArgument(42).to_string(), "$T42");
    assert_eq!(
        Named { path: vec!["a".to_string(), "b".to_string(), "c".to_string()], generics_arguments: vec![] }.to_string(),
        "a::b::c"
    );
    assert_eq!(
        Named { path: vec!["Option".to_string()], generics_arguments: vec![Infer, Unreachable] }.to_string(),
        "Option::<$Infer, !>"
    );
    assert_eq!(Tuple(vec![]).to_string(), "()");
    assert_eq!(Tuple(vec![Infer, Unreachable]).to_string(), "($Infer, !)");
    assert_eq!(Array(Box::new(Infer)).to_string(), "[$Infer]");
    assert_eq!(
        Function { arguments: vec![Infer, Tuple(vec![])], result: Box::new(Unreachable) }.to_string(),
        "($Infer, ())->!"
    );
    assert_eq!(
        AnonymousStruct(vec![("a".to_string(), Infer), ("b".to_string(), Tuple(vec![]))]).to_string(),
        "#{a: $Infer, b: ()}"
    );
    assert_eq!(Or(vec![Infer, Tuple(vec![])]).to_string(), "($Infer | ())");
}

#[test]
fn test_get_ordinal_rules() {
    assert_eq!(get_ordinal(0), "th");
    assert_eq!(get_ordinal(1), "st");
    assert_eq!(get_ordinal(2), "nd");
    assert_eq!(get_ordinal(3), "rd");
    assert_eq!(get_ordinal(4), "th");
    assert_eq!(get_ordinal(10), "th");
    assert_eq!(get_ordinal(11), "th");
    assert_eq!(get_ordinal(12), "th");
    assert_eq!(get_ordinal(13), "th");
    assert_eq!(get_ordinal(19), "th");
    assert_eq!(get_ordinal(21), "st");
    assert_eq!(get_ordinal(22), "nd");
    assert_eq!(get_ordinal(23), "rd");
    assert_eq!(get_ordinal(111), "st");
}

#[test]
fn test_variable_to_string() {
    let unnamed: Variable<SearchPaths> = Variable::Unnamed(42);
    assert_eq!(unnamed.to_string(), "$42");
    let single = Variable::Named(
        span(),
        Vec::new(),
        SearchPaths(vec![vec!["std".to_string(), "io".to_string(), "println".to_string()]]),
    );
    assert_eq!(single.to_string(), "std::io::println");
    let several = Variable::Named(
        span(),
        Vec::new(),
        SearchPaths(vec![
            vec!["array".to_string(), "fill".to_string()],
            vec!["std".to_string(), "array".to_string(), "fill".to_string()],
        ]),
    );
    assert_eq!(several.to_string(), "$either(array::fill, std::array::fill)");
}

#[test]
fn test_expression_to_string() {
    let call: HIRExpression<SearchPaths> = HIRExpression::CallFunction {
        function: Variable::Unnamed(1),
        arguments: vec![Variable::Unnamed(2), Variable::Unnamed(3)],
    };
    assert_eq!(call.to_string(), "$1($2, $3)");
    let num: HIRExpression<SearchPaths> = HIRExpression::Immediate(Immediate::Number("10".to_string()));
    assert_eq!(num.to_string(), "10");
    let text: HIRExpression<SearchPaths> = HIRExpression::Immediate(Immediate::String("hello".to_string()));
    assert_eq!(text.to_string(), "\"hello\"");
    let member: HIRExpression<SearchPaths> = HIRExpression::AccessMember {
        variable: Variable::Unnamed(0),
        member: "value".to_string(),
    };
    assert_eq!(member.to_string(), "$0.value");
    let slot: HIRExpression<SearchPaths> = HIRExpression::AccessTupleItem {
        variable: Variable::Unnamed(0),
        index: 2,
    };
    assert_eq!(slot.to_string(), "$0.2nd");
    let assign: HIRExpression<SearchPaths> = HIRExpression::Assign {
        variable: ReferenceAccess::TupleItem(Variable::Unnamed(5), 1),
        value: Variable::Unnamed(6),
    };
    assert_eq!(assign.to_string(), "$5.1st = $6");
    let ctor: HIRExpression<SearchPaths> = HIRExpression::ConstructStruct(vec![
        ("a".to_string(), Variable::Unnamed(1)),
        ("b".to_string(), Variable::Unnamed(2)),
    ]);
    assert_eq!(ctor.to_string(), "#{a: $1, b: $2}");
    let tuple: HIRExpression<SearchPaths> = HIRExpression::ConstructTuple(vec![Variable::Unnamed(1)]);
    assert_eq!(tuple.to_string(), "($1)");
    let array: HIRExpression<SearchPaths> = HIRExpression::ConstructArray(vec![]);
    assert_eq!(array.to_string(), "[]");
}

#[test]
fn test_block_indentation() {
    let branch: HIRExpression<SearchPaths> = HIRExpression::If {
        condition: Variable::Unnamed(1),
        then: (vec![HIRStatement::Break(None)], Variable::Unnamed(2)),
        other: (vec![], Variable::Unnamed(2)),
    };
    assert_eq!(branch.to_string(), "if $1 {\n\tbreak;\n\t$2\n} else {\n\t$2\n}");
    let looped: HIRExpression<SearchPaths> = HIRExpression::Loop(vec![HIRStatement::Continue(None)]);
    assert_eq!(looped.to_string(), "loop {\n\tcontinue;\n}");
    let bound: HIRExpression<SearchPaths> = HIRExpression::IfLet {
        condition_binding: 7,
        pattern_type: HIRType::Infer,
        condition: Variable::Unnamed(3),
        then: (vec![], Variable::Unnamed(4)),
        other: (vec![HIRStatement::Return(Variable::Unnamed(5))], Variable::Unnamed(4)),
    };
    assert_eq!(
        bound.to_string(),
        "if let $7: $Infer = $3 {\n\t$4\n} else {\n\treturn $5;\n\t$4\n}"
    );
}

#[test]
fn test_statements_to_string_joins_lines() {
    let statements: Vec<HIRStatement<SearchPaths>> = vec![
        HIRStatement::Binding {
            variable_id: 0,
            variable_type: HIRType::Infer,
            expression: HIRExpression::Immediate(Immediate::Number("10".to_string())),
        },
        HIRStatement::Return(Variable::Unnamed(0)),
        HIRStatement::Unreachable,
        HIRStatement::Continue(Some("outer".to_string())),
        HIRStatement::Break(Some("outer".to_string())),
    ];
    assert_eq!(
        statements_to_string(&statements),
        "let $0: $Infer = 10;\nreturn $0;\nunreachable\ncontinue outer;\nbreak outer;"
    );
}

#[test]
fn test_item_id_to_string() {
    let id = ItemId {
        bytes: [
            0x12, 0x34, 0x56, 0x78, 0x9a, 0xbc, 0xde, 0xf0, 0x11, 0x22, 0x33, 0x44, 0x55, 0x66,
            0x77, 0x88,
        ],
    };
    assert_eq!(id.to_string(), "12345678-9abc-def0-1122-334455667788");
}

#[test]
fn test_resolved_items_to_string() {
    let id = ItemId { bytes: [0u8; 16] };
    let single = Variable::Named(
        span(),
        Vec::new(),
        ResolvedItems(vec![(id, HIRType::Tuple(vec![]))]),
    );
    assert_eq!(single.to_string(), "00000000-0000-0000-0000-000000000000: ()");
    let pair = Variable::Named(
        span(),
        Vec::new(),
        ResolvedItems(vec![(id, HIRType::Infer), (id, HIRType::Unreachable)]),
    );
    assert_eq!(
        pair.to_string(),
        "$either(00000000-0000-0000-0000-000000000000: $Infer, 00000000-0000-0000-0000-000000000000: !)"
    );
}
