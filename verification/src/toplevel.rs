//! The top-level splitter: partitions a parsed top-level sequence into
//! statements, struct definitions and function definitions, attaching to
//! each definition the imports that appeared textually before it.

use vstd::prelude::*;

use crate::convert::{PositionRange, Type};

verus! {

/// An import path of the surface language.
#[derive(Debug, PartialEq)]
pub enum ImportPath {
    /// A single imported item.
    Item(String),
    /// A braced list of paths.
    List(Vec<ImportPath>),
    /// A path segment followed by the rest of the path.
    Child(String, Box<ImportPath>),
}

/// Specification-level value of an import path.
#[verifier::ext_equal]
pub enum ImportTree {
    Item(Seq<char>),
    List(Seq<ImportTree>),
    Child(Seq<char>, Box<ImportTree>),
}

/// Model of an import path.
pub open spec fn import_model(p: ImportPath) -> ImportTree
    decreases p,
{
    match p {
        ImportPath::Item(s) => ImportTree::Item(s@),
        ImportPath::List(l) => ImportTree::List(imports_model(l@)),
        ImportPath::Child(s, rest) => ImportTree::Child(s@, Box::new(import_model(*rest))),
    }
}

/// Model of a sequence of import paths.
pub open spec fn imports_model(s: Seq<ImportPath>) -> Seq<ImportTree>
    decreases s,
{
    if s.len() == 0 {
        Seq::empty()
    } else {
        seq![import_model(s[0])] + imports_model(s.drop_first())
    }
}

/// The model of a sequence of import paths, pointwise.
pub proof fn lemma_imports_model(s: Seq<ImportPath>)
    ensures
        imports_model(s).len() == s.len(),
        forall|i: int| 0 <= i < s.len() ==> #[trigger] imports_model(s)[i] == import_model(s[i]),
    decreases s,
{
    if s.len() > 0 {
        lemma_imports_model(s.drop_first());
    }
}

/// A statement of the surface language; the splitter reads only whether it
/// is an import.
#[derive(Debug, PartialEq)]
pub enum StatementItem {
    Import(ImportPath),
    Expression,
    Binding,
    Return,
    Continue,
    Break,
}

/// A surface statement with its source range.
#[derive(Debug, PartialEq)]
pub struct Statement {
    pub position: PositionRange,
    pub statement: StatementItem,
}

/// A surface struct definition.
#[derive(Debug, PartialEq)]
pub struct Struct {
    pub position: PositionRange,
    pub name: String,
    pub members: Vec<(String, Type)>,
}

/// A surface function definition.
#[derive(Debug, PartialEq)]
pub struct Function {
    pub position: PositionRange,
    pub name: String,
    pub arguments: Vec<(String, Type)>,
    pub return_type: Type,
}

/// A top-level item of a parsed program.
#[derive(Debug, PartialEq)]
pub enum KirlTopLevelStatement {
    Statement((PositionRange, Statement)),
    FunctionDefinition((PositionRange, Function)),
    StructDefinition((PositionRange, Struct)),
}

/// A definition paired with the imports visible at its point.
#[derive(Debug, PartialEq)]
pub struct WithImport<T> {
    pub import: ImportPath,
    pub item: T,
}

/// The partitioned top level: statements in source order, and struct and
/// function definitions each with their visible imports.
#[derive(Debug, PartialEq)]
pub struct KirlTopLevelItems {
    pub statements: Vec<Statement>,
    pub structs: Vec<WithImport<Struct>>,
    pub functions: Vec<WithImport<Function>>,
}

/// The expected partition of a top-level sequence, threading the imports
/// seen so far: the statements in order, and each definition paired with a
/// snapshot of the imports visible before it.
pub open spec fn spec_collect(s: Seq<KirlTopLevelStatement>, acc: Seq<ImportTree>) -> (
    Seq<Statement>,
    Seq<(Struct, Seq<ImportTree>)>,
    Seq<(Function, Seq<ImportTree>)>,
)
    decreases s,
{
    if s.len() == 0 {
        (Seq::empty(), Seq::empty(), Seq::empty())
    } else {
        match s[0] {
            KirlTopLevelStatement::Statement((_, st)) => {
                let acc2 = match st.statement {
                    StatementItem::Import(p) => acc.push(import_model(p)),
                    _ => acc,
                };
                let rest = spec_collect(s.drop_first(), acc2);
                (seq![st] + rest.0, rest.1, rest.2)
            },
            KirlTopLevelStatement::StructDefinition((_, d)) => {
                let rest = spec_collect(s.drop_first(), acc);
                (rest.0, seq![(d, acc)] + rest.1, rest.2)
            },
            KirlTopLevelStatement::FunctionDefinition((_, d)) => {
                let rest = spec_collect(s.drop_first(), acc);
                (rest.0, rest.1, seq![(d, acc)] + rest.2)
            },
        }
    }
}

/// Copies a vector of import paths, preserving each element's model.
fn clone_imports(v: &Vec<ImportPath>) -> (r: Vec<ImportPath>)
    ensures
        imports_model(r@) == imports_model(v@),
        r@.len() == v@.len(),
    decreases v@,
{
    let ghost vm = imports_model(v@);
    proof {
        lemma_imports_model(v@);
    }
    let mut out: Vec<ImportPath> = Vec::new();
    let mut i: usize = 0;
    while i < v.len()
        invariant
            0 <= i <= v.len(),
            vm == imports_model(v@),
            vm.len() == v.len(),
            forall|j: int| 0 <= j < v.len() ==> #[trigger] vm[j] == import_model(v@[j]),
            out@.len() == i,
            forall|j: int| 0 <= j < i ==> import_model(#[trigger] out@[j]) == import_model(v@[j]),
        decreases v.len() - i,
    {
        out.push(v[i].clone());
        i = i + 1;
    }
    proof {
        lemma_imports_model(out@);
        assert(imports_model(out@) =~= imports_model(v@));
    }
    out
}

impl Clone for ImportPath {
    /// Copies the path; the copy has the same model value.
    fn clone(&self) -> (r: Self)
        ensures
            import_model(r) == import_model(*self),
        decreases *self,
    {
        match self {
            ImportPath::Item(s) => ImportPath::Item(s.clone()),
            ImportPath::List(l) => ImportPath::List(clone_imports(l)),
            ImportPath::Child(s, rest) => ImportPath::Child(
                s.clone(),
                Box::new((**rest).clone()),
            ),
        }
    }
}

/// Partitions a parsed top-level sequence: statements keep their order,
/// and each struct or function definition is paired with the list of all
/// imports that appeared before it.
pub fn collect_top_level_item_with_imports(top_level_statements: Vec<KirlTopLevelStatement>) -> (r:
    KirlTopLevelItems)
    ensures
        ({
            let expected = spec_collect(top_level_statements@, Seq::empty());
            &&& r.statements@ == expected.0
            &&& r.structs@.len() == expected.1.len()
            &&& forall|k: int|
                0 <= k < expected.1.len() ==> (#[trigger] r.structs@[k]).item == expected.1[k].0
                    && import_model(r.structs@[k].import) == ImportTree::List(expected.1[k].1)
            &&& r.functions@.len() == expected.2.len()
            &&& forall|k: int|
                0 <= k < expected.2.len() ==> (#[trigger] r.functions@[k]).item == expected.2[k].0
                    && import_model(r.functions@[k].import) == ImportTree::List(expected.2[k].1)
        }),
{
    let ghost input = top_level_statements@;
    let mut rest = top_level_statements;
    let mut statements: Vec<Statement> = Vec::new();
    let mut structs: Vec<WithImport<Struct>> = Vec::new();
    let mut functions: Vec<WithImport<Function>> = Vec::new();
    let mut imports: Vec<ImportPath> = Vec::new();
    let ghost mut done_structs: Seq<(Struct, Seq<ImportTree>)> = Seq::empty();
    let ghost mut done_functions: Seq<(Function, Seq<ImportTree>)> = Seq::empty();
    proof {
        lemma_imports_model(imports@);
        assert(imports_model(imports@) =~= Seq::<ImportTree>::empty());
    }
    while rest.len() > 0
        invariant
            spec_collect(input, Seq::empty()).0 == statements@ + spec_collect(
                rest@,
                imports_model(imports@),
            ).0,
            spec_collect(input, Seq::empty()).1 == done_structs + spec_collect(
                rest@,
                imports_model(imports@),
            ).1,
            spec_collect(input, Seq::empty()).2 == done_functions + spec_collect(
                rest@,
                imports_model(imports@),
            ).2,
            structs@.len() == done_structs.len(),
            forall|k: int|
                0 <= k < done_structs.len() ==> (#[trigger] structs@[k]).item == done_structs[k].0
                    && import_model(structs@[k].import) == ImportTree::List(done_structs[k].1),
            functions@.len() == done_functions.len(),
            forall|k: int|
                0 <= k < done_functions.len() ==> (#[trigger] functions@[k]).item
                    == done_functions[k].0 && import_model(functions@[k].import)
                    == ImportTree::List(done_functions[k].1),
        decreases rest@.len(),
    {
        let ghost rest_before = rest@;
        let ghost accm = imports_model(imports@);
        let statement = rest.remove(0);
        proof {
            assert(rest@ =~= rest_before.drop_first());
        }
        match statement {
            KirlTopLevelStatement::Statement((_, normal_statement)) => {
                match &normal_statement.statement {
                    StatementItem::Import(import) => {
                        let ghost imports_before = imports@;
                        let copied = import.clone();
                        imports.push(copied);
                        proof {
                            lemma_imports_model(imports@);
                            lemma_imports_model(imports_before);
                            assert(imports@.drop_last() =~= imports_before);
                            assert forall|j: int|
                                0 <= j < imports_before.len() implies #[trigger] imports_model(
                                imports@,
                            )[j] == accm[j] by {
                                assert(imports@[j] == imports_before[j]);
                            }
                            assert(imports_model(imports@) =~= accm.push(
                                import_model(rest_before[0]->Statement_0.1.statement->Import_0),
                            ));
                        }
                    },
                    _ => {},
                }
                statements.push(normal_statement);
            },
            KirlTopLevelStatement::StructDefinition((_, struct_definition)) => {
                let snapshot = clone_imports(&imports);
                structs.push(
                    WithImport { import: ImportPath::List(snapshot), item: struct_definition },
                );
                proof {
                    done_structs = done_structs + seq![
                        (rest_before[0]->StructDefinition_0.1, imports_model(imports@)),
                    ];
                    assert(structs@.last().item == rest_before[0]->StructDefinition_0.1);
                }
            },
            KirlTopLevelStatement::FunctionDefinition((_, function_definition)) => {
                let snapshot = clone_imports(&imports);
                functions.push(
                    WithImport { import: ImportPath::List(snapshot), item: function_definition },
                );
                proof {
                    done_functions = done_functions + seq![
                        (rest_before[0]->FunctionDefinition_0.1, imports_model(imports@)),
                    ];
                }
            },
        }
        proof {
            assert(spec_collect(input, Seq::empty()).0 =~= statements@ + spec_collect(
                rest@,
                imports_model(imports@),
            ).0);
            assert(spec_collect(input, Seq::empty()).1 =~= done_structs + spec_collect(
                rest@,
                imports_model(imports@),
            ).1);
            assert(spec_collect(input, Seq::empty()).2 =~= done_functions + spec_collect(
                rest@,
                imports_model(imports@),
            ).2);
        }
    }
    proof {
        assert(spec_collect(rest@, imports_model(imports@)).0 =~= Seq::<Statement>::empty());
        assert(statements@ + Seq::<Statement>::empty() =~= statements@);
        assert(done_structs + Seq::<(Struct, Seq<ImportTree>)>::empty() =~= done_structs);
        assert(done_functions + Seq::<(Function, Seq<ImportTree>)>::empty() =~= done_functions);
    }
    KirlTopLevelItems { statements, structs, functions }
}

} // verus!
