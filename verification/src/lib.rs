//! Semantic-analysis core of a small procedural language: the structural type
//! lattice (`HIRType`) with subtyping, normalization, generic substitution and
//! intersection, the flat typed HIR (statements, expressions, variables), the
//! conversions from surface types and patterns, the canonical pretty-printer,
//! and the top-level splitter that attaches visible imports to definitions.

pub mod apply;
pub mod convert;
pub mod hir;
pub mod intersect;
pub mod model;
pub mod norm_laws;
pub mod norm_meaning;
pub mod normalize;
pub mod order;
pub mod possible;
pub mod printer;
pub mod project;
pub mod subtype;
pub mod toplevel;
pub mod types;

pub use convert::AnonymousStructType;
pub use convert::CharacterPosition;
pub use convert::FunctionType;
pub use convert::NamedType;
pub use convert::Pattern;
pub use convert::PositionRange;
pub use convert::StructName;
pub use convert::Type;
pub use hir::HIRExpression;
pub use hir::HIRStatement;
pub use hir::HIRStatementList;
pub use hir::Immediate;
pub use hir::ItemId;
pub use hir::ReferenceAccess;
pub use hir::ResolvedItems;
pub use hir::SearchPaths;
pub use hir::StatementReachable;
pub use hir::Variable;
pub use printer::get_ordinal;
pub use printer::statements_to_string;
pub use printer::ReferenceRender;
pub use toplevel::collect_top_level_item_with_imports;
pub use toplevel::ImportPath;
pub use toplevel::KirlTopLevelItems;
pub use toplevel::KirlTopLevelStatement;
pub use toplevel::Function;
pub use toplevel::Statement;
pub use toplevel::Struct;
pub use toplevel::StatementItem;
pub use toplevel::WithImport;
pub use types::HIRType;
pub use types::HIRTypeConvertError;
