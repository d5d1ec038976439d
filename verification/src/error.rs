//! Diagnostics that stop lowering.

use vstd::prelude::*;

use crate::ast::TokenRange;
use crate::ir::{copy_strings, texts, IrType};

verus! {

/// Why an expression could not be lowered.
#[allow(inconsistent_fields)]
#[derive(Debug, PartialEq, Eq)]
pub enum LoweringError {
    UnsupportedExpr { kind: String, range: TokenRange },
    UnsupportedTypeInMain { ty: String, range: TokenRange },
    UnsupportedFieldType { schema: String, field: String, ty: String, range: TokenRange },
    UnresolvedVariable { name: String, range: TokenRange },
    UnknownStdlibMethod { name: String, arity: usize, range: TokenRange },
    StdlibArgTypeMismatch {
        name: String,
        arg_idx: usize,
        got: IrType,
        expected: IrType,
        range: TokenRange,
    },
    IfBranchTypeMismatch { then_ty: IrType, else_ty: IrType, range: TokenRange },
    ClosureAcrossBoundary { context: String, range: TokenRange },
    CyclicFieldDependency { schema: String, cycle: Vec<String>, range: TokenRange },
    EntryModuleNotFound { module: String },
    MissingMain { module: String },
    MultipleMainDirectives { entry_module: String, other_module: String },
    DuplicateSchemaAcrossFiles { name: String, first_module: String, second_module: String },
    /// An operand that must be an integer is of another type, or missing.
    ExpectedInt { got: Option<IrType>, range: TokenRange },
}

/// The mathematical value of a [`LoweringError`].
#[allow(inconsistent_fields)]
pub ghost enum ErrorView {
    UnsupportedExpr { kind: Seq<char>, range: TokenRange },
    UnsupportedTypeInMain { ty: Seq<char>, range: TokenRange },
    UnsupportedFieldType {
        schema: Seq<char>,
        field: Seq<char>,
        ty: Seq<char>,
        range: TokenRange,
    },
    UnresolvedVariable { name: Seq<char>, range: TokenRange },
    UnknownStdlibMethod { name: Seq<char>, arity: usize, range: TokenRange },
    StdlibArgTypeMismatch {
        name: Seq<char>,
        arg_idx: usize,
        got: IrType,
        expected: IrType,
        range: TokenRange,
    },
    IfBranchTypeMismatch { then_ty: IrType, else_ty: IrType, range: TokenRange },
    ClosureAcrossBoundary { context: Seq<char>, range: TokenRange },
    CyclicFieldDependency { schema: Seq<char>, cycle: Seq<Seq<char>>, range: TokenRange },
    EntryModuleNotFound { module: Seq<char> },
    MissingMain { module: Seq<char> },
    MultipleMainDirectives { entry_module: Seq<char>, other_module: Seq<char> },
    DuplicateSchemaAcrossFiles {
        name: Seq<char>,
        first_module: Seq<char>,
        second_module: Seq<char>,
    },
    ExpectedInt { got: Option<IrType>, range: TokenRange },
}

impl View for LoweringError {
    type V = ErrorView;

    open spec fn view(&self) -> ErrorView {
        match *self {
            LoweringError::UnsupportedExpr { kind, range } => ErrorView::UnsupportedExpr {
                kind: kind@,
                range,
            },
            LoweringError::UnsupportedTypeInMain {
                ty,
                range,
            } => ErrorView::UnsupportedTypeInMain { ty: ty@, range },
            LoweringError::UnsupportedFieldType {
                schema,
                field,
                ty,
                range,
            } => ErrorView::UnsupportedFieldType {
                schema: schema@,
                field: field@,
                ty: ty@,
                range,
            },
            LoweringError::UnresolvedVariable { name, range } => ErrorView::UnresolvedVariable {
                name: name@,
                range,
            },
            LoweringError::UnknownStdlibMethod {
                name,
                arity,
                range,
            } => ErrorView::UnknownStdlibMethod { name: name@, arity, range },
            LoweringError::StdlibArgTypeMismatch {
                name,
                arg_idx,
                got,
                expected,
                range,
            } => ErrorView::StdlibArgTypeMismatch { name: name@, arg_idx, got, expected, range },
            LoweringError::IfBranchTypeMismatch {
                then_ty,
                else_ty,
                range,
            } => ErrorView::IfBranchTypeMismatch { then_ty, else_ty, range },
            LoweringError::ClosureAcrossBoundary {
                context,
                range,
            } => ErrorView::ClosureAcrossBoundary { context: context@, range },
            LoweringError::CyclicFieldDependency {
                schema,
                cycle,
                range,
            } => ErrorView::CyclicFieldDependency {
                schema: schema@,
                cycle: texts(cycle@),
                range,
            },
            LoweringError::EntryModuleNotFound { module } => ErrorView::EntryModuleNotFound {
                module: module@,
            },
            LoweringError::MissingMain { module } => ErrorView::MissingMain { module: module@ },
            LoweringError::MultipleMainDirectives {
                entry_module,
                other_module,
            } => ErrorView::MultipleMainDirectives {
                entry_module: entry_module@,
                other_module: other_module@,
            },
            LoweringError::DuplicateSchemaAcrossFiles {
                name,
                first_module,
                second_module,
            } => ErrorView::DuplicateSchemaAcrossFiles {
                name: name@,
                first_module: first_module@,
                second_module: second_module@,
            },
            LoweringError::ExpectedInt { got, range } => ErrorView::ExpectedInt { got, range },
        }
    }
}

/// An [`LoweringError::UnsupportedExpr`] with a fixed message.
pub fn unsupported(kind: &str, range: TokenRange) -> (e: LoweringError)
    ensures
        e@ == (ErrorView::UnsupportedExpr { kind: kind@, range }),
{
    LoweringError::UnsupportedExpr { kind: kind.to_owned(), range }
}

/// The error, for another place in the source.
pub open spec fn placed(e: ErrorView, range: TokenRange) -> ErrorView {
    match e {
        ErrorView::UnsupportedExpr { kind, .. } => ErrorView::UnsupportedExpr { kind, range },
        ErrorView::UnsupportedTypeInMain { ty, .. } => ErrorView::UnsupportedTypeInMain {
            ty,
            range,
        },
        ErrorView::UnsupportedFieldType {
            schema,
            field,
            ty,
            ..
        } => ErrorView::UnsupportedFieldType {
            schema,
            field,
            ty,
            range,
        },
        ErrorView::UnresolvedVariable { name, .. } => ErrorView::UnresolvedVariable { name, range },
        ErrorView::UnknownStdlibMethod { name, arity, .. } => ErrorView::UnknownStdlibMethod {
            name,
            arity,
            range,
        },
        ErrorView::StdlibArgTypeMismatch {
            name,
            arg_idx,
            got,
            expected,
            ..
        } => ErrorView::StdlibArgTypeMismatch {
            name,
            arg_idx,
            got,
            expected,
            range,
        },
        ErrorView::IfBranchTypeMismatch {
            then_ty,
            else_ty,
            ..
        } => ErrorView::IfBranchTypeMismatch {
            then_ty,
            else_ty,
            range,
        },
        ErrorView::ClosureAcrossBoundary { context, .. } => ErrorView::ClosureAcrossBoundary {
            context,
            range,
        },
        ErrorView::CyclicFieldDependency { schema, cycle, .. } => ErrorView::CyclicFieldDependency {
            schema,
            cycle,
            range,
        },
        ErrorView::ExpectedInt { got, .. } => ErrorView::ExpectedInt { got, range },
        other => other,
    }
}

/// Copies an error for another place in the source.
pub fn place_error(e: &LoweringError, range: TokenRange) -> (r: LoweringError)
    ensures
        r@ == placed(e@, range),
{
    match e {
        LoweringError::UnsupportedExpr { kind, .. } => LoweringError::UnsupportedExpr {
            kind: kind.clone(),
            range,
        },
        LoweringError::UnsupportedTypeInMain { ty, .. } => LoweringError::UnsupportedTypeInMain {
            ty: ty.clone(),
            range,
        },
        LoweringError::UnsupportedFieldType {
            schema,
            field,
            ty,
            ..
        } => LoweringError::UnsupportedFieldType {
            schema: schema.clone(),
            field: field.clone(),
            ty: ty.clone(),
            range,
        },
        LoweringError::UnresolvedVariable { name, .. } => LoweringError::UnresolvedVariable {
            name: name.clone(),
            range,
        },
        LoweringError::UnknownStdlibMethod {
            name,
            arity,
            ..
        } => LoweringError::UnknownStdlibMethod {
            name: name.clone(),
            arity: *arity,
            range,
        },
        LoweringError::StdlibArgTypeMismatch {
            name,
            arg_idx,
            got,
            expected,
            ..
        } => LoweringError::StdlibArgTypeMismatch {
            name: name.clone(),
            arg_idx: *arg_idx,
            got: *got,
            expected: *expected,
            range,
        },
        LoweringError::IfBranchTypeMismatch {
            then_ty,
            else_ty,
            ..
        } => LoweringError::IfBranchTypeMismatch {
            then_ty: *then_ty,
            else_ty: *else_ty,
            range,
        },
        LoweringError::ClosureAcrossBoundary {
            context,
            ..
        } => LoweringError::ClosureAcrossBoundary {
            context: context.clone(),
            range,
        },
        LoweringError::CyclicFieldDependency {
            schema,
            cycle,
            ..
        } => LoweringError::CyclicFieldDependency {
            schema: schema.clone(),
            cycle: copy_strings(cycle),
            range,
        },
        LoweringError::ExpectedInt { got, .. } => LoweringError::ExpectedInt { got: *got, range },
        LoweringError::EntryModuleNotFound { module } => LoweringError::EntryModuleNotFound {
            module: module.clone(),
        },
        LoweringError::MissingMain { module } => LoweringError::MissingMain {
            module: module.clone(),
        },
        LoweringError::MultipleMainDirectives {
            entry_module,
            other_module,
        } => LoweringError::MultipleMainDirectives {
            entry_module: entry_module.clone(),
            other_module: other_module.clone(),
        },
        LoweringError::DuplicateSchemaAcrossFiles {
            name,
            first_module,
            second_module,
        } => LoweringError::DuplicateSchemaAcrossFiles {
            name: name.clone(),
            first_module: first_module.clone(),
            second_module: second_module.clone(),
        },
    }
}

} // verus!
