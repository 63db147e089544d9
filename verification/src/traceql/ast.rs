//! The syntax tree of TraceQL: spanset filters and field expressions.
use crate::text::owned;
use vstd::prelude::*;

verus! {

/// Field comparison operator.
#[derive(Debug, Clone, Copy, PartialEq, Eq, Structural)]
pub enum FieldOp {
    /// `=`
    Eq,
    /// `!=`
    Neq,
    /// `=~`
    Re,
    /// `!~`
    Nre,
    /// `>`
    Gt,
    /// `>=`
    Gte,
    /// `<`
    Lt,
    /// `<=`
    Lte,
}

/// Attribute scope.
#[derive(Debug, Clone, Copy, PartialEq, Eq, Structural)]
pub enum AttrScope {
    /// Bare `.attr` (resource-or-span, unscoped).
    Unscoped,
    /// `span.`
    Span,
    /// `resource.`
    Resource,
    /// `event.`
    Event,
    /// `instrumentation.`
    Instrumentation,
    /// `link.`
    Link,
    /// `parent.`
    Parent,
}

/// A field: an intrinsic, a scoped attribute, or a literal value.
#[derive(Debug, PartialEq)]
pub enum Field {
    /// Intrinsic (`name`, `duration`, `status`, `kind`, …).
    Intrinsic(String),
    /// Scoped/unscoped attribute reference.
    Attr {
        /// The scope.
        scope: AttrScope,
        /// Dotted attribute path (raw key, dots preserved).
        path: String,
    },
    /// String literal.
    Str(String),
    /// Numeric literal, as it is written.
    Num(String),
    /// Boolean literal.
    Bool(bool),
    /// Duration literal, as it is written (e.g. `5ms`).
    Duration(String),
}

/// A field, as a value.
pub enum FieldView {
    Intrinsic(Seq<char>),
    Attr { scope: AttrScope, path: Seq<char> },
    Str(Seq<char>),
    Num(Seq<char>),
    Bool(bool),
    Duration(Seq<char>),
}

impl View for Field {
    type V = FieldView;

    open spec fn view(&self) -> FieldView {
        match self {
            Field::Intrinsic(n) => FieldView::Intrinsic(n@),
            Field::Attr { scope, path } => FieldView::Attr { scope: *scope, path: path@ },
            Field::Str(s) => FieldView::Str(s@),
            Field::Num(s) => FieldView::Num(s@),
            Field::Bool(b) => FieldView::Bool(*b),
            Field::Duration(s) => FieldView::Duration(s@),
        }
    }
}

/// A field expression inside a spanset `{ … }`.
#[derive(Debug, PartialEq)]
pub enum FieldExpr {
    /// `lhs op rhs`.
    Cmp {
        /// Left field.
        lhs: Box<Field>,
        /// Operator.
        op: FieldOp,
        /// Right field (usually a literal).
        rhs: Box<Field>,
    },
    /// `a && b`.
    And(Box<FieldExpr>, Box<FieldExpr>),
    /// `a || b`.
    Or(Box<FieldExpr>, Box<FieldExpr>),
    /// A bare field (existence / truthiness).
    Field(Box<Field>),
}

/// A field expression, as a value.
pub enum FieldExprView {
    Cmp { lhs: FieldView, op: FieldOp, rhs: FieldView },
    And(Box<FieldExprView>, Box<FieldExprView>),
    Or(Box<FieldExprView>, Box<FieldExprView>),
    Field(FieldView),
}

/// The value of a field expression.
pub open spec fn field_expr_view(e: FieldExpr) -> FieldExprView
    decreases e,
{
    match e {
        FieldExpr::Cmp { lhs, op, rhs } => FieldExprView::Cmp { lhs: (*lhs)@, op, rhs: (*rhs)@ },
        FieldExpr::And(a, b) => FieldExprView::And(
            Box::new(field_expr_view(*a)),
            Box::new(field_expr_view(*b)),
        ),
        FieldExpr::Or(a, b) => FieldExprView::Or(
            Box::new(field_expr_view(*a)),
            Box::new(field_expr_view(*b)),
        ),
        FieldExpr::Field(f) => FieldExprView::Field((*f)@),
    }
}

/// Spanset-combining operator.
#[derive(Debug, Clone, Copy, PartialEq, Eq, Structural)]
pub enum SpansetOp {
    /// `&&`
    And,
    /// `||`
    Or,
    /// `>>` (descendant).
    Descendant,
    /// `<<` (ancestor).
    Ancestor,
}

/// A spanset expression: a `{ … }` filter, or two combined by a spanset op.
#[derive(Debug, PartialEq)]
pub enum SpansetExpr {
    /// `{ field-expr }` or `{}` (None = match all).
    Filter(Option<FieldExpr>),
    /// `lhs op rhs`.
    Op {
        /// Left spanset.
        lhs: Box<SpansetExpr>,
        /// Operator.
        op: SpansetOp,
        /// Right spanset.
        rhs: Box<SpansetExpr>,
    },
}

/// A spanset expression, as a value.
pub enum SpansetView {
    Filter(Option<FieldExprView>),
    Op { lhs: Box<SpansetView>, op: SpansetOp, rhs: Box<SpansetView> },
}

/// The value of a spanset expression.
pub open spec fn spanset_view(e: SpansetExpr) -> SpansetView
    decreases e,
{
    match e {
        SpansetExpr::Filter(f) => SpansetView::Filter(
            match f {
                Some(fe) => Some(field_expr_view(fe)),
                None => None,
            },
        ),
        SpansetExpr::Op { lhs, op, rhs } => SpansetView::Op {
            lhs: Box::new(spanset_view(*lhs)),
            op,
            rhs: Box::new(spanset_view(*rhs)),
        },
    }
}

impl Field {
    /// Another field with the same value.
    pub fn copy(&self) -> (r: Field)
        ensures
            r@ == self@,
    {
        match self {
            Field::Intrinsic(n) => Field::Intrinsic(owned(n.as_str())),
            Field::Attr { scope, path } => Field::Attr {
                scope: *scope,
                path: owned(path.as_str()),
            },
            Field::Str(s) => Field::Str(owned(s.as_str())),
            Field::Num(s) => Field::Num(owned(s.as_str())),
            Field::Bool(b) => Field::Bool(*b),
            Field::Duration(s) => Field::Duration(owned(s.as_str())),
        }
    }
}

} // verus!
