//! The parsed story: the tree that the parser builds and the analysis passes
//! read.
use vstd::prelude::*;

use crate::source::SourceSpan;
use crate::text::{concat3, owned, str_eq};

verus! {

#[derive(Debug, Clone, Copy, PartialEq, Eq, Structural)]
pub enum PrimitiveType {
    Int,
    Float,
    Bool,
    String,
    DivertTarget,
}

/// A `module::symbol` reference, with the span of its module part.
#[derive(Debug, PartialEq, Eq)]
pub struct QualifiedName {
    pub module: String,
    pub symbol: String,
    pub module_span: SourceSpan,
}

/// The key type of a `Dict`.
#[derive(Debug, Clone, Copy, PartialEq, Eq, Structural)]
pub enum DictKeyType {
    String,
    Int,
}

/// A declared type.
#[derive(Debug, PartialEq, Eq)]
pub enum TypeName {
    Primitive(PrimitiveType),
    Struct(String),
    QualifiedStruct(QualifiedName),
    Array(Box<TypeName>),
    Dict { key_type: DictKeyType, value_type: Box<TypeName> },
    Void,
}

/// The key of one entry of a `Dict` literal.
#[derive(Debug, PartialEq, Eq)]
pub enum DictKey {
    String(String),
    Int(i64),
}

/// One `key: value` entry of a `Dict` literal.
#[derive(Debug, PartialEq, Eq)]
pub struct DictLiteralEntry {
    pub key: DictKey,
    pub value: Expression,
}

#[derive(Debug, Clone, Copy, PartialEq, Eq, Structural)]
pub enum UnaryOperator {
    Negate,
    Not,
}

#[derive(Debug, Clone, Copy, PartialEq, Eq, Structural)]
pub enum BinaryOperator {
    And,
    AndSymbol,
    Or,
    OrSymbol,
    Equals,
    NotEquals,
    GreaterThan,
    LessThan,
    GreaterThanOrEquals,
    LessThanOrEquals,
    Has,
    Hasnt,
    Add,
    Subtract,
    Multiply,
    Divide,
    Modulo,
}

/// One `field: value` entry of a struct literal.
#[derive(Debug, PartialEq, Eq)]
pub struct StructLiteralField {
    pub name: String,
    pub expression: Expression,
}

/// An expression. A float literal keeps its source text.
#[derive(Debug, PartialEq, Eq)]
pub enum Expression {
    String(String),
    NumberInt(i64),
    NumberFloat(String),
    NumberBool(bool),
    VariableReference(String),
    QualifiedReference(QualifiedName),
    DivertTarget(String),
    FunctionCall { name: String, args: Vec<Expression> },
    QualifiedFunctionCall { name: QualifiedName, args: Vec<Expression> },
    ArrayLiteral(Vec<Expression>),
    StructLiteral(Vec<StructLiteralField>),
    DictLiteral(Vec<DictLiteralEntry>),
    TypedStructLiteral { literal_type: TypeName, fields: Vec<StructLiteralField> },
    FieldAccess { base: Box<Expression>, field: String },
    IndexAccess { base: Box<Expression>, index: Box<Expression> },
    Binary { operator: BinaryOperator, left: Box<Expression>, right: Box<Expression> },
    Unary { operator: UnaryOperator, expression: Box<Expression> },
    MultipleCondition(Vec<Expression>),
}

/// Where a divert goes.
#[derive(Debug, PartialEq, Eq)]
pub enum DivertTarget {
    Done,
    End,
    Path(String),
    QualifiedPath(QualifiedName),
    /// `-> {expression}`: a target computed at run time.
    Dynamic(Expression),
}

/// The place an assignment writes.
#[derive(Debug, PartialEq, Eq)]
pub enum AssignmentTarget {
    Variable(String),
    QualifiedVariable(QualifiedName),
    FieldAccess { base: Box<AssignmentTarget>, field: String },
    IndexAccess { base: Box<AssignmentTarget>, index: Expression },
}

#[derive(Debug, Clone, Copy, PartialEq, Eq, Structural)]
pub enum AssignmentKind {
    /// `VAR name = ...`
    Global,
    /// `~ temp name = ...`
    Temporary,
    /// `~ name = ...`
    Assign,
}

#[derive(Debug, PartialEq, Eq)]
pub struct VariableAssignment {
    pub name: String,
    pub target: AssignmentTarget,
    pub kind: AssignmentKind,
    pub declared_type: Option<TypeName>,
    pub expression: Option<Expression>,
    pub span: SourceSpan,
}

/// `~ target += value` or `~ target -= value`.
#[derive(Debug, PartialEq, Eq)]
pub struct IncDec {
    pub name: String,
    pub target: AssignmentTarget,
    pub expression: Expression,
    pub is_increment: bool,
    pub span: SourceSpan,
}

#[derive(Debug, PartialEq, Eq)]
pub struct ConstantDeclaration {
    pub name: String,
    pub declared_type: TypeName,
    pub expression: Expression,
    pub span: SourceSpan,
}

#[derive(Debug, PartialEq, Eq)]
pub struct StructField {
    pub name: String,
    pub field_type: TypeName,
    pub span: SourceSpan,
}

#[derive(Debug, PartialEq, Eq)]
pub struct StructDeclaration {
    pub name: String,
    pub fields: Vec<StructField>,
    pub span: SourceSpan,
}

#[derive(Debug, PartialEq, Eq)]
pub struct EnumMember {
    pub name: String,
    pub span: SourceSpan,
}

#[derive(Debug, PartialEq, Eq)]
pub struct EnumDeclaration {
    pub name: String,
    pub members: Vec<EnumMember>,
    pub span: SourceSpan,
}

#[derive(Debug, PartialEq, Eq)]
pub struct ExternalDeclaration {
    pub name: String,
    pub argument_names: Vec<String>,
    pub argument_types: Vec<TypeName>,
    pub return_type: TypeName,
    pub span: SourceSpan,
}

/// A divert; a tunnel (`-> target ->`) comes back when the target returns
/// with `->->`.
#[derive(Debug, PartialEq, Eq)]
pub struct Divert {
    pub target: DivertTarget,
    pub arguments: Vec<Expression>,
    pub is_tunnel: bool,
    pub span: SourceSpan,
}

/// `->->`: the return from a tunnel, to where it was entered or to another
/// target.
#[derive(Debug, PartialEq, Eq)]
pub struct TunnelOnwards {
    pub override_target: Option<DivertTarget>,
    pub arguments: Vec<Expression>,
    pub span: SourceSpan,
}

#[derive(Debug, PartialEq, Eq)]
pub struct Return {
    pub expression: Option<Expression>,
    pub span: SourceSpan,
}

#[derive(Debug, PartialEq, Eq)]
pub struct Text {
    pub text: String,
    pub span: SourceSpan,
}

#[derive(Debug, PartialEq, Eq)]
pub struct Tag {
    pub text: String,
    pub span: SourceSpan,
}

/// A run of inline content.
#[derive(Debug, PartialEq, Eq)]
pub struct ContentList {
    pub objects: Vec<Object>,
}

/// A sequence of story objects.
#[derive(Debug, PartialEq, Eq)]
pub struct Weave {
    pub content: Vec<Object>,
}

#[derive(Debug, PartialEq, Eq)]
pub struct Choice {
    pub identifier: Option<String>,
    pub condition: Option<Expression>,
    pub start_content: Option<ContentList>,
    pub inner_content: ContentList,
    pub span: SourceSpan,
}

#[derive(Debug, PartialEq, Eq)]
pub struct Gather {
    pub identifier: Option<String>,
    pub span: SourceSpan,
}

#[derive(Debug, PartialEq, Eq)]
pub struct ConditionalBranch {
    pub own_condition: Option<Expression>,
    pub content: Weave,
}

#[derive(Debug, PartialEq, Eq)]
pub struct Conditional {
    pub initial_condition: Option<Expression>,
    pub branches: Vec<ConditionalBranch>,
    pub span: SourceSpan,
}

/// One element of a weave.
#[derive(Debug, PartialEq, Eq)]
pub enum Object {
    Text(Text),
    Glue(SourceSpan),
    Tag(Tag),
    Divert(Divert),
    Choice(Choice),
    Gather(Gather),
    VariableAssignment(VariableAssignment),
    IncDec(IncDec),
    ConstantDeclaration(ConstantDeclaration),
    StructDeclaration(StructDeclaration),
    EnumDeclaration(EnumDeclaration),
    ExternalDeclaration(ExternalDeclaration),
    Return(Return),
    TunnelOnwards(TunnelOnwards),
    LogicLine(Expression),
    Expression(Expression),
    Conditional(Conditional),
    ContentList(ContentList),
    Weave(Weave),
}

#[derive(Debug, PartialEq, Eq)]
pub struct FlowArgument {
    pub name: String,
    pub declared_type: Option<TypeName>,
    pub span: SourceSpan,
}

#[derive(Debug, Clone, Copy, PartialEq, Eq, Structural)]
pub enum FlowLevel {
    Knot,
    Stitch,
}

/// A knot, function or stitch.
#[derive(Debug, PartialEq, Eq)]
pub struct Flow {
    pub name: String,
    pub span: SourceSpan,
    pub level: FlowLevel,
    pub is_function: bool,
    pub is_internal: bool,
    pub arguments: Vec<FlowArgument>,
    pub return_type: TypeName,
    pub has_typed_signature: bool,
    pub weave: Weave,
    pub child_flows: Vec<Flow>,
}

#[derive(Debug, PartialEq, Eq)]
pub struct ImportedName {
    pub name: String,
    pub span: SourceSpan,
}

/// `FROM source IMPORT a, b` (or `FROM source` for a bare module import).
#[derive(Debug, PartialEq, Eq)]
pub struct Import {
    pub source_module: String,
    pub source_module_span: SourceSpan,
    pub imported_names: Vec<ImportedName>,
}

/// `=== module name ===` and everything up to the next module.
#[derive(Debug, PartialEq, Eq)]
pub struct Module {
    pub name: String,
    pub name_span: SourceSpan,
    pub span: SourceSpan,
    pub imports: Vec<Import>,
    pub weave: Weave,
    pub flows: Vec<Flow>,
}

/// A whole parsed story: root content and flows, and explicit modules.
#[derive(Debug, PartialEq, Eq)]
pub struct Story {
    pub root_weave: Weave,
    pub flows: Vec<Flow>,
    pub modules: Vec<Module>,
}

// ---------------------------------------------------------------------------
// Spec views of names and types.

/// `module::symbol` as characters.
pub open spec fn qualified_text(module: Seq<char>, symbol: Seq<char>) -> Seq<char> {
    module + "::"@ + symbol
}

impl QualifiedName {
    pub open spec fn full(&self) -> Seq<char> {
        qualified_text(self.module@, self.symbol@)
    }

    /// `module::symbol`.
    pub fn as_string(&self) -> (r: String)
        ensures
            r@ == self.full(),
    {
        concat3(self.module.as_str(), "::", self.symbol.as_str())
    }

    pub fn module(&self) -> (r: &str)
        ensures
            r@ == self.module@,
    {
        self.module.as_str()
    }

    pub fn symbol(&self) -> (r: &str)
        ensures
            r@ == self.symbol@,
    {
        self.symbol.as_str()
    }

    pub fn module_span(&self) -> (r: &SourceSpan)
        ensures
            *r == self.module_span,
    {
        &self.module_span
    }

    pub fn duplicate(&self) -> (r: Self)
        ensures
            r@ == self@,
    {
        QualifiedName {
            module: self.module.clone(),
            symbol: self.symbol.clone(),
            module_span: self.module_span.duplicate(),
        }
    }
}

/// The mathematical value of a type name: what two type names compare by.
pub enum TypeView {
    Primitive(PrimitiveType),
    Struct(Seq<char>),
    QualifiedStruct(Seq<char>, Seq<char>),
    Array(Box<TypeView>),
    Dict(DictKeyType, Box<TypeView>),
    Void,
}

impl View for QualifiedName {
    type V = (Seq<char>, Seq<char>, SourceSpan);

    open spec fn view(&self) -> Self::V {
        (self.module@, self.symbol@, self.module_span)
    }
}

impl TypeName {
    pub open spec fn type_view(self) -> TypeView
        decreases self,
    {
        match self {
            TypeName::Primitive(p) => TypeView::Primitive(p),
            TypeName::Struct(name) => TypeView::Struct(name@),
            TypeName::QualifiedStruct(q) => TypeView::QualifiedStruct(q.module@, q.symbol@),
            TypeName::Array(element) => TypeView::Array(Box::new(element.type_view())),
            TypeName::Dict { key_type, value_type } => TypeView::Dict(key_type, Box::new(value_type.type_view())),
            TypeName::Void => TypeView::Void,
        }
    }

    pub fn int_type() -> (r: Self)
        ensures
            r.type_view() == TypeView::Primitive(PrimitiveType::Int),
    {
        TypeName::Primitive(PrimitiveType::Int)
    }

    pub fn float() -> (r: Self)
        ensures
            r.type_view() == TypeView::Primitive(PrimitiveType::Float),
    {
        TypeName::Primitive(PrimitiveType::Float)
    }

    pub fn bool() -> (r: Self)
        ensures
            r.type_view() == TypeView::Primitive(PrimitiveType::Bool),
    {
        TypeName::Primitive(PrimitiveType::Bool)
    }

    pub fn string() -> (r: Self)
        ensures
            r.type_view() == TypeView::Primitive(PrimitiveType::String),
    {
        TypeName::Primitive(PrimitiveType::String)
    }

    pub fn divert_target() -> (r: Self)
        ensures
            r.type_view() == TypeView::Primitive(PrimitiveType::DivertTarget),
    {
        TypeName::Primitive(PrimitiveType::DivertTarget)
    }

    pub fn void() -> (r: Self)
        ensures
            r.type_view() == TypeView::Void,
    {
        TypeName::Void
    }

    pub fn array(element: TypeName) -> (r: Self)
        ensures
            r.type_view() == TypeView::Array(Box::new(element.type_view())),
    {
        TypeName::Array(Box::new(element))
    }

    pub fn struct_type(name: &str) -> (r: Self)
        ensures
            r.type_view() == TypeView::Struct(name@),
    {
        TypeName::Struct(owned(name))
    }

    pub fn is_void(&self) -> (r: bool)
        ensures
            r == (self.type_view() == TypeView::Void),
    {
        match self {
            TypeName::Void => true,
            _ => false,
        }
    }

    /// A copy of this type name.
    pub fn duplicate(&self) -> (r: Self)
        ensures
            r == *self,
        decreases self,
    {
        match self {
            TypeName::Primitive(p) => TypeName::Primitive(*p),
            TypeName::Struct(name) => TypeName::Struct(name.clone()),
            TypeName::QualifiedStruct(q) => TypeName::QualifiedStruct(QualifiedName {
                module: q.module.clone(),
                symbol: q.symbol.clone(),
                module_span: q.module_span.duplicate(),
            }),
            TypeName::Array(element) => {
                let inner = (**element).duplicate();
                TypeName::Array(Box::new(inner))
            },
            TypeName::Dict { key_type, value_type } => {
                let inner = (**value_type).duplicate();
                TypeName::Dict { key_type: *key_type, value_type: Box::new(inner) }
            },
            TypeName::Void => TypeName::Void,
        }
    }

    /// Whether two type names denote the same type.
    pub fn same_as(&self, other: &TypeName) -> (r: bool)
        ensures
            r == (self.type_view() == other.type_view()),
        decreases self,
    {
        match (self, other) {
            (TypeName::Primitive(a), TypeName::Primitive(b)) => match (a, b) {
                (PrimitiveType::Int, PrimitiveType::Int) => true,
                (PrimitiveType::Float, PrimitiveType::Float) => true,
                (PrimitiveType::Bool, PrimitiveType::Bool) => true,
                (PrimitiveType::String, PrimitiveType::String) => true,
                (PrimitiveType::DivertTarget, PrimitiveType::DivertTarget) => true,
                _ => false,
            },
            (TypeName::Struct(a), TypeName::Struct(b)) => *a == *b,
            (TypeName::QualifiedStruct(a), TypeName::QualifiedStruct(b)) => a.module == b.module
                && a.symbol == b.symbol,
            (TypeName::Array(a), TypeName::Array(b)) => {
                let r = (**a).same_as(&**b);
                r
            },
            (TypeName::Dict { key_type: ka, value_type: va }, TypeName::Dict { key_type: kb, value_type: vb }) => {
                let same_key = match (ka, kb) {
                    (DictKeyType::String, DictKeyType::String) => true,
                    (DictKeyType::Int, DictKeyType::Int) => true,
                    _ => false,
                };
                let r = same_key && (**va).same_as(&**vb);
                r
            },
            (TypeName::Void, TypeName::Void) => true,
            _ => false,
        }
    }

    /// How the type is written in messages: `int`, `Player`, `items::Item`,
    /// `int[]`, `void`.
    pub open spec fn display(self) -> Seq<char>
        decreases self,
    {
        match self {
            TypeName::Primitive(p) => primitive_display(p),
            TypeName::Struct(name) => name@,
            TypeName::QualifiedStruct(q) => q.full(),
            TypeName::Array(element) => element.display() + "[]"@,
            TypeName::Dict { key_type, value_type } => "Dict<"@ + key_display(key_type) + ", "@ + value_type.display() + ">"@,
            TypeName::Void => "void"@,
        }
    }

    pub fn display_name(&self) -> (r: String)
        ensures
            r@ == self.display(),
        decreases self,
    {
        match self {
            TypeName::Primitive(p) => primitive_display_name(*p),
            TypeName::Struct(name) => name.clone(),
            TypeName::QualifiedStruct(q) => q.as_string(),
            TypeName::Array(element) => {
                let mut r = (**element).display_name();
                r.append("[]");
                r
            },
            TypeName::Dict { key_type, value_type } => {
                let mut r = owned("Dict<");
                r.append(match key_type {
                    DictKeyType::String => "string",
                    DictKeyType::Int => "int",
                });
                r.append(", ");
                let v = (**value_type).display_name();
                r.append(v.as_str());
                r.append(">");
                r
            },
            TypeName::Void => owned("void"),
        }
    }
}

pub open spec fn key_display(k: DictKeyType) -> Seq<char> {
    match k {
        DictKeyType::String => "string"@,
        DictKeyType::Int => "int"@,
    }
}

pub open spec fn primitive_display(p: PrimitiveType) -> Seq<char> {
    match p {
        PrimitiveType::Int => "int"@,
        PrimitiveType::Float => "float"@,
        PrimitiveType::Bool => "bool"@,
        PrimitiveType::String => "string"@,
        PrimitiveType::DivertTarget => "->"@,
    }
}

pub fn primitive_display_name(p: PrimitiveType) -> (r: String)
    ensures
        r@ == primitive_display(p),
{
    match p {
        PrimitiveType::Int => owned("int"),
        PrimitiveType::Float => owned("float"),
        PrimitiveType::Bool => owned("bool"),
        PrimitiveType::String => owned("string"),
        PrimitiveType::DivertTarget => owned("->"),
    }
}

/// Whether two expressions are written the same: the same shape, names,
/// literals and operators (spans of qualified names aside).
pub open spec fn expr_same(a: Expression, b: Expression) -> bool
    decreases a, 0nat,
{
    match a {
        Expression::String(x) => match b { Expression::String(y) => x@ == y@, _ => false },
        Expression::NumberInt(x) => match b { Expression::NumberInt(y) => x == y, _ => false },
        Expression::NumberFloat(x) => match b { Expression::NumberFloat(y) => x@ == y@, _ => false },
        Expression::NumberBool(x) => match b { Expression::NumberBool(y) => x == y, _ => false },
        Expression::VariableReference(x) => match b { Expression::VariableReference(y) => x@ == y@, _ => false },
        Expression::QualifiedReference(x) => match b {
            Expression::QualifiedReference(y) => x.module@ == y.module@ && x.symbol@ == y.symbol@,
            _ => false,
        },
        Expression::DivertTarget(x) => match b { Expression::DivertTarget(y) => x@ == y@, _ => false },
        Expression::FunctionCall { name, args } => match b {
            Expression::FunctionCall { name: n2, args: a2 } => name@ == n2@ && exprs_same(args@, a2@),
            _ => false,
        },
        Expression::QualifiedFunctionCall { name, args } => match b {
            Expression::QualifiedFunctionCall { name: n2, args: a2 } => name.module@ == n2.module@ && name.symbol@ == n2.symbol@
                && exprs_same(args@, a2@),
            _ => false,
        },
        Expression::ArrayLiteral(xs) => match b { Expression::ArrayLiteral(ys) => exprs_same(xs@, ys@), _ => false },
        Expression::StructLiteral(xs) => match b { Expression::StructLiteral(ys) => fields_same(xs@, ys@), _ => false },
        Expression::DictLiteral(xs) => match b { Expression::DictLiteral(ys) => entries_same(xs@, ys@), _ => false },
        Expression::TypedStructLiteral { literal_type, fields } => match b {
            Expression::TypedStructLiteral { literal_type: t2, fields: f2 } => literal_type.type_view() == t2.type_view() && fields_same(fields@, f2@),
            _ => false,
        },
        Expression::FieldAccess { base, field } => match b {
            Expression::FieldAccess { base: b2, field: f2 } => field@ == f2@ && expr_same(*base, *b2),
            _ => false,
        },
        Expression::IndexAccess { base, index } => match b {
            Expression::IndexAccess { base: b2, index: i2 } => expr_same(*base, *b2) && expr_same(*index, *i2),
            _ => false,
        },
        Expression::Binary { operator, left, right } => match b {
            Expression::Binary { operator: o2, left: l2, right: r2 } => operator == o2 && expr_same(*left, *l2) && expr_same(*right, *r2),
            _ => false,
        },
        Expression::Unary { operator, expression } => match b {
            Expression::Unary { operator: o2, expression: e2 } => operator == o2 && expr_same(*expression, *e2),
            _ => false,
        },
        Expression::MultipleCondition(xs) => match b { Expression::MultipleCondition(ys) => exprs_same(xs@, ys@), _ => false },
    }
}

pub open spec fn exprs_same(a: Seq<Expression>, b: Seq<Expression>) -> bool
    decreases a, 1nat,
{
    if a.len() != b.len() {
        false
    } else if a.len() == 0 {
        true
    } else {
        exprs_same(a.drop_last(), b.drop_last()) && expr_same(a.last(), b.last())
    }
}

pub open spec fn key_same(a: DictKey, b: DictKey) -> bool {
    match a {
        DictKey::String(x) => match b { DictKey::String(y) => x@ == y@, _ => false },
        DictKey::Int(x) => match b { DictKey::Int(y) => x == y, _ => false },
    }
}

pub open spec fn entries_same(a: Seq<DictLiteralEntry>, b: Seq<DictLiteralEntry>) -> bool
    decreases a, 1nat,
{
    if a.len() != b.len() {
        false
    } else if a.len() == 0 {
        true
    } else {
        entries_same(a.drop_last(), b.drop_last()) && key_same(a.last().key, b.last().key) && expr_same(a.last().value, b.last().value)
    }
}

pub open spec fn fields_same(a: Seq<StructLiteralField>, b: Seq<StructLiteralField>) -> bool
    decreases a, 1nat,
{
    if a.len() != b.len() {
        false
    } else if a.len() == 0 {
        true
    } else {
        fields_same(a.drop_last(), b.drop_last()) && a.last().name@ == b.last().name@ && expr_same(a.last().expression, b.last().expression)
    }
}

/// A `Dict` literal key as a plain value.
pub enum KeyView {
    String(Seq<char>),
    Int(i64),
}

/// An expression as plain values: names and literals by their characters,
/// qualified names with the place of their module name.
pub enum ExprView {
    String(Seq<char>),
    NumberInt(i64),
    NumberFloat(Seq<char>),
    NumberBool(bool),
    VariableReference(Seq<char>),
    QualifiedReference(Seq<char>, Seq<char>, SourceSpan),
    DivertTarget(Seq<char>),
    FunctionCall(Seq<char>, Seq<ExprView>),
    QualifiedFunctionCall(Seq<char>, Seq<char>, SourceSpan, Seq<ExprView>),
    ArrayLiteral(Seq<ExprView>),
    StructLiteral(Seq<(Seq<char>, ExprView)>),
    DictLiteral(Seq<(KeyView, ExprView)>),
    TypedStructLiteral(TypeView, Seq<(Seq<char>, ExprView)>),
    FieldAccess(Box<ExprView>, Seq<char>),
    IndexAccess(Box<ExprView>, Box<ExprView>),
    Binary(BinaryOperator, Box<ExprView>, Box<ExprView>),
    Unary(UnaryOperator, Box<ExprView>),
    MultipleCondition(Seq<ExprView>),
}

pub open spec fn key_view(k: DictKey) -> KeyView {
    match k {
        DictKey::String(s) => KeyView::String(s@),
        DictKey::Int(n) => KeyView::Int(n),
    }
}

pub open spec fn expr_view(e: Expression) -> ExprView
    decreases e, 0nat,
{
    match e {
        Expression::String(x) => ExprView::String(x@),
        Expression::NumberInt(x) => ExprView::NumberInt(x),
        Expression::NumberFloat(x) => ExprView::NumberFloat(x@),
        Expression::NumberBool(x) => ExprView::NumberBool(x),
        Expression::VariableReference(x) => ExprView::VariableReference(x@),
        Expression::QualifiedReference(q) => ExprView::QualifiedReference(q.module@, q.symbol@, q.module_span),
        Expression::DivertTarget(x) => ExprView::DivertTarget(x@),
        Expression::FunctionCall { name, args } => ExprView::FunctionCall(name@, exprs_view(args@)),
        Expression::QualifiedFunctionCall { name, args } => ExprView::QualifiedFunctionCall(
            name.module@,
            name.symbol@,
            name.module_span,
            exprs_view(args@),
        ),
        Expression::ArrayLiteral(xs) => ExprView::ArrayLiteral(exprs_view(xs@)),
        Expression::StructLiteral(fs) => ExprView::StructLiteral(fields_view(fs@)),
        Expression::DictLiteral(es) => ExprView::DictLiteral(entries_view(es@)),
        Expression::TypedStructLiteral { literal_type, fields } => ExprView::TypedStructLiteral(
            literal_type.type_view(),
            fields_view(fields@),
        ),
        Expression::FieldAccess { base, field } => ExprView::FieldAccess(Box::new(expr_view(*base)), field@),
        Expression::IndexAccess { base, index } => ExprView::IndexAccess(
            Box::new(expr_view(*base)),
            Box::new(expr_view(*index)),
        ),
        Expression::Binary { operator, left, right } => ExprView::Binary(
            operator,
            Box::new(expr_view(*left)),
            Box::new(expr_view(*right)),
        ),
        Expression::Unary { operator, expression } => ExprView::Unary(operator, Box::new(expr_view(*expression))),
        Expression::MultipleCondition(xs) => ExprView::MultipleCondition(exprs_view(xs@)),
    }
}

pub open spec fn exprs_view(s: Seq<Expression>) -> Seq<ExprView>
    decreases s, 1nat,
{
    if s.len() == 0 {
        Seq::empty()
    } else {
        exprs_view(s.drop_last()).push(expr_view(s.last()))
    }
}

pub open spec fn fields_view(s: Seq<StructLiteralField>) -> Seq<(Seq<char>, ExprView)>
    decreases s, 1nat,
{
    if s.len() == 0 {
        Seq::empty()
    } else {
        fields_view(s.drop_last()).push((s.last().name@, expr_view(s.last().expression)))
    }
}

pub open spec fn entries_view(s: Seq<DictLiteralEntry>) -> Seq<(KeyView, ExprView)>
    decreases s, 1nat,
{
    if s.len() == 0 {
        Seq::empty()
    } else {
        entries_view(s.drop_last()).push((key_view(s.last().key), expr_view(s.last().value)))
    }
}

impl Clone for QualifiedName {
    fn clone(&self) -> (r: Self)
        ensures
            r@ == self@,
    {
        self.duplicate()
    }
}

impl Clone for TypeName {
    fn clone(&self) -> (r: Self)
        ensures
            r == *self,
    {
        self.duplicate()
    }
}

/// Whether `a` and `b` are written the same.
pub fn same_expression(a: &Expression, b: &Expression) -> (r: bool)
    ensures
        r == expr_same(*a, *b),
    decreases *a, 0nat,
{
    match a {
        Expression::String(x) => match b { Expression::String(y) => str_eq(x.as_str(), y.as_str()), _ => false },
        Expression::NumberInt(x) => match b { Expression::NumberInt(y) => *x == *y, _ => false },
        Expression::NumberFloat(x) => match b { Expression::NumberFloat(y) => str_eq(x.as_str(), y.as_str()), _ => false },
        Expression::NumberBool(x) => match b { Expression::NumberBool(y) => *x == *y, _ => false },
        Expression::VariableReference(x) => match b { Expression::VariableReference(y) => str_eq(x.as_str(), y.as_str()), _ => false },
        Expression::QualifiedReference(x) => match b {
            Expression::QualifiedReference(y) => str_eq(x.module.as_str(), y.module.as_str()) && str_eq(x.symbol.as_str(), y.symbol.as_str()),
            _ => false,
        },
        Expression::DivertTarget(x) => match b { Expression::DivertTarget(y) => str_eq(x.as_str(), y.as_str()), _ => false },
        Expression::FunctionCall { name, args } => match b {
            Expression::FunctionCall { name: n2, args: a2 } => {
                if !str_eq(name.as_str(), n2.as_str()) {
                    return false;
                }
                proof {
                    assert(decreases_to!(*a => (*a)->FunctionCall_args));
                    assert(decreases_to!((*a)->FunctionCall_args => args@));
                }
                same_expressions(args, a2)
            },
            _ => false,
        },
        Expression::QualifiedFunctionCall { name, args } => match b {
            Expression::QualifiedFunctionCall { name: n2, args: a2 } => {
                if !str_eq(name.module.as_str(), n2.module.as_str()) || !str_eq(name.symbol.as_str(), n2.symbol.as_str()) {
                    return false;
                }
                proof {
                    assert(decreases_to!(*a => (*a)->QualifiedFunctionCall_args));
                    assert(decreases_to!((*a)->QualifiedFunctionCall_args => args@));
                }
                same_expressions(args, a2)
            },
            _ => false,
        },
        Expression::ArrayLiteral(xs) => match b {
            Expression::ArrayLiteral(ys) => {
                proof {
                    assert(decreases_to!(*a => (*a)->ArrayLiteral_0));
                    assert(decreases_to!((*a)->ArrayLiteral_0 => xs@));
                }
                same_expressions(xs, ys)
            },
            _ => false,
        },
        Expression::StructLiteral(xs) => match b {
            Expression::StructLiteral(ys) => {
                proof {
                    assert(decreases_to!(*a => (*a)->StructLiteral_0));
                    assert(decreases_to!((*a)->StructLiteral_0 => xs@));
                }
                same_fields(xs, ys)
            },
            _ => false,
        },
        Expression::DictLiteral(xs) => match b {
            Expression::DictLiteral(ys) => {
                proof {
                    assert(decreases_to!(*a => (*a)->DictLiteral_0));
                    assert(decreases_to!((*a)->DictLiteral_0 => xs@));
                }
                same_entries(xs, ys)
            },
            _ => false,
        },
        Expression::TypedStructLiteral { literal_type, fields } => match b {
            Expression::TypedStructLiteral { literal_type: t2, fields: f2 } => {
                if !literal_type.same_as(t2) {
                    return false;
                }
                proof {
                    assert(decreases_to!(*a => (*a)->TypedStructLiteral_fields));
                    assert(decreases_to!((*a)->TypedStructLiteral_fields => fields@));
                }
                same_fields(fields, f2)
            },
            _ => false,
        },
        Expression::FieldAccess { base, field } => match b {
            Expression::FieldAccess { base: b2, field: f2 } => str_eq(field.as_str(), f2.as_str()) && same_expression(base, b2),
            _ => false,
        },
        Expression::IndexAccess { base, index } => match b {
            Expression::IndexAccess { base: b2, index: i2 } => same_expression(base, b2) && same_expression(index, i2),
            _ => false,
        },
        Expression::Binary { operator, left, right } => match b {
            Expression::Binary { operator: o2, left: l2, right: r2 } => *operator == *o2 && same_expression(left, l2)
                && same_expression(right, r2),
            _ => false,
        },
        Expression::Unary { operator, expression } => match b {
            Expression::Unary { operator: o2, expression: e2 } => *operator == *o2 && same_expression(expression, e2),
            _ => false,
        },
        Expression::MultipleCondition(xs) => match b {
            Expression::MultipleCondition(ys) => {
                proof {
                    assert(decreases_to!(*a => (*a)->MultipleCondition_0));
                    assert(decreases_to!((*a)->MultipleCondition_0 => xs@));
                }
                same_expressions(xs, ys)
            },
            _ => false,
        },
    }
}

pub fn same_expressions(a: &Vec<Expression>, b: &Vec<Expression>) -> (r: bool)
    ensures
        r == exprs_same(a@, b@),
    decreases a@, 1nat,
{
    if a.len() != b.len() {
        return false;
    }
    let mut i: usize = 0;
    assert(exprs_same(a@.take(0), b@.take(0)));
    while i < a.len()
        invariant
            a@.len() == b@.len(),
            i <= a@.len(),
            exprs_same(a@.take(i as int), b@.take(i as int)),
        decreases a.len() - i,
    {
        proof {
            assert(decreases_to!(a@ => a@[i as int]));
            assert(a@.take(i + 1).drop_last() =~= a@.take(i as int));
            assert(b@.take(i + 1).drop_last() =~= b@.take(i as int));
        }
        if !same_expression(&a[i], &b[i]) {
            proof { if exprs_same(a@, b@) { lemma_exprs_same_prefix(a@, b@, i + 1); } }
            return false;
        }
        i = i + 1;
    }
    assert(a@.take(a@.len() as int) =~= a@);
    assert(b@.take(b@.len() as int) =~= b@);
    true
}

/// A list pair that is the same has the same prefixes.
proof fn lemma_exprs_same_prefix(a: Seq<Expression>, b: Seq<Expression>, n: int)
    requires
        0 <= n <= a.len(),
        a.len() == b.len(),
        exprs_same(a, b),
    ensures
        exprs_same(a.take(n), b.take(n)),
    decreases a.len(),
{
    if n < a.len() {
        assert(a.drop_last().take(n) =~= a.take(n));
        assert(b.drop_last().take(n) =~= b.take(n));
        lemma_exprs_same_prefix(a.drop_last(), b.drop_last(), n);
    } else {
        assert(a.take(n) =~= a);
        assert(b.take(n) =~= b);
    }
}

proof fn lemma_entries_same_prefix(a: Seq<DictLiteralEntry>, b: Seq<DictLiteralEntry>, n: int)
    requires
        0 <= n <= a.len(),
        a.len() == b.len(),
        entries_same(a, b),
    ensures
        entries_same(a.take(n), b.take(n)),
    decreases a.len(),
{
    if n < a.len() {
        assert(a.drop_last().take(n) =~= a.take(n));
        assert(b.drop_last().take(n) =~= b.take(n));
        lemma_entries_same_prefix(a.drop_last(), b.drop_last(), n);
    } else {
        assert(a.take(n) =~= a);
        assert(b.take(n) =~= b);
    }
}

fn same_key(a: &DictKey, b: &DictKey) -> (r: bool)
    ensures
        r == key_same(*a, *b),
{
    match a {
        DictKey::String(x) => match b { DictKey::String(y) => str_eq(x.as_str(), y.as_str()), _ => false },
        DictKey::Int(x) => match b { DictKey::Int(y) => *x == *y, _ => false },
    }
}

pub fn same_entries(a: &Vec<DictLiteralEntry>, b: &Vec<DictLiteralEntry>) -> (r: bool)
    ensures
        r == entries_same(a@, b@),
    decreases a@, 1nat,
{
    if a.len() != b.len() {
        return false;
    }
    let mut i: usize = 0;
    assert(entries_same(a@.take(0), b@.take(0)));
    while i < a.len()
        invariant
            a@.len() == b@.len(),
            i <= a@.len(),
            entries_same(a@.take(i as int), b@.take(i as int)),
        decreases a.len() - i,
    {
        proof {
            assert(decreases_to!(a@ => a@[i as int]));
            assert(decreases_to!(a@[i as int] => a@[i as int].value));
            assert(a@.take(i + 1).drop_last() =~= a@.take(i as int));
            assert(b@.take(i + 1).drop_last() =~= b@.take(i as int));
        }
        if !same_key(&a[i].key, &b[i].key) || !same_expression(&a[i].value, &b[i].value) {
            proof { if entries_same(a@, b@) { lemma_entries_same_prefix(a@, b@, i + 1); } }
            return false;
        }
        i = i + 1;
    }
    assert(a@.take(a@.len() as int) =~= a@);
    assert(b@.take(b@.len() as int) =~= b@);
    true
}

proof fn lemma_fields_same_prefix(a: Seq<StructLiteralField>, b: Seq<StructLiteralField>, n: int)
    requires
        0 <= n <= a.len(),
        a.len() == b.len(),
        fields_same(a, b),
    ensures
        fields_same(a.take(n), b.take(n)),
    decreases a.len(),
{
    if n < a.len() {
        assert(a.drop_last().take(n) =~= a.take(n));
        assert(b.drop_last().take(n) =~= b.take(n));
        lemma_fields_same_prefix(a.drop_last(), b.drop_last(), n);
    } else {
        assert(a.take(n) =~= a);
        assert(b.take(n) =~= b);
    }
}

pub fn same_fields(a: &Vec<StructLiteralField>, b: &Vec<StructLiteralField>) -> (r: bool)
    ensures
        r == fields_same(a@, b@),
    decreases a@, 1nat,
{
    if a.len() != b.len() {
        return false;
    }
    let mut i: usize = 0;
    assert(fields_same(a@.take(0), b@.take(0)));
    while i < a.len()
        invariant
            a@.len() == b@.len(),
            i <= a@.len(),
            fields_same(a@.take(i as int), b@.take(i as int)),
        decreases a.len() - i,
    {
        proof {
            assert(decreases_to!(a@ => a@[i as int]));
            assert(decreases_to!(a@[i as int] => a@[i as int].expression));
            assert(a@.take(i + 1).drop_last() =~= a@.take(i as int));
            assert(b@.take(i + 1).drop_last() =~= b@.take(i as int));
        }
        if !str_eq(a[i].name.as_str(), b[i].name.as_str()) || !same_expression(&a[i].expression, &b[i].expression) {
            proof { if fields_same(a@, b@) { lemma_fields_same_prefix(a@, b@, i + 1); } }
            return false;
        }
        i = i + 1;
    }
    assert(a@.take(a@.len() as int) =~= a@);
    assert(b@.take(b@.len() as int) =~= b@);
    true
}

} // verus!
