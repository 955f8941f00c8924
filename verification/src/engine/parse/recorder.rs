//! Runs the parser on a text and records the walk over the tree that it
//! makes.
use super::source_type::parser_source_type;
use super::source_type::SourceKind;
use super::syntax;
use super::syntax::DefaultExport;
use super::syntax::MethodKey;
use super::syntax::MethodKind;
use super::syntax::NodeEvent;
use super::syntax::NodeKind;
use super::syntax::Program;
use oxc_allocator::Allocator;
use oxc_ast::ast::BindingPattern;
use oxc_ast::ast::ExportDefaultDeclarationKind;
use oxc_ast::ast::Expression;
use oxc_ast::ast::MethodDefinitionKind;
use oxc_ast::ast::PropertyKey;
use oxc_ast::AstKind;
use oxc_ast_visit::Visit;
use oxc_parser::Parser;
use oxc_span::GetSpan;
use vstd::prelude::*;

verus! {

/// A node of the parser's tree (`oxc_ast::AstKind`).
#[verifier::external_type_specification]
#[verifier::external_body]
pub struct ExAstKind<'a>(AstKind<'a>);

/// The key of a property or method (`oxc_ast::ast::PropertyKey`).
#[verifier::external_type_specification]
#[verifier::external_body]
pub struct ExPropertyKey<'a>(PropertyKey<'a>);

/// An expression (`oxc_ast::ast::Expression`).
#[verifier::external_type_specification]
#[verifier::external_body]
pub struct ExExpression<'a>(Expression<'a>);

/// What a module exports by default
/// (`oxc_ast::ast::ExportDefaultDeclarationKind`).
#[verifier::external_type_specification]
#[verifier::external_body]
pub struct ExExportDefaultDeclarationKind<'a>(ExportDefaultDeclarationKind<'a>);

/// The events of one walk.
pub struct Recorder {
    pub events: Vec<NodeEvent<String>>,
}

/// The offsets at which a node starts and ends (`GetSpan::span`).
pub uninterp spec fn span_held(kind: AstKind<'_>) -> (u32, u32);

/// What a node of the parser's tree is, told by the variant of `AstKind` and
/// the names and flags in it.
pub uninterp spec fn kind_held(kind: AstKind<'_>) -> NodeKind<Seq<char>>;

/// Whether `converted` tells what a node of the sort `held` is, if it is one
/// of the nodes `concerned`, and is absent if not.
pub open spec fn tells(
    converted: Option<NodeKind<String>>,
    held: NodeKind<Seq<char>>,
    concerned: bool,
) -> bool {
    match converted {
        Some(kind) => concerned && syntax::kind_view(kind) == held,
        None => !concerned,
    }
}

/// The offsets at which a node starts and ends (`GetSpan::span`).
#[verifier::external_body]
fn node_span(kind: &AstKind<'_>) -> (span: (u32, u32))
    ensures
        span == span_held(*kind),
{
    (kind.span().start, kind.span().end)
}

/// The name in an expression that is an identifier.
#[verifier::external_body]
fn identifier(expression: &Expression<'_>) -> (name: Option<String>) {
    match expression {
        Expression::Identifier(identifier) => Some(identifier.name.to_string()),
        _ => None,
    }
}

/// By what a method is named.
#[verifier::external_body]
fn method_key(key: &PropertyKey<'_>) -> (converted: MethodKey<String>) {
    match key {
        PropertyKey::StaticIdentifier(name) => MethodKey::Static(name.name.to_string()),
        PropertyKey::PrivateIdentifier(name) => MethodKey::Private(name.name.to_string()),
        _ => MethodKey::Computed,
    }
}

/// What a module exports by default.
#[verifier::external_body]
fn default_export(kind: &ExportDefaultDeclarationKind<'_>) -> (form: DefaultExport<String>) {
    match kind {
        ExportDefaultDeclarationKind::FunctionDeclaration(f) => DefaultExport::Declared(
            f.id.as_ref().map(|id| id.name.to_string()),
        ),
        ExportDefaultDeclarationKind::ClassDeclaration(c) => DefaultExport::Declared(
            c.id.as_ref().map(|id| id.name.to_string()),
        ),
        ExportDefaultDeclarationKind::ObjectExpression(_) => DefaultExport::Object,
        ExportDefaultDeclarationKind::Identifier(identifier) => DefaultExport::Binding(
            identifier.name.to_string(),
        ),
        _ => DefaultExport::Other,
    }
}

/// Functions and what is told by its sort alone (`AstKind::Function`,
/// `FunctionBody`, `ArrowFunctionExpression`, `ClassBody`,
/// `VariableDeclaration`, `ObjectExpression`).
#[verifier::external_body]
fn plain_kind(kind: &AstKind<'_>) -> (converted: Option<NodeKind<String>>)
    ensures
        tells(
            converted,
            kind_held(*kind),
            kind_held(*kind) is Function
            || kind_held(*kind) is FunctionBody
            || kind_held(*kind) is ArrowFunction
            || kind_held(*kind) is ClassBody
            || kind_held(*kind) is VariableDeclaration
            || kind_held(*kind) is Object,
        ),
{
    match kind {
        AstKind::Function(f) => Some(
            NodeKind::Function { name: f.id.as_ref().map(|id| id.name.to_string()) },
        ),
        AstKind::FunctionBody(_) => Some(NodeKind::FunctionBody),
        AstKind::ArrowFunctionExpression(_) => Some(NodeKind::ArrowFunction),
        AstKind::ClassBody(_) => Some(NodeKind::ClassBody),
        AstKind::VariableDeclaration(_) => Some(NodeKind::VariableDeclaration),
        AstKind::ObjectExpression(_) => Some(NodeKind::Object),
        _ => None,
    }
}

/// Classes (`AstKind::Class`).
#[verifier::external_body]
fn class_kind(kind: &AstKind<'_>) -> (converted: Option<NodeKind<String>>)
    ensures
        tells(
            converted,
            kind_held(*kind),
            kind_held(*kind) is Class,
        ),
{
    match kind {
        AstKind::Class(c) => Some(
            NodeKind::Class {
                name: c.id.as_ref().map(|id| id.name.to_string()),
                superclass: c.super_class.as_ref().and_then(identifier),
            },
        ),
        _ => None,
    }
}

/// Methods (`AstKind::MethodDefinition`).
#[verifier::external_body]
fn method_kind(kind: &AstKind<'_>) -> (converted: Option<NodeKind<String>>)
    ensures
        tells(
            converted,
            kind_held(*kind),
            kind_held(*kind) is Method,
        ),
{
    let AstKind::MethodDefinition(m) = kind else {
        return None;
    };
    let sort = match m.kind {
        MethodDefinitionKind::Constructor => MethodKind::Constructor,
        MethodDefinitionKind::Method => MethodKind::Method,
        MethodDefinitionKind::Get => MethodKind::Getter,
        MethodDefinitionKind::Set => MethodKind::Setter,
    };
    Some(NodeKind::Method { key: method_key(&m.key), kind: sort })
}

/// Interfaces, type aliases and enums (`AstKind::TSInterfaceDeclaration`,
/// `TSTypeAliasDeclaration`, `TSEnumDeclaration`).
#[verifier::external_body]
fn type_kind(kind: &AstKind<'_>) -> (converted: Option<NodeKind<String>>)
    ensures
        tells(
            converted,
            kind_held(*kind),
            kind_held(*kind) is Interface
            || kind_held(*kind) is TypeAlias
            || kind_held(*kind) is Enum,
        ),
{
    match kind {
        AstKind::TSInterfaceDeclaration(i) => Some(
            NodeKind::Interface { name: i.id.name.to_string() },
        ),
        AstKind::TSTypeAliasDeclaration(t) => Some(
            NodeKind::TypeAlias { name: t.id.name.to_string() },
        ),
        AstKind::TSEnumDeclaration(e) => Some(NodeKind::Enum { name: e.id.name.to_string() }),
        _ => None,
    }
}

/// Declarators and calls (`AstKind::VariableDeclarator`, `CallExpression`).
#[verifier::external_body]
fn use_kind(kind: &AstKind<'_>) -> (converted: Option<NodeKind<String>>)
    ensures
        tells(
            converted,
            kind_held(*kind),
            kind_held(*kind) is VariableDeclarator || kind_held(*kind) is Call,
        ),
{
    match kind {
        AstKind::VariableDeclarator(d) => match &d.id {
            BindingPattern::BindingIdentifier(id) => Some(
                NodeKind::VariableDeclarator { name: Some(id.name.to_string()) },
            ),
            _ => Some(NodeKind::VariableDeclarator { name: None }),
        },
        AstKind::CallExpression(c) => Some(NodeKind::Call { callee: identifier(&c.callee) }),
        _ => None,
    }
}

/// Properties of object literals (`AstKind::ObjectProperty`).
#[verifier::external_body]
fn property_kind(kind: &AstKind<'_>) -> (converted: Option<NodeKind<String>>)
    ensures
        tells(
            converted,
            kind_held(*kind),
            kind_held(*kind) is ObjectProperty,
        ),
{
    let AstKind::ObjectProperty(p) = kind else {
        return None;
    };
    let key = match &p.key {
        PropertyKey::StaticIdentifier(key) => Some(key.name.to_string()),
        _ => None,
    };
    Some(NodeKind::ObjectProperty { value: identifier(&p.value), key })
}

/// Import declarations (`AstKind::ImportDeclaration`).
#[verifier::external_body]
fn import_kind(kind: &AstKind<'_>) -> (converted: Option<NodeKind<String>>)
    ensures
        tells(
            converted,
            kind_held(*kind),
            kind_held(*kind) is Import,
        ),
{
    match kind {
        AstKind::ImportDeclaration(d) => Some(
            NodeKind::Import {
                source: d.source.value.to_string(),
                type_only: d.import_kind.is_type(),
            },
        ),
        _ => None,
    }
}

/// The names that an import binds (`AstKind::ImportSpecifier`,
/// `ImportDefaultSpecifier`, `ImportNamespaceSpecifier`).
#[verifier::external_body]
fn binding_kind(kind: &AstKind<'_>) -> (converted: Option<NodeKind<String>>)
    ensures
        tells(
            converted,
            kind_held(*kind),
            kind_held(*kind) is ImportBinding,
        ),
{
    let (local, imported) = match kind {
        AstKind::ImportSpecifier(s) => (&s.local, Some(s.imported.name().to_string())),
        AstKind::ImportDefaultSpecifier(s) => (&s.local, None),
        AstKind::ImportNamespaceSpecifier(s) => (&s.local, None),
        _ => return None,
    };
    Some(NodeKind::ImportBinding { local: local.name.to_string(), imported })
}

/// Exports by name (`AstKind::ExportNamedDeclaration`, `ExportSpecifier`).
#[verifier::external_body]
fn named_export_kind(kind: &AstKind<'_>) -> (converted: Option<NodeKind<String>>)
    ensures
        tells(
            converted,
            kind_held(*kind),
            kind_held(*kind) is ExportNamed || kind_held(*kind) is ExportSpecifier,
        ),
{
    match kind {
        AstKind::ExportNamedDeclaration(d) => Some(
            NodeKind::ExportNamed {
                source: d.source.as_ref().map(|source| source.value.to_string()),
                type_only: d.export_kind.is_type(),
                has_declaration: d.declaration.is_some(),
            },
        ),
        AstKind::ExportSpecifier(s) => Some(
            NodeKind::ExportSpecifier { local: s.local.name().to_string() },
        ),
        _ => None,
    }
}

/// Default exports and exports of all that another module exports
/// (`AstKind::ExportDefaultDeclaration`, `ExportAllDeclaration`).
#[verifier::external_body]
fn whole_export_kind(kind: &AstKind<'_>) -> (converted: Option<NodeKind<String>>)
    ensures
        tells(
            converted,
            kind_held(*kind),
            kind_held(*kind) is ExportDefault || kind_held(*kind) is ExportAll,
        ),
{
    match kind {
        AstKind::ExportDefaultDeclaration(d) => Some(
            NodeKind::ExportDefault { form: default_export(&d.declaration) },
        ),
        AstKind::ExportAllDeclaration(d) => Some(
            NodeKind::ExportAll {
                source: d.source.value.to_string(),
                type_only: d.export_kind.is_type(),
            },
        ),
        _ => None,
    }
}

/// The first of two conversions that applies.
fn first_of(a: Option<NodeKind<String>>, b: Option<NodeKind<String>>) -> (r: Option<NodeKind<String>>)
    ensures
        r == if a is Some { a } else { b },
{
    match a {
        Some(kind) => Some(kind),
        None => b,
    }
}

/// What a node is.
fn node_kind(kind: &AstKind<'_>) -> (converted: NodeKind<String>)
    ensures
        syntax::kind_view(converted) == kind_held(*kind),
{
    let found = first_of(plain_kind(kind), class_kind(kind));
    let found = first_of(found, method_kind(kind));
    let found = first_of(found, type_kind(kind));
    let found = first_of(found, use_kind(kind));
    let found = first_of(found, property_kind(kind));
    let found = first_of(found, import_kind(kind));
    let found = first_of(found, binding_kind(kind));
    let found = first_of(found, named_export_kind(kind));
    let found = first_of(found, whole_export_kind(kind));
    match found {
        Some(converted) => converted,
        None => NodeKind::Other,
    }
}

impl<'a> Visit<'a> for Recorder {
    fn enter_node(&mut self, kind: AstKind<'a>)
        ensures
            final(self).events@.len() == old(self).events@.len() + 1,
            final(self).events@.drop_last() == old(self).events@,
            syntax::event_view(final(self).events@.last()) == (NodeEvent::Enter {
                kind: kind_held(kind),
                span_start: span_held(kind).0,
                span_end: span_held(kind).1,
            }),
    {
        let (span_start, span_end) = node_span(&kind);
        let kind = node_kind(&kind);
        self.events.push(NodeEvent::Enter { kind, span_start, span_end });
        assert(self.events@.drop_last() =~= old(self).events@);
    }

    fn leave_node(&mut self, kind: AstKind<'a>)
        ensures
            final(self).events@ == old(self).events@.push(NodeEvent::Leave),
    {
        self.events.push(NodeEvent::Leave);
    }
}

/// What the parser says of a text.
pub struct ParsedText {
    pub panicked: bool,
    pub diagnostic_count: usize,
    pub events: Vec<NodeEvent<String>>,
}

/// What the parser says of a text, by its characters: whether it gave up,
/// how many diagnostics it has, and the walk over the tree that it made.
pub struct ParsedTextView {
    pub panicked: bool,
    pub diagnostic_count: usize,
    pub events: Seq<NodeEvent<Seq<char>>>,
}

impl View for ParsedText {
    type V = ParsedTextView;

    open spec fn view(&self) -> ParsedTextView {
        ParsedTextView {
            panicked: self.panicked,
            diagnostic_count: self.diagnostic_count,
            events: syntax::events_view(self.events@),
        }
    }
}

/// What `oxc_parser::Parser::parse` makes of a text read as `kind`, with the
/// tree told by the walk of `oxc_ast_visit::Visit::visit_program` over it.
pub uninterp spec fn parsed_text(text: Seq<char>, kind: SourceKind) -> ParsedTextView;

/// Parses `text` (`oxc_parser::Parser::parse`) and walks over the tree
/// (`oxc_ast_visit::Visit::visit_program`), noting each node that is entered
/// or left. What comes out depends on the text and on `kind` alone.
#[verifier::external_body]
pub(crate) fn parse_text(text: &str, kind: SourceKind) -> (parsed: ParsedText)
    ensures
        parsed@ == parsed_text(text@, kind),
{
    let allocator = Allocator::default();
    let ret = Parser::new(&allocator, text, parser_source_type(kind)).parse();
    let mut recorder = Recorder { events: Vec::new() };
    recorder.visit_program(&ret.program);
    ParsedText {
        panicked: ret.panicked,
        diagnostic_count: ret.diagnostics.len(),
        events: recorder.events,
    }
}

/// The program that the parser makes of a text read as `kind`.
pub open spec fn parsed_program(text: Seq<char>, kind: SourceKind) -> Seq<syntax::Node> {
    syntax::program_of(parsed_text(text, kind).events)
}

/// Parses `text` and puts its tree together.
pub fn parse_program(text: &str, kind: SourceKind) -> (program: Program)
    ensures
        program@ == parsed_program(text@, kind),
{
    syntax::assemble_program(parse_text(text, kind).events)
}

} // verus!
