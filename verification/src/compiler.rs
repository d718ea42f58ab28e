//! What the SimplicityHL compiler says of a source: its tokens, its items and its diagnostics.

use vstd::prelude::*;

use miniscript::iter::TreeLike;
use simplicityhl::error::Diagnostic as CompilerFinding;
use simplicityhl::error::DiagnosticManager;
use simplicityhl::error::Error as CompilerError;
use simplicityhl::parse;
use simplicityhl::parse::Call as CompilerCall;
use simplicityhl::parse::EnumDeclaration as CompilerEnum;
use simplicityhl::parse::Function as CompilerFunction;
use simplicityhl::parse::Item as CompilerItem;
use simplicityhl::parse::Module as CompilerModule;
use simplicityhl::parse::ParseFromStrWithErrors;
use simplicityhl::parse::Program as CompilerProgram;
use simplicityhl::parse::TypeAlias as CompilerAlias;
use simplicityhl::parse::UseDecl as CompilerUse;

use crate::order::texts;
use crate::protocol::{opt_text, Severity};
use crate::report::{
    label_views, report_views, CompilerDiagnostic, ErrorKind, ErrorKindView, Label, Place, ReportView,
};
use crate::syntax::{
    call_views, item_view, item_views, lemma_item_views, AliasView, Call, CallKind, CallName,
    CallView, EnumDeclaration, EnumView, Function, FunctionView, Item, ItemView, Module,
    ModuleView, Program, TypeAlias, UseDecl, UseItem, UseView,
};
use crate::text::Span;

verus! {

/// A program of the compiler, known by its items ([`compiler_items`]).
#[verifier::external_type_specification]
#[verifier::external_body]
pub struct ExProgram(CompilerProgram);

/// An item of the compiler, known by what it says ([`compiler_item`]).
#[verifier::external_type_specification]
#[verifier::external_body]
pub struct ExItem(CompilerItem);

/// A module of the compiler, known by what it says ([`compiler_module`]).
#[verifier::external_type_specification]
#[verifier::external_body]
pub struct ExModule(CompilerModule);

/// A function of the compiler, known by what it says ([`compiler_function`]).
#[verifier::external_type_specification]
#[verifier::external_body]
pub struct ExFunction(CompilerFunction);

/// A call of the compiler, known by what it says ([`compiler_call`]).
#[verifier::external_type_specification]
#[verifier::external_body]
pub struct ExCall(CompilerCall);

/// An import of the compiler, known by what it says ([`compiler_use`]).
#[verifier::external_type_specification]
#[verifier::external_body]
pub struct ExUseDecl(CompilerUse);

/// A type alias of the compiler, known by what it says ([`compiler_alias`]).
#[verifier::external_type_specification]
#[verifier::external_body]
pub struct ExTypeAlias(CompilerAlias);

/// An enum declaration of the compiler, known by what it says ([`compiler_enum`]).
#[verifier::external_type_specification]
#[verifier::external_body]
pub struct ExEnumDeclaration(CompilerEnum);

/// The items that a compiler program holds.
pub uninterp spec fn compiler_items(program: CompilerProgram) -> Seq<ItemView>;

/// What a compiler item says.
pub uninterp spec fn compiler_item(item: CompilerItem) -> ItemView;

/// What a compiler module says, and the items it holds.
pub uninterp spec fn compiler_module(module: CompilerModule) -> ModuleView;

/// What a compiler function says, and the calls it holds.
pub uninterp spec fn compiler_function(function: CompilerFunction) -> FunctionView;

/// What a compiler call says.
pub uninterp spec fn compiler_call(call: CompilerCall) -> CallView;

/// What a compiler import says.
pub uninterp spec fn compiler_use(declaration: CompilerUse) -> UseView;

/// What a compiler type alias says.
pub uninterp spec fn compiler_alias(alias: CompilerAlias) -> AliasView;

/// What a compiler enum declaration says.
pub uninterp spec fn compiler_enum(declaration: CompilerEnum) -> EnumView;

/// The cases of a compiler item.
enum ItemCase {
    TypeAlias(CompilerAlias),
    Function(CompilerFunction),
    Use(CompilerUse),
    EnumDeclaration(CompilerEnum),
    Module(CompilerModule),
    Ignored,
}

/// `parse::Program::items` gives the items of a program in their order.
#[verifier::external_body]
fn program_items(program: &CompilerProgram) -> (r: Vec<CompilerItem>)
    ensures
        r@.len() == compiler_items(*program).len(),
        forall|i: int|
            0 <= i < r@.len() ==> #[trigger] compiler_item(r@[i]) == compiler_items(*program)[i],
{
    program.items().to_vec()
}

/// `parse::Item` tells its cases apart and hands out what each holds.
#[verifier::external_body]
fn item_case(item: &CompilerItem) -> (r: ItemCase)
    ensures
        match r {
            ItemCase::TypeAlias(a) => compiler_item(*item) == ItemView::TypeAlias(compiler_alias(a)),
            ItemCase::Function(f) => compiler_item(*item) == ItemView::Function(compiler_function(f)),
            ItemCase::Use(u) => compiler_item(*item) == ItemView::Use(compiler_use(u)),
            ItemCase::EnumDeclaration(e) => compiler_item(*item) == ItemView::EnumDeclaration(
                compiler_enum(e),
            ),
            ItemCase::Module(m) => compiler_item(*item) == ItemView::Module(compiler_module(m)),
            ItemCase::Ignored => compiler_item(*item) == ItemView::Ignored,
        },
{
    match item {
        CompilerItem::TypeAlias(alias) => ItemCase::TypeAlias(alias.clone()),
        CompilerItem::Function(function) => ItemCase::Function(function.clone()),
        CompilerItem::Use(declaration) => ItemCase::Use(declaration.clone()),
        CompilerItem::EnumDeclaration(declaration) => ItemCase::EnumDeclaration(declaration.clone()),
        CompilerItem::Module(module) => ItemCase::Module(module.clone()),
        CompilerItem::Ignored => ItemCase::Ignored,
    }
}

/// `parse::TypeAlias` gives its visibility, name and type; the type by its `Display` form.
#[verifier::external_body]
fn read_alias(alias: &CompilerAlias) -> (r: TypeAlias)
    ensures
        r@ == compiler_alias(*alias),
{
    TypeAlias {
        public: matches!(alias.visibility(), parse::Visibility::Public),
        name: alias.name().to_string(),
        ty: alias.ty().to_string(),
    }
}

/// `parse::EnumDeclaration` gives its visibility and name.
#[verifier::external_body]
fn read_enum(declaration: &CompilerEnum) -> (r: EnumDeclaration)
    ensures
        r@ == compiler_enum(*declaration),
{
    EnumDeclaration {
        public: matches!(declaration.visibility(), parse::Visibility::Public),
        name: declaration.name().to_string(),
    }
}

/// `parse::UseDecl` gives its visibility, path, items and span.
#[verifier::external_body]
fn read_use(declaration: &CompilerUse) -> (r: UseDecl)
    ensures
        r@ == compiler_use(*declaration),
{
    let span = declaration.span();
    let items = match declaration.items() {
        parse::UseItems::Single(item) => std::slice::from_ref(item),
        parse::UseItems::List(items) => items.as_slice(),
    };
    UseDecl {
        public: matches!(declaration.visibility(), parse::Visibility::Public),
        path: declaration.path().iter().map(|segment| segment.to_string()).collect(),
        items: items.iter().map(|(name, alias)| UseItem {
            name: name.to_string(),
            alias: alias.as_ref().map(|alias| alias.to_string()),
        }).collect(),
        span: Span { file_id: span.file_id, start: span.start, end: span.end },
    }
}

/// `parse::Module` gives its visibility, name and items.
#[verifier::external_body]
fn module_parts(module: &CompilerModule) -> (r: (bool, String, Vec<CompilerItem>))
    ensures
        r.0 == compiler_module(*module).public,
        r.1@ == compiler_module(*module).name,
        r.2@.len() == compiler_module(*module).items.len(),
        forall|i: int|
            0 <= i < r.2@.len() ==> #[trigger] compiler_item(r.2@[i]) == compiler_module(
                *module,
            ).items[i],
{
    (
        matches!(module.visibility(), parse::Visibility::Public),
        module.name().to_string(),
        module.items().to_vec(),
    )
}

/// `parse::Function` gives its visibility, name, parameters, return type and span; parameters and
/// type by their `Display` forms. The calls are read from
/// [`function_expressions`].
#[verifier::external_body]
fn function_head(function: &CompilerFunction) -> (r: Function)
    ensures
        r.public == compiler_function(*function).public,
        r.name@ == compiler_function(*function).name,
        texts(r.params@) == compiler_function(*function).params,
        opt_text(r.ret) == compiler_function(*function).ret,
        r.span == compiler_function(*function).span,
{
    let span = function.span();
    Function {
        public: matches!(function.visibility(), parse::Visibility::Public),
        name: function.name().to_string(),
        params: function.params().iter().map(|param| param.to_string()).collect(),
        ret: function.ret().map(|ty| ty.to_string()),
        calls: Vec::new(),
        span: Span { file_id: span.file_id, start: span.start, end: span.end },
    }
}

/// The calls among some expressions.
pub open spec fn calls_among(expressions: Seq<Option<CompilerCall>>) -> Seq<CallView>
    decreases expressions.len(),
{
    if expressions.len() == 0 {
        Seq::empty()
    } else {
        match expressions.last() {
            Some(call) => calls_among(expressions.drop_last()).push(compiler_call(call)),
            None => calls_among(expressions.drop_last()),
        }
    }
}

/// `pre_order_iter` of `miniscript` walks the expressions of a function body; the calls of the
/// function are those among them, in that order. A call is handed out as it is, and any other
/// expression as nothing.
#[verifier::external_body]
fn function_expressions(function: &CompilerFunction) -> (r: Vec<Option<CompilerCall>>)
    ensures
        calls_among(r@) == compiler_function(*function).calls,
{
    parse::ExprTree::Expression(function.body()).pre_order_iter().map(|expression| {
        match expression {
            parse::ExprTree::Call(call) => Some(call.clone()),
            _ => None,
        }
    }).collect()
}

/// `parse::CallName` tells its cases apart.
#[verifier::external_body]
fn call_kind(call: &CompilerCall) -> (r: CallKind)
    ensures
        r == compiler_call(*call).name.kind,
{
    match call.name() {
        parse::CallName::Jet(_) => CallKind::Jet,
        parse::CallName::UnwrapLeft(_) => CallKind::UnwrapLeft,
        parse::CallName::UnwrapRight(_) => CallKind::UnwrapRight,
        parse::CallName::Unwrap => CallKind::Unwrap,
        parse::CallName::IsNone(_) => CallKind::IsNone,
        parse::CallName::Assert => CallKind::Assert,
        parse::CallName::Panic => CallKind::Panic,
        parse::CallName::Debug => CallKind::Debug,
        parse::CallName::TypeCast(_) => CallKind::TypeCast,
        parse::CallName::Custom(_) => CallKind::Custom,
        parse::CallName::Fold(..) => CallKind::Fold,
        parse::CallName::ArrayFold(..) => CallKind::ArrayFold,
        parse::CallName::ForWhile(_) => CallKind::ForWhile,
    }
}

/// `parse::CallName` holds the name of a jet, a custom function or a callback.
#[verifier::external_body]
fn call_function(call: &CompilerCall) -> (r: String)
    ensures
        r@ == compiler_call(*call).name.function,
{
    match call.name() {
        parse::CallName::Jet(name) => name.to_string(),
        parse::CallName::Custom(name) => name.to_string(),
        parse::CallName::Fold(name, _) => name.to_string(),
        parse::CallName::ArrayFold(name, _) => name.to_string(),
        parse::CallName::ForWhile(name) => name.to_string(),
        _ => String::new(),
    }
}

/// The `Display` form of `parse::CallName` and the span of `parse::Call`.
#[verifier::external_body]
fn call_text(call: &CompilerCall) -> (r: (String, Span))
    ensures
        r.0@ == compiler_call(*call).name.text,
        r.1 == compiler_call(*call).span,
{
    let span = call.span();
    (
        call.name().to_string(),
        Span { file_id: span.file_id, start: span.start, end: span.end },
    )
}

/// Reads a call of the compiler.
fn read_call(call: &CompilerCall) -> (r: Call)
    ensures
        r@ == compiler_call(*call),
{
    let (text, span) = call_text(call);
    Call { name: CallName { kind: call_kind(call), function: call_function(call), text }, span }
}

/// Reads a function of the compiler.
fn read_function(function: &CompilerFunction) -> (r: Function)
    ensures
        r@ == compiler_function(*function),
{
    let mut r: Function = function_head(function);
    let found: Vec<Option<CompilerCall>> = function_expressions(function);
    let mut calls: Vec<Call> = Vec::new();
    let mut i: usize = 0;
    assert(call_views(calls@) =~= calls_among(found@.take(0)));
    while i < found.len()
        invariant
            i <= found@.len(),
            call_views(calls@) == calls_among(found@.take(i as int)),
        decreases found@.len() - i,
    {
        assert(found@.take(i + 1).drop_last() == found@.take(i as int));
        if let Some(call) = &found[i] {
            let ghost before = call_views(calls@);
            let read: Call = read_call(call);
            let ghost view = read@;
            calls.push(read);
            assert(call_views(calls@) =~= before.push(view));
        }
        i = i + 1;
    }
    assert(found@.take(i as int) == found@);
    r.calls = calls;
    assert(call_views(r.calls@) =~= compiler_function(*function).calls);
    assert(r@ =~= compiler_function(*function));
    r
}

/// Reads an item of the compiler with everything inside of it.
fn read_item(item: &CompilerItem) -> (r: Item)
    ensures
        item_view(r) == compiler_item(*item),
    decreases compiler_item(*item),
{
    match item_case(item) {
        ItemCase::TypeAlias(alias) => Item::TypeAlias(read_alias(&alias)),
        ItemCase::Function(function) => Item::Function(read_function(&function)),
        ItemCase::Use(declaration) => Item::Use(read_use(&declaration)),
        ItemCase::EnumDeclaration(declaration) => Item::EnumDeclaration(read_enum(&declaration)),
        ItemCase::Module(module) => {
            let (public, name, inner) = module_parts(&module);
            let ghost shown = compiler_module(module);
            let mut items: Vec<Item> = Vec::new();
            let mut i: usize = 0;
            while i < inner.len()
                invariant
                    i <= inner@.len(),
                    compiler_item(*item) == ItemView::Module(shown),
                    inner@.len() == shown.items.len(),
                    forall|k: int|
                        0 <= k < inner@.len() ==> #[trigger] compiler_item(inner@[k])
                            == shown.items[k],
                    items@.len() == i,
                    forall|k: int|
                        0 <= k < i ==> item_view(#[trigger] items@[k]) == shown.items[k],
                decreases inner@.len() - i,
            {
                assert(compiler_item(inner@[i as int]) == shown.items[i as int]);
                proof {
                    let outer = compiler_item(*item);
                    assert(decreases_to!(outer => outer->Module_0));
                    assert(decreases_to!(outer->Module_0 => outer->Module_0.items));
                    assert(decreases_to!(outer->Module_0.items => outer->Module_0.items[i as int]));
                }
                let read: Item = read_item(&inner[i]);
                items.push(read);
                i = i + 1;
            }
            proof {
                lemma_item_views(items@);
                assert(item_views(items@) =~= shown.items);
            }
            Item::Module(Module { public, name, items })
        },
        ItemCase::Ignored => Item::Ignored,
    }
}

/// Reads a program of the compiler.
pub fn read_program(program: &CompilerProgram) -> (r: Program)
    ensures
        r@ == compiler_items(*program),
{
    let found: Vec<CompilerItem> = program_items(program);
    let mut items: Vec<Item> = Vec::new();
    let mut i: usize = 0;
    while i < found.len()
        invariant
            i <= found@.len(),
            found@.len() == compiler_items(*program).len(),
            forall|k: int|
                0 <= k < found@.len() ==> #[trigger] compiler_item(found@[k]) == compiler_items(
                    *program,
                )[k],
            items@.len() == i,
            forall|k: int|
                0 <= k < i ==> item_view(#[trigger] items@[k]) == compiler_items(*program)[k],
        decreases found@.len() - i,
    {
        let item: Item = read_item(&found[i]);
        items.push(item);
        i = i + 1;
    }
    proof {
        lemma_item_views(items@);
        assert(item_views(items@) =~= compiler_items(*program));
    }
    Program { items }
}

/// A diagnostic of the compiler, known by what it says ([`compiler_report`]).
#[verifier::external_type_specification]
#[verifier::external_body]
pub struct ExCompilerFinding(CompilerFinding);

/// What a diagnostic of the compiler says.
pub uninterp spec fn compiler_report(finding: CompilerFinding) -> ReportView;

/// `Diagnostic::error` tells the errors apart, by `error::Error`.
#[verifier::external_body]
fn finding_kind(finding: &CompilerFinding) -> (r: ErrorKind)
    ensures
        r@ == compiler_report(*finding).kind,
{
    match finding.error() {
        CompilerError::MainRequired => ErrorKind::MainRequired,
        CompilerError::CannotParse { msg } => ErrorKind::CannotParse(msg.clone()),
        CompilerError::FunctionRedefined { name } => ErrorKind::FunctionRedefined(name.to_string()),
        _ => ErrorKind::Other,
    }
}

/// The `Display` form of `Diagnostic::error`, and `Diagnostic::severity`.
#[verifier::external_body]
fn finding_message(finding: &CompilerFinding) -> (r: (String, Severity))
    ensures
        r.0@ == compiler_report(*finding).message,
        r.1 == compiler_report(*finding).severity,
{
    let severity = match finding.severity() {
        simplicityhl::error::Severity::Error => Severity::Error,
        simplicityhl::error::Severity::Warning => Severity::Warning,
    };
    (finding.error().to_string(), severity)
}

/// `Diagnostic::location` tells what a diagnostic points at.
#[verifier::external_body]
fn finding_place(finding: &CompilerFinding) -> (r: Place)
    ensures
        r == compiler_report(*finding).place,
{
    match finding.location() {
        simplicityhl::error::Location::Code(span) => Place::Code(
            Span { file_id: span.file_id, start: span.start, end: span.end },
        ),
        simplicityhl::error::Location::File(file_id) => Place::File(*file_id),
        simplicityhl::error::Location::Global => Place::Global,
    }
}

/// `Diagnostic::secondary` gives the labels of a diagnostic.
#[verifier::external_body]
fn finding_labels(finding: &CompilerFinding) -> (r: Vec<Label>)
    ensures
        label_views(r@) == compiler_report(*finding).secondary,
{
    finding.secondary().iter().map(|label| Label {
        span: Span {
            file_id: label.span.file_id,
            start: label.span.start,
            end: label.span.end,
        },
        message: label.message.clone(),
    }).collect()
}

/// `Diagnostic::notes` and `Diagnostic::help` give the further texts of a diagnostic.
#[verifier::external_body]
fn finding_notes(finding: &CompilerFinding) -> (r: (Vec<String>, Option<String>))
    ensures
        texts(r.0@) == compiler_report(*finding).notes,
        opt_text(r.1) == compiler_report(*finding).help,
{
    (
        finding.notes().iter().map(|note| note.to_string()).collect(),
        finding.help().as_ref().map(|help| help.to_string()),
    )
}

/// Reads a diagnostic of the compiler.
pub fn read_diagnostic(finding: &CompilerFinding) -> (r: CompilerDiagnostic)
    ensures
        r@ == compiler_report(*finding),
{
    let (message, severity) = finding_message(finding);
    let (notes, help) = finding_notes(finding);
    let r = CompilerDiagnostic {
        kind: finding_kind(finding),
        message,
        severity,
        place: finding_place(finding),
        secondary: finding_labels(finding),
        notes,
        help,
    };
    assert(r@ =~= compiler_report(*finding));
    r
}

/// What the compiler says of a `main` function in another file than the entry point.
pub open spec fn main_out_of_entry_text() -> Seq<char> {
    "The 'main' function must be defined in the entry point file"@
}

/// The `Display` form of `simplicityhl::error::Error::MainOutOfEntryFile`.
#[verifier::external_body]
pub(crate) fn main_out_of_entry() -> (r: String)
    ensures
        r@ == main_out_of_entry_text(),
{
    CompilerError::MainOutOfEntryFile.to_string()
}

/// The syntax that a source may use beyond the stable language.
#[derive(Clone, Copy, Debug, PartialEq, Eq, Structural)]
pub enum UnstableFeature {
    Imports,
    Enums,
}

/// What `Program::parse_from_str_with_errors` makes of a source: its items, where it could be read
/// without an error, and the diagnostics in the order in which they were found.
pub uninterp spec fn parsed(
    file_id: nat,
    source: Seq<char>,
    features: Seq<UnstableFeature>,
) -> (Option<Seq<ItemView>>, Seq<ReportView>);

/// `Program::parse_from_str_with_errors` reads a source with the given features switched on. The
/// result is a function of the arguments; the grammar is left to the compiler.
#[verifier::external_body]
fn parse_source(file_id: usize, source: &str, features: &Vec<UnstableFeature>) -> (r: (
    Option<CompilerProgram>,
    Vec<CompilerFinding>,
))
    ensures
        match r.0 {
            Some(program) => parsed(file_id as nat, source@, features@).0 == Some(
                compiler_items(program),
            ),
            None => parsed(file_id as nat, source@, features@).0 is None,
        },
        r.1@.len() == parsed(file_id as nat, source@, features@).1.len(),
        forall|i: int|
            0 <= i < r.1@.len() ==> #[trigger] compiler_report(r.1@[i]) == parsed(
                file_id as nat,
                source@,
                features@,
            ).1[i],
{
    let enabled = simplicityhl::UnstableFeatures::new(features.iter().map(|feature| match feature {
        UnstableFeature::Imports => simplicityhl::UnstableFeature::Imports,
        UnstableFeature::Enums => simplicityhl::UnstableFeature::Enums,
    }));
    let mut found = DiagnosticManager::new();
    let program = CompilerProgram::parse_from_str_with_errors(file_id, source, &enabled, &mut found);
    (program, found.diagnostics().to_vec())
}

/// Parses a source: its items where it has no error, and the diagnostics.
pub fn parse_program(file_id: usize, source: &str, features: &Vec<UnstableFeature>) -> (r: (
    Option<Program>,
    Vec<CompilerDiagnostic>,
))
    ensures
        match r.0 {
            Some(program) => parsed(file_id as nat, source@, features@).0 == Some(program@),
            None => parsed(file_id as nat, source@, features@).0 is None,
        },
        report_views(r.1@) == parsed(file_id as nat, source@, features@).1,
{
    let (program, found) = parse_source(file_id, source, features);
    let mut diagnostics: Vec<CompilerDiagnostic> = Vec::new();
    let mut i: usize = 0;
    let ghost shown = parsed(file_id as nat, source@, features@).1;
    while i < found.len()
        invariant
            i <= found@.len(),
            found@.len() == shown.len(),
            forall|k: int|
                0 <= k < found@.len() ==> #[trigger] compiler_report(found@[k]) == shown[k],
            diagnostics@.len() == i,
            forall|k: int| 0 <= k < i ==> (#[trigger] diagnostics@[k])@ == shown[k],
        decreases found@.len() - i,
    {
        let diagnostic: CompilerDiagnostic = read_diagnostic(&found[i]);
        diagnostics.push(diagnostic);
        i = i + 1;
    }
    assert(report_views(diagnostics@) =~= shown);
    match program {
        Some(program) => (Some(read_program(&program)), diagnostics),
        None => (None, diagnostics),
    }
}

/// The `Display` form of `error::Error::CannotParse`: its message behind a fixed prefix.
#[verifier::external_body]
fn cannot_parse_text(message: &str) -> (r: String)
    ensures
        r@ == "Cannot parse: "@ + message@,
{
    CompilerError::CannotParse { msg: message.to_owned() }.to_string()
}

/// The compiler's diagnostic for something that it cannot read, at the beginning of the root.
pub open spec fn cannot_parse_report(message: Seq<char>) -> ReportView {
    ReportView {
        kind: ErrorKindView::CannotParse(message),
        message: "Cannot parse: "@ + message,
        severity: Severity::Error,
        place: Place::Code(Span { file_id: 0, start: 0, end: 0 }),
        secondary: Seq::empty(),
        notes: Seq::empty(),
        help: None,
    }
}

/// The compiler's diagnostic for something that it cannot read, at the beginning of the root.
pub fn cannot_parse(message: &str) -> (r: CompilerDiagnostic)
    ensures
        r@ == cannot_parse_report(message@),
{
    let r = CompilerDiagnostic {
        kind: ErrorKind::CannotParse(message.to_owned()),
        message: cannot_parse_text(message),
        severity: Severity::Error,
        place: Place::Code(Span::new(0, 0, 0)),
        secondary: Vec::new(),
        notes: Vec::new(),
        help: None,
    };
    assert(r@ =~= cannot_parse_report(message@));
    r
}

} // verus!
