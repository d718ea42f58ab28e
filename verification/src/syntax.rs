//! Programs as the editor features see them: items, functions with their calls, and imports.

use vstd::prelude::*;

use crate::chars::{byte_len, utf8_len};
use crate::order::texts;
use crate::protocol::opt_text;
use crate::text::Span;

verus! {

/// What kind of function a call names.
#[derive(Clone, Copy, Debug, PartialEq, Eq, Structural)]
pub enum CallKind {
    Jet,
    UnwrapLeft,
    UnwrapRight,
    Unwrap,
    IsNone,
    Assert,
    Panic,
    Debug,
    TypeCast,
    Custom,
    Fold,
    ArrayFold,
    ForWhile,
}

/// The name of a call: its kind, the function that it hands work to (the jet, the custom function
/// or the callback; nothing for the other kinds) and how the whole name is written.
#[derive(Debug)]
pub struct CallName {
    pub kind: CallKind,
    pub function: String,
    pub text: String,
}

/// What a [`CallName`] says.
pub struct CallNameView {
    pub kind: CallKind,
    pub function: Seq<char>,
    pub text: Seq<char>,
}

impl View for CallName {
    type V = CallNameView;

    open spec fn view(&self) -> CallNameView {
        CallNameView { kind: self.kind, function: self.function@, text: self.text@ }
    }
}

/// A call and where it stands.
#[derive(Debug)]
pub struct Call {
    pub name: CallName,
    pub span: Span,
}

/// What a [`Call`] says.
pub struct CallView {
    pub name: CallNameView,
    pub span: Span,
}

impl View for Call {
    type V = CallView;

    open spec fn view(&self) -> CallView {
        CallView { name: self.name@, span: self.span }
    }
}

/// What a list of calls says.
pub open spec fn call_views(calls: Seq<Call>) -> Seq<CallView> {
    Seq::new(calls.len(), |i: int| calls[i]@)
}

/// A function: its signature as it is written, the calls in its body in the order in which their
/// expressions are read, and where it stands.
#[derive(Debug)]
pub struct Function {
    pub public: bool,
    pub name: String,
    pub params: Vec<String>,
    pub ret: Option<String>,
    pub calls: Vec<Call>,
    pub span: Span,
}

/// What a [`Function`] says.
#[verifier::ext_equal]
pub struct FunctionView {
    pub public: bool,
    pub name: Seq<char>,
    pub params: Seq<Seq<char>>,
    pub ret: Option<Seq<char>>,
    pub calls: Seq<CallView>,
    pub span: Span,
}

impl View for Function {
    type V = FunctionView;

    open spec fn view(&self) -> FunctionView {
        FunctionView {
            public: self.public,
            name: self.name@,
            params: texts(self.params@),
            ret: opt_text(self.ret),
            calls: call_views(self.calls@),
            span: self.span,
        }
    }
}

/// The span of the name of a call, as it is written without spaces.
pub open spec fn call_name_span(call: CallView) -> Span {
    let end = call.span.start + utf8_len(call.name.text);
    Span {
        file_id: call.span.file_id,
        start: call.span.start,
        end: if end <= usize::MAX {
            end as usize
        } else {
            usize::MAX
        },
    }
}

pub fn get_call_span(call: &Call) -> (r: Span)
    ensures
        r == call_name_span(call@),
{
    Span {
        file_id: call.span.file_id,
        start: call.span.start,
        end: call.span.start.saturating_add(byte_len(call.name.text.as_str())),
    }
}

impl CallName {
    /// Whether two calls name the same function in the same way.
    pub fn same(&self, other: &CallName) -> (r: bool)
        ensures
            r == (self.kind == other.kind && self.text@ == other.text@),
    {
        self.kind == other.kind && crate::chars::same(self.text.as_str(), other.text.as_str())
    }
}

impl Call {
    /// A copy of this call.
    pub fn copy(&self) -> (r: Call)
        ensures
            r@ == self@,
    {
        Call {
            name: CallName {
                kind: self.name.kind,
                function: self.name.function.clone(),
                text: self.name.text.clone(),
            },
            span: self.span,
        }
    }
}

impl Function {
    /// A copy of this function.
    pub fn copy(&self) -> (r: Function)
        ensures
            r@ == self@,
    {
        let mut calls: Vec<Call> = Vec::new();
        let mut i: usize = 0;
        while i < self.calls.len()
            invariant
                i <= self.calls@.len(),
                calls@.len() == i,
                forall|k: int| 0 <= k < i ==> calls@[k]@ == self.calls@[k]@,
            decreases self.calls@.len() - i,
        {
            calls.push(self.calls[i].copy());
            i = i + 1;
        }
        let r = Function {
            public: self.public,
            name: self.name.clone(),
            params: copy_texts(&self.params),
            ret: copy_opt_text(&self.ret),
            calls,
            span: self.span,
        };
        assert(r@ =~= self@);
        r
    }
}

/// A copy of a list of strings.
pub fn copy_texts(list: &Vec<String>) -> (r: Vec<String>)
    ensures
        texts(r@) == texts(list@),
{
    let mut r: Vec<String> = Vec::new();
    let mut i: usize = 0;
    while i < list.len()
        invariant
            i <= list@.len(),
            r@.len() == i,
            forall|k: int| 0 <= k < i ==> r@[k]@ == list@[k]@,
        decreases list@.len() - i,
    {
        r.push(list[i].clone());
        i = i + 1;
    }
    assert(texts(r@) =~= texts(list@));
    r
}

/// A copy of an optional string.
pub fn copy_opt_text(text: &Option<String>) -> (r: Option<String>)
    ensures
        opt_text(r) == opt_text(*text),
{
    match text {
        Some(text) => Some(text.clone()),
        None => None,
    }
}

/// One name that an import brings in, and the name it gets here where that is another.
#[derive(Debug)]
pub struct UseItem {
    pub name: String,
    pub alias: Option<String>,
}

/// What a [`UseItem`] says.
pub struct UseItemView {
    pub name: Seq<char>,
    pub alias: Option<Seq<char>>,
}

impl View for UseItem {
    type V = UseItemView;

    open spec fn view(&self) -> UseItemView {
        UseItemView { name: self.name@, alias: opt_text(self.alias) }
    }
}

impl UseItemView {
    /// The name by which the item is known where it is imported.
    pub open spec fn local(self) -> Seq<char> {
        match self.alias {
            Some(alias) => alias,
            None => self.name,
        }
    }
}

impl UseItem {
    /// The name by which the item is known where it is imported.
    pub fn local(&self) -> (r: &String)
        ensures
            r@ == self@.local(),
    {
        match &self.alias {
            Some(alias) => alias,
            None => &self.name,
        }
    }
}

/// What a list of imported names says.
pub open spec fn use_item_views(items: Seq<UseItem>) -> Seq<UseItemView> {
    Seq::new(items.len(), |i: int| items[i]@)
}

/// An import.
#[derive(Debug)]
pub struct UseDecl {
    pub public: bool,
    pub path: Vec<String>,
    pub items: Vec<UseItem>,
    pub span: Span,
}

/// What a [`UseDecl`] says.
#[verifier::ext_equal]
pub struct UseView {
    pub public: bool,
    pub path: Seq<Seq<char>>,
    pub items: Seq<UseItemView>,
    pub span: Span,
}

impl View for UseDecl {
    type V = UseView;

    open spec fn view(&self) -> UseView {
        UseView {
            public: self.public,
            path: texts(self.path@),
            items: use_item_views(self.items@),
            span: self.span,
        }
    }
}

impl UseDecl {
    /// A copy of this import.
    pub fn copy(&self) -> (r: UseDecl)
        ensures
            r@ == self@,
    {
        let mut items: Vec<UseItem> = Vec::new();
        let mut i: usize = 0;
        while i < self.items.len()
            invariant
                i <= self.items@.len(),
                items@.len() == i,
                forall|k: int| 0 <= k < i ==> items@[k]@ == self.items@[k]@,
            decreases self.items@.len() - i,
        {
            let item: &UseItem = &self.items[i];
            items.push(UseItem { name: item.name.clone(), alias: copy_opt_text(&item.alias) });
            i = i + 1;
        }
        let r = UseDecl {
            public: self.public,
            path: copy_texts(&self.path),
            items,
            span: self.span,
        };
        assert(r@ =~= self@);
        r
    }
}

/// A type alias, with its type as it is written.
#[derive(Debug)]
pub struct TypeAlias {
    pub public: bool,
    pub name: String,
    pub ty: String,
}

/// What a [`TypeAlias`] says.
pub struct AliasView {
    pub public: bool,
    pub name: Seq<char>,
    pub ty: Seq<char>,
}

impl View for TypeAlias {
    type V = AliasView;

    open spec fn view(&self) -> AliasView {
        AliasView { public: self.public, name: self.name@, ty: self.ty@ }
    }
}

/// An enum declaration.
#[derive(Debug)]
pub struct EnumDeclaration {
    pub public: bool,
    pub name: String,
}

/// What an [`EnumDeclaration`] says.
pub struct EnumView {
    pub public: bool,
    pub name: Seq<char>,
}

impl View for EnumDeclaration {
    type V = EnumView;

    open spec fn view(&self) -> EnumView {
        EnumView { public: self.public, name: self.name@ }
    }
}

/// A module and the items inside of it.
#[derive(Debug)]
pub struct Module {
    pub public: bool,
    pub name: String,
    pub items: Vec<Item>,
}

/// A component of a program.
#[derive(Debug)]
pub enum Item {
    TypeAlias(TypeAlias),
    Function(Function),
    Use(UseDecl),
    EnumDeclaration(EnumDeclaration),
    Module(Module),
    /// What stands for text that could not be read.
    Ignored,
}

/// What a [`Module`] says.
pub struct ModuleView {
    pub public: bool,
    pub name: Seq<char>,
    pub items: Seq<ItemView>,
}

/// What an [`Item`] says.
pub enum ItemView {
    TypeAlias(AliasView),
    Function(FunctionView),
    Use(UseView),
    EnumDeclaration(EnumView),
    Module(ModuleView),
    Ignored,
}

/// What an item says.
pub open spec fn item_view(item: Item) -> ItemView
    decreases item,
{
    match item {
        Item::TypeAlias(alias) => ItemView::TypeAlias(alias@),
        Item::Function(function) => ItemView::Function(function@),
        Item::Use(declaration) => ItemView::Use(declaration@),
        Item::EnumDeclaration(declaration) => ItemView::EnumDeclaration(declaration@),
        Item::Module(module) => ItemView::Module(
            ModuleView {
                public: module.public,
                name: module.name@,
                items: item_views(module.items@),
            },
        ),
        Item::Ignored => ItemView::Ignored,
    }
}

/// What a list of items says.
pub open spec fn item_views(items: Seq<Item>) -> Seq<ItemView>
    decreases items,
{
    if items.len() == 0 {
        Seq::empty()
    } else {
        item_views(items.drop_last()).push(item_view(items.last()))
    }
}

/// What a module says.
pub open spec fn module_view(module: Module) -> ModuleView {
    ModuleView { public: module.public, name: module.name@, items: item_views(module.items@) }
}

/// The views of a list of items are the views of its items.
pub broadcast proof fn lemma_item_views(items: Seq<Item>)
    ensures
        (#[trigger] item_views(items)).len() == items.len(),
        forall|i: int| 0 <= i < items.len() ==> #[trigger] item_views(items)[i] == item_view(items[i]),
    decreases items.len(),
{
    if items.len() > 0 {
        lemma_item_views(items.drop_last());
        assert forall|i: int| 0 <= i < items.len() implies #[trigger] item_views(items)[i] == item_view(
            items[i],
        ) by {
            if i < items.len() - 1 {
                assert(items.drop_last()[i] == items[i]);
            }
        }
    }
}

/// A parsed source.
#[derive(Debug)]
pub struct Program {
    pub items: Vec<Item>,
}

impl View for Program {
    type V = Seq<ItemView>;

    open spec fn view(&self) -> Seq<ItemView> {
        item_views(self.items@)
    }
}

} // verus!
