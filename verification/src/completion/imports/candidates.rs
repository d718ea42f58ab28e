//! What can be imported from the items of a source.

use vstd::prelude::*;

use ropey::Rope;

use crate::analysis::resolution::{descend, find_module};
use crate::analysis::scopes::{documentation_of, function_documentation};
use crate::chars::{join2, join3};
use crate::compiler::{parse_program, parsed, UnstableFeature};
use crate::completion::types::{function_template, function_to_template};
use crate::order::texts;
use crate::protocol::opt_text;
use crate::rope::{rope_chars, rope_from_str};
use crate::syntax::{
    copy_opt_text, item_view, item_views, lemma_item_views, use_item_views, Item, ItemView, Program,
    UseItem, UseItemView,
};

verus! {

broadcast use lemma_item_views;

/// What a candidate stands for.
#[derive(Clone, Copy, Debug, PartialEq, Eq, Structural)]
pub enum CandidateKind {
    Module,
    Function,
    TypeParameter,
    Enum,
    Reference,
}

/// Something that can be imported.
#[derive(Debug)]
pub struct Candidate {
    pub name: String,
    pub kind: CandidateKind,
    pub detail: String,
    /// What the documentation says, in Markdown.
    pub documentation: Option<String>,
}

/// What a [`Candidate`] says.
#[verifier::ext_equal]
pub struct CandidateView {
    pub name: Seq<char>,
    pub kind: CandidateKind,
    pub detail: Seq<char>,
    pub documentation: Option<Seq<char>>,
}

impl View for Candidate {
    type V = CandidateView;

    open spec fn view(&self) -> CandidateView {
        CandidateView {
            name: self.name@,
            kind: self.kind,
            detail: self.detail@,
            documentation: opt_text(self.documentation),
        }
    }
}

/// What a list of candidates says.
pub open spec fn candidate_views(list: Seq<Candidate>) -> Seq<CandidateView> {
    Seq::new(list.len(), |i: int| list[i]@)
}

/// A candidate without documentation.
pub open spec fn plain(name: Seq<char>, kind: CandidateKind, detail: Seq<char>) -> CandidateView {
    CandidateView { name, kind, detail, documentation: None }
}

impl Candidate {
    /// A candidate without documentation.
    pub fn plain(name: String, kind: CandidateKind, detail: String) -> (r: Candidate)
        ensures
            r@ == plain(name@, kind, detail@),
    {
        Candidate { name, kind, detail, documentation: None }
    }

    /// A copy of this candidate.
    pub fn copy(&self) -> (r: Candidate)
        ensures
            r@ == self@,
    {
        Candidate {
            name: self.name.clone(),
            kind: self.kind,
            detail: self.detail.clone(),
            documentation: copy_opt_text(&self.documentation),
        }
    }
}

/// The names that a public import passes on.
pub open spec fn exports(items: Seq<UseItemView>) -> Seq<CandidateView> {
    Seq::new(
        items.len(),
        |i: int| plain(items[i].local(), CandidateKind::Reference, "Public re-export"@),
    )
}

/// What an item offers to other sources: a public one offers its name.
pub open spec fn item_candidates(item: ItemView, text: Seq<char>) -> Seq<CandidateView> {
    match item {
        ItemView::Function(function) if function.public => {
            let documentation = documentation_of(function, text);
            seq![
                CandidateView {
                    name: function.name,
                    kind: CandidateKind::Function,
                    detail: function_template(function, documentation).signature(),
                    documentation: if documentation.len() == 0 {
                        None
                    } else {
                        Some(documentation)
                    },
                },
            ]
        },
        ItemView::TypeAlias(alias) if alias.public => seq![
            plain(
                alias.name,
                CandidateKind::TypeParameter,
                "type "@ + alias.name + " = "@ + alias.ty,
            ),
        ],
        ItemView::EnumDeclaration(declaration) if declaration.public => seq![
            plain(declaration.name, CandidateKind::Enum, "enum "@ + declaration.name),
        ],
        ItemView::Module(module) if module.public => seq![
            plain(module.name, CandidateKind::Module, "Public inline module"@),
        ],
        ItemView::Use(declaration) if declaration.public => exports(declaration.items),
        _ => Seq::empty(),
    }
}

/// What some items offer to other sources.
pub open spec fn public_candidates(items: Seq<ItemView>, text: Seq<char>) -> Seq<CandidateView>
    decreases items.len(),
{
    if items.len() == 0 {
        Seq::empty()
    } else {
        public_candidates(items.drop_last(), text) + item_candidates(items.last(), text)
    }
}

/// What the module at a path of names offers.
pub open spec fn candidates_in(
    items: Seq<ItemView>,
    text: Seq<char>,
    segments: Seq<Seq<char>>,
) -> Seq<CandidateView> {
    match descend(items, segments) {
        Some(inner) => public_candidates(inner, text),
        None => Seq::empty(),
    }
}

/// All the syntax that a source may use.
pub open spec fn all_features() -> Seq<UnstableFeature> {
    seq![UnstableFeature::Imports, UnstableFeature::Enums]
}

/// What the module at a path of names of a source offers. A source that cannot be parsed offers
/// nothing.
pub open spec fn source_candidates(source: Seq<char>, segments: Seq<Seq<char>>) -> Seq<
    CandidateView,
> {
    match parsed(0, source, all_features()).0 {
        Some(items) => candidates_in(items, source, segments),
        None => Seq::empty(),
    }
}

/// The modules among some items, public or not.
pub open spec fn inline_modules(items: Seq<ItemView>) -> Seq<CandidateView>
    decreases items.len(),
{
    if items.len() == 0 {
        Seq::empty()
    } else {
        let before = inline_modules(items.drop_last());
        match items.last() {
            ItemView::Module(module) => before.push(
                plain(module.name, CandidateKind::Module, "Inline module"@),
            ),
            _ => before,
        }
    }
}

/// The modules of a source.
pub open spec fn inline_module_candidates(source: Seq<char>) -> Seq<CandidateView> {
    match parsed(0, source, all_features()).0 {
        Some(items) => inline_modules(items),
        None => Seq::empty(),
    }
}

/// Nothing private is offered: a name that some items offer is that of a public item or one that a
/// public import passes on.
pub proof fn law_only_public_items_are_offered(
    items: Seq<ItemView>,
    text: Seq<char>,
    candidate: CandidateView,
)
    requires
        public_candidates(items, text).contains(candidate),
    ensures
        exists|i: int|
            0 <= i < items.len() && offers(#[trigger] items[i], candidate.name),
    decreases items.len(),
{
    if items.len() > 0 {
        let before = public_candidates(items.drop_last(), text);
        let own = item_candidates(items.last(), text);
        let k = choose|k: int| 0 <= k < (before + own).len() && (before + own)[k] == candidate;
        if k < before.len() {
            assert(before[k] == candidate);
            law_only_public_items_are_offered(items.drop_last(), text, candidate);
            let i = choose|i: int|
                0 <= i < items.drop_last().len() && offers(
                    #[trigger] items.drop_last()[i],
                    candidate.name,
                );
            assert(items[i] == items.drop_last()[i]);
        } else {
            assert(own[k - before.len()] == candidate);
            assert(offers(items[items.len() - 1], candidate.name));
        }
    }
}

/// Whether an item is public and has a name, or passes the name on.
pub open spec fn offers(item: ItemView, name: Seq<char>) -> bool {
    match item {
        ItemView::Function(function) => function.public && function.name == name,
        ItemView::TypeAlias(alias) => alias.public && alias.name == name,
        ItemView::EnumDeclaration(declaration) => declaration.public && declaration.name == name,
        ItemView::Module(module) => module.public && module.name == name,
        ItemView::Use(declaration) => declaration.public && exists|k: int|
            0 <= k < declaration.items.len() && #[trigger] declaration.items[k].local() == name,
        ItemView::Ignored => false,
    }
}

/// Adds the names that a public import passes on.
fn push_exports(list: &mut Vec<Candidate>, items: &Vec<UseItem>)
    ensures
        candidate_views(final(list)@) == candidate_views(old(list)@) + exports(
            use_item_views(items@),
        ),
{
    let ghost before = candidate_views(list@);
    let ghost wanted = exports(use_item_views(items@));
    let mut i: usize = 0;
    assert(before + wanted.take(0) =~= before);
    while i < items.len()
        invariant
            i <= items@.len(),
            wanted == exports(use_item_views(items@)),
            candidate_views(list@) == before + wanted.take(i as int),
        decreases items@.len() - i,
    {
        let ghost so_far = candidate_views(list@);
        let candidate = Candidate::plain(
            items[i].local().clone(),
            CandidateKind::Reference,
            "Public re-export".to_owned(),
        );
        let ghost view = candidate@;
        list.push(candidate);
        assert(candidate_views(list@) =~= so_far.push(view));
        assert(wanted.take(i + 1) =~= wanted.take(i as int).push(wanted[i as int]));
        assert(view =~= wanted[i as int]);
        assert(candidate_views(list@) =~= before + wanted.take(i + 1));
        i = i + 1;
    }
    assert(wanted.take(i as int) =~= wanted);
}

/// What a public item that is no import offers to other sources.
fn candidate_of(item: &Item, rope: &Rope) -> (r: Option<Candidate>)
    ensures
        !(item is Use) ==> item_candidates(item_view(*item), rope_chars(*rope)) == (match r {
            Some(candidate) => seq![candidate@],
            None => Seq::empty(),
        }),
        item is Use ==> r is None,
{
    match item {
        Item::Function(function) if function.public => {
            let documentation: String = function_documentation(function, rope);
            let detail: String = function_to_template(
                function,
                documentation.as_str(),
            ).get_signature();
            let documentation: Option<String> = if documentation.as_str().is_empty() {
                None
            } else {
                Some(documentation)
            };
            Some(
                Candidate {
                    name: function.name.clone(),
                    kind: CandidateKind::Function,
                    detail,
                    documentation,
                },
            )
        },
        Item::TypeAlias(alias) if alias.public => Some(
            Candidate::plain(
                alias.name.clone(),
                CandidateKind::TypeParameter,
                join2(join3("type ", alias.name.as_str(), " = ").as_str(), alias.ty.as_str()),
            ),
        ),
        Item::EnumDeclaration(declaration) if declaration.public => Some(
            Candidate::plain(
                declaration.name.clone(),
                CandidateKind::Enum,
                join2("enum ", declaration.name.as_str()),
            ),
        ),
        Item::Module(module) if module.public => Some(
            Candidate::plain(
                module.name.clone(),
                CandidateKind::Module,
                "Public inline module".to_owned(),
            ),
        ),
        _ => None,
    }
}

/// Adds what an item offers to other sources.
fn push_item(list: &mut Vec<Candidate>, item: &Item, rope: &Rope)
    ensures
        candidate_views(final(list)@) == candidate_views(old(list)@) + item_candidates(
            item_view(*item),
            rope_chars(*rope),
        ),
{
    let ghost before = candidate_views(list@);
    let ghost wanted = item_candidates(item_view(*item), rope_chars(*rope));
    if let Item::Use(declaration) = item {
        if declaration.public {
            push_exports(list, &declaration.items);
        } else {
            assert(before + wanted =~= before);
        }
    } else {
        match candidate_of(item, rope) {
            Some(candidate) => {
                let ghost view = candidate@;
                list.push(candidate);
                assert(candidate_views(list@) =~= before + seq![view]);
            },
            None => {
                assert(before + wanted =~= before);
            },
        }
    }
}

/// What some items offer to other sources.
fn collect_public(items: &Vec<Item>, rope: &Rope) -> (r: Vec<Candidate>)
    ensures
        candidate_views(r@) == public_candidates(item_views(items@), rope_chars(*rope)),
{
    let ghost shown = item_views(items@);
    let mut r: Vec<Candidate> = Vec::new();
    let mut i: usize = 0;
    assert(candidate_views(r@) =~= Seq::<CandidateView>::empty());
    while i < items.len()
        invariant
            i <= items@.len(),
            shown == item_views(items@),
            candidate_views(r@) == public_candidates(shown.take(i as int), rope_chars(*rope)),
        decreases items@.len() - i,
    {
        assert(shown.take(i + 1).drop_last() == shown.take(i as int));
        assert(shown.take(i + 1).last() == item_view(items@[i as int]));
        push_item(&mut r, &items[i], rope);
        i = i + 1;
    }
    assert(shown.take(i as int) == shown);
    r
}

/// What the module at a path of names offers.
pub fn candidates_from_items(items: &Vec<Item>, source: &str, segments: &[String]) -> (r: Vec<
    Candidate,
>)
    ensures
        candidate_views(r@) == candidates_in(item_views(items@), source@, texts(segments@)),
{
    let ghost path = texts(segments@);
    let mut inner: &Vec<Item> = items;
    let mut i: usize = 0;
    assert(path.skip(0) == path);
    while i < segments.len()
        invariant
            i <= segments@.len(),
            path == texts(segments@),
            descend(item_views(items@), path) == descend(
                item_views(inner@),
                path.skip(i as int),
            ),
        decreases segments@.len() - i,
    {
        assert(path.skip(i as int)[0] == segments@[i as int]@);
        assert(path.skip(i as int).drop_first() == path.skip(i + 1));
        match find_module(inner, segments[i].as_str()) {
            Some(module) => {
                inner = &module.items;
            },
            None => {
                let r: Vec<Candidate> = Vec::new();
                assert(candidate_views(r@) =~= Seq::<CandidateView>::empty());
                return r;
            },
        }
        i = i + 1;
    }
    let rope: Rope = rope_from_str(source);
    collect_public(inner, &rope)
}

/// Parses a source with all the syntax that it may use.
fn parse_any(source: &str) -> (r: Option<Program>)
    ensures
        match r {
            Some(program) => parsed(0, source@, all_features()).0 == Some(program@),
            None => parsed(0, source@, all_features()).0 is None,
        },
{
    let features: Vec<UnstableFeature> = vec![UnstableFeature::Imports, UnstableFeature::Enums];
    assert(features@ =~= all_features());
    parse_program(0, source, &features).0
}

/// What the module at a path of names of a source offers.
pub fn parse_source_candidates(source: &str, segments: &[String]) -> (r: Vec<Candidate>)
    ensures
        candidate_views(r@) == source_candidates(source@, texts(segments@)),
{
    match parse_any(source) {
        Some(program) => candidates_from_items(&program.items, source, segments),
        None => {
            let r: Vec<Candidate> = Vec::new();
            assert(candidate_views(r@) =~= Seq::<CandidateView>::empty());
            r
        },
    }
}

/// The modules of a source.
pub fn parse_inline_module_candidates(source: &str) -> (r: Vec<Candidate>)
    ensures
        candidate_views(r@) == inline_module_candidates(source@),
{
    match parse_any(source) {
        Some(program) => module_candidates(&program.items),
        None => {
            let r: Vec<Candidate> = Vec::new();
            assert(candidate_views(r@) =~= Seq::<CandidateView>::empty());
            r
        },
    }
}

/// The modules among some items.
pub fn module_candidates(items: &Vec<Item>) -> (r: Vec<Candidate>)
    ensures
        candidate_views(r@) == inline_modules(item_views(items@)),
{
    let mut r: Vec<Candidate> = Vec::new();
    assert(candidate_views(r@) =~= Seq::<CandidateView>::empty());
    let ghost shown = item_views(items@);
    let mut i: usize = 0;
    while i < items.len()
        invariant
            i <= items@.len(),
            shown == item_views(items@),
            candidate_views(r@) == inline_modules(shown.take(i as int)),
        decreases items@.len() - i,
    {
        assert(shown.take(i + 1).drop_last() == shown.take(i as int));
        assert(shown.take(i + 1).last() == item_view(items@[i as int]));
        if let Item::Module(module) = &items[i] {
            let ghost before = candidate_views(r@);
            let candidate = Candidate::plain(
                module.name.clone(),
                CandidateKind::Module,
                "Inline module".to_owned(),
            );
            let ghost view = candidate@;
            r.push(candidate);
            assert(candidate_views(r@) =~= before.push(view));
        }
        i = i + 1;
    }
    assert(shown.take(i as int) == shown);
    r
}

} // verus!
