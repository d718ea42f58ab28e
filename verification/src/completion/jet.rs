//! The jets of the language as callables.

use vstd::prelude::*;

use simplicityhl::docs::jet::JetInfo;
use simplicityhl::simplicity::jet::Elements;

use crate::completion::types::{FunctionTemplate, TemplateView};
use crate::order::texts;

verus! {

/// A jet of the Elements family.
#[verifier::external_type_specification]
#[verifier::external_body]
pub struct ExElements(Elements);

/// The jet that `Elements::from_str` finds under a name.
pub uninterp spec fn jet_named(name: Seq<char>) -> Option<Elements>;

/// The name of a jet, its `Display` form.
pub uninterp spec fn jet_name(jet: Elements) -> Seq<char>;

/// The types of the arguments that `simplicityhl::jet::source_type` gives a jet, as they are
/// written.
pub uninterp spec fn jet_arguments(jet: Elements) -> Seq<Seq<char>>;

/// The type that `simplicityhl::jet::target_type` gives a jet, as it is written.
pub uninterp spec fn jet_result(jet: Elements) -> Seq<char>;

/// What `JetInfo::documentation` says of a jet.
pub uninterp spec fn jet_description(jet: Elements) -> Seq<char>;

/// `Elements::from_str`: the jet of a name, if there is one.
#[verifier::external_body]
pub(crate) fn find_jet(name: &str) -> (r: Option<Elements>)
    ensures
        r == jet_named(name@),
        match r {
            Some(jet) => jet_name(jet) == name@,
            None => true,
        },
{
    name.parse().ok()
}

/// The `Display` form of `Elements`.
#[verifier::external_body]
fn jet_text(jet: &Elements) -> (r: String)
    ensures
        r@ == jet_name(*jet),
{
    jet.to_string()
}

/// `simplicityhl::jet::source_type`, each type in its `Display` form.
#[verifier::external_body]
fn jet_source(jet: &Elements) -> (r: Vec<String>)
    ensures
        texts(r@) == jet_arguments(*jet),
{
    simplicityhl::jet::source_type(jet).iter().map(|ty| ty.to_string()).collect()
}

/// `simplicityhl::jet::target_type` in its `Display` form.
#[verifier::external_body]
fn jet_target(jet: &Elements) -> (r: String)
    ensures
        r@ == jet_result(*jet),
{
    simplicityhl::jet::target_type(jet).to_string()
}

/// `JetInfo::documentation`.
#[verifier::external_body]
fn jet_documentation(jet: &Elements) -> (r: String)
    ensures
        r@ == jet_description(*jet),
{
    jet.documentation().to_owned()
}

/// `Elements::ALL` lists every jet of the family once.
#[verifier::external_body]
fn all_jets() -> (r: Vec<Elements>)
    ensures
        forall|jet: Elements| #[trigger] r@.contains(jet),
        r@.no_duplicates(),
{
    Elements::ALL.to_vec()
}

/// A jet as it is shown.
pub open spec fn jet_template(jet: Elements) -> TemplateView {
    TemplateView {
        display_name: jet_name(jet),
        args: jet_arguments(jet),
        return_type: jet_result(jet),
        description: jet_description(jet),
    }
}

/// A jet as a [`FunctionTemplate`].
pub fn jet_to_template(jet: Elements) -> (r: FunctionTemplate)
    ensures
        r@ == jet_template(jet),
{
    FunctionTemplate::simple(
        jet_text(&jet),
        jet_source(&jet),
        jet_target(&jet),
        jet_documentation(&jet),
    )
}

/// Whether a list shows every jet once, and nothing else.
pub open spec fn shows_all_jets(templates: Seq<TemplateView>) -> bool {
    exists|jets: Seq<Elements>|
        #![trigger jets.no_duplicates()]
        jets.no_duplicates() && (forall|jet: Elements| #[trigger] jets.contains(jet))
            && templates == jets.map_values(|jet: Elements| jet_template(jet))
}

/// What a list of templates says.
pub open spec fn template_views(templates: Seq<FunctionTemplate>) -> Seq<TemplateView> {
    Seq::new(templates.len(), |i: int| templates[i]@)
}

/// All jets as [`FunctionTemplate`]s.
pub fn get_jets_completions() -> (r: Vec<FunctionTemplate>)
    ensures
        shows_all_jets(template_views(r@)),
{
    let jets: Vec<Elements> = all_jets();
    let mut r: Vec<FunctionTemplate> = Vec::new();
    let mut i: usize = 0;
    while i < jets.len()
        invariant
            i <= jets@.len(),
            r@.len() == i,
            forall|k: int| 0 <= k < i ==> (#[trigger] r@[k])@ == jet_template(jets@[k]),
        decreases jets@.len() - i,
    {
        r.push(jet_to_template(jets[i]));
        i = i + 1;
    }
    assert(template_views(r@) =~= jets@.map_values(|jet: Elements| jet_template(jet)));
    r
}

/// A list that shows all jets shows each of them, with its name, its types and its description, and
/// nothing that is no jet.
pub proof fn law_every_jet_is_shown(templates: Seq<TemplateView>, jet: Elements, i: int)
    requires
        shows_all_jets(templates),
    ensures
        templates.contains(
            TemplateView {
                display_name: jet_name(jet),
                args: jet_arguments(jet),
                return_type: jet_result(jet),
                description: jet_description(jet),
            },
        ),
        0 <= i < templates.len() ==> exists|other: Elements|
            templates[i].display_name == #[trigger] jet_name(other),
{
    let jets = choose|jets: Seq<Elements>|
        #![trigger jets.no_duplicates()]
        jets.no_duplicates() && (forall|jet: Elements| #[trigger] jets.contains(jet))
            && templates == jets.map_values(|jet: Elements| jet_template(jet));
    assert(jets.contains(jet));
    let k = choose|k: int| 0 <= k < jets.len() && jets[k] == jet;
    assert(templates[k] == jet_template(jet));
    if 0 <= i < templates.len() {
        assert(templates[i].display_name == jet_name(jets[i]));
    }
}

} // verus!
