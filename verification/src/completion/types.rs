//! How a callable is shown: its name, its arguments, its result and its description.

use vstd::prelude::*;
use vstd::string::StringExecFns;

use crate::chars::join3;
use crate::order::texts;
use crate::syntax::{copy_texts, Function, FunctionView};

verus! {

/// A callable as it is shown to the user.
#[derive(Debug)]
pub struct FunctionTemplate {
    pub display_name: String,
    pub args: Vec<String>,
    pub return_type: String,
    pub description: String,
}

/// What a [`FunctionTemplate`] says.
#[verifier::ext_equal]
pub struct TemplateView {
    pub display_name: Seq<char>,
    pub args: Seq<Seq<char>>,
    pub return_type: Seq<char>,
    pub description: Seq<char>,
}

impl View for FunctionTemplate {
    type V = TemplateView;

    open spec fn view(&self) -> TemplateView {
        TemplateView {
            display_name: self.display_name@,
            args: texts(self.args@),
            return_type: self.return_type@,
            description: self.description@,
        }
    }
}

/// Texts in a row with a separator between each two.
pub open spec fn joined(list: Seq<Seq<char>>, separator: Seq<char>) -> Seq<char>
    decreases list.len(),
{
    if list.len() == 0 {
        Seq::empty()
    } else if list.len() == 1 {
        list[0]
    } else {
        joined(list.drop_last(), separator) + separator + list.last()
    }
}

/// Joins texts with a separator between each two.
pub fn join(list: &Vec<String>, separator: &str) -> (r: String)
    ensures
        r@ == joined(texts(list@), separator@),
{
    let ghost shown = texts(list@);
    let mut text: String = String::new();
    let mut i: usize = 0;
    while i < list.len()
        invariant
            i <= list@.len(),
            shown == texts(list@),
            text@ == joined(shown.take(i as int), separator@),
        decreases list@.len() - i,
    {
        let ghost before = text@;
        proof {
            assert(shown.take(i + 1).drop_last() == shown.take(i as int));
            assert(shown.take(i + 1).last() == list@[i as int]@);
        }
        if i > 0 {
            text.append(separator);
        }
        text.append(list[i].as_str());
        assert(text@ =~= joined(shown.take(i + 1), separator@));
        i = i + 1;
    }
    assert(shown.take(i as int) == shown);
    text
}

impl TemplateView {
    /// The arguments and the result: `fn(a: u32) -> u32`.
    pub open spec fn signature(self) -> Seq<char> {
        "fn("@ + joined(self.args, ", "@) + ") -> "@ + self.return_type
    }

    /// The name with the arguments and the result: `fn double(a: u32) -> u32`.
    pub open spec fn declaration(self) -> Seq<char> {
        "fn "@ + self.display_name + "("@ + joined(self.args, ", "@) + ") -> "@ + self.return_type
    }
}

impl FunctionTemplate {
    pub fn simple(
        display_name: String,
        args: Vec<String>,
        return_type: String,
        description: String,
    ) -> (r: FunctionTemplate)
        ensures
            r@ == (TemplateView {
                display_name: display_name@,
                args: texts(args@),
                return_type: return_type@,
                description: description@,
            }),
    {
        FunctionTemplate { display_name, args, return_type, description }
    }

    /// A template like this one.
    pub fn copy(&self) -> (r: FunctionTemplate)
        ensures
            r@ == self@,
    {
        FunctionTemplate::simple(
            self.display_name.clone(),
            copy_texts(&self.args),
            self.return_type.clone(),
            self.description.clone(),
        )
    }

    /// The arguments and the result.
    pub fn get_signature(&self) -> (r: String)
        ensures
            r@ == self@.signature(),
    {
        let mut text: String = join3("fn(", join(&self.args, ", ").as_str(), ") -> ");
        text.append(self.return_type.as_str());
        text
    }

    /// The name with the arguments and the result.
    pub fn get_declaration(&self) -> (r: String)
        ensures
            r@ == self@.declaration(),
    {
        let mut text: String = join3("fn ", self.display_name.as_str(), "(");
        text.append(join(&self.args, ", ").as_str());
        text.append(") -> ");
        text.append(self.return_type.as_str());
        text
    }
}

/// A function of a program as it is shown. One that says nothing of its result has the unit type.
pub open spec fn function_template(function: FunctionView, documentation: Seq<char>) -> TemplateView {
    TemplateView {
        display_name: function.name,
        args: function.params,
        return_type: match function.ret {
            Some(ty) => ty,
            None => "()"@,
        },
        description: documentation,
    }
}

pub fn function_to_template(function: &Function, documentation: &str) -> (r: FunctionTemplate)
    ensures
        r@ == function_template(function@, documentation@),
{
    let return_type: String = match &function.ret {
        Some(ty) => ty.clone(),
        None => "()".to_owned(),
    };
    FunctionTemplate::simple(
        function.name.clone(),
        copy_texts(&function.params),
        return_type,
        documentation.to_owned(),
    )
}

} // verus!
