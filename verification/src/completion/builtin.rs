//! The callables that are part of the language.

use vstd::prelude::*;

use crate::completion::types::{FunctionTemplate, TemplateView};
use crate::order::texts;
use crate::syntax::CallKind;
use crate::utils::{builtin_kind, builtin_template, BuiltinTemplates};

verus! {

/// The kinds of calls that are built in, in the order in which they are shown.
pub open spec fn builtin_kinds() -> Seq<CallKind> {
    seq![
        CallKind::UnwrapLeft,
        CallKind::UnwrapRight,
        CallKind::Unwrap,
        CallKind::IsNone,
        CallKind::Assert,
        CallKind::Panic,
        CallKind::Debug,
        CallKind::TypeCast,
        CallKind::Fold,
        CallKind::ArrayFold,
        CallKind::ForWhile,
    ]
}

/// How a built-in callable is shown.
pub open spec fn builtin_of(kind: CallKind) -> Option<TemplateView> {
    match kind {
        CallKind::UnwrapLeft => Some(
            TemplateView {
                display_name: "unwrap_left::<R>"@,
                args: seq!["Either<L, R>"@],
                return_type: "L"@,
                description: "Extracts the left variant of an `Either` value.\n\nReturns the left-side value if it exists, otherwise panics."@,
            },
        ),
        CallKind::UnwrapRight => Some(
            TemplateView {
                display_name: "unwrap_right::<L>"@,
                args: seq!["Either<L, R>"@],
                return_type: "R"@,
                description: "Extracts the right variant of an `Either` value.\n\nReturns the right-side value if it exists, otherwise panics."@,
            },
        ),
        CallKind::Unwrap => Some(
            TemplateView {
                display_name: "unwrap"@,
                args: seq!["Option<T>"@],
                return_type: "T"@,
                description: "Unwraps an `Option` value, panicking if it is `None`."@,
            },
        ),
        CallKind::IsNone => Some(
            TemplateView {
                display_name: "is_none::<T>"@,
                args: seq!["Option<T>"@],
                return_type: "bool"@,
                description: "Checks if an `Option` is `None`."@,
            },
        ),
        CallKind::Assert => Some(
            TemplateView {
                display_name: "assert!"@,
                args: seq!["bool"@],
                return_type: "()"@,
                description: "Fails program if argument is `false`."@,
            },
        ),
        CallKind::Panic => Some(
            TemplateView {
                display_name: "panic!"@,
                args: Seq::empty(),
                return_type: "()"@,
                description: "Unconditionally causes program to fail."@,
            },
        ),
        CallKind::Debug => Some(
            TemplateView {
                display_name: "dbg!"@,
                args: seq!["T"@],
                return_type: "T"@,
                description: "Prints a value and returns it unchanged."@,
            },
        ),
        CallKind::TypeCast => Some(
            TemplateView {
                display_name: "<T>::into"@,
                args: seq!["U"@],
                return_type: "T"@,
                description: "Converts a value from type `U` to type `T` of the same structure."@,
            },
        ),
        CallKind::Fold => Some(
            TemplateView {
                display_name: "fold::<f, N>"@,
                args: seq!["List<E, N>"@, "A"@],
                return_type: "A"@,
                description: "Folds a list of bounded length by applying `f` to its elements and an accumulator."@,
            },
        ),
        CallKind::ArrayFold => Some(
            TemplateView {
                display_name: "array_fold::<f, N>"@,
                args: seq!["[E; N]"@, "A"@],
                return_type: "A"@,
                description: "Folds an array by applying `f` to its elements and an accumulator."@,
            },
        ),
        CallKind::ForWhile => Some(
            TemplateView {
                display_name: "for_while::<f>"@,
                args: seq!["A"@, "C"@],
                return_type: "Either<B, A>"@,
                description: "Runs `f` with a counter until it returns a left value or the counter ends."@,
            },
        ),
        CallKind::Jet | CallKind::Custom => None,
    }
}

/// All built-in callables as they are shown.
pub open spec fn builtin_table() -> Seq<(CallKind, TemplateView)> {
    Seq::new(builtin_kinds().len(), |i: int| (builtin_kinds()[i], builtin_of(builtin_kinds()[i])->0))
}

/// A callable without arguments.
fn without_arguments(name: &str, return_type: &str, description: &str) -> (r: FunctionTemplate)
    ensures
        r@ == (TemplateView {
            display_name: name@,
            args: Seq::empty(),
            return_type: return_type@,
            description: description@,
        }),
{
    let args: Vec<String> = Vec::new();
    assert(texts(args@) =~= Seq::<Seq<char>>::empty());
    FunctionTemplate::simple(name.to_owned(), args, return_type.to_owned(), description.to_owned())
}

/// A callable with one argument.
fn with_argument(name: &str, argument: &str, return_type: &str, description: &str) -> (r:
    FunctionTemplate)
    ensures
        r@ == (TemplateView {
            display_name: name@,
            args: seq![argument@],
            return_type: return_type@,
            description: description@,
        }),
{
    let args: Vec<String> = vec![argument.to_owned()];
    assert(texts(args@) =~= seq![argument@]);
    FunctionTemplate::simple(name.to_owned(), args, return_type.to_owned(), description.to_owned())
}

/// A callable with two arguments.
fn with_arguments(
    name: &str,
    first: &str,
    second: &str,
    return_type: &str,
    description: &str,
) -> (r: FunctionTemplate)
    ensures
        r@ == (TemplateView {
            display_name: name@,
            args: seq![first@, second@],
            return_type: return_type@,
            description: description@,
        }),
{
    let args: Vec<String> = vec![first.to_owned(), second.to_owned()];
    assert(texts(args@) =~= seq![first@, second@]);
    FunctionTemplate::simple(name.to_owned(), args, return_type.to_owned(), description.to_owned())
}

/// How a built-in callable is shown.
pub fn match_callname(kind: CallKind) -> (r: Option<FunctionTemplate>)
    ensures
        match r {
            Some(template) => builtin_of(kind) == Some(template@),
            None => builtin_of(kind) is None,
        },
{
    match kind {
        CallKind::UnwrapLeft => Some(
            with_argument(
                "unwrap_left::<R>",
                "Either<L, R>",
                "L",
                "Extracts the left variant of an `Either` value.\n\nReturns the left-side value if it exists, otherwise panics.",
            ),
        ),
        CallKind::UnwrapRight => Some(
            with_argument(
                "unwrap_right::<L>",
                "Either<L, R>",
                "R",
                "Extracts the right variant of an `Either` value.\n\nReturns the right-side value if it exists, otherwise panics.",
            ),
        ),
        CallKind::Unwrap => Some(
            with_argument(
                "unwrap",
                "Option<T>",
                "T",
                "Unwraps an `Option` value, panicking if it is `None`.",
            ),
        ),
        CallKind::IsNone => Some(
            with_argument(
                "is_none::<T>",
                "Option<T>",
                "bool",
                "Checks if an `Option` is `None`.",
            ),
        ),
        CallKind::Assert => Some(
            with_argument(
                "assert!",
                "bool",
                "()",
                "Fails program if argument is `false`.",
            ),
        ),
        CallKind::Panic => Some(
            without_arguments(
                "panic!",
                "()",
                "Unconditionally causes program to fail.",
            ),
        ),
        CallKind::Debug => Some(
            with_argument(
                "dbg!",
                "T",
                "T",
                "Prints a value and returns it unchanged.",
            ),
        ),
        CallKind::TypeCast => Some(
            with_argument(
                "<T>::into",
                "U",
                "T",
                "Converts a value from type `U` to type `T` of the same structure.",
            ),
        ),
        CallKind::Fold => Some(
            with_arguments(
                "fold::<f, N>",
                "List<E, N>",
                "A",
                "A",
                "Folds a list of bounded length by applying `f` to its elements and an accumulator.",
            ),
        ),
        CallKind::ArrayFold => Some(
            with_arguments(
                "array_fold::<f, N>",
                "[E; N]",
                "A",
                "A",
                "Folds an array by applying `f` to its elements and an accumulator.",
            ),
        ),
        CallKind::ForWhile => Some(
            with_arguments(
                "for_while::<f>",
                "A",
                "C",
                "Either<B, A>",
                "Runs `f` with a counter until it returns a left value or the counter ends.",
            ),
        ),
        CallKind::Jet | CallKind::Custom => None,
    }
}

/// All built-in callables as they are shown.
pub fn builtin_templates() -> (r: BuiltinTemplates)
    ensures
        r@ == builtin_table(),
{
    let kinds: Vec<CallKind> = vec![
        CallKind::UnwrapLeft,
        CallKind::UnwrapRight,
        CallKind::Unwrap,
        CallKind::IsNone,
        CallKind::Assert,
        CallKind::Panic,
        CallKind::Debug,
        CallKind::TypeCast,
        CallKind::Fold,
        CallKind::ArrayFold,
        CallKind::ForWhile,
    ];
    assert(kinds@ =~= builtin_kinds());
    let mut entries: Vec<(CallKind, FunctionTemplate)> = Vec::new();
    let mut i: usize = 0;
    while i < kinds.len()
        invariant
            i <= kinds@.len(),
            kinds@ == builtin_kinds(),
            entries@.len() == i,
            forall|k: int|
                0 <= k < i ==> (#[trigger] entries@[k]).0 == builtin_table()[k].0
                    && entries@[k].1@ == builtin_table()[k].1,
        decreases kinds@.len() - i,
    {
        let kind: CallKind = kinds[i];
        assert(kind !is Jet && kind !is Custom);
        if let Some(template) = match_callname(kind) {
            entries.push((kind, template));
        }
        i = i + 1;
    }
    let r = BuiltinTemplates { entries };
    assert(r@ =~= builtin_table());
    r
}

/// The first template of a kind stands where the kind stands among the built-in ones.
proof fn lemma_first_of_kind(templates: Seq<(CallKind, TemplateView)>, kind: CallKind, i: int)
    requires
        0 <= i < templates.len(),
        templates[i].0 == kind,
        forall|k: int| 0 <= k < i ==> (#[trigger] templates[k]).0 != kind,
    ensures
        builtin_template(templates, kind) == Some(templates[i].1),
    decreases i,
{
    if i > 0 {
        let rest = templates.drop_first();
        assert(templates[0].0 != kind);
        assert forall|k: int| 0 <= k < i - 1 implies (#[trigger] rest[k]).0 != kind by {
            assert(rest[k] == templates[k + 1]);
        }
        assert(rest[i - 1] == templates[i]);
        lemma_first_of_kind(rest, kind, i - 1);
    }
}

/// No template of a kind is found where there is none.
proof fn lemma_none_of_kind(templates: Seq<(CallKind, TemplateView)>, kind: CallKind)
    requires
        forall|k: int| 0 <= k < templates.len() ==> (#[trigger] templates[k]).0 != kind,
    ensures
        builtin_template(templates, kind) is None,
    decreases templates.len(),
{
    if templates.len() > 0 {
        let rest = templates.drop_first();
        assert forall|k: int| 0 <= k < rest.len() implies (#[trigger] rest[k]).0 != kind by {
            assert(rest[k] == templates[k + 1]);
        }
        assert(templates[0].0 != kind);
        lemma_none_of_kind(rest, kind);
    }
}

/// Where a kind stands among the built-in ones.
spec fn place_of_kind(kind: CallKind) -> int {
    match kind {
        CallKind::UnwrapLeft => 0,
        CallKind::UnwrapRight => 1,
        CallKind::Unwrap => 2,
        CallKind::IsNone => 3,
        CallKind::Assert => 4,
        CallKind::Panic => 5,
        CallKind::Debug => 6,
        CallKind::TypeCast => 7,
        CallKind::Fold => 8,
        CallKind::ArrayFold => 9,
        CallKind::ForWhile => 10,
        CallKind::Jet | CallKind::Custom => -1,
    }
}

/// Every call that is neither of a jet nor of a function of the program is shown, with a
/// description and with as many arguments as it takes: two where it folds or loops, none where it
/// panics, else one.
pub proof fn law_every_builtin_is_shown(kind: CallKind)
    ensures
        kind == CallKind::Jet || kind == CallKind::Custom ==> builtin_template(
            builtin_table(),
            kind,
        ) is None,
        kind != CallKind::Jet && kind != CallKind::Custom ==> {
            &&& builtin_template(builtin_table(), kind) matches Some(template)
            &&& template.description.len() > 0
            &&& template.args.len() == (if kind == CallKind::Panic {
                0int
            } else if kind == CallKind::Fold || kind == CallKind::ArrayFold || kind
                == CallKind::ForWhile {
                2
            } else {
                1
            })
        },
{
    let table = builtin_table();
    let at = place_of_kind(kind);
    assert forall|k: int| 0 <= k < table.len() && k != at implies (#[trigger] table[k]).0
        != kind by {
        assert(place_of_kind(table[k].0) == k);
    }
    if at < 0 {
        lemma_none_of_kind(table, kind);
    } else {
        assert(table[at].0 == kind);
        lemma_first_of_kind(table, kind, at);
        reveal_strlit(
            "Extracts the left variant of an `Either` value.\n\nReturns the left-side value if it exists, otherwise panics.",
        );
        reveal_strlit(
            "Extracts the right variant of an `Either` value.\n\nReturns the right-side value if it exists, otherwise panics.",
        );
        reveal_strlit("Unwraps an `Option` value, panicking if it is `None`.");
        reveal_strlit("Checks if an `Option` is `None`.");
        reveal_strlit("Fails program if argument is `false`.");
        reveal_strlit("Unconditionally causes program to fail.");
        reveal_strlit("Prints a value and returns it unchanged.");
        reveal_strlit("Converts a value from type `U` to type `T` of the same structure.");
        reveal_strlit(
            "Folds a list of bounded length by applying `f` to its elements and an accumulator.",
        );
        reveal_strlit("Folds an array by applying `f` to its elements and an accumulator.");
        reveal_strlit("Runs `f` with a counter until it returns a left value or the counter ends.");
    }
}

/// A built-in function that is found by a name is shown under that name, with its type parameters
/// behind it where it has any.
pub proof fn law_builtin_is_shown_under_its_name(name: Seq<char>)
    ensures
        builtin_kind(name) matches Some(kind) ==> {
            &&& builtin_template(builtin_table(), kind) matches Some(template)
            &&& name.is_prefix_of(template.display_name)
            &&& template.display_name.len() > name.len() ==> template.display_name[name.len() as int]
                == ':'
        },
{
    if let Some(kind) = builtin_kind(name) {
        let table = builtin_table();
        let at = place_of_kind(kind);
        assert forall|k: int| 0 <= k < at implies (#[trigger] table[k]).0 != kind by {
            assert(place_of_kind(table[k].0) == k);
        }
        assert(table[at].0 == kind);
        lemma_first_of_kind(table, kind, at);
        let shown = table[at].1.display_name;
        reveal_strlit("unwrap_left");
        reveal_strlit("unwrap_left::<R>");
        reveal_strlit("unwrap_right");
        reveal_strlit("unwrap_right::<L>");
        reveal_strlit("unwrap");
        reveal_strlit("is_none");
        reveal_strlit("is_none::<T>");
        reveal_strlit("assert!");
        reveal_strlit("panic!");
        reveal_strlit("dbg!");
        assert(shown.subrange(0, name.len() as int) =~= name);
    }
}

} // verus!
