//! What holds of everything that is shown at a cursor.

use vstd::prelude::*;

use crate::analysis::sources::{lemma_index_of, NamedView};
use crate::analysis::SnapshotView;
use crate::chars::{utf16_len, utf8_len};
use crate::completion::callables::is_offered;
use crate::completion::imports::context::context_at;
use crate::completion::jet::{
    jet_arguments, jet_description, jet_name, jet_named, jet_result, shows_all_jets,
};
use crate::completion::types::{joined, TemplateView};
use crate::navigation::definition::cursor;
use crate::navigation::laws::{
    is_innermost, is_owner, law_call_is_found_by_its_name, law_function_around_offset, means,
    touches, touches_no_name,
};
use crate::navigation::name_range_of;
use crate::protocol::{Position, Range};
use crate::rope::{byte_at_char, byte_slice, line_count, line_start, line_text};
use crate::server::completion::{last_line, plan_at, PlanView};
use crate::server::hover::{hover_of, HoverView};
use crate::server::symbols::{symbols_of, SymbolView};
use crate::signature_help::{callable_signature, help_at, HelpView};
use crate::split::lemma_last_index;
use crate::syntax::{CallKind, CallView, FunctionView};
use crate::text::{offset_of_position, position_of_offset};
use crate::utils::{builtin_template, call_at_end, SignatureView};

verus! {

/// How a function, its arguments and its result are written.
pub open spec fn written(
    name: Seq<char>,
    args: Seq<Seq<char>>,
    result: Seq<char>,
) -> Seq<char> {
    "fn "@ + name + "("@ + joined(args, ", "@) + ") -> "@ + result
}

/// The result of a function; one that says nothing of it has the unit type.
pub open spec fn result_of(function: FunctionView) -> Seq<char> {
    match function.ret {
        Some(ty) => ty,
        None => "()"@,
    }
}

/// Some texts in a row have the separator between each two.
pub proof fn law_joined_texts_are_separated(
    list: Seq<Seq<char>>,
    text: Seq<char>,
    separator: Seq<char>,
)
    ensures
        joined(Seq::empty(), separator).len() == 0,
        joined(seq![text], separator) == text,
        list.len() > 0 ==> joined(list.push(text), separator) == joined(list, separator)
            + separator + text,
{
    assert(list.push(text).drop_last() =~= list);
}

/// Whether a call at an offset has its name between two positions.
pub open spec fn has_name_at(snapshot: SnapshotView, call: CallView, range: Range) -> bool {
    &&& position_of_offset(snapshot.text, call.span.start as nat) == Some(range.start)
    &&& call.span.start + utf8_len(call.name.text) <= usize::MAX
    &&& position_of_offset(
        snapshot.text,
        (call.span.start + utf8_len(call.name.text)) as nat,
    ) == Some(range.end)
}

/// A call of a function shows how the function that the name means is declared, and what its
/// documentation says, at the name of the call.
pub proof fn law_call_shows_its_function(
    snapshot: SnapshotView,
    builtins: Seq<(CallKind, TemplateView)>,
    offset: nat,
    i: int,
    j: int,
    t: int,
    range: Range,
)
    requires
        offset <= usize::MAX,
        is_owner(snapshot.functions, i, offset),
        is_innermost(snapshot.functions[i].function.calls, j, offset),
        snapshot.functions[i].function.calls[j].name.kind == CallKind::Custom,
        means(snapshot.functions, snapshot.functions[i].function.calls[j].name.function, t),
        has_name_at(snapshot, snapshot.functions[i].function.calls[j], range),
    ensures
        ({
            let function = snapshot.functions[t].function;
            hover_of(snapshot, builtins, offset) == Some(
                Some(
                    HoverView {
                        contents: "```simplicityhl\n"@ + written(
                            function.name,
                            function.params,
                            result_of(function),
                        ) + "\n```\n---\n"@ + snapshot.functions[t].documentation,
                        range,
                    },
                ),
            )
        }),
{
    law_call_is_found_by_its_name(snapshot, i, j, offset);
    let call = snapshot.functions[i].function.calls[j];
    lemma_index_of(snapshot.functions, call.name.function);
    let function = snapshot.functions[t].function;
    let hover = hover_of(snapshot, builtins, offset)->0->0;
    assert(hover.contents =~= "```simplicityhl\n"@ + written(
        function.name,
        function.params,
        result_of(function),
    ) + "\n```\n---\n"@ + snapshot.functions[t].documentation);
}

/// A call of a jet shows the jet, and a call of something else that is built in shows the first
/// template of its kind, each under a heading.
pub proof fn law_call_shows_what_is_built_in(
    snapshot: SnapshotView,
    builtins: Seq<(CallKind, TemplateView)>,
    offset: nat,
    i: int,
    j: int,
    k: int,
    range: Range,
)
    requires
        offset <= usize::MAX,
        is_owner(snapshot.functions, i, offset),
        is_innermost(snapshot.functions[i].function.calls, j, offset),
        has_name_at(snapshot, snapshot.functions[i].function.calls[j], range),
    ensures
        ({
            let name = snapshot.functions[i].function.calls[j].name;
            &&& name.kind == CallKind::Jet && jet_named(name.function) is Some ==> {
                let jet = jet_named(name.function)->0;
                hover_of(snapshot, builtins, offset) == Some(
                    Some(
                        HoverView {
                            contents: "Jet function\n"@ + "```simplicityhl\n"@ + written(
                                jet_name(jet),
                                jet_arguments(jet),
                                jet_result(jet),
                            ) + "\n```\n---\n\n"@ + jet_description(jet),
                            range,
                        },
                    ),
                )
            }
            &&& name.kind == CallKind::Jet && jet_named(name.function) is None ==> hover_of(
                snapshot,
                builtins,
                offset,
            ) == Some(None::<HoverView>)
            &&& name.kind != CallKind::Jet && name.kind != CallKind::Custom && is_template_of(
                builtins,
                name.kind,
                k,
            ) ==> hover_of(snapshot, builtins, offset) == Some(
                Some(
                    HoverView {
                        contents: "Built-in function\n"@ + "```simplicityhl\n"@ + written(
                            builtins[k].1.display_name,
                            builtins[k].1.args,
                            builtins[k].1.return_type,
                        ) + "\n```\n---\n"@ + builtins[k].1.description,
                        range,
                    },
                ),
            )
        }),
{
    law_call_is_found_by_its_name(snapshot, i, j, offset);
    let name = snapshot.functions[i].function.calls[j].name;
    law_kind_has_its_first_template(builtins, name.kind, k);
    if name.kind == CallKind::Jet {
        if let Some(jet) = jet_named(name.function) {
            let hover = hover_of(snapshot, builtins, offset)->0->0;
            assert(hover.contents =~= "Jet function\n"@ + "```simplicityhl\n"@ + written(
                jet_name(jet),
                jet_arguments(jet),
                jet_result(jet),
            ) + "\n```\n---\n\n"@ + jet_description(jet));
        }
    } else if name.kind != CallKind::Custom && is_template_of(builtins, name.kind, k) {
        let hover = hover_of(snapshot, builtins, offset)->0->0;
        assert(hover.contents =~= "Built-in function\n"@ + "```simplicityhl\n"@ + written(
            builtins[k].1.display_name,
            builtins[k].1.args,
            builtins[k].1.return_type,
        ) + "\n```\n---\n"@ + builtins[k].1.description);
    }
}

/// Where no call is, nothing is shown.
pub proof fn law_nothing_is_shown_without_call(
    snapshot: SnapshotView,
    builtins: Seq<(CallKind, TemplateView)>,
    offset: nat,
    i: int,
)
    requires
        offset <= usize::MAX,
        (is_owner(snapshot.functions, i, offset) && touches_no_name(
            snapshot.functions[i].function.calls,
            offset,
        )) || (forall|k: int|
            0 <= k < snapshot.functions.len() ==> !touches(
                (#[trigger] snapshot.functions[k]).function.span,
                offset,
            )),
    ensures
        hover_of(snapshot, builtins, offset) == Some(None::<HoverView>),
{
    law_function_around_offset(snapshot.functions, i, offset);
    if is_owner(snapshot.functions, i, offset) && touches_no_name(
        snapshot.functions[i].function.calls,
        offset,
    ) {
        law_call_is_found_by_its_name(snapshot, i, 0, offset);
    }
}

/// Whether the template at an index is the first of a kind of call.
pub open spec fn is_template_of(
    builtins: Seq<(CallKind, TemplateView)>,
    kind: CallKind,
    k: int,
) -> bool {
    &&& 0 <= k < builtins.len()
    &&& builtins[k].0 == kind
    &&& forall|l: int| 0 <= l < k ==> (#[trigger] builtins[l]).0 != kind
}

/// A kind of call is shown by its first template.
pub proof fn law_kind_has_its_first_template(
    builtins: Seq<(CallKind, TemplateView)>,
    kind: CallKind,
    k: int,
)
    ensures
        is_template_of(builtins, kind, k) ==> builtin_template(builtins, kind) == Some(
            builtins[k].1,
        ),
        (forall|l: int| 0 <= l < builtins.len() ==> (#[trigger] builtins[l]).0 != kind)
            ==> builtin_template(builtins, kind) is None,
    decreases builtins.len(),
{
    if builtins.len() > 0 {
        let rest = builtins.drop_first();
        law_kind_has_its_first_template(rest, kind, k - 1);
        if is_template_of(builtins, kind, k) && k > 0 {
            assert(builtins[0].0 != kind);
            assert(rest[k - 1] == builtins[k]);
            assert forall|l: int| 0 <= l < k - 1 implies (#[trigger] rest[l]).0 != kind by {
                assert(rest[l] == builtins[l + 1]);
            }
        }
        if forall|l: int| 0 <= l < builtins.len() ==> (#[trigger] builtins[l]).0 != kind {
            assert(builtins[0].0 != kind);
            assert forall|l: int| 0 <= l < rest.len() implies (#[trigger] rest[l]).0 != kind by {
                assert(rest[l] == builtins[l + 1]);
            }
        }
    }
}

/// The outline of a document has each function that stands in it, in their order: its name, how it
/// is declared, the whole of it and its name. What stands elsewhere, or is not found, is left out.
pub proof fn law_outline_has_every_function(
    snapshot: SnapshotView,
    entries: Seq<NamedView>,
    entry: NamedView,
    range: Range,
    name: Range,
)
    ensures
        symbols_of(snapshot, Seq::empty()).len() == 0,
        entry.function.span.file_id == 0 && position_of_offset(
            snapshot.text,
            entry.function.span.start as nat,
        ) == Some(range.start) && position_of_offset(
            snapshot.text,
            entry.function.span.end as nat,
        ) == Some(range.end) && name_range_of(snapshot, entry.function) == Ok::<
            Range,
            Option<Seq<char>>,
        >(name) ==> symbols_of(snapshot, entries.push(entry)) == symbols_of(snapshot, entries).push(
            SymbolView {
                name: entry.function.name,
                detail: "fn("@ + joined(entry.function.params, ", "@) + ") -> "@ + result_of(
                    entry.function,
                ),
                range,
                selection_range: name,
            },
        ),
        entry.function.span.file_id != 0 || position_of_offset(
            snapshot.text,
            entry.function.span.start as nat,
        ) is None || position_of_offset(snapshot.text, entry.function.span.end as nat) is None
            || name_range_of(snapshot, entry.function) is Err ==> symbols_of(
            snapshot,
            entries.push(entry),
        ) == symbols_of(snapshot, entries),
{
    assert(entries.push(entry).drop_last() =~= entries);
}

/// The last line of a text is what stands behind its last line feed.
pub proof fn law_last_line_is_behind_last_feed(before: Seq<char>, line: Seq<char>)
    requires
        !line.contains('\n'),
    ensures
        last_line(line) == line,
        last_line(before.push('\n') + line) == line,
{
    lemma_last_index(line, '\n');
    let text = before.push('\n') + line;
    lemma_last_index(text, '\n');
    let at = crate::split::last_index(text, '\n');
    let own = crate::split::last_index(line, '\n');
    assert(text[before.len() as int] == '\n');
    if own >= 0 {
        assert(line.contains(line[own]));
    }
    if at > before.len() {
        assert(line[at - before.len() - 1] == '\n');
        assert(line.contains('\n'));
    }
    assert(last_line(line) =~= line);
    assert(last_line(text) =~= line);
}

/// Behind an unfinished import a completion asks for what the import can go on with, where imports
/// are enabled. Elsewhere it asks for what can be called behind the line, unless a space, a brace or
/// a comma has triggered it.
pub proof fn law_completion_asks_for_what_is_written(
    snapshot: SnapshotView,
    position: Position,
    offset: nat,
    before: Seq<char>,
    trigger: Option<Seq<char>>,
    imports: bool,
)
    requires
        offset_of_position(snapshot.text, position) == Some(offset),
        byte_slice(snapshot.text, 0, offset) == Some(before),
    ensures
        plan_at(snapshot, position, trigger, imports) == (match context_at(
            before,
            utf8_len(before),
        ) {
            Some(context) => if imports {
                PlanView::Import { context, source: before }
            } else {
                PlanView::Nothing
            },
            None => if trigger == Some(" "@) || trigger == Some("{"@) || trigger == Some(","@) {
                PlanView::Nothing
            } else {
                PlanView::Callable { line: last_line(before) }
            },
        }),
{
}

/// Behind `jet::` every jet can be called and nothing else; behind another colon nothing can; and
/// elsewhere every visible function, and then everything that is built in, each in its order.
pub proof fn law_everything_visible_can_be_called(
    list: Option<Seq<TemplateView>>,
    line: Seq<char>,
    snapshot: SnapshotView,
    builtins: Seq<(CallKind, TemplateView)>,
    i: int,
)
    requires
        is_offered(list, line, snapshot, builtins),
    ensures
        "jet::"@.is_suffix_of(line) ==> (list matches Some(templates) && shows_all_jets(templates)),
        !"jet::"@.is_suffix_of(line) && line.len() > 0 && line.last() == ':' ==> list is None,
        line.len() == 0 || line.last() != ':' ==> {
            &&& list matches Some(templates)
            &&& templates.len() == snapshot.functions.len() + builtins.len()
            &&& 0 <= i < snapshot.functions.len() ==> {
                let function = snapshot.functions[i].function;
                templates[i] == (TemplateView {
                    display_name: function.name,
                    args: function.params,
                    return_type: result_of(function),
                    description: snapshot.functions[i].documentation,
                })
            }
            &&& 0 <= i < builtins.len() ==> templates[snapshot.functions.len() + i]
                == builtins[i].1
        },
{
    reveal_strlit("jet::");
    let colons = "jet::"@;
    assert(colons.len() == 5 && colons[4] == ':');
    if line.len() >= 5 && line.skip(line.len() - 5) == colons {
        assert(line.last() == line.skip(line.len() - 5)[4]);
        assert(line.subrange(line.len() - 5, line.len() as int) =~= colons);
    }
    if colons.is_suffix_of(line) {
        assert(line.skip(line.len() - 5) =~= colons);
        assert(line.last() == line.skip(line.len() - 5)[4]);
    }
}

/// The signature of a function: how it is declared, its parameters and what its documentation says.
pub open spec fn signature(
    name: Seq<char>,
    args: Seq<Seq<char>>,
    result: Seq<char>,
    description: Seq<char>,
) -> SignatureView {
    SignatureView {
        label: written(name, args, result),
        documentation: if description.len() == 0 {
            None
        } else {
            Some(description)
        },
        parameters: args,
    }
}

/// A name that begins with `jet::` has the signature of that jet, and another name that of the
/// function that it means. One that means none has the signature of what is built in.
pub proof fn law_name_has_its_signature(
    snapshot: SnapshotView,
    builtins: Seq<(CallKind, TemplateView)>,
    name: Seq<char>,
    t: int,
    k: int,
)
    ensures
        jet_named(name) matches Some(jet) ==> callable_signature(
            snapshot,
            builtins,
            "jet::"@ + name,
        ) == Some(
            signature(jet_name(jet), jet_arguments(jet), jet_result(jet), jet_description(jet)),
        ),
        jet_named(name) is None ==> callable_signature(snapshot, builtins, "jet::"@ + name) is None,
        !"jet::"@.is_prefix_of(name) && means(snapshot.functions, name, t) ==> callable_signature(
            snapshot,
            builtins,
            name,
        ) == Some(
            signature(
                snapshot.functions[t].function.name,
                snapshot.functions[t].function.params,
                result_of(snapshot.functions[t].function),
                snapshot.functions[t].documentation,
            ),
        ),
        !"jet::"@.is_prefix_of(name) && (forall|l: int|
            0 <= l < snapshot.functions.len() ==> (#[trigger] snapshot.functions[l]).name != name)
            ==> {
            let kind = named_kind(name);
            &&& kind is Some && is_template_of(builtins, kind->0, k) ==> callable_signature(
                snapshot,
                builtins,
                name,
            ) == Some(
                signature(
                    builtins[k].1.display_name,
                    builtins[k].1.args,
                    builtins[k].1.return_type,
                    builtins[k].1.description,
                ),
            )
            &&& kind is None ==> callable_signature(snapshot, builtins, name) is None
        },
{
    reveal_strlit("jet::");
    let beginning = "jet::"@;
    let whole = beginning + name;
    assert(whole.take(5) =~= beginning);
    assert(whole.skip(5) =~= name);
    if name.len() >= 5 && name.take(5) == beginning {
        assert(name.subrange(0, 5) =~= beginning);
    }
    if beginning.is_prefix_of(name) {
        assert(name.take(5) =~= beginning);
    }
    lemma_index_of(snapshot.functions, name);
    if let Some(kind) = named_kind(name) {
        law_kind_has_its_first_template(builtins, kind, k);
    }
}

/// The kind of call that a name of something built in means.
pub open spec fn named_kind(name: Seq<char>) -> Option<CallKind> {
    if name == "unwrap_left"@ {
        Some(CallKind::UnwrapLeft)
    } else if name == "unwrap_right"@ {
        Some(CallKind::UnwrapRight)
    } else if name == "unwrap"@ {
        Some(CallKind::Unwrap)
    } else if name == "is_none"@ {
        Some(CallKind::IsNone)
    } else if name == "assert!"@ {
        Some(CallKind::Assert)
    } else if name == "panic!"@ {
        Some(CallKind::Panic)
    } else if name == "dbg!"@ {
        Some(CallKind::Debug)
    } else {
        None
    }
}

/// At a position the signature is that of the call which is open at the end of what stands before
/// it on its line, with the argument that is being written.
pub proof fn law_open_call_has_its_signature(
    snapshot: SnapshotView,
    builtins: Seq<(CallKind, TemplateView)>,
    position: Position,
    offset: nat,
    before: Seq<char>,
    name: Seq<char>,
    index: nat,
)
    requires
        position.line < line_count(snapshot.text),
        position.character <= utf16_len(line_text(snapshot.text, position.line as nat)),
        offset_of_position(snapshot.text, position) == Some(offset),
        byte_slice(
            snapshot.text,
            byte_at_char(snapshot.text, line_start(snapshot.text, position.line as nat)),
            offset,
        ) == Some(before),
    ensures
        call_at_end(before) is None ==> help_at(snapshot, builtins, position) == Ok::<
            Option<HelpView>,
            Option<Seq<char>>,
        >(None),
        call_at_end(before) == Some((name, index)) ==> help_at(snapshot, builtins, position) == Ok::<
            Option<HelpView>,
            Option<Seq<char>>,
        >(
            match callable_signature(snapshot, builtins, name) {
                Some(signature) => Some(
                    HelpView {
                        signature,
                        active_parameter: if index <= u32::MAX {
                            index as u32
                        } else {
                            u32::MAX
                        },
                    },
                ),
                None => None,
            },
        ),
{
}

} // verus!
