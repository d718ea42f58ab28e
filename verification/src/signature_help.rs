//! The signature of the call that is being written.

use vstd::prelude::*;

use crate::analysis::sources::entry_of;
use crate::analysis::{AnalysisSnapshot, SnapshotView};
use crate::chars::{byte_len, lemma_utf16_within_utf8, to_chars, to_text, utf16_len};
use crate::completion::jet::{find_jet, jet_named, jet_template, jet_to_template};
use crate::completion::types::{function_template, function_to_template, TemplateView};
use crate::error::{conversion_failed, LspError};
use crate::protocol::Position;
use crate::rope::{
    byte_at_char, byte_slice, line_count, line_start, line_text, rope_byte_slice, rope_line,
    rope_line_to_byte,
};
use crate::syntax::CallKind;
use crate::text::{offset_of_position, position_failure, position_to_offset, utf16_count};
use crate::utils::{
    builtin_signature, call_at_end, called_name, create_signature_info, extract_function_name,
    find_builtin_signature, find_function_call_context, opt_signature, signature_of,
    BuiltinTemplates, SignatureInformation, SignatureView,
};

verus! {

/// The signature of a call and the argument that is being written.
#[derive(Debug)]
pub struct SignatureHelp {
    pub signature: SignatureInformation,
    pub active_parameter: u32,
}

/// What a [`SignatureHelp`] says.
#[verifier::ext_equal]
pub struct HelpView {
    pub signature: SignatureView,
    pub active_parameter: u32,
}

impl View for SignatureHelp {
    type V = HelpView;

    open spec fn view(&self) -> HelpView {
        HelpView { signature: self.signature@, active_parameter: self.active_parameter }
    }
}

/// What an optional [`SignatureHelp`] says.
pub open spec fn opt_help(help: Option<SignatureHelp>) -> Option<HelpView> {
    match help {
        Some(help) => Some(help@),
        None => None,
    }
}

/// Whether a name is that of a jet.
pub open spec fn names_a_jet(name: Seq<char>) -> bool {
    name.len() >= 5 && name.take(5) == "jet::"@
}

/// The signature of a callable: of a jet, of a visible function or of a built-in one.
pub open spec fn callable_signature(
    snapshot: SnapshotView,
    builtins: Seq<(CallKind, TemplateView)>,
    name: Seq<char>,
) -> Option<SignatureView> {
    if names_a_jet(name) {
        match jet_named(name.skip(5)) {
            Some(jet) => Some(signature_of(jet_template(jet))),
            None => None,
        }
    } else {
        match entry_of(snapshot.functions, name) {
            Some(entry) => Some(
                signature_of(function_template(entry.function, entry.documentation)),
            ),
            None => builtin_signature(builtins, name),
        }
    }
}

/// The number of the argument that is being written.
pub open spec fn argument_number(separators: nat) -> u32 {
    if separators <= u32::MAX {
        separators as u32
    } else {
        u32::MAX
    }
}

/// The signature of the call that is open at the end of a line.
pub open spec fn help_in_line(
    snapshot: SnapshotView,
    builtins: Seq<(CallKind, TemplateView)>,
    line: Seq<char>,
) -> Option<HelpView> {
    match call_at_end(line) {
        Some((name, separators)) => match callable_signature(snapshot, builtins, name) {
            Some(signature) => Some(
                HelpView { signature, active_parameter: argument_number(separators) },
            ),
            None => None,
        },
        None => None,
    }
}

/// The signature of the call at a position, or why there can be none; an error without a text is
/// one of positions.
pub open spec fn help_at(
    snapshot: SnapshotView,
    builtins: Seq<(CallKind, TemplateView)>,
    position: Position,
) -> Result<Option<HelpView>, Option<Seq<char>>> {
    let text = snapshot.text;
    let line = position.line as nat;
    if line >= line_count(text) {
        Err(Some("Line not found"@))
    } else if position.character > utf16_len(line_text(text, line)) {
        Ok(None)
    } else {
        match offset_of_position(text, position) {
            None => Err(None),
            Some(cursor) => match byte_slice(
                text,
                byte_at_char(text, line_start(text, line)),
                cursor,
            ) {
                None => Err(Some("Cursor is outside the current line"@)),
                Some(before) => Ok(help_in_line(snapshot, builtins, before)),
            },
        }
    }
}

/// Whether an error says why there can be no signature; `unconverted` is what is said of a position
/// without an offset.
pub open spec fn explains(
    error: LspError,
    failure: Option<Seq<char>>,
    unconverted: Seq<char>,
) -> bool {
    match failure {
        Some(message) => match error {
            LspError::Internal(text) => text@ == message,
            _ => false,
        },
        None => conversion_failed(error, unconverted),
    }
}

/// The innermost call that is open at the end of a line, and its active argument.
pub fn call_context(line: &str) -> (r: Option<(String, u32)>)
    ensures
        match r {
            Some((name, index)) => match call_at_end(line@) {
                Some((called, separators)) => called == name@ && index == argument_number(
                    separators,
                ),
                None => false,
            },
            None => call_at_end(line@) is None,
        },
{
    find_function_call_context(line)
}

/// The identifier, qualified name or generic callable before a parenthesis.
pub fn function_name(text: &str) -> (r: Option<String>)
    ensures
        match r {
            Some(name) => name@ == called_name(text@) && name@.len() > 0,
            None => called_name(text@).len() == 0,
        },
{
    extract_function_name(text)
}

/// The signature of a callable.
fn find_signature(snapshot: &AnalysisSnapshot, builtins: &BuiltinTemplates, name: &str) -> (r:
    Option<SignatureInformation>)
    ensures
        opt_signature(r) == callable_signature(snapshot@, builtins@, name@),
{
    let chars: Vec<char> = to_chars(name);
    let length: usize = chars.len();
    if length >= 5 {
        let head: &[char] = vstd::slice::slice_subrange(chars.as_slice(), 0, 5);
        assert(head@ == name@.take(5));
        if crate::chars::same_chars(head, to_chars("jet::").as_slice()) {
            let rest: &[char] = vstd::slice::slice_subrange(chars.as_slice(), 5, length);
            assert(rest@ == name@.skip(5));
            return match find_jet(to_text(rest).as_str()) {
                Some(jet) => Some(create_signature_info(&jet_to_template(jet))),
                None => None,
            };
        }
    }
    match snapshot.functions.get(name) {
        Some((function, documentation)) => Some(
            create_signature_info(&function_to_template(function, documentation)),
        ),
        None => find_builtin_signature(name, builtins),
    }
}

/// The signature of the call that is open at the end of a line.
pub fn in_line(snapshot: &AnalysisSnapshot, builtins: &BuiltinTemplates, line: &str) -> (r: Option<
    SignatureHelp,
>)
    ensures
        opt_help(r) == help_in_line(snapshot@, builtins@, line@),
{
    match call_context(line) {
        Some((name, active_parameter)) => match find_signature(snapshot, builtins, name.as_str()) {
            Some(signature) => Some(SignatureHelp { signature, active_parameter }),
            None => None,
        },
        None => None,
    }
}

/// The signature of the call at a position.
pub fn at(snapshot: &AnalysisSnapshot, builtins: &BuiltinTemplates, position: Position) -> (r:
    Result<Option<SignatureHelp>, LspError>)
    ensures
        match r {
            Ok(help) => help_at(snapshot@, builtins@, position) == Ok::<
                Option<HelpView>,
                Option<Seq<char>>,
            >(opt_help(help)),
            Err(error) => match help_at(snapshot@, builtins@, position) {
                Ok(_) => false,
                Err(failure) => explains(
                    error,
                    failure,
                    position_failure(snapshot@.text, position),
                ),
            },
        },
{
    let line_index: usize = position.line as usize;
    let source_line: String = match rope_line(&snapshot.text, line_index) {
        Some(line) => line,
        None => return Err(LspError::Internal("Line not found".to_owned())),
    };
    let bytes: usize = byte_len(source_line.as_str());
    proof {
        lemma_utf16_within_utf8(source_line@);
        assert(utf16_len(source_line@) <= bytes);
    }
    if position.character as usize > utf16_count(to_chars(source_line.as_str()).as_slice()) {
        return Ok(None);
    }
    let cursor: usize = match position_to_offset(position, &snapshot.text) {
        Ok(cursor) => cursor,
        Err(error) => return Err(error),
    };
    let start: usize = match rope_line_to_byte(&snapshot.text, line_index) {
        Some(start) => start,
        None => return Err(LspError::Internal("Line not found".to_owned())),
    };
    match rope_byte_slice(&snapshot.text, start, cursor) {
        Some(line) => Ok(in_line(snapshot, builtins, line.as_str())),
        None => Err(LspError::Internal("Cursor is outside the current line".to_owned())),
    }
}

} // verus!
