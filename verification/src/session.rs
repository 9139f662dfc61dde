//! One run, seen from the library: what follows from the picker's output, and
//! what is recorded once the copy is done. Starting the programs and moving
//! the bytes is left to the caller.

use crate::assoc::lookup;
use crate::assoc::with_value;
use crate::clipboard::clipboard_action;
use crate::clipboard::copies;
use crate::clipboard::ClipboardAction;
use crate::clipboard::CopyMode;
use crate::failure::Failure;
use crate::history::next_count;
use crate::history::History;
use crate::selection::read_selection;
use crate::selection::resolves_to;
use crate::selection::unresolvable;
use crate::selection::Selection;
use crate::text::trimmed;
use vstd::prelude::*;
use vstd::string::StringExecFns;

verus! {

/// A selection and the clipboard write that copies it.
#[derive(Debug, Clone, PartialEq, Eq)]
pub struct Step {
    pub selection: Selection,
    pub action: ClipboardAction,
}

/// Decides what follows from the picker's output. Empty output, once
/// trimmed, means that the user selected nothing: the run ends and nothing is
/// copied or recorded. Any other output is resolved and paired with the
/// clipboard write that copies it.
pub fn decide(output: &str, png_dir: &str, mode: CopyMode) -> (r: Result<Option<Step>, Failure>)
    ensures
        match r {
            Ok(None) => trimmed(output@).len() == 0,
            Ok(Some(step)) => {
                &&& trimmed(output@).len() > 0
                &&& resolves_to(trimmed(output@), step.selection)
                &&& copies(step.action, step.selection, png_dir@, mode)
            },
            Err(failure) => {
                &&& failure == Failure::InvalidSelection
                &&& trimmed(output@).len() > 0
                &&& unresolvable(trimmed(output@))
            },
        },
{
    match read_selection(output) {
        Ok(None) => Ok(None),
        Ok(Some(selection)) => {
            let action = clipboard_action(&selection, png_dir, mode);
            Ok(Some(Step { selection, action }))
        },
        Err(failure) => Err(failure),
    }
}

/// Records that `selection` was copied: the count of its identity grows by
/// one, from zero where the history did not know it. The new count is
/// returned. A count that cannot grow any more stays, and `None` is returned.
pub fn complete(history: &mut History, selection: &Selection) -> (r: Option<u32>)
    requires
        old(history).wf(),
    ensures
        final(history).wf(),
        match r {
            Some(count) => {
                &&& count == next_count(old(history)@, selection.identity_text())
                &&& final(history)@ == with_value(
                    old(history)@,
                    selection.identity_text(),
                    count,
                )
                &&& final(history).mapping() == old(history).mapping().insert(
                    selection.identity_text(),
                    count,
                )
            },
            None => {
                &&& lookup(old(history)@, selection.identity_text()) == Some(u32::MAX)
                &&& final(history)@ == old(history)@
            },
        },
{
    history.record_use(selection.identity().as_str())
}

/// The arguments for the program that shows the notification: the message
/// that reports the status of the copy, shown for one second.
pub fn notification_arguments(status: &str) -> (r: Vec<String>)
    ensures
        r.deep_view() == seq!["Copied: "@ + status@, "-t"@, "1000"@],
{
    let mut message = "Copied: ".to_owned();
    message.append(status);
    let mut args: Vec<String> = Vec::new();
    args.push(message);
    args.push("-t".to_owned());
    args.push("1000".to_owned());
    assert(args.deep_view() =~= seq!["Copied: "@ + status@, "-t"@, "1000"@]);
    args
}

} // verus!
