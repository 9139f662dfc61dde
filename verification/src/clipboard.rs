//! The clipboard dispatcher: which of three ways of copying a selection
//! takes.
//!
//! A Unicode emoji is copied as plain text. A PNG image is copied either as a
//! reference to its file, in a URI list, or as the bytes of the file itself;
//! the copy mode decides.

use crate::selection::Selection;
use crate::text::join_path;
use crate::text::joined_path;
use crate::text::lowercase;
use crate::text::text_eq;
use crate::text::to_lowercase;
use vstd::prelude::*;
use vstd::string::StringExecFns;

verus! {

/// How a PNG image is copied.
#[derive(Debug, Clone, Copy, PartialEq, Eq, Structural)]
pub enum CopyMode {
    /// As a reference to the file.
    Path,
    /// As the bytes of the file.
    Bytes,
}

impl CopyMode {
    /// The mode that an argument selects, given in lower case: the bytes
    /// where it is `false`, else the path.
    pub open spec fn for_lowered(lowered: Seq<char>) -> CopyMode {
        if lowered == "false"@ {
            CopyMode::Bytes
        } else {
            CopyMode::Path
        }
    }

    /// The mode that a command-line argument selects: the path where there
    /// is none.
    pub open spec fn selected_by(arg: Option<Seq<char>>) -> CopyMode {
        match arg {
            Some(text) => CopyMode::for_lowered(lowercase(text)),
            None => CopyMode::Path,
        }
    }

    /// Chooses the mode from an argument that is already in lower case.
    pub fn from_lowered(lowered: &str) -> (r: CopyMode)
        ensures
            r == CopyMode::for_lowered(lowered@),
    {
        if text_eq(lowered, "false") {
            CopyMode::Bytes
        } else {
            CopyMode::Path
        }
    }

    /// Chooses the mode from the command-line argument, if there is one. The
    /// argument is compared without regard to case.
    pub fn from_arg(arg: Option<&str>) -> (r: CopyMode)
        ensures
            r == CopyMode::selected_by(
                match arg {
                    Some(text) => Some(text@),
                    None => None,
                },
            ),
    {
        match arg {
            Some(text) => {
                let lowered = to_lowercase(text);
                CopyMode::from_lowered(lowered.as_str())
            },
            None => CopyMode::Path,
        }
    }
}

/// One write to the clipboard.
#[derive(Debug, Clone, PartialEq, Eq)]
pub enum ClipboardAction {
    /// Copy `text` as plain text.
    Text { text: String },
    /// Copy a URI list that holds the one `uri`.
    UriList { uri: String },
    /// Copy the bytes of the file at `path` as a PNG image.
    Image { path: String },
}

/// The `file://` URI of an absolute path.
pub open spec fn file_uri(path: Seq<char>) -> Seq<char> {
    "file://"@ + path
}

/// `action` is the write that copies `selection`.
pub open spec fn copies(
    action: ClipboardAction,
    selection: Selection,
    png_dir: Seq<char>,
    mode: CopyMode,
) -> bool {
    match selection {
        Selection::Unicode { grapheme, name } => action matches ClipboardAction::Text { text }
            && text@ == grapheme@,
        Selection::Png { file_name } => match mode {
            CopyMode::Path => action matches ClipboardAction::UriList { uri } && uri@ == file_uri(
                joined_path(png_dir, file_name@),
            ),
            CopyMode::Bytes => action matches ClipboardAction::Image { path } && path@
                == joined_path(png_dir, file_name@),
        },
    }
}

/// Decides how `selection` is copied.
pub fn clipboard_action(selection: &Selection, png_dir: &str, mode: CopyMode) -> (r:
    ClipboardAction)
    ensures
        copies(r, *selection, png_dir@, mode),
{
    match selection {
        Selection::Unicode { grapheme, name } => ClipboardAction::Text { text: grapheme.clone() },
        Selection::Png { file_name } => {
            let path = join_path(png_dir, file_name.as_str());
            match mode {
                CopyMode::Path => {
                    let mut uri = "file://".to_owned();
                    uri.append(path.as_str());
                    ClipboardAction::UriList { uri }
                },
                CopyMode::Bytes => ClipboardAction::Image { path },
            }
        },
    }
}

impl ClipboardAction {
    /// The content type that the clipboard is told.
    pub open spec fn content_type_text(&self) -> Seq<char> {
        match self {
            ClipboardAction::Text { .. } => "text/plain"@,
            ClipboardAction::UriList { .. } => "text/uri-list"@,
            ClipboardAction::Image { .. } => "image/png"@,
        }
    }

    /// The arguments that the clipboard program is started with.
    pub open spec fn argument_texts(&self) -> Seq<Seq<char>> {
        match self {
            ClipboardAction::Text { text } => seq![text@, "-t"@, "text/plain"@],
            ClipboardAction::UriList { uri } => seq![uri@, "-t"@, "text/uri-list"@],
            ClipboardAction::Image { .. } => seq!["-t"@, "image/png"@],
        }
    }

    /// The content type that the clipboard is told.
    pub fn content_type(&self) -> (r: &'static str)
        ensures
            r@ == self.content_type_text(),
    {
        match self {
            ClipboardAction::Text { .. } => "text/plain",
            ClipboardAction::UriList { .. } => "text/uri-list",
            ClipboardAction::Image { .. } => "image/png",
        }
    }

    /// The arguments to start the clipboard program with. Text and URI list go
    /// in as the first argument; an image goes in through the program's
    /// input.
    pub fn arguments(&self) -> (r: Vec<String>)
        ensures
            r.deep_view() == self.argument_texts(),
    {
        let mut args: Vec<String> = Vec::new();
        match self {
            ClipboardAction::Text { text } => {
                args.push(text.clone());
            },
            ClipboardAction::UriList { uri } => {
                args.push(uri.clone());
            },
            ClipboardAction::Image { .. } => {},
        }
        args.push("-t".to_owned());
        args.push(self.content_type().to_owned());
        assert(args.deep_view() =~= self.argument_texts());
        args
    }

    /// The file whose bytes are written to the clipboard program's input, if
    /// the action is to copy an image.
    pub fn input_file(&self) -> (r: Option<&String>)
        ensures
            match self {
                ClipboardAction::Image { path } => r matches Some(file) && file@ == path@,
                _ => r is None,
            },
    {
        match self {
            ClipboardAction::Image { path } => Some(path),
            _ => None,
        }
    }
}

} // verus!
