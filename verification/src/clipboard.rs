//! The decisions of copying a path to the clipboard through the system's
//! clipboard programs: which programs are tried on Linux and in what order,
//! what an exit status means, and the error texts.
use vstd::prelude::*;

verus! {

/// A clipboard program and its arguments; the path is written to its input.
pub struct ClipboardTool {
    pub program: String,
    pub args: Vec<String>,
}

/// Why a path could not be copied.
#[derive(Debug)]
pub enum ClipboardError {
    /// The clipboard program's input could not be opened.
    NoStdin,
    /// The clipboard program reported failure.
    CopyFailed,
    /// No Linux clipboard program could copy the path.
    LinuxToolsUnavailable,
    /// The platform has no known clipboard program.
    Unsupported,
}

pub open spec fn clipboard_error_text(e: ClipboardError) -> Seq<char> {
    match e {
        ClipboardError::NoStdin => "Failed to open clipboard stdin"@,
        ClipboardError::CopyFailed => "Failed to copy path"@,
        ClipboardError::LinuxToolsUnavailable => "Failed to copy path: wl-copy/xclip unavailable"@,
        ClipboardError::Unsupported => "Clipboard copy is not supported on this platform"@,
    }
}

impl ClipboardError {
    /// The message of the error.
    pub fn message(&self) -> (m: String)
        ensures
            m@ == clipboard_error_text(*self),
    {
        match self {
            ClipboardError::NoStdin => String::from_str("Failed to open clipboard stdin"),
            ClipboardError::CopyFailed => String::from_str("Failed to copy path"),
            ClipboardError::LinuxToolsUnavailable => String::from_str(
                "Failed to copy path: wl-copy/xclip unavailable",
            ),
            ClipboardError::Unsupported => String::from_str("Clipboard copy is not supported on this platform"),
        }
    }
}

/// The Linux clipboard programs, in the order they are tried: `wl-copy`, then
/// `xclip -selection clipboard`.
pub open spec fn linux_tools_view() -> Seq<(Seq<char>, Seq<Seq<char>>)> {
    seq![("wl-copy"@, Seq::empty()), ("xclip"@, seq!["-selection"@, "clipboard"@])]
}

/// The Linux clipboard programs, in the order they are tried.
pub fn linux_clipboard_tools() -> (tools: Vec<ClipboardTool>)
    ensures
        tools@.len() == linux_tools_view().len(),
        forall|i: int| 0 <= i < tools@.len() ==> (#[trigger] tools@[i]).program@ == linux_tools_view()[i].0
            && tools@[i].args.deep_view() == linux_tools_view()[i].1,
{
    let wl = ClipboardTool { program: String::from_str("wl-copy"), args: Vec::new() };
    let mut xargs: Vec<String> = Vec::new();
    xargs.push(String::from_str("-selection"));
    xargs.push(String::from_str("clipboard"));
    let xclip = ClipboardTool { program: String::from_str("xclip"), args: xargs };
    assert(wl.args.deep_view() =~= Seq::<Seq<char>>::empty());
    assert(xclip.args.deep_view() =~= seq!["-selection"@, "clipboard"@]);
    let mut tools: Vec<ClipboardTool> = Vec::new();
    tools.push(wl);
    tools.push(xclip);
    tools
}

/// On Linux a program that started and exited successfully has copied the
/// path; otherwise the next program is tried.
pub fn linux_tool_copied(started: bool, exit_success: bool) -> (b: bool)
    ensures
        b == (started && exit_success),
{
    started && exit_success
}

/// The outcome on Linux once the programs were tried: copied when one of them
/// copied the path, and otherwise the error that none is available.
pub fn linux_copy_result(copied: bool) -> (r: Result<(), ClipboardError>)
    ensures
        copied ==> r is Ok,
        !copied ==> r == Err::<(), ClipboardError>(ClipboardError::LinuxToolsUnavailable),
{
    if copied {
        Ok(())
    } else {
        Err(ClipboardError::LinuxToolsUnavailable)
    }
}

/// The outcome on Windows: `clip` must exit successfully.
pub fn windows_copy_result(exit_success: bool) -> (r: Result<(), ClipboardError>)
    ensures
        exit_success ==> r is Ok,
        !exit_success ==> r == Err::<(), ClipboardError>(ClipboardError::CopyFailed),
{
    if exit_success {
        Ok(())
    } else {
        Err(ClipboardError::CopyFailed)
    }
}

} // verus!
