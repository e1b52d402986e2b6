//! The command line: which operation the arguments ask for.

use vstd::prelude::*;
use vstd::string::StringExecFns;

verus! {

/// The operations that can be asked for by name.
#[derive(Clone, Copy, Debug, PartialEq, Eq, Structural)]
pub enum Operation {
    /// `mdx-preview <file>`
    MdxPreview,
    /// `build-menu-items <endpoints_file>`
    BuildMenuItems,
    /// `sidebar-preview <endpoints_file>`
    SidebarPreview,
    /// `sidebar-preview-category <category_path> <endpoints_file>`
    SidebarPreviewCategory,
}

/// What a command line asks for.
#[derive(Clone, Copy, Debug, PartialEq, Eq, Structural)]
pub enum Request {
    /// Nothing: the commands are to be listed.
    Help,
    /// An operation, named with at least the arguments that it takes.
    Run(Operation),
    /// An operation, named with fewer arguments than it takes.
    Incomplete(Operation),
    /// Something that is no operation.
    Unknown,
}

/// The operation with the name `name`.
pub open spec fn operation_named(name: Seq<char>) -> Option<Operation> {
    if name == "mdx-preview"@ {
        Some(Operation::MdxPreview)
    } else if name == "build-menu-items"@ {
        Some(Operation::BuildMenuItems)
    } else if name == "sidebar-preview"@ {
        Some(Operation::SidebarPreview)
    } else if name == "sidebar-preview-category"@ {
        Some(Operation::SidebarPreviewCategory)
    } else {
        None
    }
}

/// The number of arguments that follow the name of `operation`.
pub open spec fn arguments_of(operation: Operation) -> nat {
    match operation {
        Operation::SidebarPreviewCategory => 2,
        _ => 1,
    }
}

/// What the arguments `args` ask for, the program's own name left out: the
/// first of them names the operation, and what follows it beyond the
/// operation's own arguments is not looked at.
pub open spec fn request_for(args: Seq<String>) -> Request {
    if args.len() == 0 {
        Request::Help
    } else {
        match operation_named(args[0]@) {
            None => Request::Unknown,
            Some(operation) => if args.len() > arguments_of(operation) {
                Request::Run(operation)
            } else {
                Request::Incomplete(operation)
            },
        }
    }
}

fn named(name: &String, literal: &str) -> (same: bool)
    ensures
        same == (name@ == literal@),
{
    let other = literal.to_owned();
    *name == other
}

/// Reads the command line.
pub fn request_of(args: &Vec<String>) -> (request: Request)
    ensures
        request == request_for(args@),
{
    if args.len() == 0 {
        return Request::Help;
    }
    let name = &args[0];
    let operation = if named(name, "mdx-preview") {
        Operation::MdxPreview
    } else if named(name, "build-menu-items") {
        Operation::BuildMenuItems
    } else if named(name, "sidebar-preview") {
        Operation::SidebarPreview
    } else if named(name, "sidebar-preview-category") {
        Operation::SidebarPreviewCategory
    } else {
        return Request::Unknown;
    };
    let needed: usize = match operation {
        Operation::SidebarPreviewCategory => 2,
        _ => 1,
    };
    if args.len() > needed {
        Request::Run(operation)
    } else {
        Request::Incomplete(operation)
    }
}

/// How `operation` is to be called.
pub open spec fn usage_text(operation: Operation) -> Seq<char> {
    match operation {
        Operation::MdxPreview => "Usage: docter-preview mdx-preview <file>"@,
        Operation::BuildMenuItems => "Usage: docter-preview build-menu-items <endpoints_file>"@,
        Operation::SidebarPreview => "Usage: docter-preview sidebar-preview <endpoints_file>"@,
        Operation::SidebarPreviewCategory => "Usage: docter-preview sidebar-preview-category <category_path> <endpoints_file>"@,
    }
}

/// What is said where `operation` was named with too few arguments.
pub fn usage(operation: Operation) -> (text: &'static str)
    ensures
        text@ == usage_text(operation),
{
    match operation {
        Operation::MdxPreview => "Usage: docter-preview mdx-preview <file>",
        Operation::BuildMenuItems => "Usage: docter-preview build-menu-items <endpoints_file>",
        Operation::SidebarPreview => "Usage: docter-preview sidebar-preview <endpoints_file>",
        Operation::SidebarPreviewCategory => "Usage: docter-preview sidebar-preview-category <category_path> <endpoints_file>",
    }
}

/// What is said of a first argument that names no operation.
pub open spec fn unknown_command_text(name: Seq<char>) -> Seq<char> {
    "Unknown command: "@ + name
}

/// What is said where `name` was given for an operation and is none.
pub fn unknown_command(name: &str) -> (text: String)
    ensures
        text@ == unknown_command_text(name@),
{
    let mut text = String::from_str("Unknown command: ");
    text.append(name);
    text
}

} // verus!
