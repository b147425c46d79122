//! Root-argument inference: the literal text applied to a file's outermost
//! lambda so that its body can be evaluated standalone.

use vstd::prelude::*;
use crate::file_types::{FileInfo, FileType, LockedFlake, spec_base_path};
use crate::node::{Cast, g_nth};
use crate::render::{spec_stringify_opt, safe_stringify_opt};
use crate::tree::{parse, spec_parse};
use crate::strutil::{push_str_chars, chars_to_string};

verus! {

/// The synthesised root argument a file classification prescribes: an
/// imported package set for a generic module, the rendered caller-supplied
/// value for a custom classification, the empty set for an unlocked flake,
/// the precomputed inputs for a locked one, and nothing for a source-tree
/// member, whose argument is path-specific.
pub open spec fn g_root_lambda(fi: FileInfo) -> Option<Seq<char>> {
    match fi.file_type {
        FileType::Other { nixpkgs_path, schema: _ } => Some(
            "(import "@ + nixpkgs_path@ + " {})"@,
        ),
        FileType::Custom { lambda_arg, schema: _ } => Some(
            spec_stringify_opt(
                g_nth(spec_parse(lambda_arg@).children, Cast::Expr, 0),
                spec_base_path(fi.path@),
            ),
        ),
        FileType::Flake { locked: LockedFlake::Unlocked, schema: _ } => Some("{}"@),
        FileType::Flake { locked: LockedFlake::Pending, schema: _ } => Some("{}"@),
        FileType::Flake { locked: LockedFlake::Locked { lock_file: _, inputs }, schema: _ } => Some(inputs@),
        FileType::Nixpkgs { nixpkgs_path: _, relative_path: _ } => None,
    }
}

/// The root argument for the file, where its classification prescribes one.
pub fn get_root_lambda(file_info: &FileInfo) -> (r: Option<String>)
    ensures
        match r {
            Some(s) => g_root_lambda(*file_info) == Some(s@),
            None => g_root_lambda(*file_info) is None,
        },
{
    match &file_info.file_type {
        FileType::Other { nixpkgs_path, schema: _ } => {
            let mut out: Vec<char> = Vec::new();
            push_str_chars("(import ", &mut out);
            push_str_chars(nixpkgs_path.as_str(), &mut out);
            push_str_chars(" {})", &mut out);
            proof {
                assert(out@ =~= "(import "@ + nixpkgs_path@ + " {})"@);
            }
            Some(chars_to_string(&out))
        }
        FileType::Custom { lambda_arg, schema: _ } => {
            let root = parse(lambda_arg.as_str());
            let expr = crate::node::nth_node(&root, Cast::Expr, 0);
            let base = file_info.base_path();
            Some(safe_stringify_opt(expr, base.as_str()))
        }
        FileType::Flake { locked: LockedFlake::Unlocked, schema: _ } => {
            let mut out: Vec<char> = Vec::new();
            push_str_chars("{}", &mut out);
            Some(chars_to_string(&out))
        }
        FileType::Flake { locked: LockedFlake::Pending, schema: _ } => {
            let mut out: Vec<char> = Vec::new();
            push_str_chars("{}", &mut out);
            Some(chars_to_string(&out))
        }
        FileType::Flake { locked: LockedFlake::Locked { lock_file: _, inputs }, schema: _ } => {
            Some(inputs.clone())
        }
        FileType::Nixpkgs { nixpkgs_path: _, relative_path: _ } => None,
    }
}

} // verus!
