//! Plain records exchanged with the editor: directory listings and chat messages.
use vstd::prelude::*;
use vstd::string::*;
use crate::text::text_eq;

verus! {

/// One entry of a directory listing; a directory carries its own listing.
#[derive(Debug)]
pub struct DirEntryInfo {
    pub name: String,
    pub path: String,
    pub is_dir: bool,
    pub children: Option<Vec<DirEntryInfo>>,
}

/// One message of a chat with a language model.
#[derive(Clone, Debug)]
pub struct ChatMessage {
    pub role: String,
    pub content: String,
}

/// Directory names that listings leave out.
pub open spec fn ignored_names() -> Seq<Seq<char>> {
    seq![
        "node_modules"@,
        "target"@,
        ".git"@,
        "dist"@,
        "build"@,
        ".idea"@,
        ".vscode"@,
        "out"@,
    ]
}

/// A listing leaves out an entry with one of the ignored names, and every
/// hidden entry (one whose name starts with a dot).
pub open spec fn is_ignored(name: Seq<char>) -> bool {
    ignored_names().contains(name) || (name.len() > 0 && name[0] == '.')
}

/// Whether a directory listing leaves out the entry called `name`.
pub fn is_ignored_entry(name: &str) -> (r: bool)
    ensures
        r == is_ignored(name@),
{
    let names = [
        "node_modules",
        "target",
        ".git",
        "dist",
        "build",
        ".idea",
        ".vscode",
        "out",
    ];
    let mut i: usize = 0;
    while i < 8
        invariant
            0 <= i <= 8,
            names@ == seq![
                "node_modules",
                "target",
                ".git",
                "dist",
                "build",
                ".idea",
                ".vscode",
                "out",
            ],
            forall|j: int| 0 <= j < i ==> ignored_names()[j] != name@,
        decreases 8 - i,
    {
        if text_eq(names[i], name) {
            assert(ignored_names()[i as int] == name@);
            return true;
        }
        i += 1;
    }
    assert(!ignored_names().contains(name@));
    if name.unicode_len() > 0 {
        name.get_char(0) == '.'
    } else {
        false
    }
}

} // verus!
