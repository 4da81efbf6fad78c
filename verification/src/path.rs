//! Files in directories, on whatever platform.

use std::path::Path;

use vstd::prelude::*;

verus! {

/// A character that separates the parts of a path on some platform.
pub open spec fn is_separator(c: char) -> bool {
    c == '/' || c == '\\'
}

/// Whether a directory is written as a verbatim Windows path (`\\?\...`), which
/// joining a file name to it may rewrite.
pub open spec fn is_verbatim(dir: Seq<char>) -> bool {
    r"\\?\"@.is_prefix_of(dir)
}

/// Whether a name is a single part of a path on every platform: it holds no
/// separator and no drive, and is more than dots.
pub open spec fn is_part(name: Seq<char>) -> bool {
    &&& forall|i: int| 0 <= i < name.len() ==> !is_separator(#[trigger] name[i]) && name[i] != ':'
    &&& exists|i: int| 0 <= i < name.len() && #[trigger] name[i] != '.'
}

/// Whether a path is made of a directory and a name. Between the two stands one
/// separator, unless the directory is empty, or ends in a way that makes one
/// superfluous: in a separator or, on some platforms, a drive.
pub open spec fn is_adjoined(path: Seq<char>, dir: Seq<char>, name: Seq<char>) -> bool {
    if dir.len() == 0 {
        path == name
    } else {
        ||| path == dir + "/"@ + name
        ||| path == dir + r"\"@ + name
        ||| (is_separator(dir.last()) || dir.last() == ':') && path == dir + name
    }
}

/// Whether a path is that of a file in a directory: the two adjoined (see
/// [`is_adjoined`]), and if the directory is a verbatim Windows path at least
/// the file's name at its end.
pub open spec fn is_path_in(path: Seq<char>, dir: Seq<char>, name: Seq<char>) -> bool {
    &&& name.is_suffix_of(path)
    &&& !is_verbatim(dir) ==> is_adjoined(path, dir, name)
}

/// [`Path::join`]: the directory with the name adjoined to it, if that is a
/// single part of a path. Which separator stands between them, whether one does
/// where the directory ends in a separator or a drive, and how a verbatim
/// Windows path is rewritten, is the platform's, and not stated.
#[verifier::external_body]
pub(crate) fn join(dir: &str, name: &str) -> (path: String)
    ensures
        is_part(name@) ==> is_path_in(path@, dir@, name@),
{
    Path::new(dir).join(name).to_string_lossy().into_owned()
}

/// A file's path in a directory starts with the directory and ends with the
/// name, with no more than one character between them, unless the directory is
/// a verbatim Windows path.
pub proof fn law_files_lie_in_their_directory(path: Seq<char>, dir: Seq<char>, name: Seq<char>)
    requires
        is_path_in(path, dir, name),
    ensures
        name.is_suffix_of(path),
        !is_verbatim(dir) ==> {
            &&& dir.is_prefix_of(path)
            &&& dir.len() + name.len() <= path.len() <= dir.len() + 1 + name.len()
            &&& path.len() == dir.len() + 1 + name.len() ==> is_separator(path[dir.len() as int])
            &&& dir.len() > 0 && !is_separator(dir.last()) && dir.last() != ':' ==> path.len()
                == dir.len() + 1 + name.len()
        },
{
    reveal_strlit("/");
    reveal_strlit(r"\");
}

/// A single part of a path holds nothing that leads elsewhere: no separator, no
/// drive, and it is neither empty nor nothing but dots.
pub proof fn law_parts_lead_nowhere_else(name: Seq<char>)
    requires
        is_part(name),
    ensures
        !name.contains('/'),
        !name.contains('\\'),
        !name.contains(':'),
        name.len() > 0,
        name != seq!['.'],
        name != seq!['.', '.'],
{
    if name == seq!['.'] || name == seq!['.', '.'] {
        assert(forall|i: int| 0 <= i < name.len() ==> #[trigger] name[i] == '.');
    }
}

} // verus!
