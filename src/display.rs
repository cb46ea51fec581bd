//! The tags and lines that show paths to the operator.

use vstd::prelude::*;
use crate::paths::{literal, relative_display, relative_text};
use crate::size::{format_size, size_text};

verus! {

/// The tag for an entry: its size and its kind label in brackets, or the
/// unknown tag when its size could not be read.
pub open spec fn tag_text(size: Option<u64>, kind: Seq<char>) -> Seq<char> {
    match size {
        Some(n) => seq!['['] + size_text(n as nat) + seq![']', ' ', '['] + kind + seq![']'],
        None => seq!['[', 'U', 'n', 'k', 'n', 'o', 'w', 'n', ']', ' ', '[', '?', '?', '?', '?', ']'],
    }
}

/// The line that shows path `p` under `root` with its tag.
pub open spec fn display_line(p: Seq<char>, root: Seq<char>, tag: Seq<char>) -> Seq<char> {
    tag + seq![' '] + relative_text(p, root)
}

/// The tag for an entry of `size` bytes (none when it could not be read)
/// and of the kind named by `kind`.
pub fn metadata_tag(size: Option<u64>, kind: &str) -> (r: String)
    ensures
        r@ == tag_text(size, kind@),
{
    proof {
        reveal_strlit("[Unknown] [????]");
        reveal_strlit("[");
        reveal_strlit("] [");
        reveal_strlit("]");
    }
    match size {
        Some(n) => {
            let mut out = literal("[");
            let s = format_size(n);
            out.append(s.as_str());
            out.append("] [");
            out.append(kind);
            out.append("]");
            assert(out@ =~= tag_text(size, kind@));
            out
        },
        None => {
            let out = literal("[Unknown] [????]");
            assert(out@ =~= tag_text(size, kind@));
            out
        },
    }
}

/// One line per path: its tag, then the path relative to `temp_dir`.
pub fn format_paths_for_display(paths: &Vec<String>, temp_dir: &str, tags: &Vec<String>) -> (r:
    Vec<String>)
    requires
        tags@.len() == paths@.len(),
    ensures
        r@.len() == paths@.len(),
        forall|i: int|
            0 <= i < r@.len() ==> #[trigger] r@[i]@ == display_line(
                paths@[i]@,
                temp_dir@,
                tags@[i]@,
            ),
{
    let mut out: Vec<String> = Vec::new();
    let mut i: usize = 0;
    while i < paths.len()
        invariant
            i <= paths@.len(),
            tags@.len() == paths@.len(),
            out@.len() == i,
            forall|k: int|
                0 <= k < i ==> #[trigger] out@[k]@ == display_line(
                    paths@[k]@,
                    temp_dir@,
                    tags@[k]@,
                ),
        decreases paths@.len() - i,
    {
        proof {
            reveal_strlit(" ");
        }
        let mut line = tags[i].clone();
        line.append(" ");
        let rel = relative_display(paths[i].as_str(), temp_dir);
        line.append(rel.as_str());
        out.push(line);
        i = i + 1;
    }
    out
}

} // verus!
