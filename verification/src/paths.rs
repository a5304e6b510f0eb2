//! Joining file-system path strings.
use vstd::prelude::*;
use crate::text::{chars_of, concat, push_char};

verus! {

/// A path separator: `/`, or `\` where that is the platform's separator.
pub open spec fn is_separator(c: char) -> bool {
    c == '/' || c == '\\'
}

/// A character that may appear in a plain path component.
pub open spec fn is_component_char(c: char) -> bool {
    ||| 'a' <= c <= 'z'
    ||| 'A' <= c <= 'Z'
    ||| '0' <= c <= '9'
    ||| c == '-'
    ||| c == '_'
    ||| c == '.'
}

/// A single relative path component with no separator, drive or root in it,
/// and not one of the special names `.` and `..`.
pub open spec fn plain_component(s: Seq<char>) -> bool {
    &&& s.len() > 0
    &&& s != seq!['.']
    &&& s != seq!['.', '.']
    &&& forall|i: int| 0 <= i < s.len() ==> is_component_char(#[trigger] s[i])
}

/// A relative path: it does not begin at a root (no leading separator) and
/// names no drive (no `:` anywhere in it).
pub open spec fn relative_path(s: Seq<char>) -> bool {
    &&& s.len() > 0 ==> !is_separator(s[0])
    &&& forall|i: int| 0 <= i < s.len() ==> #[trigger] s[i] != ':'
}

/// A path that begins like a Windows verbatim path (`\\?\...`).
pub open spec fn verbatim_like(s: Seq<char>) -> bool {
    s.len() >= 3 && is_separator(s[0]) && is_separator(s[1]) && s[2] == '?'
}

/// A bare Windows drive such as `C:`.
pub open spec fn is_drive(s: Seq<char>) -> bool {
    &&& s.len() == 2
    &&& s[1] == ':'
    &&& ('a' <= s[0] <= 'z' || 'A' <= s[0] <= 'Z')
}

/// Whether joining a relative path onto `base`, on the platform whose
/// separator is `sep`, puts `sep` in between: not when `base` is empty or
/// already ends in a separator (`/`, or `sep`), and on Windows not after a
/// bare drive either.
pub open spec fn needs_separator(base: Seq<char>, sep: char) -> bool {
    &&& base.len() > 0
    &&& base.last() != '/'
    &&& base.last() != sep
    &&& !(sep == '\\' && is_drive(base))
}

/// `base` joined with the relative path `child` on the platform whose
/// separator is `sep`.
pub open spec fn join_text(base: Seq<char>, child: Seq<char>, sep: char) -> Seq<char> {
    if needs_separator(base, sep) {
        base.push(sep) + child
    } else {
        base + child
    }
}

/// The joins that `join` states exactly: a relative child, onto any base but
/// a Windows verbatim one (std rebuilds those from their components).
pub open spec fn exact_join(base: Seq<char>, child: Seq<char>, sep: char) -> bool {
    relative_path(child) && !(sep == '\\' && verbatim_like(base))
}

/// `path` names the entry `name` right inside `parent`: it is `parent`,
/// then at most one separator, then `name`, a single plain component with
/// no separator, drive, `.` or `..` in it; so `path` cannot leave `parent`.
pub open spec fn direct_child(parent: Seq<char>, name: Seq<char>, path: Seq<char>) -> bool {
    &&& plain_component(name)
    &&& path.subrange(0, parent.len() as int) == parent
    &&& path.subrange(path.len() - name.len(), path.len() as int) == name
    &&& {
        ||| path.len() == parent.len() + name.len() && (parent.len() == 0 || is_separator(
            parent.last(),
        ) || parent.last() == ':')
        ||| path.len() == parent.len() + 1 + name.len() && is_separator(path[parent.len() as int])
    }
}

/// Joining a plain component gives a direct child of the base.
pub proof fn lemma_join_plain_is_direct_child(base: Seq<char>, child: Seq<char>, sep: char)
    requires
        plain_component(child),
        is_separator(sep),
    ensures
        direct_child(base, child, join_text(base, child, sep)),
{
    let path = join_text(base, child, sep);
    assert(path.subrange(0, base.len() as int) =~= base);
    assert(path.subrange(path.len() - child.len(), path.len() as int) =~= child);
    if needs_separator(base, sep) {
        assert(path[base.len() as int] == sep);
    }
}

/// A base that is not a Windows verbatim path, extended by a plain
/// component, is not one either.
pub proof fn lemma_join_plain_not_verbatim(base: Seq<char>, child: Seq<char>, sep: char)
    requires
        plain_component(child),
        is_separator(sep),
        !verbatim_like(base),
    ensures
        !verbatim_like(join_text(base, child, sep)),
{
    let path = join_text(base, child, sep);
    lemma_join_plain_is_direct_child(base, child, sep);
    if path.len() >= 3 && base.len() < 3 {
        let k: int = path.len() - child.len();
        if k <= 2 {
            assert(path.subrange(k, path.len() as int)[2 - k] == path[2]);
            assert(is_component_char(child[2 - k]));
        }
    } else if base.len() >= 3 {
        assert(path.subrange(0, base.len() as int)[0] == path[0]);
        assert(path.subrange(0, base.len() as int)[1] == path[1]);
        assert(path.subrange(0, base.len() as int)[2] == path[2]);
    }
}

/// `base` joined with `child` by std (`Path::join`, then the path as a
/// `String`; from two `&str` nothing is lost in that step).  Not stated: std
/// lets an absolute child, or one with a root or drive, replace all or part
/// of `base`, and rebuilds a Windows verbatim base; what comes out then is
/// not stated.
#[verifier::external_body]
fn join_path(base: &str, child: &str) -> (path: String) {
    std::path::Path::new(base).join(child).to_string_lossy().into_owned()
}

/// The separator of path components on this platform (std
/// `path::MAIN_SEPARATOR`): `/` on Unix and `\` on Windows.
#[verifier::external_body]
pub(crate) fn platform_separator() -> (sep: char)
    ensures
        is_separator(sep),
{
    std::path::MAIN_SEPARATOR
}

fn is_relative(s: &str) -> (r: bool)
    ensures
        r == relative_path(s@),
{
    let chars = chars_of(s);
    if chars.len() > 0 && (chars[0] == '/' || chars[0] == '\\') {
        return false;
    }
    let mut i: usize = 0;
    while i < chars.len()
        invariant
            chars@ == s@,
            i <= chars@.len(),
            forall|j: int| 0 <= j < i ==> #[trigger] chars@[j] != ':',
        decreases chars@.len() - i,
    {
        if chars[i] == ':' {
            return false;
        }
        i = i + 1;
    }
    true
}

fn separator_needed(base: &Vec<char>, sep: char) -> (r: bool)
    ensures
        r == needs_separator(base@, sep),
{
    let n = base.len();
    if n == 0 {
        return false;
    }
    let last = base[n - 1];
    if last == '/' || last == sep {
        return false;
    }
    let drive = n == 2 && base[1] == ':' && (('a' <= base[0] && base[0] <= 'z') || ('A' <= base[0]
        && base[0] <= 'Z'));
    !(sep == '\\' && drive)
}

/// `base` joined with `child` on the platform whose separator is `sep`:
/// for a relative child (and a base that is not a Windows verbatim path),
/// `base`, then `sep` where `needs_separator` says so, then `child`; any
/// other join is left to std.
pub fn join(base: &str, child: &str, sep: char) -> (path: String)
    ensures
        exact_join(base@, child@, sep) ==> path@ == join_text(base@, child@, sep),
{
    let chars = chars_of(base);
    let verbatim = chars.len() >= 3 && (chars[0] == '/' || chars[0] == '\\') && (chars[1] == '/'
        || chars[1] == '\\') && chars[2] == '?';
    if !is_relative(child) || (sep == '\\' && verbatim) {
        return join_path(base, child);
    }
    let mut path = String::from_str(base);
    if separator_needed(&chars, sep) {
        push_char(&mut path, sep);
    }
    let path = concat(path.as_str(), child);
    proof {
        if needs_separator(base@, sep) {
            assert(base@.push(sep) + child@ == path@);
        }
    }
    path
}

} // verus!
