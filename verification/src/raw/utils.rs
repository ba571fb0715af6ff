//! Texts as the engine takes them.
use vstd::prelude::*;
use vstd::string::*;

verus! {

/// Whether `bytes` hold the terminator byte.
pub open spec fn has_terminator(bytes: Seq<u8>) -> bool {
    exists|i: int| 0 <= i < bytes.len() && bytes[i] == 0
}

/// Whether `text` holds the terminator byte, which no text that is handed to
/// the engine may hold.
pub fn contains_terminator(text: &str) -> (yes: bool)
    ensures
        yes == has_terminator(text.spec_bytes()),
{
    let bytes = text.as_bytes();
    let n = bytes.len();
    let mut i: usize = 0;
    while i < n
        invariant
            i <= n,
            n == bytes@.len(),
            bytes@ == text.spec_bytes(),
            forall|j: int| 0 <= j < i ==> bytes@[j] != 0,
        decreases n - i,
    {
        if bytes[i] == 0 {
            return true;
        }
        i += 1;
    }
    false
}

/// The bytes of `text` followed by the terminator byte: the text as the
/// engine takes it. The text must not hold the terminator byte itself.
pub fn to_c_string(text: &str) -> (bytes: Vec<u8>)
    requires
        !has_terminator(text.spec_bytes()),
    ensures
        bytes@ == text.spec_bytes().push(0u8),
{
    let mut bytes = text.as_bytes_vec();
    bytes.push(0u8);
    bytes
}

/// The length of `path` without the slashes at its end.
pub open spec fn trimmed_len(path: Seq<char>) -> int
    decreases path.len(),
{
    if path.len() == 0 || path.last() != '/' {
        path.len() as int
    } else {
        trimmed_len(path.drop_last())
    }
}

/// Position of the last slash in `path`, or -1 if it has none.
pub open spec fn last_slash(path: Seq<char>) -> int
    decreases path.len(),
{
    if path.len() == 0 {
        -1
    } else if path.last() == '/' {
        path.len() - 1
    } else {
        last_slash(path.drop_last())
    }
}

/// The directory that holds `path`: the path without its last component
/// and without the slashes before it. A path without a directory part is
/// held by `.`, and what is directly under the root, and the root itself, by
/// `/`.
pub open spec fn directory_of(path: Seq<char>) -> Seq<char> {
    let name_end = trimmed_len(path);
    if name_end == 0 {
        if path.len() == 0 {
            "."@
        } else {
            "/"@
        }
    } else {
        let cut = last_slash(path.subrange(0, name_end));
        if cut < 0 {
            "."@
        } else {
            let dir_end = trimmed_len(path.subrange(0, cut));
            if dir_end == 0 {
                "/"@
            } else {
                path.subrange(0, dir_end)
            }
        }
    }
}

/// The length of the first `end` characters of `path` without the slashes at
/// their end.
fn trim_slashes(path: &str, end: usize) -> (len: usize)
    requires
        end <= path@.len(),
    ensures
        len == trimmed_len(path@.subrange(0, end as int)),
        len <= end,
{
    let mut len = end;
    while len > 0
        invariant
            len <= end,
            end <= path@.len(),
            trimmed_len(path@.subrange(0, end as int)) == trimmed_len(
                path@.subrange(0, len as int),
            ),
        decreases len,
    {
        let ghost part = path@.subrange(0, len as int);
        assert(part.last() == path@[len - 1]);
        if path.get_char(len - 1) != '/' {
            return len;
        }
        assert(part.drop_last() =~= path@.subrange(0, len - 1));
        len -= 1;
    }
    len
}

/// Position of the last slash among the first `end` characters of `path`.
fn find_last_slash(path: &str, end: usize) -> (at: Option<usize>)
    requires
        end <= path@.len(),
    ensures
        match at {
            Some(i) => i == last_slash(path@.subrange(0, end as int)) && i < end,
            None => last_slash(path@.subrange(0, end as int)) == -1,
        },
{
    let mut len = end;
    while len > 0
        invariant
            len <= end,
            end <= path@.len(),
            last_slash(path@.subrange(0, end as int)) == last_slash(path@.subrange(0, len as int)),
        decreases len,
    {
        let ghost part = path@.subrange(0, len as int);
        assert(part.last() == path@[len - 1]);
        if path.get_char(len - 1) == '/' {
            return Some(len - 1);
        }
        assert(part.drop_last() =~= path@.subrange(0, len - 1));
        len -= 1;
    }
    None
}

/// The directory that holds `path`.
pub fn parent_directory(path: &str) -> (directory: String)
    ensures
        directory@ == directory_of(path@),
{
    let n = path.unicode_len();
    assert(path@.subrange(0, n as int) =~= path@);
    let name_end = trim_slashes(path, n);
    if name_end == 0 {
        if n == 0 {
            return String::from_str(".");
        } else {
            return String::from_str("/");
        }
    }
    match find_last_slash(path, name_end) {
        None => String::from_str("."),
        Some(cut) => {
            let dir_end = trim_slashes(path, cut);
            if dir_end == 0 {
                String::from_str("/")
            } else {
                String::from_str(path.substring_char(0, dir_end))
            }
        },
    }
}

} // verus!
