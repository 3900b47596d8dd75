//! Mapping a request path onto a file under the document root.

use vstd::prelude::*;
use vstd::utf8::*;
use vstd::string::{StrSliceExecFns, StringExecFns};

verus! {

pub struct FileHandler;

/// Whether `/..` starts at position `i`.
pub open spec fn parent_ref_at(b: Seq<u8>, i: int) -> bool {
    0 <= i && i + 2 < b.len() && b[i] == 47 && b[i + 1] == 46 && b[i + 2] == 46
}

/// Whether the bytes hold `/..`, a step up out of the document root.
pub open spec fn has_parent_ref(b: Seq<u8>) -> bool {
    exists|i: int| #[trigger] parent_ref_at(b, i)
}

/// Whether a request path names a directory: it is empty or ends with `/`.
pub open spec fn names_dir(uri: Seq<char>) -> bool {
    uri.len() == 0 || uri.last() == '/'
}

/// The file a request path names under `root`; a directory stands for its
/// `index.html`.
pub open spec fn target_path(root: Seq<char>, uri: Seq<char>) -> Seq<char> {
    if uri.len() > 0 && uri.last() == '/' {
        root + uri + "index.html"@
    } else {
        root + uri
    }
}

/// A request for a directory (a path ending in `/`, the bare `/` included) is
/// served the `index.html` in it under the document root; any other path is
/// served the file it names under the root.
pub proof fn law_directories_serve_index(root: Seq<char>, uri: Seq<char>)
    ensures
        uri.len() > 0 && uri.last() == '/' ==> target_path(root, uri) == root + uri
            + "index.html"@,
        uri.len() > 0 && uri.last() == '/' ==> names_dir(uri),
        !names_dir(uri) ==> target_path(root, uri) == root + uri,
        target_path(root, uri).subrange(0, (root.len() + uri.len()) as int) == root + uri,
{
    let t = target_path(root, uri);
    assert(t.subrange(0, (root.len() + uri.len()) as int) == root + uri);
}

/// The extension that `std::path::Path::extension` finds in a path.
pub uninterp spec fn path_extension(path: Seq<char>) -> Option<Seq<char>>;

/// `std::path::Path::extension` on the path spelled by `path`, as text: the
/// part of the file name after its last dot. The text of a path that comes from
/// a `str` is always valid, so the conversion back to `str` never fails.
#[verifier::external_body]
fn extension_of(path: &str) -> (r: Option<String>)
    ensures
        match r {
            Some(e) => path_extension(path@) == Some(e@),
            None => path_extension(path@) is None,
        },
{
    match std::path::Path::new(path).extension() {
        Some(e) => match e.to_str() {
            Some(s) => Some(s.to_owned()),
            None => None,
        },
        None => None,
    }
}

/// What a lookup gives: for a file that exists with `size` bytes, its size, its
/// path and its extension; otherwise whether the path named a directory.
pub open spec fn lookup_result(full_path: Seq<char>, is_dir: bool, size: Option<u64>) -> Result<
    (u64, Seq<char>, Seq<char>),
    bool,
> {
    match size {
        Some(n) => Ok((n, full_path, path_extension(full_path).unwrap())),
        None => Err(is_dir),
    }
}

impl FileHandler {
    /// Checks a request path and turns it into a file path under `root`.
    /// `None` when the path holds `/..`. Otherwise the file path and whether
    /// the request named a directory; `path_to_file` loses its last character.
    pub fn locate(path: &str, path_to_file: &mut String) -> (r: Option<(String, bool)>)
        ensures
            match r {
                None => {
                    &&& has_parent_ref(encode_utf8(old(path_to_file)@))
                    &&& final(path_to_file)@ == old(path_to_file)@
                },
                Some((full, is_dir)) => {
                    &&& !has_parent_ref(encode_utf8(old(path_to_file)@))
                    &&& full@ == target_path(path@, old(path_to_file)@)
                    &&& is_dir == names_dir(old(path_to_file)@)
                    &&& final(path_to_file)@ == (if old(path_to_file)@.len() == 0 {
                        old(path_to_file)@
                    } else {
                        old(path_to_file)@.drop_last()
                    })
                },
            },
    {
        let b = path_to_file.as_str().as_bytes();
        let n = b.len();
        let mut i: usize = 0;
        while n >= 2 && i < n - 2
            invariant
                n == b@.len(),
                i <= n,
                b@ == encode_utf8(path_to_file@),
                forall|k: int| 0 <= k < i ==> !#[trigger] parent_ref_at(b@, k),
            decreases n - i,
        {
            if b[i] == 47 && b[i + 1] == 46 && b[i + 2] == 46 {
                assert(parent_ref_at(b@, i as int));
                return None;
            }
            i = i + 1;
        }
        assert(!has_parent_ref(b@)) by {
            if exists|k: int| #[trigger] parent_ref_at(b@, k) {
                let k = choose|k: int| #[trigger] parent_ref_at(b@, k);
                assert(k < i);
            }
        }
        let mut full = String::from_str(path);
        full.append(path_to_file.as_str());
        let mut is_dir = true;
        let len = path_to_file.as_str().unicode_len();
        if len > 0 {
            let last = path_to_file.as_str().get_char(len - 1);
            let rest = String::from_str(path_to_file.as_str().substring_char(0, len - 1));
            proof {
                assert(rest@ == path_to_file@.drop_last());
            }
            *path_to_file = rest;
            if last == '/' {
                full.append("index.html");
            } else {
                is_dir = false;
            }
        }
        Some((full, is_dir))
    }

    /// Completes a lookup once the disk has answered: `size` is the length of
    /// the file when it exists. A file that exists must have an extension.
    pub fn finish_lookup(full_path: String, is_dir: bool, size: Option<u64>) -> (r: Result<
        (u64, String, String),
        bool,
    >)
        requires
            size is Some ==> path_extension(full_path@) is Some,
        ensures
            match (r, lookup_result(full_path@, is_dir, size)) {
                (Ok((n, p, e)), Ok((n2, p2, e2))) => n == n2 && p@ == p2 && e@ == e2,
                (Err(d), Err(d2)) => d == d2,
                _ => false,
            },
    {
        match size {
            Some(n) => {
                let ext = match extension_of(full_path.as_str()) {
                    Some(e) => e,
                    None => String::new(),
                };
                Ok((n, full_path, ext))
            },
            None => Err(is_dir),
        }
    }

    /// Whether a path has an extension.
    pub fn has_extension(path: &str) -> (r: bool)
        ensures
            r == (path_extension(path@) is Some),
    {
        extension_of(path).is_some()
    }

    /// Like `finish_lookup`, but answers `None` for a file that exists without
    /// an extension.
    pub fn try_finish_lookup(full_path: String, is_dir: bool, size: Option<u64>) -> (r: Option<
        Result<(u64, String, String), bool>,
    >)
        ensures
            r is None <==> (size is Some && path_extension(full_path@) is None),
            r matches Some(res) ==> match (res, lookup_result(full_path@, is_dir, size)) {
                (Ok((n, p, e)), Ok((n2, p2, e2))) => n == n2 && p@ == p2 && e@ == e2,
                (Err(d), Err(d2)) => d == d2,
                _ => false,
            },
    {
        if size.is_some() {
            match extension_of(full_path.as_str()) {
                Some(_) => {},
                None => return None,
            }
        }
        Some(FileHandler::finish_lookup(full_path, is_dir, size))
    }
}

} // verus!
